use vstd::prelude::*;

pub mod config;
pub mod markers;
pub mod meal;
pub mod schedule;
pub mod scrape;
pub mod sorting;
pub mod text;

verus! {

/// A German and an English version of a value.
#[derive(Clone, Debug)]
pub struct DeEnStr<T> {
    pub de: T,
    pub en: T,
}

} // verus!
