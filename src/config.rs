use vstd::prelude::*;

use crate::DeEnStr;
use crate::text::{chars_of, string_of};

verus! {

/// Master configuration of the library.
#[derive(Clone, Debug)]
pub struct Config {
    /// Endpoint configuration.
    pub endpoint: Endpoint,
}

/// Where the menus are fetched from.
#[derive(Clone, Debug)]
pub struct Endpoint {
    /// Base part of the URL (e.g. `https://example.com`).
    pub host: String,
    /// Path of the opening-times page; not read yet.
    pub timeplan: String,
    /// Templates for the paths of the menus of each mensa.
    pub menu: PathTemplate,
}

/// A path made of a common prefix and a suffix template per language, in which `{{name}}`
/// stands for the mensa and `{{week}}` for the week.
#[derive(Clone, Debug)]
pub struct PathTemplate {
    /// Common prefix.
    pub prefix: String,
    /// Mensa-specific suffix template, one for each language.
    pub suffix_template: DeEnStr<String>,
}

/// `s` with each occurrence of `from`, left to right and without overlap, replaced by `to`.
pub open spec fn replace_all(s: Seq<char>, from: Seq<char>, to: Seq<char>) -> Seq<char>
    decreases s.len(),
{
    if s.len() == 0 {
        s
    } else if 0 < from.len() <= s.len() && s.take(from.len() as int) == from {
        to + replace_all(s.skip(from.len() as int), from, to)
    } else {
        seq![s[0]] + replace_all(s.drop_first(), from, to)
    }
}

/// Relies on `str::replace`: every non-overlapping occurrence of a non-empty `from`, found
/// left to right, replaced by `to`.
#[verifier::external_body]
fn str_replace(s: &str, from: &str, to: &str) -> (r: String)
    requires
        from@.len() > 0,
    ensures
        r@ == replace_all(s@, from@, to@),
{
    s.replace(from, to)
}

/// The suffix for mensa `name` and week `week` that `template` gives.
pub open spec fn suffix_of(template: Seq<char>, name: Seq<char>, week: Seq<char>) -> Seq<char> {
    replace_all(replace_all(template, "{{name}}"@, name), "{{week}}"@, week)
}

/// The word for the week in the paths: this week or next, in German or English.
pub open spec fn week_word(next_week: bool, english: bool) -> Seq<char> {
    if next_week {
        if english {
            "next"@
        } else {
            "naechste"@
        }
    } else {
        if english {
            "this"@
        } else {
            "diese"@
        }
    }
}

fn week_word_of(next_week: bool, english: bool) -> (r: &'static str)
    ensures
        r@ == week_word(next_week, english),
{
    if next_week {
        if english {
            "next"
        } else {
            "naechste"
        }
    } else {
        if english {
            "this"
        } else {
            "diese"
        }
    }
}

/// The concatenation of `a` and `b`.
pub fn concat(a: &str, b: &str) -> (r: String)
    ensures
        r@ == a@ + b@,
{
    let x = chars_of(a);
    let y = chars_of(b);
    let mut out = x.clone();
    let mut k: usize = 0;
    while k < y.len()
        invariant
            k <= y@.len(),
            out@ == x@ + y@.take(k as int),
        decreases y.len() - k,
    {
        assert(y@.take(k + 1) =~= y@.take(k as int).push(y@[k as int]));
        out.push(y[k]);
        k = k + 1;
    }
    assert(y@.take(k as int) =~= y@);
    string_of(&out)
}

impl PathTemplate {
    /// Fills `template` with the mensa `name` and the `week` word.
    pub fn fill_suffix_v(template: &str, name: &str, week: &str) -> (r: String)
        ensures
            r@ == suffix_of(template@, name@, week@),
    {
        proof {
            reveal_strlit("{{name}}");
            reveal_strlit("{{week}}");
        }
        let named = str_replace(template, "{{name}}", name);
        str_replace(named.as_str(), "{{week}}", week)
    }

    /// The suffix for `mensa` in the chosen week and language.
    pub fn fill_suffix(&self, mensa: &str, next_week: bool, english: bool) -> (r: String)
        ensures
            r@ == suffix_of(
                if english {
                    self.suffix_template.en@
                } else {
                    self.suffix_template.de@
                },
                mensa@,
                week_word(next_week, english),
            ),
    {
        let week = week_word_of(next_week, english);
        let template = if english {
            &self.suffix_template.en
        } else {
            &self.suffix_template.de
        };
        Self::fill_suffix_v(template.as_str(), mensa, week)
    }

    /// The whole path: the prefix, `/`, then the filled suffix.
    pub fn build_path(&self, mensa: &str, next_week: bool, english: bool) -> (r: String)
        ensures
            r@ == self.prefix@ + "/"@ + suffix_of(
                if english {
                    self.suffix_template.en@
                } else {
                    self.suffix_template.de@
                },
                mensa@,
                week_word(next_week, english),
            ),
    {
        let head = concat(self.prefix.as_str(), "/");
        let suffix = self.fill_suffix(mensa, next_week, english);
        concat(head.as_str(), suffix.as_str())
    }
}

/// The endpoints of the Studierendenwerk Aachen.
pub fn default_config() -> (r: Config)
    ensures
        r.endpoint.host@ == "https://www.studierendenwerk-aachen.de"@,
        r.endpoint.menu.prefix@ == "files/content/Downloads/Gastronomie/Speiseplaene"@,
        r.endpoint.menu.suffix_template.de@ == "speiseplan_mensa_{{name}}_{{week}}_woche.html"@,
        r.endpoint.menu.suffix_template.en@ == "menu_mensa_{{name}}_{{week}}_week.html"@,
{
    Config {
        endpoint: Endpoint {
            host: string_from("https://www.studierendenwerk-aachen.de"),
            timeplan: String::new(),
            menu: PathTemplate {
                prefix: string_from("files/content/Downloads/Gastronomie/Speiseplaene"),
                suffix_template: DeEnStr {
                    de: string_from("speiseplan_mensa_{{name}}_{{week}}_woche.html"),
                    en: string_from("menu_mensa_{{name}}_{{week}}_week.html"),
                },
            },
        },
    }
}

fn string_from(s: &str) -> (r: String)
    ensures
        r@ == s@,
{
    let c = chars_of(s);
    string_of(&c)
}

/// The mensas whose menus can be fetched.
#[derive(Clone, Copy, PartialEq, Eq, Structural, Debug)]
pub enum Mensa {
    Academica,
    Ahornstrasse,
    BistroTemplergraben,
    Bayernallee,
    EupenerStrasse,
    KMAC,
    Suedpark,
    Vita,
    Juelich,
}

/// The name under which a mensa stands in the menu paths.
pub open spec fn mensa_url_name(m: Mensa) -> Seq<char> {
    match m {
        Mensa::Academica => "academica"@,
        Mensa::Ahornstrasse => "ahornstrasse"@,
        Mensa::BistroTemplergraben => "bistro_templergraben"@,
        Mensa::Bayernallee => "bayernallee"@,
        Mensa::EupenerStrasse => "eupener_strasse"@,
        Mensa::KMAC => "kmac"@,
        Mensa::Suedpark => "suedpark"@,
        Mensa::Vita => "vita"@,
        Mensa::Juelich => "juelich"@,
    }
}

impl Mensa {
    /// The name under which this mensa stands in the menu paths.
    pub fn url_name(&self) -> (r: String)
        ensures
            r@ == mensa_url_name(*self),
    {
        string_from(
            match self {
                Mensa::Academica => "academica",
                Mensa::Ahornstrasse => "ahornstrasse",
                Mensa::BistroTemplergraben => "bistro_templergraben",
                Mensa::Bayernallee => "bayernallee",
                Mensa::EupenerStrasse => "eupener_strasse",
                Mensa::KMAC => "kmac",
                Mensa::Suedpark => "suedpark",
                Mensa::Vita => "vita",
                Mensa::Juelich => "juelich",
            },
        )
    }
}

} // verus!
