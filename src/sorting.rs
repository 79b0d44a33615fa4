use vstd::prelude::*;

verus! {

/// `le` relates any two values one way or the other.
pub open spec fn total<A>(le: spec_fn(A, A) -> bool) -> bool {
    forall|a: A, b: A| #[trigger] le(a, b) || le(b, a)
}

/// Each element is `le` its successor.
pub open spec fn sorted_by<A>(s: Seq<A>, le: spec_fn(A, A) -> bool) -> bool {
    forall|i: int| 0 <= i < s.len() - 1 ==> le(#[trigger] s[i], s[i + 1])
}

/// `x` put into `s` behind the last element that is `le` it; at the front if none is.
pub open spec fn insert_by<A>(x: A, s: Seq<A>, le: spec_fn(A, A) -> bool) -> Seq<A>
    decreases s.len(),
{
    if s.len() == 0 || le(s.last(), x) {
        s.push(x)
    } else {
        insert_by(x, s.drop_last(), le).push(s.last())
    }
}

/// Stable insertion sort: each element in turn is put in behind the equal ones before it.
pub open spec fn insertion_sort<A>(s: Seq<A>, le: spec_fn(A, A) -> bool) -> Seq<A>
    decreases s.len(),
{
    if s.len() == 0 {
        s
    } else {
        insert_by(s.last(), insertion_sort(s.drop_last(), le), le)
    }
}

pub proof fn lemma_insert_by<A>(x: A, s: Seq<A>, le: spec_fn(A, A) -> bool)
    requires
        total(le),
        sorted_by(s, le),
    ensures
        sorted_by(insert_by(x, s, le), le),
        insert_by(x, s, le).to_multiset() == s.to_multiset().insert(x),
        insert_by(x, s, le).last() == x || (s.len() > 0 && insert_by(x, s, le).last() == s.last()),
    decreases s.len(),
{
    broadcast use vstd::seq_lib::group_to_multiset_ensures;
    let r = insert_by(x, s, le);
    if s.len() == 0 || le(s.last(), x) {
    } else {
        let s1 = s.drop_last();
        assert(sorted_by(s1, le)) by {
            assert forall|i: int| 0 <= i < s1.len() - 1 implies le(#[trigger] s1[i], s1[i + 1]) by {
                assert(le(s[i], s[i + 1]));
            }
        }
        lemma_insert_by(x, s1, le);
        let r1 = insert_by(x, s1, le);
        assert(le(x, s.last()));
        if s1.len() > 0 {
            assert(le(s[s.len() - 2], s[s.len() - 1]));
        }
        assert(le(r1.last(), s.last()));
        assert forall|i: int| 0 <= i < r.len() - 1 implies le(#[trigger] r[i], r[i + 1]) by {
            if i < r1.len() - 1 {
                assert(r[i] == r1[i] && r[i + 1] == r1[i + 1]);
            }
        }
        assert(s =~= s1.push(s.last()));
        assert(r1.push(s.last()).to_multiset() =~= s1.to_multiset().insert(x).insert(s.last()));
        assert(s.to_multiset() == s1.to_multiset().insert(s.last()));
        assert(s.to_multiset().insert(x) =~= s1.to_multiset().insert(x).insert(s.last()));
    }
}

pub proof fn lemma_insertion_sort<A>(s: Seq<A>, le: spec_fn(A, A) -> bool)
    requires
        total(le),
    ensures
        sorted_by(insertion_sort(s, le), le),
        insertion_sort(s, le).to_multiset() == s.to_multiset(),
    decreases s.len(),
{
    broadcast use vstd::seq_lib::group_to_multiset_ensures;
    if s.len() > 0 {
        lemma_insertion_sort(s.drop_last(), le);
        lemma_insert_by(s.last(), insertion_sort(s.drop_last(), le), le);
        assert(s =~= s.drop_last().push(s.last()));
    }
}

/// Sorting what is already sorted changes nothing.
pub proof fn lemma_insertion_sort_of_sorted<A>(s: Seq<A>, le: spec_fn(A, A) -> bool)
    requires
        sorted_by(s, le),
    ensures
        insertion_sort(s, le) == s,
    decreases s.len(),
{
    if s.len() > 0 {
        let s1 = s.drop_last();
        assert(sorted_by(s1, le)) by {
            assert forall|i: int| 0 <= i < s1.len() - 1 implies le(#[trigger] s1[i], s1[i + 1]) by {
                assert(le(s[i], s[i + 1]));
            }
        }
        lemma_insertion_sort_of_sorted(s1, le);
        if s1.len() > 0 {
            assert(le(s[s.len() - 2], s[s.len() - 1]));
        }
        assert(s =~= s1.push(s.last()));
    }
}

/// `insert_by` on `s` is the prefix of `s` up to `j`, with `x` put into it, followed by the
/// rest of `s`, where no element from `j` on is `le` `x`.
pub proof fn lemma_insert_by_split<A>(x: A, s: Seq<A>, j: int, le: spec_fn(A, A) -> bool)
    requires
        0 <= j <= s.len(),
        forall|k: int| j <= k < s.len() ==> !le(#[trigger] s[k], x),
    ensures
        insert_by(x, s, le) == insert_by(x, s.take(j), le) + s.skip(j),
    decreases s.len() - j,
{
    if j < s.len() {
        let t = s.take(j + 1);
        assert(t.drop_last() =~= s.take(j));
        assert(t.last() == s[j]);
        lemma_insert_by_split(x, s, j + 1, le);
        assert(insert_by(x, t, le) == insert_by(x, s.take(j), le).push(s[j]));
        assert(insert_by(x, s.take(j), le).push(s[j]) + s.skip(j + 1) =~= insert_by(
            x,
            s.take(j),
            le,
        ) + s.skip(j));
    } else {
        assert(s.take(j) =~= s);
        assert(s.skip(j) =~= Seq::<A>::empty());
        assert(insert_by(x, s, le) + s.skip(j) =~= insert_by(x, s, le));
    }
}

} // verus!
