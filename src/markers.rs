use vstd::prelude::*;

use crate::text::{compare_chars, is_ws, is_ws_char, lemma_lex_transitive, lemma_lex_trichotomy, lex_lt};

verus! {

// An allergen marker is `(`, then any run of `A`-`Z`, `0`-`9` and `,`, then `)`.
// Markers are found left to right without overlap; after one, the scan goes on behind it.
pub open spec fn is_code_char(c: char) -> bool {
    ('A' <= c && c <= 'Z') || ('0' <= c && c <= '9') || c == ','
}

/// The number of leading characters of `s` that may stand inside a marker.
pub open spec fn code_run(s: Seq<char>) -> nat
    decreases s.len(),
{
    if s.len() > 0 && is_code_char(s[0]) {
        1 + code_run(s.drop_first())
    } else {
        0
    }
}

/// The length of the marker at the start of `s`, or 0 when none starts there.
pub open spec fn marker_len(s: Seq<char>) -> nat {
    if s.len() > 0 && s[0] == '(' {
        let k = code_run(s.drop_first());
        if k + 1 < s.len() && s[(k + 1) as int] == ')' {
            k + 2
        } else {
            0
        }
    } else {
        0
    }
}

/// `s` with every marker removed.
pub open spec fn strip_markers(s: Seq<char>) -> Seq<char>
    decreases s.len(),
{
    if s.len() == 0 {
        s
    } else if marker_len(s) > 0 {
        strip_markers(s.skip(marker_len(s) as int))
    } else {
        seq![s[0]] + strip_markers(s.drop_first())
    }
}

/// What stands between the parentheses of each marker of `s`, in order.
pub open spec fn marker_contents(s: Seq<char>) -> Seq<Seq<char>>
    decreases s.len(),
{
    if s.len() == 0 {
        Seq::empty()
    } else if marker_len(s) > 0 {
        seq![s.subrange(1, marker_len(s) - 1)] + marker_contents(s.skip(marker_len(s) as int))
    } else {
        marker_contents(s.drop_first())
    }
}

/// The pieces of `c` between commas, as `str::split(',')` gives them (empty pieces included).
pub open spec fn split_commas(c: Seq<char>) -> Seq<Seq<char>>
    decreases c.len(),
{
    if c.len() == 0 {
        seq![Seq::empty()]
    } else {
        let r = split_commas(c.drop_last());
        if c.last() == ',' {
            r.push(Seq::empty())
        } else {
            r.update(r.len() - 1, r.last().push(c.last()))
        }
    }
}

/// Every piece of every group in `groups`, in order.
pub open spec fn pieces(groups: Seq<Seq<char>>) -> Seq<Seq<char>>
    decreases groups.len(),
{
    if groups.len() == 0 {
        Seq::empty()
    } else {
        pieces(groups.drop_last()) + split_commas(groups.last())
    }
}

/// The allergen codes named in `s`: every comma-separated piece of every marker.
pub open spec fn allergen_codes(s: Seq<char>) -> Set<Seq<char>> {
    pieces(marker_contents(s)).to_set()
}

/// The number of leading white-space characters of `s`.
pub open spec fn ws_run(s: Seq<char>) -> nat
    decreases s.len(),
{
    if s.len() > 0 && is_ws(s[0]) {
        1 + ws_run(s.drop_first())
    } else {
        0
    }
}

/// `s` with each run of two or more white-space characters replaced by one space.
pub open spec fn collapse_ws(s: Seq<char>) -> Seq<char>
    decreases s.len(),
{
    if s.len() == 0 {
        s
    } else if 2 <= ws_run(s) && ws_run(s) <= s.len() {
        seq![' '] + collapse_ws(s.skip(ws_run(s) as int))
    } else {
        seq![s[0]] + collapse_ws(s.drop_first())
    }
}

pub open spec fn trim_start(s: Seq<char>) -> Seq<char>
    decreases s.len(),
{
    if s.len() > 0 && is_ws(s[0]) {
        trim_start(s.drop_first())
    } else {
        s
    }
}

pub open spec fn trim_end(s: Seq<char>) -> Seq<char>
    decreases s.len(),
{
    if s.len() > 0 && is_ws(s.last()) {
        trim_end(s.drop_last())
    } else {
        s
    }
}

/// `s` without its leading and trailing white space.
pub open spec fn trim(s: Seq<char>) -> Seq<char> {
    trim_end(trim_start(s))
}

/// `s` with markers removed pass after pass, until a pass finds none: removing one marker
/// can bring the characters around it together into a new one, as in "(A(B))".
pub open spec fn strip_all(s: Seq<char>) -> Seq<char>
    decreases s.len(),
{
    let t = strip_markers(s);
    if t.len() < s.len() {
        strip_all(t)
    } else {
        t
    }
}

/// The cleaned text: all markers removed, white-space runs collapsed, ends trimmed.
pub open spec fn clean(s: Seq<char>) -> Seq<char> {
    trim(collapse_ws(strip_all(s)))
}

pub proof fn lemma_code_run_bound(s: Seq<char>)
    ensures
        code_run(s) <= s.len(),
        forall|k: int| 0 <= k < code_run(s) ==> is_code_char(#[trigger] s[k]),
        code_run(s) < s.len() ==> !is_code_char(s[code_run(s) as int]),
    decreases s.len(),
{
    if s.len() > 0 && is_code_char(s[0]) {
        lemma_code_run_bound(s.drop_first());
        assert forall|k: int| 0 <= k < code_run(s) implies is_code_char(#[trigger] s[k]) by {
            if k > 0 {
                assert(s[k] == s.drop_first()[k - 1]);
            }
        }
    }
}

pub proof fn lemma_ws_run_bound(s: Seq<char>)
    ensures
        ws_run(s) <= s.len(),
        forall|k: int| 0 <= k < ws_run(s) ==> is_ws(#[trigger] s[k]),
        ws_run(s) < s.len() ==> !is_ws(s[ws_run(s) as int]),
    decreases s.len(),
{
    if s.len() > 0 && is_ws(s[0]) {
        lemma_ws_run_bound(s.drop_first());
        assert forall|k: int| 0 <= k < ws_run(s) implies is_ws(#[trigger] s[k]) by {
            if k > 0 {
                assert(s[k] == s.drop_first()[k - 1]);
            }
        }
    }
}

fn is_code(c: char) -> (r: bool)
    ensures
        r == is_code_char(c),
{
    ('A' <= c && c <= 'Z') || ('0' <= c && c <= '9') || c == ','
}

/// The length of the marker that starts at index `i` of `s`, or 0.
fn marker_len_at(s: &Vec<char>, i: usize) -> (m: usize)
    requires
        i < s@.len(),
    ensures
        m == marker_len(s@.skip(i as int)),
        m <= s@.len() - i,
{
    if s[i] != '(' {
        return 0;
    }
    let n = s.len();
    let ghost t = s@.skip(i + 1);
    let mut j: usize = i + 1;
    proof {
        assert(s@.skip(i as int).drop_first() =~= t);
        assert(s@.skip(j as int) =~= t);
    }
    while j < s.len() && is_code(s[j])
        invariant
            i < j <= s@.len(),
            t == s@.skip(i + 1),
            code_run(t) == (j - (i + 1)) + code_run(s@.skip(j as int)),
        decreases s.len() - j,
    {
        assert(s@.skip(j as int).drop_first() =~= s@.skip(j + 1));
        j = j + 1;
    }
    if j < s.len() && s[j] == ')' {
        j - i + 1
    } else {
        0
    }
}

/// Removes every allergen marker from `s`.
pub fn strip_markers_vec(s: &Vec<char>) -> (r: Vec<char>)
    ensures
        r@ == strip_markers(s@),
{
    let mut out: Vec<char> = Vec::new();
    let mut i: usize = 0;
    proof {
        assert(s@.skip(0) =~= s@);
    }
    while i < s.len()
        invariant
            i <= s@.len(),
            out@ + strip_markers(s@.skip(i as int)) == strip_markers(s@),
        decreases s.len() - i,
    {
        let m = marker_len_at(s, i);
        if m > 0 {
            assert(s@.skip(i as int).skip(m as int) =~= s@.skip(i + m));
            i = i + m;
        } else {
            assert(s@.skip(i as int).drop_first() =~= s@.skip(i + 1));
            assert(out@ + strip_markers(s@.skip(i as int)) =~= out@.push(s[i as int])
                + strip_markers(s@.skip(i + 1)));
            out.push(s[i]);
            i = i + 1;
        }
    }
    assert(out@ =~= out@ + strip_markers(s@.skip(i as int)));
    out
}

/// Replaces each run of two or more white-space characters by one space.
pub fn collapse_ws_vec(s: &Vec<char>) -> (r: Vec<char>)
    ensures
        r@ == collapse_ws(s@),
{
    let mut out: Vec<char> = Vec::new();
    let mut i: usize = 0;
    proof {
        assert(s@.skip(0) =~= s@);
    }
    while i < s.len()
        invariant
            i <= s@.len(),
            out@ + collapse_ws(s@.skip(i as int)) == collapse_ws(s@),
        decreases s.len() - i,
    {
        let ghost t = s@.skip(i as int);
        let mut j: usize = i;
        proof {
            assert(s@.skip(j as int) =~= t);
        }
        while j < s.len() && is_ws_char(s[j])
            invariant
                i <= j <= s@.len(),
                t == s@.skip(i as int),
                ws_run(t) == (j - i) + ws_run(s@.skip(j as int)),
            decreases s.len() - j,
        {
            assert(s@.skip(j as int).drop_first() =~= s@.skip(j + 1));
            j = j + 1;
        }
        proof {
            lemma_ws_run_bound(t);
        }
        if j - i >= 2 {
            assert(t.skip(ws_run(t) as int) =~= s@.skip(j as int));
            assert(out@ + collapse_ws(t) =~= out@.push(' ') + collapse_ws(s@.skip(j as int)));
            out.push(' ');
            i = j;
        } else {
            assert(t.drop_first() =~= s@.skip(i + 1));
            assert(out@ + collapse_ws(t) =~= out@.push(s[i as int]) + collapse_ws(
                s@.skip(i + 1),
            ));
            out.push(s[i]);
            i = i + 1;
        }
    }
    assert(out@ =~= out@ + collapse_ws(s@.skip(i as int)));
    out
}

/// Drops leading and trailing white space.
pub fn trim_vec(s: &Vec<char>) -> (r: Vec<char>)
    ensures
        r@ == trim(s@),
{
    let mut a: usize = 0;
    proof {
        assert(s@.skip(0) =~= s@);
    }
    while a < s.len() && is_ws_char(s[a])
        invariant
            a <= s@.len(),
            trim_start(s@.skip(a as int)) == trim_start(s@),
        decreases s.len() - a,
    {
        assert(s@.skip(a as int).drop_first() =~= s@.skip(a + 1));
        a = a + 1;
    }
    let ghost t = s@.skip(a as int);
    assert(trim_start(t) == t);
    let mut b: usize = s.len();
    assert(t.take(t.len() as int) =~= t);
    while b > a && is_ws_char(s[b - 1])
        invariant
            a <= b <= s@.len(),
            t == s@.skip(a as int),
            trim_end(t.take(b - a)) == trim_end(t),
        decreases b,
    {
        assert(t.take(b - a).drop_last() =~= t.take(b - 1 - a));
        b = b - 1;
    }
    let mut out: Vec<char> = Vec::new();
    let mut k: usize = a;
    while k < b
        invariant
            a <= k <= b <= s@.len(),
            out@ == s@.subrange(a as int, k as int),
        decreases b - k,
    {
        assert(s@.subrange(a as int, k + 1) =~= s@.subrange(a as int, k as int).push(s@[k as int]));
        out.push(s[k]);
        k = k + 1;
    }
    assert(t.take(b - a) =~= s@.subrange(a as int, b as int));
    out
}

/// Removes allergen markers until none is left.
pub fn strip_all_vec(s: &Vec<char>) -> (r: Vec<char>)
    ensures
        r@ == strip_all(s@),
{
    let mut cur = strip_markers_vec(s);
    let mut n: usize = s.len();
    let ghost mut prev = s@;
    while cur.len() < n
        invariant
            cur@ == strip_markers(prev),
            n == prev.len(),
            strip_all(s@) == strip_all(prev),
        decreases n,
    {
        let next = strip_markers_vec(&cur);
        n = cur.len();
        proof {
            prev = cur@;
        }
        cur = next;
    }
    cur
}

/// Removes every allergen marker, collapses white-space runs to one space and trims the ends.
pub fn clean_vec(s: &Vec<char>) -> (r: Vec<char>)
    ensures
        r@ == clean(s@),
{
    let stripped = strip_all_vec(s);
    let collapsed = collapse_ws_vec(&stripped);
    trim_vec(&collapsed)
}

/// Increasing in `lex_lt` at every pair of positions: sorted and free of duplicates.
pub open spec fn strictly_sorted(s: Seq<Seq<char>>) -> bool {
    forall|i: int, j: int| 0 <= i < j < s.len() ==> lex_lt(#[trigger] s[i], #[trigger] s[j])
}

pub open spec fn codes_view(v: Seq<Vec<char>>) -> Seq<Seq<char>> {
    v.map_values(|c: Vec<char>| c@)
}

/// Adds `x` to a strictly sorted vector of codes, where it is not there yet.
pub(crate) fn insert_code(set: &mut Vec<Vec<char>>, x: Vec<char>)
    requires
        strictly_sorted(codes_view(old(set)@)),
    ensures
        strictly_sorted(codes_view(final(set)@)),
        codes_view(final(set)@).to_set() == codes_view(old(set)@).to_set().insert(x@),
{
    let ghost xv = x@;
    let ghost before = codes_view(set@);
    let n = set.len();
    let mut i: usize = 0;
    let mut c: i8 = if n > 0 {
        assert(before[0] == set@[0]@);
        compare_chars(&set[0], &x)
    } else {
        1
    };
    while i < n && c == -1
        invariant
            n == set@.len(),
            i <= n,
            before == codes_view(set@),
            x@ == xv,
            forall|k: int| 0 <= k < i ==> lex_lt(#[trigger] before[k], xv),
            i < n ==> (c == -1 <==> lex_lt(before[i as int], xv)),
            i < n ==> (c == 0 <==> before[i as int] == xv),
        decreases n - i,
    {
        i = i + 1;
        if i < n {
            c = compare_chars(&set[i], &x);
            assert(before[i as int] == set@[i as int]@);
        }
    }
    if i < n && c == 0 {
        proof {
            assert(before[i as int] == xv);
            assert(before.to_set().insert(xv) =~= before.to_set());
        }
        return;
    }
    proof {
        if i < n {
            lemma_lex_trichotomy(before[i as int], xv);
        }
    }
    set.insert(i, x);
    proof {
        let new = codes_view(set@);
        assert(new =~= before.insert(i as int, xv));
        assert forall|p: int, q: int| 0 <= p < q < new.len() implies lex_lt(
            #[trigger] new[p],
            #[trigger] new[q],
        ) by {
            if q < i {
                assert(lex_lt(before[p], before[q]));
            } else if p < i && q == i {
            } else if p < i {
                assert(lex_lt(before[p], before[q - 1]));
            } else if p == i {
                if q - 1 > i {
                    assert(lex_lt(before[i as int], before[q - 1]));
                    lemma_lex_transitive(xv, before[i as int], before[q - 1]);
                }
            } else {
                assert(lex_lt(before[p - 1], before[q - 1]));
            }
        }
        assert forall|y: Seq<char>| new.to_set().contains(y) <==> before.to_set().insert(
            xv,
        ).contains(y) by {
            if new.contains(y) {
                let k = choose|k: int| 0 <= k < new.len() && new[k] == y;
                if k < i {
                    assert(before[k] == y);
                } else if k > i {
                    assert(before[k - 1] == y);
                }
            }
            if before.contains(y) {
                let k = choose|k: int| 0 <= k < before.len() && before[k] == y;
                if k < i {
                    assert(new[k] == y);
                } else {
                    assert(new[k + 1] == y);
                }
            }
            if y == xv {
                assert(new[i as int] == y);
            }
        }
        assert(new.to_set() =~= before.to_set().insert(xv));
    }
}

pub proof fn lemma_single_to_set(x: Seq<char>)
    ensures
        seq![x].to_set() == Set::<Seq<char>>::empty().insert(x),
{
    assert(seq![x][0] == x);
    assert(seq![x].to_set() =~= Set::<Seq<char>>::empty().insert(x));
}

pub proof fn lemma_concat_to_set(a: Seq<Seq<char>>, b: Seq<Seq<char>>)
    ensures
        (a + b).to_set() == a.to_set().union(b.to_set()),
{
    assert forall|y: Seq<char>| (a + b).to_set().contains(y) <==> a.to_set().union(
        b.to_set(),
    ).contains(y) by {
        if (a + b).contains(y) {
            let k = choose|k: int| 0 <= k < (a + b).len() && (a + b)[k] == y;
            if k < a.len() {
                assert(a[k] == y);
            } else {
                assert(b[k - a.len()] == y);
            }
        }
        if a.contains(y) {
            let k = choose|k: int| 0 <= k < a.len() && a[k] == y;
            assert((a + b)[k] == y);
        }
        if b.contains(y) {
            let k = choose|k: int| 0 <= k < b.len() && b[k] == y;
            assert((a + b)[k + a.len()] == y);
        }
    }
    assert((a + b).to_set() =~= a.to_set().union(b.to_set()));
}

/// The allergen codes named in `s`, each once, in increasing order.
pub fn collect_codes(s: &Vec<char>) -> (r: Vec<Vec<char>>)
    ensures
        strictly_sorted(codes_view(r@)),
        codes_view(r@).to_set() == allergen_codes(s@),
{
    let mut set: Vec<Vec<char>> = Vec::new();
    let ghost mut done: Seq<Seq<char>> = Seq::empty();
    let mut i: usize = 0;
    proof {
        assert(s@.skip(0) =~= s@);
        assert(codes_view(set@).to_set() =~= pieces(done).to_set());
        assert(done + marker_contents(s@) =~= marker_contents(s@));
    }
    while i < s.len()
        invariant
            i <= s@.len(),
            done + marker_contents(s@.skip(i as int)) == marker_contents(s@),
            strictly_sorted(codes_view(set@)),
            codes_view(set@).to_set() == pieces(done).to_set(),
        decreases s.len() - i,
    {
        let m = marker_len_at(s, i);
        if m > 0 {
            let ghost content = s@.subrange(i + 1, i + m - 1);
            assert(s@.skip(i as int).subrange(1, m - 1) =~= content);
            assert(s@.skip(i as int).skip(m as int) =~= s@.skip(i + m));
            let ghost mut completed: Seq<Seq<char>> = Seq::empty();
            let mut cur: Vec<char> = Vec::new();
            let mut j: usize = i + 1;
            let stop: usize = i + m - 1;
            proof {
                assert(content.take(0) =~= Seq::<char>::empty());
                assert(completed.push(cur@) =~= split_commas(content.take(0)));
                assert(codes_view(set@).to_set() =~= pieces(done).to_set().union(
                    completed.to_set(),
                ));
            }
            while j < stop
                invariant
                    i + 1 <= j <= stop,
                    stop == i + m - 1,
                    i + m <= s@.len(),
                    content == s@.subrange(i + 1, i + m - 1),
                    completed.push(cur@) == split_commas(content.take(j - (i + 1))),
                    strictly_sorted(codes_view(set@)),
                    codes_view(set@).to_set() == pieces(done).to_set().union(completed.to_set()),
                decreases i + m - 1 - j,
            {
                let ghost pre = content.take(j - (i + 1));
                assert(content.take(j + 1 - (i + 1)).drop_last() =~= pre);
                assert(content.take(j + 1 - (i + 1)).last() == s@[j as int]);
                if s[j] == ',' {
                    let ghost cv = cur@;
                    insert_code(&mut set, cur);
                    cur = Vec::new();
                    proof {
                        lemma_concat_to_set(completed, seq![cv]);
                        assert(completed.push(cv) =~= completed + seq![cv]);
                        lemma_single_to_set(cv);
                        completed = completed.push(cv);
                        assert(codes_view(set@).to_set() =~= pieces(done).to_set().union(
                            completed.to_set(),
                        ));
                        assert(completed.push(cur@) =~= split_commas(pre).push(Seq::empty()));
                    }
                } else {
                    cur.push(s[j]);
                    proof {
                        assert(completed.push(cur@) =~= split_commas(pre).update(
                            split_commas(pre).len() - 1,
                            split_commas(pre).last().push(s@[j as int]),
                        ));
                    }
                }
                j = j + 1;
            }
            let ghost cv = cur@;
            insert_code(&mut set, cur);
            proof {
                assert(content.take(j - (i + 1)) =~= content);
                let last = completed.push(cv);
                lemma_concat_to_set(completed, seq![cv]);
                assert(completed.push(cv) =~= completed + seq![cv]);
                lemma_single_to_set(cv);
                assert(done.push(content).drop_last() =~= done);
                lemma_concat_to_set(pieces(done), split_commas(content));
                assert(codes_view(set@).to_set() =~= pieces(done.push(content)).to_set());
                assert(done + marker_contents(s@.skip(i as int)) =~= done.push(content)
                    + marker_contents(s@.skip(i + m)));
                done = done.push(content);
            }
            i = i + m;
        } else {
            assert(s@.skip(i as int).drop_first() =~= s@.skip(i + 1));
            i = i + 1;
        }
    }
    assert(done =~= done + marker_contents(s@.skip(i as int)));
    set
}

/// The codes named in `s`, as the one strictly sorted sequence that holds each of them.
pub open spec fn sorted_codes(s: Seq<char>) -> Seq<Seq<char>> {
    choose|a: Seq<Seq<char>>| strictly_sorted(a) && a.to_set() == allergen_codes(s)
}

/// Two strictly sorted sequences with the same elements are the same sequence.
pub proof fn lemma_strictly_sorted_unique(a: Seq<Seq<char>>, b: Seq<Seq<char>>)
    requires
        strictly_sorted(a),
        strictly_sorted(b),
        a.to_set() == b.to_set(),
    ensures
        a == b,
    decreases a.len(),
{
    if a.len() == 0 {
        if b.len() > 0 {
            assert(b.to_set().contains(b[0]));
        }
        assert(a =~= b);
    } else {
        assert(a.to_set().contains(a[0]));
        assert(b.len() > 0);
        assert(b.to_set().contains(b[0]));
        let k = choose|k: int| 0 <= k < b.len() && b[k] == a[0];
        let j = choose|j: int| 0 <= j < a.len() && a[j] == b[0];
        lemma_lex_trichotomy(a[0], a[0]);
        if k > 0 {
            assert(lex_lt(b[0], b[k]));
            if j > 0 {
                assert(lex_lt(a[0], a[j]));
                lemma_lex_trichotomy(a[0], a[j]);
            }
            assert(false);
        }
        let a1 = a.drop_first();
        let b1 = b.drop_first();
        assert forall|y: Seq<char>| a1.to_set().contains(y) <==> b1.to_set().contains(y) by {
            if a1.contains(y) {
                let p = choose|p: int| 0 <= p < a1.len() && a1[p] == y;
                assert(a.contains(y) && a[p + 1] == y);
                assert(b.to_set().contains(y));
                let q = choose|q: int| 0 <= q < b.len() && b[q] == y;
                assert(lex_lt(a[0], a[p + 1]));
                if q == 0 {
                    lemma_lex_trichotomy(a[0], y);
                }
                assert(b1[q - 1] == y);
            }
            if b1.contains(y) {
                let p = choose|p: int| 0 <= p < b1.len() && b1[p] == y;
                assert(b.contains(y) && b[p + 1] == y);
                assert(a.to_set().contains(y));
                let q = choose|q: int| 0 <= q < a.len() && a[q] == y;
                assert(lex_lt(b[0], b[p + 1]));
                if q == 0 {
                    lemma_lex_trichotomy(b[0], y);
                }
                assert(a1[q - 1] == y);
            }
        }
        assert(a1.to_set() =~= b1.to_set());
        lemma_strictly_sorted_unique(a1, b1);
        assert(a =~= seq![a[0]] + a1);
        assert(b =~= seq![b[0]] + b1);
    }
}

/// No allergen marker starts anywhere in `s`.
pub open spec fn no_marker(s: Seq<char>) -> bool {
    forall|i: int| 0 <= i < s.len() ==> #[trigger] marker_len(s.skip(i)) == 0
}

/// No two white-space characters stand side by side in `s`.
pub open spec fn no_double_ws(s: Seq<char>) -> bool {
    forall|i: int| 0 <= i < s.len() - 1 ==> !(is_ws(#[trigger] s[i]) && is_ws(s[i + 1]))
}

proof fn lemma_no_marker_suffix(s: Seq<char>, k: int)
    requires
        no_marker(s),
        0 <= k <= s.len(),
    ensures
        no_marker(s.skip(k)),
{
    assert forall|i: int| 0 <= i < s.skip(k).len() implies #[trigger] marker_len(s.skip(k).skip(i))
        == 0 by {
        assert(s.skip(k).skip(i) =~= s.skip(k + i));
    }
}

/// A code run that stops inside a prefix stops at the same place in the whole sequence.
proof fn lemma_code_run_prefix(a: Seq<char>, b: Seq<char>)
    requires
        a.len() <= b.len(),
        b.take(a.len() as int) == a,
        code_run(a) < a.len(),
    ensures
        code_run(b) == code_run(a),
    decreases a.len(),
{
    assert(a[0] == b[0]);
    if is_code_char(a[0]) {
        assert(b.drop_first().take(a.drop_first().len() as int) =~= a.drop_first());
        lemma_code_run_prefix(a.drop_first(), b.drop_first());
    }
}

proof fn lemma_code_run_exact(s: Seq<char>, k: int)
    requires
        0 <= k < s.len(),
        forall|j: int| 0 <= j < k ==> is_code_char(#[trigger] s[j]),
        !is_code_char(s[k]),
    ensures
        code_run(s) == k,
    decreases k,
{
    if k > 0 {
        assert forall|j: int| 0 <= j < k - 1 implies is_code_char(#[trigger] s.drop_first()[j]) by {
            assert(s.drop_first()[j] == s[j + 1]);
        }
        lemma_code_run_exact(s.drop_first(), k - 1);
    }
}

/// A marker is decided by its own characters: whatever follows it does not matter.
proof fn lemma_marker_prefix(a: Seq<char>, b: Seq<char>)
    requires
        marker_len(a) > 0,
        a.len() <= b.len(),
        b.take(a.len() as int) == a,
    ensures
        marker_len(b) == marker_len(a),
{
    let k = code_run(a.drop_first()) as int;
    lemma_code_run_bound(a.drop_first());
    assert(a.drop_first()[k as int] == a[k + 1]);
    assert(b.drop_first().take(a.drop_first().len() as int) =~= a.drop_first());
    lemma_code_run_prefix(a.drop_first(), b.drop_first());
    assert(a[0] == b[0]);
    assert(b[k + 1] == a[k + 1]);
}

/// The characters of a marker are no white space.
proof fn lemma_marker_not_ws(s: Seq<char>)
    requires
        marker_len(s) > 0,
    ensures
        forall|j: int| 0 <= j < marker_len(s) ==> !is_ws(#[trigger] s[j]),
{
    let k = code_run(s.drop_first()) as int;
    lemma_code_run_bound(s.drop_first());
    assert forall|j: int| 0 <= j < marker_len(s) implies !is_ws(#[trigger] s[j]) by {
        if 0 < j < k + 1 {
            assert(is_code_char(s.drop_first()[j - 1]));
        }
    }
}

proof fn lemma_no_marker_prefix(s: Seq<char>, n: int)
    requires
        no_marker(s),
        0 <= n <= s.len(),
    ensures
        no_marker(s.take(n)),
{
    assert forall|i: int| 0 <= i < s.take(n).len() implies #[trigger] marker_len(s.take(n).skip(i))
        == 0 by {
        let a = s.take(n).skip(i);
        if marker_len(a) > 0 {
            assert(s.skip(i).take(a.len() as int) =~= a);
            lemma_marker_prefix(a, s.skip(i));
            assert(marker_len(s.skip(i)) == 0);
        }
    }
}

proof fn lemma_strip_no_marker(s: Seq<char>)
    requires
        no_marker(s),
    ensures
        strip_markers(s) == s,
    decreases s.len(),
{
    if s.len() > 0 {
        assert(s.skip(0) =~= s);
        assert(marker_len(s.skip(0)) == 0);
        lemma_no_marker_suffix(s, 1);
        assert(s.skip(1) =~= s.drop_first());
        lemma_strip_no_marker(s.drop_first());
        assert(s =~= seq![s[0]] + s.drop_first());
    }
}

proof fn lemma_collapse_shape(s: Seq<char>)
    ensures
        collapse_ws(s).len() == 0 <==> s.len() == 0,
        s.len() > 0 ==> (is_ws(collapse_ws(s)[0]) <==> is_ws(s[0])),
    decreases s.len(),
{
    if s.len() > 0 {
        lemma_ws_run_bound(s);
        assert(is_ws(' '));
        if 2 <= ws_run(s) && ws_run(s) <= s.len() {
            lemma_collapse_shape(s.skip(ws_run(s) as int));
        } else {
            lemma_collapse_shape(s.drop_first());
        }
    }
}

/// Where the first `m` characters of the collapsed text are no white space, they are the first
/// `m` characters of the text.
proof fn lemma_collapse_keeps_prefix(s: Seq<char>, m: int)
    requires
        0 <= m <= collapse_ws(s).len(),
        forall|j: int| 0 <= j < m ==> !is_ws(#[trigger] collapse_ws(s)[j]),
    ensures
        m <= s.len(),
        s.take(m) == collapse_ws(s).take(m),
    decreases m,
{
    lemma_collapse_shape(s);
    if m > 0 {
        let c = collapse_ws(s);
        assert(!is_ws(c[0]));
        assert(!is_ws(s[0]));
        lemma_ws_run_bound(s);
        assert(ws_run(s) == 0);
        let r = s.drop_first();
        assert(c == seq![s[0]] + collapse_ws(r));
        assert forall|j: int| 0 <= j < m - 1 implies !is_ws(#[trigger] collapse_ws(r)[j]) by {
            assert(collapse_ws(r)[j] == c[j + 1]);
        }
        lemma_collapse_keeps_prefix(r, m - 1);
        assert(s.take(m) =~= seq![s[0]] + r.take(m - 1));
        assert(c.take(m) =~= seq![s[0]] + collapse_ws(r).take(m - 1));
    }
}

proof fn lemma_collapse_no_marker(s: Seq<char>)
    requires
        no_marker(s),
    ensures
        no_marker(collapse_ws(s)),
    decreases s.len(),
{
    let c = collapse_ws(s);
    if s.len() > 0 {
        lemma_ws_run_bound(s);
        let big = 2 <= ws_run(s) && ws_run(s) <= s.len();
        let rest = if big {
            s.skip(ws_run(s) as int)
        } else {
            s.drop_first()
        };
        if big {
            lemma_no_marker_suffix(s, ws_run(s) as int);
        } else {
            lemma_no_marker_suffix(s, 1);
            assert(s.skip(1) =~= s.drop_first());
        }
        lemma_collapse_no_marker(rest);
        assert(c == seq![c[0]] + collapse_ws(rest));
        assert forall|i: int| 0 <= i < c.len() implies #[trigger] marker_len(c.skip(i)) == 0 by {
            if i > 0 {
                assert(c.skip(i) =~= collapse_ws(rest).skip(i - 1));
            } else {
                assert(c.skip(0) =~= c);
                if marker_len(c) > 0 {
                    let m = marker_len(c) as int;
                    lemma_marker_not_ws(c);
                    lemma_collapse_keeps_prefix(s, m);
                    assert(c.take(m).len() == m);
                    assert(marker_len(c.take(m)) == m) by {
                        let k = code_run(c.drop_first()) as int;
                        lemma_code_run_bound(c.drop_first());
                        let q = c.take(m).drop_first();
                        assert forall|j: int| 0 <= j < k implies is_code_char(#[trigger] q[j]) by {
                            assert(q[j] == c.drop_first()[j]);
                        }
                        assert(q[k] == c[k + 1]);
                        lemma_code_run_exact(q, k);
                    }
                    lemma_marker_prefix(s.take(m), s);
                    assert(s.skip(0) =~= s);
                }
            }
        }
    }
}

proof fn lemma_trim_start_no_marker(s: Seq<char>)
    requires
        no_marker(s),
    ensures
        no_marker(trim_start(s)),
    decreases s.len(),
{
    if s.len() > 0 && is_ws(s[0]) {
        lemma_no_marker_suffix(s, 1);
        assert(s.skip(1) =~= s.drop_first());
        lemma_trim_start_no_marker(s.drop_first());
    }
}

proof fn lemma_trim_end_no_marker(s: Seq<char>)
    requires
        no_marker(s),
    ensures
        no_marker(trim_end(s)),
    decreases s.len(),
{
    if s.len() > 0 && is_ws(s.last()) {
        lemma_no_marker_prefix(s, s.len() - 1);
        assert(s.take(s.len() - 1) =~= s.drop_last());
        lemma_trim_end_no_marker(s.drop_last());
    }
}

proof fn lemma_collapse_no_double(s: Seq<char>)
    ensures
        no_double_ws(collapse_ws(s)),
    decreases s.len(),
{
    if s.len() > 0 {
        lemma_ws_run_bound(s);
        let c = collapse_ws(s);
        let big = 2 <= ws_run(s) && ws_run(s) <= s.len();
        let rest = if big {
            s.skip(ws_run(s) as int)
        } else {
            s.drop_first()
        };
        lemma_collapse_no_double(rest);
        lemma_collapse_shape(rest);
        assert(c == seq![c[0]] + collapse_ws(rest));
        if is_ws(c[0]) && rest.len() > 0 {
            if big {
                assert(rest[0] == s[ws_run(s) as int]);
            } else {
                assert(is_ws(s[0]));
                assert(ws_run(s) == 1) by {
                    lemma_ws_run_bound(s);
                }
                assert(rest[0] == s[1]);
                assert(ws_run(s) == 1 + ws_run(s.drop_first()));
                assert(ws_run(s.drop_first()) == 0);
            }
        }
        assert forall|i: int| 0 <= i < c.len() - 1 implies !(is_ws(#[trigger] c[i]) && is_ws(
            c[i + 1],
        )) by {
            if i > 0 {
                assert(c[i] == collapse_ws(rest)[i - 1]);
                assert(c[i + 1] == collapse_ws(rest)[i]);
            } else {
                assert(c[1] == collapse_ws(rest)[0]);
            }
        }
    }
}

proof fn lemma_collapse_of_no_double(s: Seq<char>)
    requires
        no_double_ws(s),
    ensures
        collapse_ws(s) == s,
    decreases s.len(),
{
    if s.len() > 0 {
        if is_ws(s[0]) {
            if s.len() > 1 {
                assert(!is_ws(s[1]));
                assert(ws_run(s.drop_first()) == 0);
            }
        }
        assert(!(2 <= ws_run(s) && ws_run(s) <= s.len())) by {
            if s.len() > 1 && is_ws(s[0]) {
                assert(ws_run(s.drop_first()) == 0);
            }
        }
        assert(no_double_ws(s.drop_first())) by {
            assert forall|i: int| 0 <= i < s.drop_first().len() - 1 implies !(is_ws(
                #[trigger] s.drop_first()[i],
            ) && is_ws(s.drop_first()[i + 1])) by {
                assert(!(is_ws(s[i + 1]) && is_ws(s[i + 2])));
            }
        }
        lemma_collapse_of_no_double(s.drop_first());
        assert(s =~= seq![s[0]] + s.drop_first());
    }
}

proof fn lemma_trim_start_shape(s: Seq<char>)
    ensures
        no_double_ws(s) ==> no_double_ws(trim_start(s)),
        trim_start(s).len() > 0 ==> !is_ws(trim_start(s)[0]),
    decreases s.len(),
{
    if s.len() > 0 && is_ws(s[0]) {
        lemma_trim_start_shape(s.drop_first());
        if no_double_ws(s) {
            assert forall|i: int| 0 <= i < s.drop_first().len() - 1 implies !(is_ws(
                #[trigger] s.drop_first()[i],
            ) && is_ws(s.drop_first()[i + 1])) by {
                assert(!(is_ws(s[i + 1]) && is_ws(s[i + 2])));
            }
        }
    }
}

proof fn lemma_trim_end_shape(s: Seq<char>)
    ensures
        no_double_ws(s) ==> no_double_ws(trim_end(s)),
        trim_end(s).len() > 0 ==> !is_ws(trim_end(s).last()),
        trim_end(s).len() > 0 ==> trim_end(s)[0] == s[0],
    decreases s.len(),
{
    if s.len() > 0 && is_ws(s.last()) {
        lemma_trim_end_shape(s.drop_last());
        if no_double_ws(s) {
            assert forall|i: int| 0 <= i < s.drop_last().len() - 1 implies !(is_ws(
                #[trigger] s.drop_last()[i],
            ) && is_ws(s.drop_last()[i + 1])) by {
                assert(!(is_ws(s[i]) && is_ws(s[i + 1])));
            }
        }
    }
}

/// Cleaning is idempotent, and its result holds no allergen marker, on every text in which
/// removing the markers does not bring a new one together (as in "((A)B)", which leaves
/// "(B)").
/// One pass never lengthens the text, and a pass that removes nothing found no marker.
proof fn lemma_strip_shrinks(s: Seq<char>)
    ensures
        strip_markers(s).len() <= s.len(),
        strip_markers(s).len() == s.len() ==> no_marker(s),
    decreases s.len(),
{
    if s.len() > 0 {
        if marker_len(s) > 0 {
            lemma_strip_shrinks(s.skip(marker_len(s) as int));
        } else {
            lemma_strip_shrinks(s.drop_first());
            if strip_markers(s).len() == s.len() {
                assert forall|i: int| 0 <= i < s.len() implies #[trigger] marker_len(s.skip(i))
                    == 0 by {
                    if i == 0 {
                        assert(s.skip(0) =~= s);
                    } else {
                        assert(s.skip(i) =~= s.drop_first().skip(i - 1));
                    }
                }
            }
        }
    }
}

/// Repeated removal leaves no marker.
pub proof fn lemma_strip_all_no_marker(s: Seq<char>)
    ensures
        no_marker(strip_all(s)),
    decreases s.len(),
{
    let t = strip_markers(s);
    lemma_strip_shrinks(s);
    if t.len() < s.len() {
        lemma_strip_all_no_marker(t);
    } else {
        lemma_strip_no_marker(s);
    }
}

/// On a text without markers, repeated removal changes nothing.
proof fn lemma_strip_all_of_no_marker(s: Seq<char>)
    requires
        no_marker(s),
    ensures
        strip_all(s) == s,
{
    lemma_strip_no_marker(s);
}

/// Cleaning is idempotent, and its result holds no allergen marker.
pub proof fn lemma_clean_idempotent(t: Seq<char>)
    ensures
        no_marker(clean(t)),
        clean(clean(t)) == clean(t),
{
    let x = strip_all(t);
    lemma_strip_all_no_marker(t);
    let y = collapse_ws(x);
    let z = trim_start(y);
    let c = trim_end(z);
    lemma_collapse_no_marker(x);
    lemma_trim_start_no_marker(y);
    lemma_trim_end_no_marker(z);
    lemma_strip_all_of_no_marker(c);
    lemma_collapse_no_double(x);
    lemma_trim_start_shape(y);
    lemma_trim_end_shape(z);
    lemma_collapse_of_no_double(c);
    assert(trim_start(c) == c);
    assert(trim_end(c) == c);
}

} // verus!
