//! Helpers for sequences of strings, seen through their character views.

use vstd::prelude::*;

verus! {

/// The sequence of character views of a sequence of strings.
pub open spec fn views_of(v: Seq<String>) -> Seq<Seq<char>> {
    v.map_values(|s: String| s@)
}

/// First-occurrence deduplication: keeps the first occurrence of every
/// element, in order.
pub open spec fn dedup_first(s: Seq<Seq<char>>) -> Seq<Seq<char>>
    decreases s.len(),
{
    if s.len() == 0 {
        Seq::empty()
    } else {
        let front = dedup_first(s.drop_last());
        if front.contains(s.last()) {
            front
        } else {
            front.push(s.last())
        }
    }
}

/// Membership in a pushed sequence.
pub proof fn lemma_push_contains(s: Seq<Seq<char>>, a: Seq<char>, x: Seq<char>)
    ensures
        s.push(a).contains(x) == (s.contains(x) || a == x),
{
    if s.contains(x) {
        let i = choose|i: int| 0 <= i < s.len() && s[i] == x;
        assert(s.push(a)[i] == x);
    }
    if a == x {
        assert(s.push(a)[s.len() as int] == a);
    }
    if s.push(a).contains(x) {
        let i = choose|i: int| 0 <= i < s.push(a).len() && s.push(a)[i] == x;
        if i < s.len() {
            assert(s[i] == x);
        }
    }
}

/// Membership split between the front of a sequence and its last element.
pub proof fn lemma_prefix_contains(s: Seq<Seq<char>>, x: Seq<char>)
    requires
        s.len() > 0,
    ensures
        s.contains(x) == (s.drop_last().contains(x) || s.last() == x),
{
    if s.drop_last().contains(x) {
        let i = choose|i: int| 0 <= i < s.len() - 1 && s.drop_last()[i] == x;
        assert(s[i] == x);
    }
    if s.last() == x {
        assert(s[s.len() - 1] == x);
    }
    if s.contains(x) {
        let i = choose|i: int| 0 <= i < s.len() && s[i] == x;
        if i < s.len() - 1 {
            assert(s.drop_last()[i] == x);
        }
    }
}

/// A pushed sequence stays duplicate-free when the new element is fresh.
pub proof fn lemma_push_no_duplicates(s: Seq<Seq<char>>, a: Seq<char>)
    requires
        s.no_duplicates(),
        !s.contains(a),
    ensures
        s.push(a).no_duplicates(),
{
    assert(forall|i: int| 0 <= i < s.len() ==> s[i] != a) by {
        assert forall|i: int| 0 <= i < s.len() implies s[i] != a by {
            if s[i] == a {
                assert(s.contains(a));
            }
        }
    }
}

/// The result of `dedup_first` holds exactly the elements of its input.
pub proof fn lemma_dedup_first_contains(s: Seq<Seq<char>>, x: Seq<char>)
    ensures
        dedup_first(s).contains(x) == s.contains(x),
    decreases s.len(),
{
    if s.len() > 0 {
        lemma_dedup_first_contains(s.drop_last(), x);
        lemma_prefix_contains(s, x);
        let front = dedup_first(s.drop_last());
        if front.contains(s.last()) {
            lemma_dedup_first_contains(s.drop_last(), s.last());
        } else {
            lemma_push_contains(front, s.last(), x);
        }
    }
}

/// The result of `dedup_first` has no duplicates.
pub proof fn lemma_dedup_first_no_duplicates(s: Seq<Seq<char>>)
    ensures
        dedup_first(s).no_duplicates(),
    decreases s.len(),
{
    if s.len() > 0 {
        lemma_dedup_first_no_duplicates(s.drop_last());
        let front = dedup_first(s.drop_last());
        if !front.contains(s.last()) {
            lemma_push_no_duplicates(front, s.last());
        }
    }
}

/// Keeps, in order, the elements of `s` that occur in `keep`.
pub open spec fn keep_in(s: Seq<Seq<char>>, keep: Seq<Seq<char>>) -> Seq<Seq<char>>
    decreases s.len(),
{
    if s.len() == 0 {
        Seq::empty()
    } else {
        let front = keep_in(s.drop_last(), keep);
        if keep.contains(s.last()) {
            front.push(s.last())
        } else {
            front
        }
    }
}

/// Keeps, in order, the elements of `s` that do not occur in `excl`.
pub open spec fn drop_in(s: Seq<Seq<char>>, excl: Seq<Seq<char>>) -> Seq<Seq<char>>
    decreases s.len(),
{
    if s.len() == 0 {
        Seq::empty()
    } else {
        let front = drop_in(s.drop_last(), excl);
        if excl.contains(s.last()) {
            front
        } else {
            front.push(s.last())
        }
    }
}


pub proof fn lemma_keep_in_contains(s: Seq<Seq<char>>, keep: Seq<Seq<char>>, x: Seq<char>)
    ensures
        keep_in(s, keep).contains(x) == (s.contains(x) && keep.contains(x)),
    decreases s.len(),
{
    if s.len() > 0 {
        lemma_keep_in_contains(s.drop_last(), keep, x);
        lemma_prefix_contains(s, x);
        if keep.contains(s.last()) {
            lemma_push_contains(keep_in(s.drop_last(), keep), s.last(), x);
        }
    }
}

pub proof fn lemma_keep_in_no_duplicates(s: Seq<Seq<char>>, keep: Seq<Seq<char>>)
    requires
        s.no_duplicates(),
    ensures
        keep_in(s, keep).no_duplicates(),
    decreases s.len(),
{
    if s.len() > 0 {
        assert(s.drop_last().no_duplicates());
        lemma_keep_in_no_duplicates(s.drop_last(), keep);
        if keep.contains(s.last()) {
            lemma_keep_in_contains(s.drop_last(), keep, s.last());
            assert(!s.drop_last().contains(s.last())) by {
                if s.drop_last().contains(s.last()) {
                    let i = choose|i: int|
                        0 <= i < s.len() - 1 && s.drop_last()[i] == s.last();
                    assert(s[i] == s[s.len() - 1]);
                }
            }
            lemma_push_no_duplicates(keep_in(s.drop_last(), keep), s.last());
        }
    }
}

pub proof fn lemma_drop_in_contains(s: Seq<Seq<char>>, excl: Seq<Seq<char>>, x: Seq<char>)
    ensures
        drop_in(s, excl).contains(x) == (s.contains(x) && !excl.contains(x)),
    decreases s.len(),
{
    if s.len() > 0 {
        lemma_drop_in_contains(s.drop_last(), excl, x);
        lemma_prefix_contains(s, x);
        if !excl.contains(s.last()) {
            lemma_push_contains(drop_in(s.drop_last(), excl), s.last(), x);
        }
    }
}

/// Membership in a concatenation splits over the two halves.
pub proof fn lemma_concat_contains(a: Seq<Seq<char>>, b: Seq<Seq<char>>, x: Seq<char>)
    ensures
        (a + b).contains(x) == (a.contains(x) || b.contains(x)),
{
    if a.contains(x) {
        let i = choose|i: int| 0 <= i < a.len() && a[i] == x;
        assert((a + b)[i] == x);
    }
    if b.contains(x) {
        let i = choose|i: int| 0 <= i < b.len() && b[i] == x;
        assert((a + b)[a.len() + i] == x);
    }
    if (a + b).contains(x) {
        let i = choose|i: int| 0 <= i < a.len() + b.len() && (a + b)[i] == x;
        if i < a.len() {
            assert(a[i] == x);
        } else {
            assert(b[i - a.len()] == x);
        }
    }
}

/// True when `v` holds a string whose characters are `x`.
pub open spec fn has_view(v: Seq<String>, x: Seq<char>) -> bool {
    views_of(v).contains(x)
}

/// Whether one of the strings of `v` equals `s`, compared by characters.
#[verifier::loop_isolation(false)]
pub fn contains_string(v: &Vec<String>, s: &String) -> (r: bool)
    ensures
        r == has_view(v@, s@),
{
    let mut i: usize = 0;
    while i < v.len()
        invariant
            i <= v.len(),
            forall|j: int| 0 <= j < i ==> views_of(v@)[j] != s@,
        decreases v.len() - i,
    {
        if s.eq(&v[i]) {
            assert(views_of(v@)[i as int] == s@);
            return true;
        }
        i += 1;
    }
    assert(forall|j: int| 0 <= j < v@.len() ==> views_of(v@)[j] != s@);
    false
}

/// Copies a vector of strings; the copy has the same character views.
#[verifier::loop_isolation(false)]
pub fn clone_strings(v: &Vec<String>) -> (r: Vec<String>)
    ensures
        views_of(r@) == views_of(v@),
{
    let mut r: Vec<String> = Vec::new();
    let mut i: usize = 0;
    while i < v.len()
        invariant
            i <= v.len(),
            r@.len() == i,
            forall|j: int| 0 <= j < i ==> views_of(r@)[j] == views_of(v@)[j],
        decreases v.len() - i,
    {
        r.push(v[i].clone());
        i += 1;
    }
    assert(views_of(r@) =~= views_of(v@));
    r
}

} // verus!
