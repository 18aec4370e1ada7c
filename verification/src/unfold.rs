//! Line unfolding: a line break followed by one space or tab continues the
//! line before it, and is taken out together with that space or tab.

use vstd::prelude::*;
use vstd::string::*;
use crate::text::{first_char, is_suffix_of, prefix_before, rest_after_first};

verus! {

/// Whether `c` is a space or a horizontal tab.
pub open spec fn is_fold_space(c: char) -> bool {
    c == ' ' || c == '\t'
}

/// The length of the fold at the head of `s`: 2 for a line feed and a space
/// or tab, 3 for a carriage return, a line feed and a space or tab, 0 where
/// `s` begins with neither.
pub open spec fn fold_len(s: Seq<char>) -> nat {
    if s.len() >= 2 && s[0] == '\n' && is_fold_space(s[1]) {
        2
    } else if s.len() >= 3 && s[0] == '\r' && s[1] == '\n' && is_fold_space(s[2]) {
        3
    } else {
        0
    }
}

/// `s` with its folds taken out, read from left to right.
pub open spec fn unfold(s: Seq<char>) -> Seq<char>
    decreases s.len(),
{
    if s.len() == 0 {
        s
    } else if fold_len(s) > 0 {
        unfold(s.skip(fold_len(s) as int))
    } else {
        seq![s[0]] + unfold(s.skip(1))
    }
}

/// What follows the fold at the head of `s`, where `s` begins with one.
fn after_fold<'a>(s: &'a str) -> (r: Option<&'a str>)
    ensures
        match r {
            Some(rest) => fold_len(s@) > 0 && rest@ == s@.skip(fold_len(s@) as int),
            None => fold_len(s@) == 0,
        },
{
    let after_break = match first_char(s) {
        Some('\n') => rest_after_first(s),
        Some('\r') => {
            let a = rest_after_first(s);
            match first_char(a) {
                Some('\n') => {
                    let b = rest_after_first(a);
                    assert(b@ =~= s@.skip(2));
                    b
                },
                _ => {
                    return None;
                },
            }
        },
        _ => {
            return None;
        },
    };
    match first_char(after_break) {
        Some(c) => {
            if c == ' ' || c == '\t' {
                let rest = rest_after_first(after_break);
                assert(rest@ =~= s@.skip(fold_len(s@) as int));
                Some(rest)
            } else {
                None
            }
        },
        None => None,
    }
}

/// Takes the folds out of `input`: every line break (a line feed, with or
/// without a carriage return before it) that a space or tab follows goes,
/// together with that one space or tab. Everything else stays as it is.
pub fn unfold_lines(input: &str) -> (r: String)
    ensures
        r@ == unfold(input@),
{
    let mut result = String::new();
    let mut seg = input;
    let mut cur = input;
    assert(input@ =~= input@.skip(0));
    assert(input@.take(0) + unfold(input@) =~= unfold(input@));
    loop
        invariant_except_break
            is_suffix_of(cur@, seg@),
            unfold(seg@) == seg@.take(seg@.len() - cur@.len()) + unfold(cur@),
            unfold(input@) == result@ + unfold(seg@),
        ensures
            unfold(input@) == result@,
        decreases cur@.len(),
    {
        let ghost k = seg@.len() - cur@.len();
        match after_fold(cur) {
            Some(rest) => {
                let head = prefix_before(seg, cur);
                let ghost before = result@;
                result.append(head);
                proof {
                    assert(rest@ =~= rest@.skip(0));
                    assert(rest@.take(0) + unfold(rest@) =~= unfold(rest@));
                    assert(before + (head@ + unfold(rest@)) =~= before + head@ + unfold(rest@));
                }
                seg = rest;
                cur = rest;
            },
            None => {
                if first_char(cur).is_none() {
                    let ghost before = result@;
                    result.append(seg);
                    proof {
                        assert(seg@.take(k) =~= seg@);
                        assert(seg@ + unfold(cur@) =~= seg@);
                    }
                    break;
                }
                let next = rest_after_first(cur);
                proof {
                    assert(next@ =~= seg@.skip(seg@.len() - next@.len()));
                    assert(seg@.take(k) + (seq![cur@[0]] + unfold(next@)) =~= seg@.take(k + 1)
                        + unfold(next@));
                }
                cur = next;
            },
        }
    }
    result
}

/// Whether `f` is one fold and nothing else: a line feed, with or without a
/// carriage return before it, and one space or tab.
pub open spec fn is_fold(f: Seq<char>) -> bool {
    f.len() > 0 && fold_len(f) == f.len()
}

/// Whether `a` ends with the character `c`.
pub open spec fn ends_with_char(a: Seq<char>, c: char) -> bool {
    a.len() > 0 && a.last() == c
}

/// Whether no fold stands anywhere in `s`.
pub open spec fn has_no_fold(s: Seq<char>) -> bool {
    forall|i: int| 0 <= i < s.len() ==> fold_len(#[trigger] s.skip(i)) == 0
}

/// Whether the fold `f` can be put between `a` and `b` and taken out again
/// alone: its line feed does not pair with a carriage return that ends `a`,
/// and `a` and `b` do not make a fold of their own where they meet.
pub open spec fn fold_fits(a: Seq<char>, f: Seq<char>, b: Seq<char>) -> bool {
    &&& is_fold(f)
    &&& f[0] == '\n' ==> !ends_with_char(a, '\r')
    &&& !(ends_with_char(a, '\n') && b.len() >= 1 && is_fold_space(b[0]))
    &&& !(ends_with_char(a, '\r') && b.len() >= 2 && b[0] == '\n' && is_fold_space(b[1]))
}

/// Unfolding takes out a fold that was put into a text: where the fold `f`
/// fits between `a` and `b`, the text with the fold unfolds to what the text
/// without it unfolds to.
pub proof fn lemma_unfold_takes_fold_out(a: Seq<char>, f: Seq<char>, b: Seq<char>)
    requires
        fold_fits(a, f, b),
    ensures
        unfold(a + f + b) == unfold(a + b),
    decreases a.len(),
{
    let s1 = a + f + b;
    let s2 = a + b;
    if a.len() == 0 {
        assert(s2 =~= b);
        assert(s1.skip(f.len() as int) =~= b);
        assert(fold_len(s1) == f.len());
    } else {
        let k = fold_len(s1);
        assert(fold_len(s2) == k);
        assert(k <= a.len());
        let step: int = if k > 0 { k as int } else { 1 };
        let a2 = a.skip(step);
        assert(s1.skip(step) =~= a2 + f + b);
        assert(s2.skip(step) =~= a2 + b);
        if a2.len() > 0 {
            assert(a2.last() == a.last());
        }
        lemma_unfold_takes_fold_out(a2, f, b);
    }
}

/// A text without folds unfolds to itself.
pub proof fn lemma_unfold_without_folds(s: Seq<char>)
    requires
        has_no_fold(s),
    ensures
        unfold(s) == s,
    decreases s.len(),
{
    if s.len() > 0 {
        assert(s.skip(0) =~= s);
        let t = s.skip(1);
        assert forall|i: int| 0 <= i < t.len() implies fold_len(#[trigger] t.skip(i)) == 0 by {
            assert(t.skip(i) =~= s.skip(i + 1));
        }
        lemma_unfold_without_folds(t);
        assert(seq![s[0]] + t =~= s);
    }
}

/// Unfolding is a left inverse of folding: a fold put into a text without
/// folds, at any place but between a carriage return and the fold's own line
/// feed, is taken out again, and the text comes back as it was.
pub proof fn lemma_unfold_inverts_fold(a: Seq<char>, f: Seq<char>, b: Seq<char>)
    requires
        is_fold(f),
        has_no_fold(a + b),
        f[0] == '\n' ==> !ends_with_char(a, '\r'),
    ensures
        unfold(a + f + b) == a + b,
{
    let s = a + b;
    if a.len() > 0 {
        let i = a.len() - 1;
        assert(fold_len(s.skip(i)) == 0);
        assert(s.skip(i)[0] == a.last());
        if b.len() >= 1 {
            assert(s.skip(i)[1] == b[0]);
        }
        if b.len() >= 2 {
            assert(s.skip(i)[2] == b[1]);
        }
    }
    lemma_unfold_takes_fold_out(a, f, b);
    lemma_unfold_without_folds(s);
}

/// `s` with the fold `f` put in before its character at `at`.
pub open spec fn fold_at(s: Seq<char>, at: int, f: Seq<char>) -> Seq<char> {
    s.take(at) + f + s.skip(at)
}

/// `s` with the folds `cuts` put in one after the other, each at its place
/// in the text that the folds before it have made.
pub open spec fn fold_all(s: Seq<char>, cuts: Seq<(int, Seq<char>)>) -> Seq<char>
    decreases cuts.len(),
{
    if cuts.len() == 0 {
        s
    } else {
        fold_all(fold_at(s, cuts[0].0, cuts[0].1), cuts.skip(1))
    }
}

/// Whether each of the folds `cuts` fits at its place when they are put
/// into `s` one after the other.
pub open spec fn folds_fit(s: Seq<char>, cuts: Seq<(int, Seq<char>)>) -> bool
    decreases cuts.len(),
{
    cuts.len() == 0 || {
        let (at, f) = cuts[0];
        &&& 0 <= at <= s.len()
        &&& fold_fits(s.take(at), f, s.skip(at))
        &&& folds_fit(fold_at(s, at, f), cuts.skip(1))
    }
}

/// Unfolding takes out any number of folds that were put into a text: the
/// folded text unfolds to what the text unfolds to.
pub proof fn lemma_unfold_takes_folds_out(s: Seq<char>, cuts: Seq<(int, Seq<char>)>)
    requires
        folds_fit(s, cuts),
    ensures
        unfold(fold_all(s, cuts)) == unfold(s),
    decreases cuts.len(),
{
    if cuts.len() > 0 {
        let (at, f) = cuts[0];
        lemma_unfold_takes_fold_out(s.take(at), f, s.skip(at));
        assert(s.take(at) + s.skip(at) =~= s);
        lemma_unfold_takes_folds_out(fold_at(s, at, f), cuts.skip(1));
    }
}

} // verus!
