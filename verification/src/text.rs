//! Primitives on string slices: taking the first character, splitting a
//! slice at the start of one of its suffixes, and cutting off a run of
//! characters of one class, all without copying.

use vstd::prelude::*;
use vstd::string::*;
use vstd::utf8::*;

verus! {

/// `t` is what is left of `s` after some of its leading characters.
pub open spec fn is_suffix_of(t: Seq<char>, s: Seq<char>) -> bool {
    t.len() <= s.len() && t == s.skip(s.len() - t.len())
}

/// A suffix of a suffix of `s` is a suffix of `s`.
pub proof fn lemma_suffix_of_suffix(t: Seq<char>, mid: Seq<char>, s: Seq<char>)
    requires
        is_suffix_of(t, mid),
        is_suffix_of(mid, s),
    ensures
        is_suffix_of(t, s),
{
    assert(t =~= s.skip(s.len() - t.len()));
}

/// The UTF-8 encoding of a concatenation is the concatenation of the
/// encodings.
pub proof fn lemma_encode_concat(a: Seq<char>, b: Seq<char>)
    ensures
        encode_utf8(a + b) == encode_utf8(a) + encode_utf8(b),
    decreases a.len(),
{
    if a.len() == 0 {
        assert(a + b =~= b);
        assert(encode_utf8(a) + encode_utf8(b) =~= encode_utf8(b));
    } else {
        lemma_encode_concat(a.drop_first(), b);
        assert((a + b).drop_first() =~= a.drop_first() + b);
        assert((a + b)[0] == a[0]);
        assert(encode_utf8(a + b) =~= encode_utf8(a) + encode_utf8(b));
    }
}

/// In the encoding of `a + b`, the encoding of `b` starts at a character
/// boundary.
pub proof fn lemma_boundary_after_prefix(a: Seq<char>, b: Seq<char>)
    ensures
        is_char_boundary(encode_utf8(a + b), encode_utf8(a).len() as int),
    decreases a.len(),
{
    let bytes = encode_utf8(a + b);
    encode_utf8_valid_utf8(a + b);
    if a.len() == 0 {
    } else {
        let rest = a.drop_first();
        assert((a + b).drop_first() =~= rest + b);
        assert((a + b)[0] == a[0]);
        encode_utf8_first_scalar(a + b);
        let w = encode_scalar(a[0] as u32).len();
        assert(pop_first_scalar(bytes) =~= encode_utf8(rest + b));
        lemma_boundary_after_prefix(rest, b);
        assert(encode_utf8(a).len() == w + encode_utf8(rest).len());
        assert(w > 0);
    }
}

/// Two strings with the same UTF-8 encoding hold the same characters.
pub proof fn lemma_encode_injective(a: Seq<char>, b: Seq<char>)
    requires
        encode_utf8(a) == encode_utf8(b),
    ensures
        a == b,
{
    encode_utf8_decode_utf8(a);
    encode_utf8_decode_utf8(b);
}

/// The first character of `s`, if it has one.
pub fn first_char(s: &str) -> (r: Option<char>)
    ensures
        r == if s@.len() > 0 { Some(s@[0]) } else { None },
{
    broadcast use group_string_axioms;
    let mut it = s.chars();
    it.next()
}

/// The number of bytes that `c` takes in UTF-8.
pub fn char_width(c: char) -> (w: usize)
    ensures
        w == encode_scalar(c as u32).len(),
        1 <= w <= 4,
{
    proof {
        char_is_scalar(c);
    }
    let v: u32 = c as u32;
    if v < 0x80 {
        1
    } else if v < 0x800 {
        2
    } else if v < 0x10000 {
        3
    } else {
        4
    }
}

/// `s` without its first character.
pub(crate) fn rest_after_first<'a>(s: &'a str) -> (r: &'a str)
    requires
        s@.len() > 0,
    ensures
        r@ == s@.skip(1),
{
    broadcast use group_string_axioms;
    let mut it = s.chars();
    let c = it.next().unwrap();
    let w = char_width(c);
    proof {
        let head = seq![c];
        let tail = s@.skip(1);
        assert(s@ =~= head + tail);
        lemma_encode_concat(head, tail);
        lemma_boundary_after_prefix(head, tail);
        reveal_with_fuel(encode_utf8, 2);
        assert(head.drop_first() =~= Seq::<char>::empty());
        assert(encode_utf8(head) =~= encode_scalar(c as u32));
    }
    let (_, r) = s.split_at(w);
    proof {
        let head = seq![c];
        let tail = s@.skip(1);
        assert(r.spec_bytes() =~= encode_utf8(tail));
        lemma_encode_injective(r@, tail);
    }
    r
}

/// The part of `s` that stands before its suffix `rest`.
pub(crate) fn prefix_before<'a>(s: &'a str, rest: &str) -> (r: &'a str)
    requires
        is_suffix_of(rest@, s@),
    ensures
        r@ == s@.take(s@.len() - rest@.len()),
        r@ + rest@ == s@,
{
    let n = s.as_bytes().len();
    let m = rest.as_bytes().len();
    proof {
        let head = s@.take(s@.len() - rest@.len());
        assert(s@ =~= head + rest@);
        lemma_encode_concat(head, rest@);
        lemma_boundary_after_prefix(head, rest@);
    }
    let (r, _) = s.split_at(n - m);
    proof {
        let head = s@.take(s@.len() - rest@.len());
        assert(r.spec_bytes() =~= encode_utf8(head));
        lemma_encode_injective(r@, head);
    }
    r
}

/// A text has at most as many characters as its UTF-8 encoding has bytes.
pub proof fn lemma_chars_le_bytes(s: Seq<char>)
    ensures
        s.len() <= encode_utf8(s).len(),
    decreases s.len(),
{
    if s.len() > 0 {
        lemma_chars_le_bytes(s.drop_first());
        char_is_scalar(s[0]);
    }
}

/// The number of bytes of `s`, which bounds the number of its characters.
pub fn byte_len(s: &str) -> (n: usize)
    ensures
        n == encode_utf8(s@).len(),
        s@.len() <= n,
{
    proof {
        lemma_chars_le_bytes(s@);
    }
    s.as_bytes().len()
}

/// Classes of characters by which a text is cut into runs.
#[derive(Debug, Clone, Copy, PartialEq, Eq, Structural)]
pub enum CharClass {
    /// A property or parameter name: alphanumerics and the hyphen, and never
    /// a line-break character.
    Name,
    /// A parameter value: anything but `:`, `;` and the line-break characters.
    ParamValue,
    /// The text of a line: anything but the line-break characters.
    LineText,
    /// White space.
    Space,
    /// A word: anything but white space.
    Word,
}

/// Whether `c` belongs to `class`, where `listed` says whether `c` stands
/// in the Unicode table that the class goes by: that of the alphanumerics
/// for a name, that of white space for a space and for a word.
pub open spec fn class_rule(class: CharClass, c: char, listed: bool) -> bool {
    match class {
        CharClass::Name => c == '-' || (c != '\r' && c != '\n' && listed),
        CharClass::ParamValue => c != ':' && c != ';' && c != '\r' && c != '\n',
        CharClass::LineText => c != '\r' && c != '\n',
        CharClass::Space => listed,
        CharClass::Word => !listed,
    }
}

/// Whether `c` stands in the Unicode table that `class` goes by.
pub open spec fn class_listed(class: CharClass, c: char) -> bool {
    match class {
        CharClass::Name => is_alphanumeric(c),
        CharClass::ParamValue => false,
        CharClass::LineText => false,
        CharClass::Space => is_whitespace(c),
        CharClass::Word => is_whitespace(c),
    }
}

/// Whether `c` belongs to `class`.
pub open spec fn class_has(class: CharClass, c: char) -> bool {
    class_rule(class, c, class_listed(class, c))
}

/// The length of the longest prefix of `s` made of characters of `class`.
pub open spec fn run_len(s: Seq<char>, class: CharClass) -> nat
    decreases s.len(),
{
    if s.len() > 0 && class_has(class, s[0]) {
        1 + run_len(s.skip(1), class)
    } else {
        0
    }
}

/// What `run_len` computes, said directly: the run is inside `s`, holds only
/// characters of the class, and cannot be made longer.
pub proof fn lemma_run_len(s: Seq<char>, class: CharClass)
    ensures
        run_len(s, class) <= s.len(),
        forall|i: int| 0 <= i < run_len(s, class) ==> class_has(class, #[trigger] s[i]),
        run_len(s, class) < s.len() ==> !class_has(class, s[run_len(s, class) as int]),
    decreases s.len(),
{
    if s.len() > 0 && class_has(class, s[0]) {
        lemma_run_len(s.skip(1), class);
        assert forall|i: int| 0 <= i < run_len(s, class) implies class_has(
            class,
            #[trigger] s[i],
        ) by {
            if i > 0 {
                assert(s[i] == s.skip(1)[i - 1]);
            }
        }
    }
}

/// What `char::is_alphanumeric` answers for `c`.
pub uninterp spec fn is_alphanumeric(c: char) -> bool;

/// Calls `char::is_alphanumeric`, which says whether Unicode classes `c` as
/// alphabetic or numeric. The answer depends on `c` alone; the contract gives
/// it a name and claims nothing else of it.
#[verifier::external_body]
fn char_is_alphanumeric(c: char) -> (b: bool)
    ensures
        b == is_alphanumeric(c),
{
    c.is_alphanumeric()
}

/// What `char::is_whitespace` answers for `c`.
pub uninterp spec fn is_whitespace(c: char) -> bool;

/// Calls `char::is_whitespace`, which says whether `c` has the Unicode
/// property `White_Space`. The answer depends on `c` alone; the contract
/// gives it a name and claims nothing else of it.
#[verifier::external_body]
fn char_is_whitespace(c: char) -> (b: bool)
    ensures
        b == is_whitespace(c),
{
    c.is_whitespace()
}

/// Whether `c` belongs to `class`, where `listed` says whether `c` stands
/// in the Unicode table that the class goes by.
pub fn class_admits(class: CharClass, c: char, listed: bool) -> (b: bool)
    ensures
        b == class_rule(class, c, listed),
{
    match class {
        CharClass::Name => c == '-' || (c != '\r' && c != '\n' && listed),
        CharClass::ParamValue => c != ':' && c != ';' && c != '\r' && c != '\n',
        CharClass::LineText => c != '\r' && c != '\n',
        CharClass::Space => listed,
        CharClass::Word => !listed,
    }
}

/// Whether `c` belongs to `class`.
pub fn in_class(class: CharClass, c: char) -> (b: bool)
    ensures
        b == class_has(class, c),
{
    let listed = match class {
        CharClass::Name => char_is_alphanumeric(c),
        CharClass::ParamValue => false,
        CharClass::LineText => false,
        CharClass::Space => char_is_whitespace(c),
        CharClass::Word => char_is_whitespace(c),
    };
    class_admits(class, c, listed)
}

/// Splits `s` behind its longest prefix of characters of `class`.
pub fn take_run<'a>(s: &'a str, class: CharClass) -> (r: (&'a str, &'a str))
    ensures
        r.0@ == s@.take(run_len(s@, class) as int),
        r.1@ == s@.skip(run_len(s@, class) as int),
{
    let mut cur = s;
    assert(s@ =~= s@.skip(0));
    loop
        invariant
            is_suffix_of(cur@, s@),
            run_len(s@, class) == (s@.len() - cur@.len()) + run_len(cur@, class),
        ensures
            is_suffix_of(cur@, s@),
            run_len(s@, class) == s@.len() - cur@.len(),
        decreases cur@.len(),
    {
        match first_char(cur) {
            Some(c) => {
                if !in_class(class, c) {
                    break;
                }
                let next = rest_after_first(cur);
                proof {
                    assert(next@ =~= s@.skip(s@.len() - next@.len()));
                }
                cur = next;
            },
            None => {
                break;
            },
        }
    }
    let run = prefix_before(s, cur);
    (run, cur)
}

/// A text that begins with `k` characters of a class has a run of at least
/// `k` characters of that class.
pub proof fn lemma_run_len_at_least(s: Seq<char>, class: CharClass, k: nat)
    requires
        k <= s.len(),
        forall|i: int| 0 <= i < k ==> class_has(class, #[trigger] s[i]),
    ensures
        run_len(s, class) >= k,
    decreases k,
{
    if k > 0 {
        assert(class_has(class, s[0]));
        assert forall|i: int| 0 <= i < k - 1 implies class_has(
            class,
            #[trigger] s.skip(1)[i],
        ) by {
            assert(s.skip(1)[i] == s[i + 1]);
        }
        lemma_run_len_at_least(s.skip(1), class, (k - 1) as nat);
    }
}

} // verus!
