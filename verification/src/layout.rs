//! Measures for laying a day's events out on a display: paddings, widths,
//! the minute of the day, and the wrapping of a text into lines.

use vstd::prelude::*;
use vstd::string::*;
use crate::text::{first_char, lemma_run_len, run_len, take_run, CharClass};

verus! {

/// The quotient of `a` by `b` rounded towards zero, as machine integers
/// divide.
pub open spec fn div_towards_zero(a: int, b: int) -> int {
    if a >= 0 {
        a / b
    } else {
        -((-a) / b)
    }
}

/// The quotient of a natural number by a number other than zero is no
/// larger in magnitude than the number itself.
pub proof fn lemma_quotient_bounded(a: int, b: int)
    requires
        a >= 0,
        b != 0,
    ensures
        -a <= a / b <= a,
{
    if b > 0 {
        assert(0 <= a / b <= a) by (nonlinear_arith)
            requires
                a >= 0,
                b > 0,
        ;
    } else {
        assert(-a <= a / b <= 0) by (nonlinear_arith)
            requires
                a >= 0,
                b < 0,
        ;
    }
}

/// The padding that each of `item_count` items of size `text_size` gets
/// when they share `full_size`: what the items leave free, divided among
/// them and rounded towards zero.
pub fn calculate_padding(full_size: u32, text_size: i32, item_count: i32) -> (r: i32)
    requires
        item_count != 0,
        full_size <= i32::MAX,
        i32::MIN <= text_size * item_count <= i32::MAX,
        full_size - text_size * item_count <= i32::MAX,
    ensures
        r == div_towards_zero(full_size - text_size * item_count, item_count as int),
{
    let s = full_size as i32 - (text_size * item_count);
    proof {
        lemma_quotient_bounded(if s >= 0 { s as int } else { -s }, item_count as int);
    }
    s / item_count
}

/// The width of `char_count` characters of a font whose characters are
/// `font_size` wide.
pub fn calculate_left_side_width(font_size: u32, char_count: i32) -> (r: i32)
    requires
        font_size <= i32::MAX,
        i32::MIN <= font_size * char_count <= i32::MAX,
    ensures
        r == font_size * char_count,
{
    font_size as i32 * char_count
}

/// The width of an event that reaches from the left edge of a display of
/// width `display_width` to `left_offset`: `left_offset` itself.
pub fn calculate_event_width(display_width: i32, left_offset: i32) -> (r: i32)
    requires
        i32::MIN <= display_width - left_offset <= i32::MAX,
    ensures
        r == left_offset,
{
    display_width - (display_width - left_offset)
}

/// The minute of the day at `hour` hours and `minute` minutes.
pub fn minute_of_day(hour: u8, minute: u8) -> (r: u16)
    ensures
        r == hour * 60 + minute,
{
    hour as u16 * 60 + minute as u16
}

/// The number of characters `char_width` wide that fit into a line of a box
/// `width` wide, of which 4 stay free.
pub fn max_chars_per_line(width: i32, char_width: u32) -> (r: u32)
    requires
        char_width != 0,
    ensures
        r == if width > 4 {
            (width - 4) / (char_width as int)
        } else {
            0
        },
{
    if width > 4 {
        (width - 4) as u32 / char_width
    } else {
        0
    }
}

/// The words of `s`: its longest runs of characters that are no white
/// space, in their order.
pub open spec fn spec_words(s: Seq<char>) -> Seq<Seq<char>>
    decreases s.len(),
    via spec_words_decreases
{
    let t = s.skip(run_len(s, CharClass::Space) as int);
    let n = run_len(t, CharClass::Word) as int;
    if n == 0 {
        Seq::empty()
    } else {
        seq![t.take(n)] + spec_words(t.skip(n))
    }
}

#[via_fn]
proof fn spec_words_decreases(s: Seq<char>) {
    lemma_run_len(s, CharClass::Space);
    lemma_run_len(s.skip(run_len(s, CharClass::Space) as int), CharClass::Word);
}

/// The character sequences of the slices `v`.
pub open spec fn words_view<'a>(v: Seq<&'a str>) -> Seq<Seq<char>> {
    Seq::new(v.len(), |i: int| v[i]@)
}

/// Splits `text` into its words, as `str::split_whitespace` does.
pub fn split_words<'a>(text: &'a str) -> (r: Vec<&'a str>)
    ensures
        words_view(r@) == spec_words(text@),
{
    let mut words: Vec<&'a str> = Vec::new();
    let mut cur = text;
    assert(words_view(words@) + spec_words(text@) =~= spec_words(text@));
    loop
        invariant
            spec_words(text@) == words_view(words@) + spec_words(cur@),
        ensures
            spec_words(text@) == words_view(words@),
        decreases cur@.len(),
    {
        let (_, t) = take_run(cur, CharClass::Space);
        let (word, rest) = take_run(t, CharClass::Word);
        proof {
            lemma_run_len(cur@, CharClass::Space);
            lemma_run_len(t@, CharClass::Word);
        }
        if first_char(word).is_none() {
            proof {
                assert(words_view(words@) + Seq::<Seq<char>>::empty() =~= words_view(words@));
            }
            break;
        }
        proof {
            let before = words_view(words@);
            assert(words_view(words@.push(word)) =~= before + seq![word@]);
            assert(before + (seq![word@] + spec_words(rest@)) =~= before + seq![word@]
                + spec_words(rest@));
        }
        words.push(word);
        cur = rest;
    }
    words
}

/// The text made of `words` wrapped into lines of at most `max` characters,
/// with `line_len` characters already on the current line. A word goes onto
/// the current line behind one space where it fits there, and opens a new
/// line where it does not; a word longer than a line stands on a line of its
/// own and is not cut.
pub open spec fn spec_wrap(words: Seq<Seq<char>>, max: nat, line_len: nat) -> Seq<char>
    decreases words.len(),
{
    if words.len() == 0 {
        Seq::empty()
    } else {
        let w = words[0];
        let rest = words.skip(1);
        if line_len > 0 && line_len + 1 + w.len() > max {
            seq!['\n'] + w + spec_wrap(rest, max, w.len())
        } else if line_len > 0 {
            seq![' '] + w + spec_wrap(rest, max, line_len + 1 + w.len())
        } else {
            w + spec_wrap(rest, max, w.len())
        }
    }
}

/// Wraps `words` into lines of at most `max` characters.
pub fn wrap_words(words: &Vec<&str>, max: usize) -> (r: String)
    ensures
        r@ == spec_wrap(words_view(words@), max as nat, 0),
{
    let ghost all = words_view(words@);
    let mut wrapped = String::new();
    let mut line_len: usize = 0;
    let mut i: usize = 0;
    assert(all.skip(0) =~= all);
    assert(wrapped@ + spec_wrap(all, max as nat, 0) =~= spec_wrap(all, max as nat, 0));
    while i < words.len()
        invariant
            all == words_view(words@),
            i <= words.len(),
            spec_wrap(all, max as nat, 0) == wrapped@ + spec_wrap(
                all.skip(i as int),
                max as nat,
                line_len as nat,
            ),
        decreases words.len() - i,
    {
        let word = words[i];
        let word_len = word.unicode_len();
        let ghost before = wrapped@;
        let ghost tail = all.skip(i as int);
        proof {
            assert(tail[0] == word@);
            assert(tail.skip(1) =~= all.skip(i + 1));
        }
        if line_len > 0 && (line_len >= max || word_len > max - line_len - 1) {
            wrapped.append("\n");
            wrapped.append(word);
            proof {
                reveal_strlit("\n");
                assert("\n"@ =~= seq!['\n']);
                assert(before + (seq!['\n'] + word@ + spec_wrap(
                    tail.skip(1),
                    max as nat,
                    word_len as nat,
                )) =~= before + seq!['\n'] + word@ + spec_wrap(
                    tail.skip(1),
                    max as nat,
                    word_len as nat,
                ));
            }
            line_len = word_len;
        } else if line_len > 0 {
            wrapped.append(" ");
            wrapped.append(word);
            proof {
                reveal_strlit(" ");
                assert(" "@ =~= seq![' ']);
                assert(before + (seq![' '] + word@ + spec_wrap(
                    tail.skip(1),
                    max as nat,
                    (line_len + 1 + word_len) as nat,
                )) =~= before + seq![' '] + word@ + spec_wrap(
                    tail.skip(1),
                    max as nat,
                    (line_len + 1 + word_len) as nat,
                ));
            }
            line_len = line_len + 1 + word_len;
        } else {
            wrapped.append(word);
            proof {
                assert(before + (word@ + spec_wrap(tail.skip(1), max as nat, word_len as nat))
                    =~= before + word@ + spec_wrap(tail.skip(1), max as nat, word_len as nat));
            }
            line_len = word_len;
        }
        i += 1;
    }
    proof {
        assert(all.skip(i as int) =~= Seq::<Seq<char>>::empty());
        assert(wrapped@ + Seq::<char>::empty() =~= wrapped@);
    }
    wrapped
}

/// Wraps the words of `text` into lines of at most `max` characters: white
/// space of any length between two words becomes one space or one line
/// break.
pub fn wrap_text(text: &str, max: usize) -> (r: String)
    ensures
        r@ == spec_wrap(spec_words(text@), max as nat, 0),
{
    let words = split_words(text);
    wrap_words(&words, max)
}

} // verus!
