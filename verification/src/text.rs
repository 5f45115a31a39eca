//! Conversions between strings and sequences of characters.

use vstd::prelude::*;
use vstd::utf8::{encode_scalar, encode_utf8, is_ascii_chars_encode_utf8};

verus! {

/// The number of bytes that the characters before place `at` take in UTF-8:
/// the byte offset of that place.
pub open spec fn byte_offset(text: Seq<char>, at: int) -> nat {
    encode_utf8(text.take(at)).len()
}

pub open spec fn is_ascii(c: char) -> bool {
    c <= '\u{7f}'
}

/// The encoding of a text with one character more is the encoding of the
/// text, then that of the character.
pub proof fn lemma_encode_push(chars: Seq<char>, last: char)
    ensures
        encode_utf8(chars.push(last)) == encode_utf8(chars) + encode_scalar(last as u32),
    decreases chars.len(),
{
    if chars.len() == 0 {
        assert(chars.push(last).drop_first() == chars);
    } else {
        lemma_encode_push(chars.drop_first(), last);
        assert(chars.push(last).drop_first() == chars.drop_first().push(last));
    }
}

/// A character moves the byte offset on by the bytes that it takes.
pub proof fn lemma_offset_step(text: Seq<char>, at: int)
    requires
        0 <= at < text.len(),
    ensures
        byte_offset(text, at + 1) == byte_offset(text, at) + encode_scalar(text[at] as u32).len(),
{
    assert(text.take(at + 1) == text.take(at).push(text[at]));
    lemma_encode_push(text.take(at), text[at]);
}

/// No place of a text lies further than the text has bytes.
pub proof fn lemma_offset_bound(text: Seq<char>, at: int)
    requires
        0 <= at <= text.len(),
    ensures
        byte_offset(text, at) <= encode_utf8(text).len(),
    decreases text.len() - at,
{
    if at == text.len() {
        assert(text.take(at) == text);
    } else {
        lemma_offset_step(text, at);
        lemma_offset_bound(text, at + 1);
    }
}

proof fn lemma_least_char(c: char)
    ensures
        '\0' <= c,
{
}

/// After ASCII characters alone the byte offset is the number of
/// characters.
pub proof fn lemma_offset_ascii(text: Seq<char>, at: int)
    requires
        0 <= at <= text.len(),
        forall|i: int| 0 <= i < at ==> is_ascii(#[trigger] text[i]),
    ensures
        byte_offset(text, at) == at,
{
    let before = text.take(at);
    assert forall|i: int| 0 <= i < before.len() implies '\0' <= (#[trigger] before[i])
        && before[i] <= '\u{7f}' by {
        lemma_least_char(before[i]);
    }
    is_ascii_chars_encode_utf8(text.take(at));
}

/// The number of bytes that a character takes in UTF-8.
pub fn width_of(c: char) -> (width: usize)
    ensures
        width == encode_scalar(c as u32).len(),
        1 <= width <= 4,
{
    let scalar = c as u32;
    if scalar <= 0x7F {
        1
    } else if scalar <= 0x7FF {
        2
    } else if scalar <= 0xFFFF {
        3
    } else {
        4
    }
}

/// `String::push` of std appends one character to the end of the string.
pub assume_specification[ String::push ](s: &mut String, c: char)
    ensures
        final(s)@ == old(s)@.push(c),
;

/// The characters of `s`, in order.
pub fn chars_of(s: &str) -> (out: Vec<char>)
    ensures
        out@ == s@,
{
    let mut out: Vec<char> = Vec::new();
    for c in it: s.chars()
        invariant
            it.seq() == s@,
            out@ == s@.take(it.index() as int),
    {
        out.push(c);
    }
    out
}

/// The string made of `chars[from..to]`.
pub fn string_of(chars: &Vec<char>, from: usize, to: usize) -> (out: String)
    requires
        from <= to <= chars.len(),
    ensures
        out@ == chars@.subrange(from as int, to as int),
{
    let mut out = String::new();
    let mut i: usize = from;
    while i < to
        invariant
            from <= i <= to <= chars.len(),
            out@ == chars@.subrange(from as int, i as int),
        decreases to - i,
    {
        out.push(chars[i]);
        i += 1;
    }
    out
}

/// Whether `chars` spells `word`.
pub fn spells(chars: &Vec<char>, word: &str) -> (same: bool)
    ensures
        same == (chars@ == word@),
{
    let other = chars_of(word);
    if chars.len() != other.len() {
        return false;
    }
    let mut i: usize = 0;
    while i < chars.len()
        invariant
            i <= chars.len() == other.len(),
            other@ == word@,
            forall|k: int| 0 <= k < i ==> chars[k] == other[k],
        decreases chars.len() - i,
    {
        if chars[i] != other[i] {
            return false;
        }
        i += 1;
    }
    assert(chars@ =~= other@);
    true
}

} // verus!
