//! Character classes used by the lexer.
//!
//! The Unicode properties behind `char::is_alphabetic`, `char::is_numeric`
//! and `char::is_whitespace` are stated exactly for ASCII characters and
//! named, not spelled out, beyond it.
use vstd::prelude::*;

verus! {

/// The Unicode `Alphabetic` property of a character beyond ASCII.
pub uninterp spec fn unicode_alphabetic(c: char) -> bool;

/// The Unicode numeric categories (`Nd`, `Nl`, `No`) of a character beyond
/// ASCII.
pub uninterp spec fn unicode_numeric(c: char) -> bool;

/// The Unicode `White_Space` property of a character beyond ASCII.
pub uninterp spec fn unicode_white_space(c: char) -> bool;

pub open spec fn alphabetic(c: char) -> bool {
    if is_ascii(c) {
        ascii_letter(c)
    } else {
        unicode_alphabetic(c)
    }
}

pub open spec fn numeric(c: char) -> bool {
    if is_ascii(c) {
        dec_digit(c)
    } else {
        unicode_numeric(c)
    }
}

pub open spec fn white_space(c: char) -> bool {
    if is_ascii(c) {
        c == ' ' || ('\t' <= c && c <= '\r')
    } else {
        unicode_white_space(c)
    }
}

pub open spec fn is_ascii(c: char) -> bool {
    (c as u32) < 128
}

pub open spec fn ascii_letter(c: char) -> bool {
    ('a' <= c && c <= 'z') || ('A' <= c && c <= 'Z')
}

pub open spec fn dec_digit(c: char) -> bool {
    '0' <= c && c <= '9'
}

pub open spec fn hex_digit(c: char) -> bool {
    dec_digit(c) || ('a' <= c && c <= 'f') || ('A' <= c && c <= 'F')
}

/// Characters that may continue an identifier.
pub open spec fn word_char(c: char) -> bool {
    alphabetic(c) || numeric(c) || c == '_'
}

/// ASCII upper case letters folded to lower case; everything else unchanged.
pub open spec fn ascii_lower(c: char) -> char {
    if 'A' <= c && c <= 'Z' {
        ((c as u32) + 32) as char
    } else {
        c
    }
}

pub open spec fn lower_seq(s: Seq<char>) -> Seq<char> {
    Seq::new(s.len(), |i: int| ascii_lower(s[i]))
}

/// Relies on `char::is_alphabetic`: the Alphabetic property, which among
/// ASCII characters holds of the letters alone.
#[verifier::external_body]
pub fn is_alphabetic(c: char) -> (r: bool)
    ensures
        r == alphabetic(c),
        !is_ascii(c) ==> r == unicode_alphabetic(c),
{
    c.is_alphabetic()
}

/// Relies on `char::is_numeric`: the numeric categories, which among ASCII
/// characters hold of the decimal digits alone.
#[verifier::external_body]
pub fn is_numeric(c: char) -> (r: bool)
    ensures
        r == numeric(c),
        !is_ascii(c) ==> r == unicode_numeric(c),
{
    c.is_numeric()
}

/// Relies on `char::is_whitespace`: the White_Space property, which among
/// ASCII characters holds of the space and of `'\t'` through `'\r'`.
#[verifier::external_body]
pub fn is_whitespace(c: char) -> (r: bool)
    ensures
        r == white_space(c),
        !is_ascii(c) ==> r == unicode_white_space(c),
{
    c.is_whitespace()
}

pub fn is_word_char(c: char) -> (r: bool)
    ensures
        r == word_char(c),
{
    is_alphabetic(c) || is_numeric(c) || c == '_'
}

pub fn is_hex_digit(c: char) -> (r: bool)
    ensures
        r == hex_digit(c),
{
    ('0' <= c && c <= '9') || ('a' <= c && c <= 'f') || ('A' <= c && c <= 'F')
}

pub fn to_ascii_lower(c: char) -> (r: char)
    ensures
        r == ascii_lower(c),
{
    if 'A' <= c && c <= 'Z' {
        ((c as u8) + 32) as char
    } else {
        c
    }
}

/// Relies on `String::push`: appends one character at the end.
#[verifier::external_body]
pub fn push_char(s: &mut String, c: char)
    ensures
        final(s)@ == old(s)@.push(c),
{
    s.push(c);
}

pub fn string_of(cs: &Vec<char>) -> (r: String)
    ensures
        r@ == cs@,
{
    let mut r = String::new();
    let mut i: usize = 0;
    while i < cs.len()
        invariant
            i <= cs.len(),
            r@ == cs@.take(i as int),
        decreases cs.len() - i,
    {
        push_char(&mut r, cs[i]);
        i += 1;
        assert(r@ =~= cs@.take(i as int));
    }
    assert(cs@.take(cs.len() as int) =~= cs@);
    r
}

} // verus!
