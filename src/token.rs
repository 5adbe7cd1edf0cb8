//! Tokens, their mathematical model, and the spelling tables.
use vstd::prelude::*;
use crate::chars::{lower_seq, to_ascii_lower};

verus! {

#[derive(Debug, Clone, PartialEq, Eq)]
pub enum Token {
    Iden(String),
    Number(String),
    Hex(String),
    Label(String),
    Reg(u8),
    Assign,
    Negate,
    Minus,
    Plus,
    Div,
    Mult,
    Mod,
    Comma,
    Colon,
    Semicolon,
    Sharp,
    LeftSqBrace,
    RightSqBrace,
    LeftParen,
    RightParen,
    Proc,
    Macro,
    Return,
    True,
    False,
    Begin,
    End,
    Byte,
    HalfWord,
    Word,
    DoubleWord,
    Strz,
    Str,
    Equ,
    ByteAlign,
    P2Align,
    Section,
    TextSection,
    DataSection,
    UninitializedData,
    ReadOnlyData,
    Bad(char),
    BadLexeme(String),
}

/// What a token is, with its text as a sequence of characters.
pub ghost enum TokenModel {
    /// A token that carries no text.
    Plain(Token),
    Iden(Seq<char>),
    Number(Seq<char>),
    Hex(Seq<char>),
    Label(Seq<char>),
    BadLexeme(Seq<char>),
}

pub open spec fn model_of(t: Token) -> TokenModel {
    match t {
        Token::Iden(s) => TokenModel::Iden(s@),
        Token::Number(s) => TokenModel::Number(s@),
        Token::Hex(s) => TokenModel::Hex(s@),
        Token::Label(s) => TokenModel::Label(s@),
        Token::BadLexeme(s) => TokenModel::BadLexeme(s@),
        _ => TokenModel::Plain(t),
    }
}

/// The token of a single punctuation character.
pub open spec fn punct_token(c: char) -> Option<Token> {
    match c {
        '=' => Some(Token::Assign),
        '!' => Some(Token::Negate),
        '+' => Some(Token::Plus),
        '-' => Some(Token::Minus),
        '/' => Some(Token::Div),
        '*' => Some(Token::Mult),
        '%' => Some(Token::Mod),
        ',' => Some(Token::Comma),
        ':' => Some(Token::Colon),
        ';' => Some(Token::Semicolon),
        '#' => Some(Token::Sharp),
        '(' => Some(Token::LeftParen),
        ')' => Some(Token::RightParen),
        '[' => Some(Token::LeftSqBrace),
        ']' => Some(Token::RightSqBrace),
        _ => None,
    }
}

pub fn punctuation(c: char) -> (r: Option<Token>)
    ensures
        r == punct_token(c),
{
    match c {
        '=' => Some(Token::Assign),
        '!' => Some(Token::Negate),
        '+' => Some(Token::Plus),
        '-' => Some(Token::Minus),
        '/' => Some(Token::Div),
        '*' => Some(Token::Mult),
        '%' => Some(Token::Mod),
        ',' => Some(Token::Comma),
        ':' => Some(Token::Colon),
        ';' => Some(Token::Semicolon),
        '#' => Some(Token::Sharp),
        '(' => Some(Token::LeftParen),
        ')' => Some(Token::RightParen),
        '[' => Some(Token::LeftSqBrace),
        ']' => Some(Token::RightSqBrace),
        _ => None,
    }
}

/// The index of a register, by its numeric name or its ABI alias, in lower case.
pub open spec fn register_spelling(w: Seq<char>) -> Option<u8> {
    if w.len() == 2 {
        match (w[0], w[1]) {
            ('x', '0') => Some(0u8),
            ('x', '1') => Some(1u8),
            ('r', 'a') => Some(1u8),
            ('x', '2') => Some(2u8),
            ('s', 'p') => Some(2u8),
            ('x', '3') => Some(3u8),
            ('g', 'p') => Some(3u8),
            ('x', '4') => Some(4u8),
            ('t', 'p') => Some(4u8),
            ('x', '5') => Some(5u8),
            ('t', '0') => Some(5u8),
            ('x', '6') => Some(6u8),
            ('t', '1') => Some(6u8),
            ('x', '7') => Some(7u8),
            ('t', '2') => Some(7u8),
            ('x', '8') => Some(8u8),
            ('s', '0') => Some(8u8),
            ('f', 'p') => Some(8u8),
            ('x', '9') => Some(9u8),
            ('s', '1') => Some(9u8),
            ('a', '0') => Some(10u8),
            ('a', '1') => Some(11u8),
            ('a', '2') => Some(12u8),
            ('a', '3') => Some(13u8),
            ('a', '4') => Some(14u8),
            ('a', '5') => Some(15u8),
            ('a', '6') => Some(16u8),
            ('a', '7') => Some(17u8),
            ('s', '2') => Some(18u8),
            ('s', '3') => Some(19u8),
            ('s', '4') => Some(20u8),
            ('s', '5') => Some(21u8),
            ('s', '6') => Some(22u8),
            ('s', '7') => Some(23u8),
            ('s', '8') => Some(24u8),
            ('s', '9') => Some(25u8),
            ('t', '3') => Some(28u8),
            ('t', '4') => Some(29u8),
            ('t', '5') => Some(30u8),
            ('t', '6') => Some(31u8),
            _ => None,
        }
    } else if w.len() == 3 {
        match (w[0], w[1], w[2]) {
            ('x', '1', '0') => Some(10u8),
            ('x', '1', '1') => Some(11u8),
            ('x', '1', '2') => Some(12u8),
            ('x', '1', '3') => Some(13u8),
            ('x', '1', '4') => Some(14u8),
            ('x', '1', '5') => Some(15u8),
            ('x', '1', '6') => Some(16u8),
            ('x', '1', '7') => Some(17u8),
            ('x', '1', '8') => Some(18u8),
            ('x', '1', '9') => Some(19u8),
            ('x', '2', '0') => Some(20u8),
            ('x', '2', '1') => Some(21u8),
            ('x', '2', '2') => Some(22u8),
            ('x', '2', '3') => Some(23u8),
            ('x', '2', '4') => Some(24u8),
            ('x', '2', '5') => Some(25u8),
            ('x', '2', '6') => Some(26u8),
            ('s', '1', '0') => Some(26u8),
            ('x', '2', '7') => Some(27u8),
            ('s', '1', '1') => Some(27u8),
            ('x', '2', '8') => Some(28u8),
            ('x', '2', '9') => Some(29u8),
            ('x', '3', '0') => Some(30u8),
            ('x', '3', '1') => Some(31u8),
            _ => None,
        }
    } else if w.len() == 4 {
        match (w[0], w[1], w[2], w[3]) {
            ('z', 'e', 'r', 'o') => Some(0u8),
            _ => None,
        }
    } else {
        None
    }
}

pub fn register_named(w: &Vec<char>) -> (r: Option<u8>)
    ensures
        r == register_spelling(w@),
{
    if w.len() == 2 {
        match (w[0], w[1]) {
            ('x', '0') => Some(0u8),
            ('x', '1') => Some(1u8),
            ('r', 'a') => Some(1u8),
            ('x', '2') => Some(2u8),
            ('s', 'p') => Some(2u8),
            ('x', '3') => Some(3u8),
            ('g', 'p') => Some(3u8),
            ('x', '4') => Some(4u8),
            ('t', 'p') => Some(4u8),
            ('x', '5') => Some(5u8),
            ('t', '0') => Some(5u8),
            ('x', '6') => Some(6u8),
            ('t', '1') => Some(6u8),
            ('x', '7') => Some(7u8),
            ('t', '2') => Some(7u8),
            ('x', '8') => Some(8u8),
            ('s', '0') => Some(8u8),
            ('f', 'p') => Some(8u8),
            ('x', '9') => Some(9u8),
            ('s', '1') => Some(9u8),
            ('a', '0') => Some(10u8),
            ('a', '1') => Some(11u8),
            ('a', '2') => Some(12u8),
            ('a', '3') => Some(13u8),
            ('a', '4') => Some(14u8),
            ('a', '5') => Some(15u8),
            ('a', '6') => Some(16u8),
            ('a', '7') => Some(17u8),
            ('s', '2') => Some(18u8),
            ('s', '3') => Some(19u8),
            ('s', '4') => Some(20u8),
            ('s', '5') => Some(21u8),
            ('s', '6') => Some(22u8),
            ('s', '7') => Some(23u8),
            ('s', '8') => Some(24u8),
            ('s', '9') => Some(25u8),
            ('t', '3') => Some(28u8),
            ('t', '4') => Some(29u8),
            ('t', '5') => Some(30u8),
            ('t', '6') => Some(31u8),
            _ => None,
        }
    } else if w.len() == 3 {
        match (w[0], w[1], w[2]) {
            ('x', '1', '0') => Some(10u8),
            ('x', '1', '1') => Some(11u8),
            ('x', '1', '2') => Some(12u8),
            ('x', '1', '3') => Some(13u8),
            ('x', '1', '4') => Some(14u8),
            ('x', '1', '5') => Some(15u8),
            ('x', '1', '6') => Some(16u8),
            ('x', '1', '7') => Some(17u8),
            ('x', '1', '8') => Some(18u8),
            ('x', '1', '9') => Some(19u8),
            ('x', '2', '0') => Some(20u8),
            ('x', '2', '1') => Some(21u8),
            ('x', '2', '2') => Some(22u8),
            ('x', '2', '3') => Some(23u8),
            ('x', '2', '4') => Some(24u8),
            ('x', '2', '5') => Some(25u8),
            ('x', '2', '6') => Some(26u8),
            ('s', '1', '0') => Some(26u8),
            ('x', '2', '7') => Some(27u8),
            ('s', '1', '1') => Some(27u8),
            ('x', '2', '8') => Some(28u8),
            ('x', '2', '9') => Some(29u8),
            ('x', '3', '0') => Some(30u8),
            ('x', '3', '1') => Some(31u8),
            _ => None,
        }
    } else if w.len() == 4 {
        match (w[0], w[1], w[2], w[3]) {
            ('z', 'e', 'r', 'o') => Some(0u8),
            _ => None,
        }
    } else {
        None
    }
}

/// The reserved words, in lower case.
pub open spec fn keyword_spelling(w: Seq<char>) -> Option<Token> {
    if w.len() == 3 {
        match (w[0], w[1], w[2]) {
            ('e', 'n', 'd') => Some(Token::End),
            _ => None,
        }
    } else if w.len() == 4 {
        match (w[0], w[1], w[2], w[3]) {
            ('t', 'r', 'u', 'e') => Some(Token::True),
            ('p', 'r', 'o', 'c') => Some(Token::Proc),
            _ => None,
        }
    } else if w.len() == 5 {
        match (w[0], w[1], w[2], w[3], w[4]) {
            ('f', 'a', 'l', 's', 'e') => Some(Token::False),
            ('m', 'a', 'c', 'r', 'o') => Some(Token::Macro),
            ('b', 'e', 'g', 'i', 'n') => Some(Token::Begin),
            _ => None,
        }
    } else if w.len() == 6 {
        match (w[0], w[1], w[2], w[3], w[4], w[5]) {
            ('r', 'e', 't', 'u', 'r', 'n') => Some(Token::Return),
            _ => None,
        }
    } else {
        None
    }
}

pub fn keyword_named(w: &Vec<char>) -> (r: Option<Token>)
    ensures
        r == keyword_spelling(w@),
{
    if w.len() == 3 {
        match (w[0], w[1], w[2]) {
            ('e', 'n', 'd') => Some(Token::End),
            _ => None,
        }
    } else if w.len() == 4 {
        match (w[0], w[1], w[2], w[3]) {
            ('t', 'r', 'u', 'e') => Some(Token::True),
            ('p', 'r', 'o', 'c') => Some(Token::Proc),
            _ => None,
        }
    } else if w.len() == 5 {
        match (w[0], w[1], w[2], w[3], w[4]) {
            ('f', 'a', 'l', 's', 'e') => Some(Token::False),
            ('m', 'a', 'c', 'r', 'o') => Some(Token::Macro),
            ('b', 'e', 'g', 'i', 'n') => Some(Token::Begin),
            _ => None,
        }
    } else if w.len() == 6 {
        match (w[0], w[1], w[2], w[3], w[4], w[5]) {
            ('r', 'e', 't', 'u', 'r', 'n') => Some(Token::Return),
            _ => None,
        }
    } else {
        None
    }
}

/// The directives, spelled without their leading dot, in lower case.
pub open spec fn directive_spelling(w: Seq<char>) -> Option<Token> {
    if w.len() == 3 {
        match (w[0], w[1], w[2]) {
            ('e', 'q', 'u') => Some(Token::Equ),
            ('e', 'n', 'd') => Some(Token::End),
            ('b', 's', 's') => Some(Token::UninitializedData),
            _ => None,
        }
    } else if w.len() == 4 {
        match (w[0], w[1], w[2], w[3]) {
            ('b', 'y', 't', 'e') => Some(Token::Byte),
            ('h', 'a', 'l', 'f') => Some(Token::HalfWord),
            ('w', 'o', 'r', 'd') => Some(Token::Word),
            ('l', 'o', 'n', 'g') => Some(Token::Word),
            ('q', 'u', 'a', 'd') => Some(Token::DoubleWord),
            ('p', 'r', 'o', 'c') => Some(Token::Proc),
            ('d', 'a', 't', 'a') => Some(Token::DataSection),
            ('t', 'e', 'x', 't') => Some(Token::TextSection),
            _ => None,
        }
    } else if w.len() == 5 {
        match (w[0], w[1], w[2], w[3], w[4]) {
            ('2', 'b', 'y', 't', 'e') => Some(Token::HalfWord),
            ('s', 'h', 'o', 'r', 't') => Some(Token::HalfWord),
            ('4', 'b', 'y', 't', 'e') => Some(Token::Word),
            ('8', 'b', 'y', 't', 'e') => Some(Token::DoubleWord),
            ('d', 'w', 'o', 'r', 'd') => Some(Token::DoubleWord),
            ('a', 's', 'c', 'i', 'z') => Some(Token::Strz),
            ('m', 'a', 'c', 'r', 'o') => Some(Token::Macro),
            ('b', 'e', 'g', 'i', 'n') => Some(Token::Begin),
            ('a', 'l', 'i', 'g', 'n') => Some(Token::ByteAlign),
            _ => None,
        }
    } else if w.len() == 6 {
        match (w[0], w[1], w[2], w[3], w[4], w[5]) {
            ('s', 't', 'r', 'i', 'n', 'g') => Some(Token::Str),
            ('r', 'o', 'd', 'a', 't', 'a') => Some(Token::ReadOnlyData),
            _ => None,
        }
    } else if w.len() == 7 {
        match (w[0], w[1], w[2], w[3], w[4], w[5], w[6]) {
            ('p', '2', 'a', 'l', 'i', 'g', 'n') => Some(Token::P2Align),
            ('s', 'e', 'c', 't', 'i', 'o', 'n') => Some(Token::Section),
            _ => None,
        }
    } else {
        None
    }
}

pub fn directive_named(w: &Vec<char>) -> (r: Option<Token>)
    ensures
        r == directive_spelling(w@),
{
    if w.len() == 3 {
        match (w[0], w[1], w[2]) {
            ('e', 'q', 'u') => Some(Token::Equ),
            ('e', 'n', 'd') => Some(Token::End),
            ('b', 's', 's') => Some(Token::UninitializedData),
            _ => None,
        }
    } else if w.len() == 4 {
        match (w[0], w[1], w[2], w[3]) {
            ('b', 'y', 't', 'e') => Some(Token::Byte),
            ('h', 'a', 'l', 'f') => Some(Token::HalfWord),
            ('w', 'o', 'r', 'd') => Some(Token::Word),
            ('l', 'o', 'n', 'g') => Some(Token::Word),
            ('q', 'u', 'a', 'd') => Some(Token::DoubleWord),
            ('p', 'r', 'o', 'c') => Some(Token::Proc),
            ('d', 'a', 't', 'a') => Some(Token::DataSection),
            ('t', 'e', 'x', 't') => Some(Token::TextSection),
            _ => None,
        }
    } else if w.len() == 5 {
        match (w[0], w[1], w[2], w[3], w[4]) {
            ('2', 'b', 'y', 't', 'e') => Some(Token::HalfWord),
            ('s', 'h', 'o', 'r', 't') => Some(Token::HalfWord),
            ('4', 'b', 'y', 't', 'e') => Some(Token::Word),
            ('8', 'b', 'y', 't', 'e') => Some(Token::DoubleWord),
            ('d', 'w', 'o', 'r', 'd') => Some(Token::DoubleWord),
            ('a', 's', 'c', 'i', 'z') => Some(Token::Strz),
            ('m', 'a', 'c', 'r', 'o') => Some(Token::Macro),
            ('b', 'e', 'g', 'i', 'n') => Some(Token::Begin),
            ('a', 'l', 'i', 'g', 'n') => Some(Token::ByteAlign),
            _ => None,
        }
    } else if w.len() == 6 {
        match (w[0], w[1], w[2], w[3], w[4], w[5]) {
            ('s', 't', 'r', 'i', 'n', 'g') => Some(Token::Str),
            ('r', 'o', 'd', 'a', 't', 'a') => Some(Token::ReadOnlyData),
            _ => None,
        }
    } else if w.len() == 7 {
        match (w[0], w[1], w[2], w[3], w[4], w[5], w[6]) {
            ('p', '2', 'a', 'l', 'i', 'g', 'n') => Some(Token::P2Align),
            ('s', 'e', 'c', 't', 'i', 'o', 'n') => Some(Token::Section),
            _ => None,
        }
    } else {
        None
    }
}


/// What a word names, looked up without regard to ASCII case: a register
/// first, then a reserved word, then a directive written without its dot.
pub open spec fn word_token(w: Seq<char>) -> Option<Token> {
    let l = lower_seq(w);
    match register_spelling(l) {
        Some(n) => Some(Token::Reg(n)),
        None => match keyword_spelling(l) {
            Some(t) => Some(t),
            None => directive_spelling(l),
        },
    }
}

/// What a word written after a dot names, without regard to ASCII case.
pub open spec fn dotted_token(w: Seq<char>) -> Option<Token> {
    directive_spelling(lower_seq(w))
}

pub fn lowered(w: &Vec<char>) -> (r: Vec<char>)
    ensures
        r@ == lower_seq(w@),
{
    let mut r: Vec<char> = Vec::new();
    let mut i: usize = 0;
    while i < w.len()
        invariant
            i <= w.len(),
            r@ == lower_seq(w@).take(i as int),
        decreases w.len() - i,
    {
        r.push(to_ascii_lower(w[i]));
        i += 1;
        assert(r@ =~= lower_seq(w@).take(i as int));
    }
    assert(r@ =~= lower_seq(w@));
    r
}

pub fn lookup_word(w: &Vec<char>) -> (r: Option<Token>)
    ensures
        r == word_token(w@),
{
    let l = lowered(w);
    match register_named(&l) {
        Some(n) => Some(Token::Reg(n)),
        None => match keyword_named(&l) {
            Some(t) => Some(t),
            None => directive_named(&l),
        },
    }
}

pub fn lookup_dotted(w: &Vec<char>) -> (r: Option<Token>)
    ensures
        r == dotted_token(w@),
{
    let l = lowered(w);
    directive_named(&l)
}

} // verus!
