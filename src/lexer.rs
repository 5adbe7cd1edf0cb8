//! The lexer: a forward-only cursor over borrowed source text that yields
//! one token per call.
//!
//! Every line feed consumed counts toward the line number. A leading `0`
//! that is not followed by `x` or `X` is dropped from the number that
//! follows it (`007` lexes as the number `07`). A `.` starts a directive only
//! when a letter follows it.
use vstd::prelude::*;
use vstd::string::StrSliceExecFns;
use crate::chars::{
    alphabetic, ascii_letter, ascii_lower, dec_digit, hex_digit, is_alphabetic, is_ascii,
    is_hex_digit, is_numeric, is_whitespace, is_word_char, lower_seq, numeric, string_of,
    white_space, word_char,
};
use crate::token::{
    dotted_token, lookup_dotted, lookup_word, model_of, punct_token, punctuation,
    register_spelling, word_token, Token, TokenModel,
};

verus! {

/// A class of characters that a lexeme is made of.
#[derive(Clone, Copy)]
pub enum CharClass {
    Space,
    Word,
    Digit,
    HexDigit,
}

pub open spec fn in_class(k: CharClass, c: char) -> bool {
    match k {
        CharClass::Space => white_space(c),
        CharClass::Word => word_char(c),
        CharClass::Digit => numeric(c),
        CharClass::HexDigit => hex_digit(c),
    }
}

/// The end of the run of characters of class `k` that starts at `i`.
pub open spec fn span(s: Seq<char>, i: int, k: CharClass) -> int
    decreases s.len() - i,
{
    if 0 <= i < s.len() && in_class(k, s[i]) {
        span(s, i + 1, k)
    } else {
        i
    }
}

/// The number of line feeds in `s`.
pub open spec fn newlines(s: Seq<char>) -> nat
    decreases s.len(),
{
    if s.len() == 0 {
        0
    } else {
        newlines(s.drop_last()) + if s.last() == '\n' { 1nat } else { 0nat }
    }
}

/// A line number moved on by `n` lines, held at `u32::MAX`.
pub open spec fn line_after(l: u32, n: nat) -> u32 {
    if l + n > u32::MAX {
        u32::MAX
    } else {
        (l + n) as u32
    }
}

/// The token that a `.` at `i` starts, and where it ends.
pub open spec fn lex_dot(s: Seq<char>, i: int) -> (TokenModel, int) {
    if i + 1 < s.len() && alphabetic(s[i + 1]) {
        let j = span(s, i + 2, CharClass::Word);
        let w = s.subrange(i + 1, j);
        match dotted_token(w) {
            Some(t) => (TokenModel::Plain(t), j),
            None => (TokenModel::BadLexeme(w), j),
        }
    } else {
        (TokenModel::Plain(Token::Bad('.')), i + 1)
    }
}

/// The token that a letter at `i` starts: a register, reserved word or
/// directive, else a label when a `:` follows at once, else an identifier.
pub open spec fn lex_word(s: Seq<char>, i: int) -> (TokenModel, int) {
    let j = span(s, i + 1, CharClass::Word);
    let w = s.subrange(i, j);
    match word_token(w) {
        Some(t) => (TokenModel::Plain(t), j),
        None => if j < s.len() && s[j] == ':' {
            (TokenModel::Label(w), j + 1)
        } else {
            (TokenModel::Iden(w), j)
        },
    }
}

/// The token that a decimal digit at `i` starts. After a `0`, an `x` or `X`
/// starts a hexadecimal literal; any other character is consumed and starts
/// the text of a decimal number, so the `0` itself is dropped. A `0` at the
/// very end is the number `0`.
pub open spec fn lex_digit(s: Seq<char>, i: int) -> (TokenModel, int) {
    if s[i] != '0' {
        let j = span(s, i + 1, CharClass::Digit);
        (TokenModel::Number(s.subrange(i, j)), j)
    } else if i + 1 >= s.len() {
        (TokenModel::Number(seq!['0']), i + 1)
    } else if s[i + 1] == 'x' || s[i + 1] == 'X' {
        let j = span(s, i + 2, CharClass::HexDigit);
        if j > i + 2 {
            (TokenModel::Hex(seq!['0', 'X'] + s.subrange(i + 2, j)), j)
        } else {
            (TokenModel::BadLexeme(seq!['0', 'X']), j)
        }
    } else {
        let j = span(s, i + 2, CharClass::Digit);
        (TokenModel::Number(s.subrange(i + 1, j)), j)
    }
}

/// The first token of `s` and the number of characters it takes up,
/// whitespace before it included; `None` when only whitespace is left.
pub open spec fn lex_token(s: Seq<char>) -> Option<(TokenModel, int)> {
    let i = span(s, 0, CharClass::Space);
    if i >= s.len() {
        None
    } else {
        let c = s[i];
        if punct_token(c) is Some {
            Some((TokenModel::Plain(punct_token(c)->0), i + 1))
        } else if c == '.' {
            Some(lex_dot(s, i))
        } else if alphabetic(c) {
            Some(lex_word(s, i))
        } else if dec_digit(c) {
            Some(lex_digit(s, i))
        } else {
            Some((TokenModel::Plain(Token::Bad(c)), i + 1))
        }
    }
}

/// How many characters of `s` the next call of the lexer consumes.
pub open spec fn lex_len(s: Seq<char>) -> int {
    match lex_token(s) {
        Some((_, n)) => n,
        None => s.len() as int,
    }
}


pub open spec fn models(v: Seq<Token>) -> Seq<TokenModel> {
    v.map_values(|t: Token| model_of(t))
}

/// Every token of `s`, in order.
pub open spec fn lex_all(s: Seq<char>) -> Seq<TokenModel>
    decreases s.len(),
{
    match lex_token(s) {
        None => Seq::empty(),
        Some((m, n)) => if 0 < n <= s.len() {
            seq![m] + lex_all(s.skip(n))
        } else {
            Seq::empty()
        },
    }
}

/// Whether a comma stands first after whitespace, and how many characters
/// expecting it consumes: the whitespace, and the comma when it is there.
pub open spec fn comma_len(s: Seq<char>) -> (bool, int) {
    let w = span(s, 0, CharClass::Space);
    if w < s.len() && s[w] == ',' {
        (true, w + 1)
    } else {
        (false, w)
    }
}

/// Every token takes up at least one character and no more than is there.
pub proof fn lemma_lex_progress(s: Seq<char>)
    ensures
        lex_token(s) matches Some((_, n)) ==> 0 < n <= s.len(),
        0 <= comma_len(s).1 <= s.len(),
{
    let i = span(s, 0, CharClass::Space);
    lemma_span_bounds(s, 0, CharClass::Space);
    if i < s.len() {
        if i + 1 < s.len() {
            lemma_span_bounds(s, i + 1, CharClass::Word);
            lemma_span_bounds(s, i + 1, CharClass::Digit);
        }
        if i + 2 <= s.len() {
            lemma_span_bounds(s, i + 2, CharClass::Word);
            lemma_span_bounds(s, i + 2, CharClass::Digit);
            lemma_span_bounds(s, i + 2, CharClass::HexDigit);
        }
    }
}

/// Input made of whitespace alone yields no token.
pub proof fn lemma_whitespace_yields_nothing(s: Seq<char>)
    requires
        forall|k: int| 0 <= k < s.len() ==> white_space(#[trigger] s[k]),
    ensures
        lex_token(s) is None,
        lex_all(s) == Seq::<TokenModel>::empty(),
{
    lemma_span_all(s, 0, CharClass::Space);
}

proof fn lemma_span_all(s: Seq<char>, i: int, k: CharClass)
    requires
        0 <= i <= s.len(),
        forall|m: int| i <= m < s.len() ==> in_class(k, #[trigger] s[m]),
    ensures
        span(s, i, k) == s.len(),
    decreases s.len() - i,
{
    if i < s.len() {
        lemma_span_all(s, i + 1, k);
    }
}

/// Each punctuation character, alone, yields its own token and nothing else,
/// and no two punctuation characters share a token.
pub proof fn lemma_punctuation_alone(c: char, d: char)
    requires
        punct_token(c) is Some,
    ensures
        lex_all(seq![c]) == seq![TokenModel::Plain(punct_token(c)->0)],
        punct_token(d) == punct_token(c) ==> d == c,
{
    let s = seq![c];
    assert(span(s, 1, CharClass::Space) == 1);
    assert(span(s, 0, CharClass::Space) == 0);
    assert(s.skip(1) =~= Seq::<char>::empty());
    assert(span(s.skip(1), 0, CharClass::Space) == 0);
    assert(lex_all(s.skip(1)) == Seq::<TokenModel>::empty());
    assert(lex_all(s) =~= seq![TokenModel::Plain(punct_token(c)->0)]);
}

proof fn lemma_lower_keeps_class(c: char)
    ensures
        ascii_letter(ascii_lower(c)) ==> ascii_letter(c) && is_ascii(c),
        dec_digit(ascii_lower(c)) ==> dec_digit(c) && is_ascii(c),
{
}

proof fn lemma_register_chars(w: Seq<char>)
    requires
        register_spelling(lower_seq(w)) is Some,
    ensures
        2 <= w.len() <= 4,
        ascii_letter(w[0]) && is_ascii(w[0]),
        forall|k: int| 0 <= k < w.len() ==> is_ascii(#[trigger] w[k]) && (ascii_letter(w[k]) || dec_digit(w[k])),
{
    let l = lower_seq(w);
    assert(2 <= l.len() <= 4);
    assert(ascii_letter(l[0]));
    assert forall|k: int| 0 <= k < w.len() implies is_ascii(#[trigger] w[k]) && (ascii_letter(w[k]) || dec_digit(w[k])) by {
        assert(ascii_letter(l[k]) || dec_digit(l[k]));
        lemma_lower_keeps_class(w[k]);
    }
    lemma_lower_keeps_class(w[0]);
}

/// A register name, by number or ABI alias and in any ASCII case, lexed
/// alone yields that register and nothing else.
pub proof fn lemma_register_names(w: Seq<char>)
    requires
        register_spelling(lower_seq(w)) is Some,
    ensures
        lex_all(w) == seq![TokenModel::Plain(Token::Reg(register_spelling(lower_seq(w))->0))],
{
    lemma_register_chars(w);
    assert(!white_space(w[0]));
    assert(span(w, 0, CharClass::Space) == 0);
    lemma_span_all(w, 1, CharClass::Word);
    assert(w.subrange(0, w.len() as int) =~= w);
    assert(w.skip(w.len() as int) =~= Seq::<char>::empty());
    assert(span(w.skip(w.len() as int), 0, CharClass::Space) == 0);
    assert(lex_all(w.skip(w.len() as int)) == Seq::<TokenModel>::empty());
    assert(lex_all(w) =~= seq![TokenModel::Plain(Token::Reg(register_spelling(lower_seq(w))->0))]);
}

proof fn lemma_newlines_concat(a: Seq<char>, b: Seq<char>)
    ensures
        newlines(a + b) == newlines(a) + newlines(b),
    decreases b.len(),
{
    if b.len() > 0 {
        assert((a + b).drop_last() =~= a + b.drop_last());
        lemma_newlines_concat(a, b.drop_last());
    } else {
        assert(a + b =~= a);
    }
}

proof fn lemma_newlines_one(c: char)
    ensures
        newlines(seq![c]) == if c == '\n' { 1nat } else { 0nat },
{
    assert(seq![c].drop_last() =~= Seq::<char>::empty());
    assert(newlines(Seq::<char>::empty()) == 0);
    assert(seq![c].last() == c);
}

/// A run that starts inside a suffix ends where the same run of the whole
/// sequence ends.
proof fn lemma_span_skip(s: Seq<char>, i: int, j: int, k: CharClass)
    requires
        0 <= i <= s.len(),
        0 <= j,
    ensures
        span(s.skip(i), j, k) == span(s, i + j, k) - i,
    decreases s.len() - (i + j),
{
    if i + j < s.len() && in_class(k, s[i + j]) {
        lemma_span_skip(s, i, j + 1, k);
    }
}

proof fn lemma_span_bounds(s: Seq<char>, i: int, k: CharClass)
    requires
        0 <= i <= s.len(),
    ensures
        i <= span(s, i, k) <= s.len(),
        forall|m: int| i <= m < span(s, i, k) ==> in_class(k, #[trigger] s[m]),
        span(s, i, k) < s.len() ==> !in_class(k, s[span(s, i, k)]),
    decreases s.len() - i,
{
    if i < s.len() && in_class(k, s[i]) {
        lemma_span_bounds(s, i + 1, k);
    }
}

/// Source text loaded for assembly, with where it came from. A load that
/// failed holds its message and no text.
pub struct Source {
    fname: String,
    text: String,
    error: String,
}

impl Source {
    pub open spec fn wf(&self) -> bool {
        self.spec_error().len() > 0 ==> self.spec_text().len() == 0
    }

    pub closed spec fn spec_fname(&self) -> Seq<char> {
        self.fname@
    }

    pub closed spec fn spec_text(&self) -> Seq<char> {
        self.text@
    }

    pub closed spec fn spec_error(&self) -> Seq<char> {
        self.error@
    }

    /// A source that was read.
    pub fn loaded(fname: String, text: String) -> (r: Source)
        ensures
            r.wf(),
            r.spec_fname() == fname@,
            r.spec_text() == text@,
            r.spec_error().len() == 0,
    {
        Source { fname, text, error: String::new() }
    }

    /// A source that could not be read, with the reason.
    pub fn failed(fname: String, error: String) -> (r: Source)
        ensures
            r.wf(),
            r.spec_fname() == fname@,
            r.spec_text().len() == 0,
            r.spec_error() == error@,
    {
        Source { fname, text: String::new(), error }
    }

    pub fn fname(&self) -> (r: &str)
        ensures
            r@ == self.spec_fname(),
    {
        self.fname.as_str()
    }

    pub fn text(&self) -> (r: &str)
        ensures
            r@ == self.spec_text(),
    {
        self.text.as_str()
    }

    pub fn error(&self) -> (r: &str)
        ensures
            r@ == self.spec_error(),
    {
        self.error.as_str()
    }
}

/// The characters of `s`, in order.
fn chars_of(s: &str) -> (r: Vec<char>)
    ensures
        r@ == s@,
{
    let n = s.unicode_len();
    let mut r: Vec<char> = Vec::new();
    let mut i: usize = 0;
    while i < n
        invariant
            n == s@.len(),
            i <= n,
            r@ == s@.take(i as int),
        decreases n - i,
    {
        r.push(s.get_char(i));
        i += 1;
        assert(r@ =~= s@.take(i as int));
    }
    assert(s@.take(n as int) =~= s@);
    r
}

/// The line counter never goes back.
pub proof fn lemma_line_only_grows<'a>(a: Lexer<'a>, b: Lexer<'a>, n: int)
    requires
        a.advanced(b, n),
    ensures
        b.line() >= a.line(),
{
}

pub struct Lexer<'a> {
    text: &'a str,
    pos: usize,
    len: usize,
    lnum: u32,
}

impl<'a> Lexer<'a> {
    /// The input not consumed yet.
    pub closed spec fn rest(&self) -> Seq<char> {
        self.text@.skip(self.pos as int)
    }

    /// The current line: one more than the line feeds consumed, held at
    /// `u32::MAX`.
    pub closed spec fn line(&self) -> u32 {
        self.lnum
    }

    pub closed spec fn wf(&self) -> bool {
        &&& self.len == self.text@.len()
        &&& self.pos <= self.len
    }

    /// `next` is `self` after consuming `n` characters.
    pub open spec fn advanced(self, next: Self, n: int) -> bool {
        &&& 0 <= n <= self.rest().len()
        &&& next.wf()
        &&& next.rest() == self.rest().skip(n)
        &&& next.line() == line_after(self.line(), newlines(self.rest().take(n)))
    }

    pub fn new(text: &'a str) -> (r: Lexer<'a>)
        ensures
            r.wf(),
            r.rest() == text@,
            r.line() == 1,
    {
        let len = text.unicode_len();
        Lexer { text, pos: 0, len, lnum: 1 }
    }

    pub fn from(src: &'a Source) -> (r: Lexer<'a>)
        ensures
            r.wf(),
            r.rest() == src.spec_text(),
            r.line() == 1,
    {
        Lexer::new(src.text())
    }

    /// Consumes every token left, in order.
    pub fn tokens(&mut self) -> (r: Vec<Token>)
        requires
            old(self).wf(),
        ensures
            final(self).wf(),
            final(self).rest().len() == 0,
            models(r@) == lex_all(old(self).rest()),
    {
        let ghost s0 = self.rest();
        let mut r: Vec<Token> = Vec::new();
        loop
            invariant
                self.wf(),
                s0 == old(self).rest(),
                models(r@) + lex_all(self.rest()) == lex_all(s0),
            decreases self.rest().len(),
        {
            let ghost before = self.rest();
            proof {
                lemma_lex_progress(before);
            }
            match self.next_token() {
                Some(t) => {
                    proof {
                        let n = lex_len(before);
                        assert(lex_all(before) == seq![model_of(t)] + lex_all(before.skip(n)));
                    }
                    let ghost prev = models(r@);
                    let ghost m = model_of(t);
                    r.push(t);
                    proof {
                        assert(models(r@) =~= prev.push(m));
                        assert(prev.push(m) + lex_all(self.rest()) =~= prev + (seq![m] + lex_all(
                            self.rest(),
                        )));
                    }
                },
                None => {
                    proof {
                        assert(self.rest() =~= before.skip(before.len() as int));
                        assert(lex_all(before) == Seq::<TokenModel>::empty());
                        let done = models(r@);
                        assert(done + lex_all(before) =~= done);
                    }
                    return r;
                },
            }
        }
    }

    /// Consumes a comma that stands first after whitespace; the whitespace
    /// is consumed either way.
    pub fn eat_comma(&mut self) -> (r: bool)
        requires
            old(self).wf(),
        ensures
            r == comma_len(old(self).rest()).0,
            old(self).advanced(*final(self), comma_len(old(self).rest()).1),
    {
        let ghost start = *self;
        let ghost s = self.rest();
        proof {
            lemma_span_bounds(s, 0, CharClass::Space);
        }
        self.eat_whitespaces();
        if self.peek() == Some(',') {
            let ghost mid = *self;
            self.next();
            proof {
                Self::lemma_advanced_trans(start, mid, *self, span(s, 0, CharClass::Space), 1);
            }
            true
        } else {
            false
        }
    }

    pub fn linenum(&self) -> (r: u32)
        ensures
            r == self.line(),
    {
        self.lnum
    }

    pub proof fn lemma_advanced_trans(a: Self, b: Self, c: Self, n1: int, n2: int)
        requires
            a.advanced(b, n1),
            b.advanced(c, n2),
        ensures
            a.advanced(c, n1 + n2),
    {
        let s = a.rest();
        assert(s.skip(n1).skip(n2) =~= s.skip(n1 + n2));
        assert(s.take(n1 + n2) =~= s.take(n1) + s.skip(n1).take(n2));
        lemma_newlines_concat(s.take(n1), s.skip(n1).take(n2));
    }

    proof fn lemma_advanced_zero(a: Self)
        requires
            a.wf(),
        ensures
            a.advanced(a, 0),
    {
        assert(a.rest().skip(0) =~= a.rest());
        assert(a.rest().take(0) =~= Seq::<char>::empty());
    }

    /// Consumes one character, counting it when it ends a line.
    fn next(&mut self) -> (r: Option<char>)
        requires
            old(self).wf(),
        ensures
            old(self).rest().len() > 0 ==> r == Some(old(self).rest()[0]) && old(self).advanced(
                *final(self),
                1,
            ),
            old(self).rest().len() == 0 ==> r is None && *final(self) == *old(self),
    {
        if self.pos < self.len {
            let c = self.text.get_char(self.pos);
            proof {
                let s = self.rest();
                assert(s.take(1) =~= seq![c]);
                lemma_newlines_one(c);
            }
            self.pos = self.pos + 1;
            if c == '\n' && self.lnum < u32::MAX {
                self.lnum = self.lnum + 1;
            }
            proof {
                assert(self.rest() =~= old(self).rest().skip(1));
            }
            Some(c)
        } else {
            None
        }
    }

    fn is_class_next(&self, k: CharClass) -> (r: bool)
        requires
            self.wf(),
        ensures
            r == (self.rest().len() > 0 && in_class(k, self.rest()[0])),
    {
        match self.peek() {
            Some(c) => match k {
                CharClass::Space => is_whitespace(c),
                CharClass::Word => is_word_char(c),
                CharClass::Digit => is_numeric(c),
                CharClass::HexDigit => is_hex_digit(c),
            },
            None => false,
        }
    }

    /// Consumes the run of characters of class `k` at the front, appending
    /// it to `out`.
    fn take_run(&mut self, k: CharClass, out: &mut Vec<char>)
        requires
            old(self).wf(),
        ensures
            old(self).advanced(*final(self), span(old(self).rest(), 0, k)),
            final(out)@ == old(out)@ + old(self).rest().take(span(old(self).rest(), 0, k)),
    {
        let ghost s = self.rest();
        let ghost start = *self;
        let ghost out0 = out@;
        let ghost mut m: int = 0;
        proof {
            Self::lemma_advanced_zero(start);
            lemma_span_bounds(s, 0, k);
            assert(s.take(0) =~= Seq::<char>::empty());
            assert(out@ =~= out0 + s.take(0));
        }
        while self.is_class_next(k)
            invariant
                0 <= m <= span(s, 0, k),
                span(s, m, k) == span(s, 0, k),
                start.advanced(*self, m),
                s == start.rest(),
                out@ == out0 + s.take(m),
            decreases s.len() - m,
        {
            let ghost before = *self;
            let c = self.next().unwrap();
            proof {
                Self::lemma_advanced_trans(start, before, *self, m, 1);
                assert(s[m] == c);
                lemma_span_bounds(s, m, k);
            }
            out.push(c);
            proof {
                m = m + 1;
                assert(out@ =~= out0 + s.take(m));
            }
        }
        proof {
            lemma_span_bounds(s, m, k);
        }
    }

    fn eat_whitespaces(&mut self)
        requires
            old(self).wf(),
        ensures
            old(self).advanced(*final(self), span(old(self).rest(), 0, CharClass::Space)),
    {
        let mut skipped: Vec<char> = Vec::new();
        self.take_run(CharClass::Space, &mut skipped);
    }

    fn is_letter_next(&self) -> (r: bool)
        requires
            self.wf(),
        ensures
            r == (self.rest().len() > 0 && alphabetic(self.rest()[0])),
    {
        match self.peek() {
            Some(c) => is_alphabetic(c),
            None => false,
        }
    }

    /// An identifier that starts with `first`, already consumed.
    fn iden(&mut self, first: char) -> (r: Vec<char>)
        requires
            old(self).wf(),
        ensures
            old(self).advanced(*final(self), span(old(self).rest(), 0, CharClass::Word)),
            r@ == seq![first] + old(self).rest().take(span(old(self).rest(), 0, CharClass::Word)),
    {
        let mut w: Vec<char> = Vec::new();
        w.push(first);
        self.take_run(CharClass::Word, &mut w);
        w
    }

    /// A decimal number that starts with `first`, already consumed.
    fn number(&mut self, first: char) -> (r: Vec<char>)
        requires
            old(self).wf(),
        ensures
            old(self).advanced(*final(self), span(old(self).rest(), 0, CharClass::Digit)),
            r@ == seq![first] + old(self).rest().take(span(old(self).rest(), 0, CharClass::Digit)),
    {
        let mut w: Vec<char> = Vec::new();
        w.push(first);
        self.take_run(CharClass::Digit, &mut w);
        w
    }

    /// The hexadecimal digits after a consumed `0x`.
    fn hexnum(&mut self) -> (r: Token)
        requires
            old(self).wf(),
        ensures
            old(self).advanced(*final(self), span(old(self).rest(), 0, CharClass::HexDigit)),
            model_of(r) == (if span(old(self).rest(), 0, CharClass::HexDigit) > 0 {
                TokenModel::Hex(
                    seq!['0', 'X'] + old(self).rest().take(
                        span(old(self).rest(), 0, CharClass::HexDigit),
                    ),
                )
            } else {
                TokenModel::BadLexeme(seq!['0', 'X'])
            }),
    {
        let mut w: Vec<char> = Vec::new();
        w.push('0');
        w.push('X');
        assert(w@ =~= seq!['0', 'X']);
        let ghost s = self.rest();
        self.take_run(CharClass::HexDigit, &mut w);
        proof {
            let n = span(s, 0, CharClass::HexDigit);
            assert(w@.len() == 2 + n);
        }
        if w.len() > 2 {
            Token::Hex(string_of(&w))
        } else {
            proof {
                assert(w@ =~= seq!['0', 'X']);
            }
            Token::BadLexeme(string_of(&w))
        }
    }

    /// What a word names: a register, a reserved word or a directive.
    pub fn lookup_keyword(id: &str) -> (r: Option<Token>)
        ensures
            r == word_token(id@),
    {
        lookup_word(&chars_of(id))
    }

    /// The directive that a word written after a dot names.
    pub fn lookup_directive(id: &str) -> (r: Option<Token>)
        ensures
            r == dotted_token(id@),
    {
        lookup_dotted(&chars_of(id))
    }

    fn dot_token(&mut self, Ghost(s): Ghost<Seq<char>>, Ghost(i): Ghost<int>) -> (r: Token)
        requires
            old(self).wf(),
            0 <= i < s.len(),
            s[i] == '.',
            old(self).rest() == s.skip(i + 1),
        ensures
            old(self).advanced(*final(self), lex_dot(s, i).1 - (i + 1)),
            model_of(r) == lex_dot(s, i).0,
    {
        let ghost start = *self;
        proof {
            Self::lemma_advanced_zero(start);
        }
        if self.is_letter_next() {
            let first = self.next().unwrap();
            let ghost at_first = *self;
            proof {
                assert(at_first.rest() =~= s.skip(i + 2));
                lemma_span_skip(s, i + 2, 0, CharClass::Word);
                lemma_span_bounds(s, i + 2, CharClass::Word);
            }
            let w = self.iden(first);
            proof {
                let j = span(s, i + 2, CharClass::Word);
                Self::lemma_advanced_trans(start, at_first, *self, 1, j - (i + 2));
                assert(w@ =~= s.subrange(i + 1, j));
            }
            return match lookup_dotted(&w) {
                Some(t) => t,
                None => Token::BadLexeme(string_of(&w)),
            };
        }
        Token::Bad('.')
    }

    fn word_token(&mut self, c: char, Ghost(s): Ghost<Seq<char>>, Ghost(i): Ghost<int>) -> (r: Token)
        requires
            old(self).wf(),
            0 <= i < s.len(),
            s[i] == c,
            old(self).rest() == s.skip(i + 1),
        ensures
            old(self).advanced(*final(self), lex_word(s, i).1 - (i + 1)),
            model_of(r) == lex_word(s, i).0,
    {
        let ghost start = *self;
        proof {
            lemma_span_skip(s, i + 1, 0, CharClass::Word);
            lemma_span_bounds(s, i + 1, CharClass::Word);
        }
        let w = self.iden(c);
        let ghost j = span(s, i + 1, CharClass::Word);
        proof {
            assert(w@ =~= s.subrange(i, j));
            assert(self.rest() =~= s.skip(j));
        }
        if let Some(t) = lookup_word(&w) {
            return t;
        }
        if self.peek() == Some(':') {
            let ghost at_colon = *self;
            self.next();
            proof {
                Self::lemma_advanced_trans(start, at_colon, *self, j - (i + 1), 1);
            }
            return Token::Label(string_of(&w));
        }
        Token::Iden(string_of(&w))
    }

    fn digit_token(&mut self, c: char, Ghost(s): Ghost<Seq<char>>, Ghost(i): Ghost<int>) -> (r: Token)
        requires
            old(self).wf(),
            0 <= i < s.len(),
            s[i] == c,
            dec_digit(c),
            old(self).rest() == s.skip(i + 1),
        ensures
            old(self).advanced(*final(self), lex_digit(s, i).1 - (i + 1)),
            model_of(r) == lex_digit(s, i).0,
    {
        let ghost start = *self;
        if c != '0' {
            proof {
                lemma_span_skip(s, i + 1, 0, CharClass::Digit);
                lemma_span_bounds(s, i + 1, CharClass::Digit);
            }
            let w = self.number(c);
            proof {
                let j = span(s, i + 1, CharClass::Digit);
                assert(w@ =~= s.subrange(i, j));
            }
            return Token::Number(string_of(&w));
        }
        let ch = match self.next() {
            Some(ch) => ch,
            None => {
                let mut w: Vec<char> = Vec::new();
                w.push('0');
                proof {
                    Self::lemma_advanced_zero(start);
                    assert(w@ =~= seq!['0']);
                }
                return Token::Number(string_of(&w));
            },
        };
        let ghost at_second = *self;
        proof {
            assert(ch == s[i + 1]);
            assert(at_second.rest() =~= s.skip(i + 2));
        }
        if ch == 'x' || ch == 'X' {
            proof {
                lemma_span_skip(s, i + 2, 0, CharClass::HexDigit);
                lemma_span_bounds(s, i + 2, CharClass::HexDigit);
            }
            let t = self.hexnum();
            proof {
                let j = span(s, i + 2, CharClass::HexDigit);
                Self::lemma_advanced_trans(start, at_second, *self, 1, j - (i + 2));
                assert(at_second.rest().take(j - (i + 2)) =~= s.subrange(i + 2, j));
            }
            return t;
        }
        proof {
            lemma_span_skip(s, i + 2, 0, CharClass::Digit);
            lemma_span_bounds(s, i + 2, CharClass::Digit);
        }
        let w = self.number(ch);
        proof {
            let j = span(s, i + 2, CharClass::Digit);
            Self::lemma_advanced_trans(start, at_second, *self, 1, j - (i + 2));
            assert(w@ =~= s.subrange(i + 1, j));
        }
        Token::Number(string_of(&w))
    }

    /// Consumes and returns the next token; `None` once only whitespace is
    /// left.
    pub fn next_token(&mut self) -> (r: Option<Token>)
        requires
            old(self).wf(),
        ensures
            old(self).advanced(*final(self), lex_len(old(self).rest())),
            match lex_token(old(self).rest()) {
                None => r is None,
                Some((m, _)) => r is Some && model_of(r->0) == m,
            },
    {
        let ghost s = self.rest();
        let ghost start = *self;
        let ghost i = span(s, 0, CharClass::Space);
        proof {
            lemma_span_bounds(s, 0, CharClass::Space);
        }
        self.eat_whitespaces();
        let ghost after_ws = *self;
        let c = match self.next() {
            Some(c) => c,
            None => {
                return None;
            },
        };
        proof {
            Self::lemma_advanced_trans(start, after_ws, *self, i, 1);
            assert(c == s[i]);
            assert(self.rest() =~= s.skip(i + 1));
        }
        if let Some(t) = punctuation(c) {
            return Some(t);
        }
        let ghost at_first = *self;
        let t = if c == '.' {
            self.dot_token(Ghost(s), Ghost(i))
        } else if is_alphabetic(c) {
            self.word_token(c, Ghost(s), Ghost(i))
        } else if '0' <= c && c <= '9' {
            self.digit_token(c, Ghost(s), Ghost(i))
        } else {
            proof {
                Self::lemma_advanced_zero(at_first);
            }
            Token::Bad(c)
        };
        proof {
            Self::lemma_advanced_trans(start, at_first, *self, i + 1, lex_len(s) - (i + 1));
        }
        Some(t)
    }

    fn peek(&self) -> (r: Option<char>)
        requires
            self.wf(),
        ensures
            r == (if self.rest().len() > 0 { Some(self.rest()[0]) } else { None }),
    {
        if self.pos < self.len {
            Some(self.text.get_char(self.pos))
        } else {
            None
        }
    }
}

} // verus!
