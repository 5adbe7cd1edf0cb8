//! The first pass: recognizes instruction lines of the shape
//! `mnemonic operand, operand, operand` and collects diagnostics.
//!
//! A label is recorded as a line of its own; an instruction after it on the
//! same source line is recognized by the next call. A missing comma is
//! reported and parsing goes on; an input that ends inside a line drops that
//! line; a line that starts with anything but a mnemonic or a label ends
//! parsing.
use vstd::prelude::*;
use crate::lexer::{comma_len, lemma_lex_progress, lex_token, line_after, newlines, Lexer};
use crate::token::{model_of, Token, TokenModel};

verus! {

/// A recognized instruction line: the mnemonic and its three operands.
#[derive(Debug)]
pub struct InstLine {
    pub mnemonic: String,
    pub dest: Token,
    pub src1: Token,
    pub src2: Token,
}

/// What one call of the recognizer records.
#[derive(Debug)]
pub enum Line {
    Label(String),
    Inst(InstLine),
}

#[derive(Debug, Clone, Copy, PartialEq, Eq, Structural)]
pub enum ErrorKind {
    /// A comma between operands is missing; the line goes on.
    MissingComma,
    /// The input ended where an operand was expected; the line is dropped.
    UnexpectedEnd,
    /// A line starts with neither a mnemonic nor a label; parsing stops.
    ExpectedMnemonic,
}

/// A diagnostic: the line it was found on, what is wrong, and the token at
/// fault where there is one.
#[derive(Debug)]
pub struct Error {
    pub line: u32,
    pub kind: ErrorKind,
    pub tok: Option<Token>,
}

pub ghost enum LineModel {
    Label(Seq<char>),
    Inst(Seq<char>, TokenModel, TokenModel, TokenModel),
}

pub ghost struct ErrorModel {
    pub line: u32,
    pub kind: ErrorKind,
    pub tok: Option<TokenModel>,
}

/// What one call of the recognizer does to the input `s`.
pub ghost struct Step {
    pub line: Option<LineModel>,
    pub errors: Seq<ErrorModel>,
    /// How many characters of `s` it consumes.
    pub used: int,
    /// Whether parsing is over after it.
    pub done: bool,
}

pub open spec fn line_model(x: Line) -> LineModel {
    match x {
        Line::Label(n) => LineModel::Label(n@),
        Line::Inst(i) => LineModel::Inst(
            i.mnemonic@,
            model_of(i.dest),
            model_of(i.src1),
            model_of(i.src2),
        ),
    }
}

pub open spec fn error_model(e: Error) -> ErrorModel {
    ErrorModel {
        line: e.line,
        kind: e.kind,
        tok: match e.tok {
            Some(t) => Some(model_of(t)),
            None => None,
        },
    }
}

pub open spec fn line_models(v: Seq<Line>) -> Seq<LineModel> {
    v.map_values(|x: Line| line_model(x))
}

pub open spec fn error_models(v: Seq<Error>) -> Seq<ErrorModel> {
    v.map_values(|e: Error| error_model(e))
}

/// The line number after consuming `p` characters of `s`, from line `l`.
pub open spec fn line_at(s: Seq<char>, l: u32, p: int) -> u32 {
    line_after(l, newlines(s.take(p)))
}

pub open spec fn diag(line: u32, kind: ErrorKind, tok: Option<TokenModel>) -> ErrorModel {
    ErrorModel { line, kind, tok }
}

pub open spec fn end_step(s: Seq<char>, l: u32, errors: Seq<ErrorModel>) -> Step {
    Step {
        line: None,
        errors: errors.push(diag(line_at(s, l, s.len() as int), ErrorKind::UnexpectedEnd, None)),
        used: s.len() as int,
        done: true,
    }
}

/// The diagnostic for a missing comma, when it is missing, with what
/// looking for it consumes.
pub open spec fn comma_step(s: Seq<char>, l: u32, p: int) -> (Seq<ErrorModel>, int) {
    let (found, k) = comma_len(s.skip(p));
    if found {
        (Seq::empty(), p + k)
    } else {
        (seq![diag(line_at(s, l, p + k), ErrorKind::MissingComma, None)], p + k)
    }
}

/// The operands of an instruction whose mnemonic ends at `k0`.
pub open spec fn inst_step(s: Seq<char>, l: u32, mn: Seq<char>, k0: int) -> Step {
    match lex_token(s.skip(k0)) {
        None => end_step(s, l, Seq::empty()),
        Some((d, n1)) => {
            let (e1, k2) = comma_step(s, l, k0 + n1);
            match lex_token(s.skip(k2)) {
                None => end_step(s, l, e1),
                Some((a, n2)) => {
                    let (e2, k4) = comma_step(s, l, k2 + n2);
                    match lex_token(s.skip(k4)) {
                        None => end_step(s, l, e1 + e2),
                        Some((b, n3)) => Step {
                            line: Some(LineModel::Inst(mn, d, a, b)),
                            errors: e1 + e2,
                            used: k4 + n3,
                            done: false,
                        },
                    }
                },
            }
        },
    }
}

/// One call of the recognizer on input `s` at line `l`.
pub open spec fn parse_step(s: Seq<char>, l: u32) -> Step {
    match lex_token(s) {
        None => Step { line: None, errors: Seq::empty(), used: s.len() as int, done: true },
        Some((t, k0)) => match t {
            TokenModel::Label(x) => Step {
                line: Some(LineModel::Label(x)),
                errors: Seq::empty(),
                used: k0,
                done: false,
            },
            TokenModel::Iden(mn) => inst_step(s, l, mn, k0),
            _ => Step {
                line: None,
                errors: seq![diag(line_at(s, l, k0), ErrorKind::ExpectedMnemonic, Some(t))],
                used: k0,
                done: true,
            },
        },
    }
}

pub open spec fn opt_seq(x: Option<LineModel>) -> Seq<LineModel> {
    match x {
        Some(v) => seq![v],
        None => Seq::empty(),
    }
}

/// The lines and diagnostics of parsing `s` from line `l` to the end.
pub open spec fn parse_from(s: Seq<char>, l: u32) -> (Seq<LineModel>, Seq<ErrorModel>)
    decreases s.len(),
{
    let st = parse_step(s, l);
    if st.done || !(0 < st.used <= s.len()) {
        (opt_seq(st.line), st.errors)
    } else {
        let rest = parse_from(s.skip(st.used), line_at(s, l, st.used));
        (opt_seq(st.line) + rest.0, st.errors + rest.1)
    }
}

/// A step that does not end parsing consumes at least one character.
pub proof fn lemma_step_progress(s: Seq<char>, l: u32)
    ensures
        0 <= parse_step(s, l).used <= s.len(),
        !parse_step(s, l).done ==> 0 < parse_step(s, l).used,
{
    lemma_lex_progress(s);
    if let Some((t, k0)) = lex_token(s) {
        if t is Iden {
            lemma_lex_progress(s.skip(k0));
            if let Some((d, n1)) = lex_token(s.skip(k0)) {
                let k1 = k0 + n1;
                lemma_lex_progress(s.skip(k1));
                let k2 = comma_step(s, l, k1).1;
                lemma_lex_progress(s.skip(k2));
                if let Some((a, n2)) = lex_token(s.skip(k2)) {
                    let k3 = k2 + n2;
                    lemma_lex_progress(s.skip(k3));
                    let k4 = comma_step(s, l, k3).1;
                    lemma_lex_progress(s.skip(k4));
                }
            }
        }
    }
}

pub struct Parser<'a> {
    lexer: Lexer<'a>,
    lines: Vec<Line>,
    errors: Vec<Error>,
    done: bool,
}

impl<'a> Parser<'a> {
    pub closed spec fn spec_lexer(&self) -> Lexer<'a> {
        self.lexer
    }

    pub closed spec fn spec_lines(&self) -> Seq<LineModel> {
        line_models(self.lines@)
    }

    pub closed spec fn spec_errors(&self) -> Seq<ErrorModel> {
        error_models(self.errors@)
    }

    pub closed spec fn spec_done(&self) -> bool {
        self.done
    }

    pub open spec fn wf(&self) -> bool {
        self.spec_lexer().wf()
    }

    pub fn new(lex: Lexer<'a>) -> (r: Parser<'a>)
        requires
            lex.wf(),
        ensures
            r.wf(),
            r.spec_lexer() == lex,
            r.spec_lines() == Seq::<LineModel>::empty(),
            r.spec_errors() == Seq::<ErrorModel>::empty(),
            !r.spec_done(),
    {
        let r = Parser { lexer: lex, lines: Vec::new(), errors: Vec::new(), done: false };
        proof {
            assert(line_models(r.lines@) =~= Seq::<LineModel>::empty());
            assert(error_models(r.errors@) =~= Seq::<ErrorModel>::empty());
        }
        r
    }

    pub fn lines(&self) -> (r: &Vec<Line>)
        ensures
            line_models(r@) == self.spec_lines(),
    {
        &self.lines
    }

    pub fn errors(&self) -> (r: &Vec<Error>)
        ensures
            error_models(r@) == self.spec_errors(),
    {
        &self.errors
    }

    pub fn is_done(&self) -> (r: bool)
        ensures
            r == self.spec_done(),
    {
        self.done
    }

    fn push_line(&mut self, x: Line)
        ensures
            final(self).spec_lexer() == old(self).spec_lexer(),
            final(self).spec_done() == old(self).spec_done(),
            final(self).spec_errors() == old(self).spec_errors(),
            final(self).spec_lines() == old(self).spec_lines().push(line_model(x)),
    {
        let ghost m = line_model(x);
        self.lines.push(x);
        proof {
            assert(line_models(self.lines@) =~= old(self).spec_lines().push(m));
        }
    }

    fn push_error(&mut self, e: Error)
        ensures
            final(self).spec_lexer() == old(self).spec_lexer(),
            final(self).spec_done() == old(self).spec_done(),
            final(self).spec_lines() == old(self).spec_lines(),
            final(self).spec_errors() == old(self).spec_errors().push(error_model(e)),
    {
        let ghost m = error_model(e);
        self.errors.push(e);
        proof {
            assert(error_models(self.errors@) =~= old(self).spec_errors().push(m));
        }
    }

    /// Records a missing comma found on line `ln`.
    pub fn inst_error(&mut self, ln: u32)
        ensures
            final(self).spec_lexer() == old(self).spec_lexer(),
            final(self).spec_done() == old(self).spec_done(),
            final(self).spec_lines() == old(self).spec_lines(),
            final(self).spec_errors() == old(self).spec_errors().push(
                diag(ln, ErrorKind::MissingComma, None),
            ),
    {
        self.push_error(Error { line: ln, kind: ErrorKind::MissingComma, tok: None });
    }

    /// Records that the input ended where an operand was expected.
    pub fn unexpeted_end_error(&mut self)
        ensures
            final(self).spec_lexer() == old(self).spec_lexer(),
            final(self).spec_done() == old(self).spec_done(),
            final(self).spec_lines() == old(self).spec_lines(),
            final(self).spec_errors() == old(self).spec_errors().push(
                diag(old(self).spec_lexer().line(), ErrorKind::UnexpectedEnd, None),
            ),
    {
        let ln = self.lexer.linenum();
        self.push_error(Error { line: ln, kind: ErrorKind::UnexpectedEnd, tok: None });
    }

    /// Records a token that cannot start a line.
    pub fn error(&mut self, tok: Token)
        ensures
            final(self).spec_lexer() == old(self).spec_lexer(),
            final(self).spec_done() == old(self).spec_done(),
            final(self).spec_lines() == old(self).spec_lines(),
            final(self).spec_errors() == old(self).spec_errors().push(
                diag(old(self).spec_lexer().line(), ErrorKind::ExpectedMnemonic, Some(model_of(tok))),
            ),
    {
        let ln = self.lexer.linenum();
        self.push_error(Error { line: ln, kind: ErrorKind::ExpectedMnemonic, tok: Some(tok) });
    }

    /// Recognizes one line: a label alone, or a mnemonic with three operands
    /// separated by commas. Once parsing is over it consumes nothing.
    pub fn parse_3addr_inst(&mut self)
        requires
            old(self).wf(),
        ensures
            old(self).spec_done() ==> *final(self) == *old(self),
            !old(self).spec_done() ==> ({
                let st = parse_step(old(self).spec_lexer().rest(), old(self).spec_lexer().line());
                &&& old(self).spec_lexer().advanced(final(self).spec_lexer(), st.used)
                &&& final(self).spec_lines() == old(self).spec_lines() + opt_seq(st.line)
                &&& final(self).spec_errors() == old(self).spec_errors() + st.errors
                &&& final(self).spec_done() == st.done
            }),
    {
        if self.done {
            return;
        }
        let ghost start = self.lexer;
        let ghost s = start.rest();
        let ghost l = start.line();
        let ghost lines0 = self.spec_lines();
        let ghost errs0 = self.spec_errors();
        proof {
            lemma_lex_progress(s);
        }
        let tok = self.lexer.next_token();
        let t = match tok {
            Some(t) => t,
            None => {
                self.done = true;
                proof {
                    assert(self.spec_lines() =~= lines0 + opt_seq(None));
                    assert(self.spec_errors() =~= errs0 + Seq::<ErrorModel>::empty());
                }
                return;
            },
        };
        match t {
            Token::Label(name) => {
                self.push_line(Line::Label(name));
                proof {
                    assert(self.spec_errors() =~= errs0 + Seq::<ErrorModel>::empty());
                }
            },
            Token::Iden(mnemonic) => {
                self.operands(mnemonic, Ghost(start), Ghost((lex_token(s)->0).1));
            },
            other => {
                self.error(other);
                self.done = true;
                proof {
                    assert(self.spec_lines() =~= lines0 + opt_seq(None));
                }
            },
        }
    }

    pub fn parse_one_inst(&mut self)
        requires
            old(self).wf(),
        ensures
            old(self).spec_done() ==> *final(self) == *old(self),
            !old(self).spec_done() ==> ({
                let st = parse_step(old(self).spec_lexer().rest(), old(self).spec_lexer().line());
                &&& old(self).spec_lexer().advanced(final(self).spec_lexer(), st.used)
                &&& final(self).spec_lines() == old(self).spec_lines() + opt_seq(st.line)
                &&& final(self).spec_errors() == old(self).spec_errors() + st.errors
                &&& final(self).spec_done() == st.done
            }),
    {
        self.parse_3addr_inst();
    }

    /// Recognizes lines until the input ends or a line cannot start.
    pub fn parse(&mut self)
        requires
            old(self).wf(),
        ensures
            final(self).wf(),
            final(self).spec_done(),
            !old(self).spec_done() ==> ({
                let all = parse_from(old(self).spec_lexer().rest(), old(self).spec_lexer().line());
                &&& final(self).spec_lines() == old(self).spec_lines() + all.0
                &&& final(self).spec_errors() == old(self).spec_errors() + all.1
            }),
            old(self).spec_done() ==> *final(self) == *old(self),
    {
        let ghost s0 = self.lexer.rest();
        let ghost l0 = self.lexer.line();
        let ghost lines0 = self.spec_lines();
        let ghost errs0 = self.spec_errors();
        while !self.done
            invariant
                self.wf(),
                !old(self).spec_done() ==> ({
                    let all = parse_from(s0, l0);
                    let here = parse_from(self.lexer.rest(), self.lexer.line());
                    !self.done ==> {
                        &&& all.0 == line_models(self.lines@).subrange(
                            lines0.len() as int,
                            line_models(self.lines@).len() as int,
                        ) + here.0
                        &&& all.1 == error_models(self.errors@).subrange(
                            errs0.len() as int,
                            error_models(self.errors@).len() as int,
                        ) + here.1
                        &&& line_models(self.lines@).len() >= lines0.len()
                        &&& error_models(self.errors@).len() >= errs0.len()
                        &&& line_models(self.lines@).subrange(0, lines0.len() as int) == lines0
                        &&& error_models(self.errors@).subrange(0, errs0.len() as int) == errs0
                    }
                }),
                !old(self).spec_done() ==> (self.done ==> {
                    let all = parse_from(s0, l0);
                    &&& self.spec_lines() == lines0 + all.0
                    &&& self.spec_errors() == errs0 + all.1
                }),
                old(self).spec_done() ==> *self == *old(self),
                s0 == old(self).spec_lexer().rest(),
                l0 == old(self).spec_lexer().line(),
                lines0 == old(self).spec_lines(),
                errs0 == old(self).spec_errors(),
            decreases self.lexer.rest().len() + if self.done { 0int } else { 1int },
        {
            let ghost before = *self;
            let ghost rest = self.lexer.rest();
            let ghost line = self.lexer.line();
            self.parse_one_inst();
            proof {
                let st = parse_step(rest, line);
                lemma_step_progress(rest, line);
                let ls = line_models(self.lines@);
                let es = error_models(self.errors@);
                let bl = line_models(before.lines@);
                let be = error_models(before.errors@);
                assert(ls == bl + opt_seq(st.line));
                assert(es == be + st.errors);
                if st.done {
                    assert(parse_from(rest, line) == (opt_seq(st.line), st.errors));
                    assert(ls =~= lines0 + (bl.subrange(lines0.len() as int, bl.len() as int)
                        + opt_seq(st.line)));
                    assert(es =~= errs0 + (be.subrange(errs0.len() as int, be.len() as int)
                        + st.errors));
                    assert(bl =~= lines0 + bl.subrange(lines0.len() as int, bl.len() as int));
                    assert(be =~= errs0 + be.subrange(errs0.len() as int, be.len() as int));
                } else {
                    assert(self.lexer.rest() == rest.skip(st.used));
                    assert(self.lexer.line() == line_at(rest, line, st.used));
                    let nxt = parse_from(self.lexer.rest(), self.lexer.line());
                    assert(parse_from(rest, line) == (opt_seq(st.line) + nxt.0, st.errors + nxt.1));
                    assert(ls.subrange(lines0.len() as int, ls.len() as int) =~= bl.subrange(
                        lines0.len() as int,
                        bl.len() as int,
                    ) + opt_seq(st.line));
                    assert(es.subrange(errs0.len() as int, es.len() as int) =~= be.subrange(
                        errs0.len() as int,
                        be.len() as int,
                    ) + st.errors);
                    assert(ls.subrange(0, lines0.len() as int) =~= bl.subrange(0, lines0.len() as int));
                    assert(es.subrange(0, errs0.len() as int) =~= be.subrange(0, errs0.len() as int));
                }
            }
        }
    }

    /// Looks for a comma after an operand that ends at `p`.
    fn expect_comma(&mut self, Ghost(start): Ghost<Lexer<'a>>, Ghost(p): Ghost<int>)
        requires
            start.wf(),
            start.advanced(old(self).spec_lexer(), p),
        ensures
            start.advanced(final(self).spec_lexer(), comma_step(start.rest(), start.line(), p).1),
            final(self).spec_errors() == old(self).spec_errors() + comma_step(
                start.rest(),
                start.line(),
                p,
            ).0,
            final(self).spec_lines() == old(self).spec_lines(),
            final(self).spec_done() == old(self).spec_done(),
    {
        let ghost s = start.rest();
        let ghost mid = self.lexer;
        proof {
            assert(mid.rest() == s.skip(p));
            lemma_lex_progress(s.skip(p));
        }
        let found = self.lexer.eat_comma();
        proof {
            Lexer::lemma_advanced_trans(start, mid, self.lexer, p, comma_len(s.skip(p)).1);
        }
        if !found {
            let ln = self.lexer.linenum();
            self.inst_error(ln);
            proof {
                assert(self.spec_errors() =~= old(self).spec_errors() + comma_step(
                    s,
                    start.line(),
                    p,
                ).0);
            }
        } else {
            proof {
                assert(self.spec_errors() =~= old(self).spec_errors() + comma_step(
                    s,
                    start.line(),
                    p,
                ).0);
            }
        }
    }

    /// The next operand, or `None` after recording that the input ended.
    fn operand(&mut self, Ghost(start): Ghost<Lexer<'a>>, Ghost(p): Ghost<int>) -> (r: Option<
        Token,
    >)
        requires
            start.wf(),
            start.advanced(old(self).spec_lexer(), p),
        ensures
            final(self).spec_lines() == old(self).spec_lines(),
            match lex_token(start.rest().skip(p)) {
                None => {
                    &&& r is None
                    &&& start.advanced(final(self).spec_lexer(), start.rest().len() as int)
                    &&& final(self).spec_errors() == old(self).spec_errors().push(
                        diag(
                            line_at(start.rest(), start.line(), start.rest().len() as int),
                            ErrorKind::UnexpectedEnd,
                            None,
                        ),
                    )
                    &&& final(self).spec_done()
                },
                Some((m, n)) => {
                    &&& r matches Some(t) && model_of(t) == m
                    &&& start.advanced(final(self).spec_lexer(), p + n)
                    &&& final(self).spec_errors() == old(self).spec_errors()
                    &&& final(self).spec_done() == old(self).spec_done()
                },
            },
    {
        let ghost s = start.rest();
        let ghost mid = self.lexer;
        proof {
            assert(mid.rest() == s.skip(p));
            lemma_lex_progress(s.skip(p));
        }
        let tok = self.lexer.next_token();
        proof {
            Lexer::lemma_advanced_trans(start, mid, self.lexer, p, crate::lexer::lex_len(s.skip(p)));
        }
        if tok.is_none() {
            self.unexpeted_end_error();
            self.done = true;
        }
        tok
    }

    /// The rest of an instruction line whose mnemonic ends at `k0`.
    fn operands(&mut self, mnemonic: String, Ghost(start): Ghost<Lexer<'a>>, Ghost(k0): Ghost<int>)
        requires
            start.wf(),
            start.advanced(old(self).spec_lexer(), k0),
            !old(self).spec_done(),
        ensures
            ({
                let st = inst_step(start.rest(), start.line(), mnemonic@, k0);
                &&& start.advanced(final(self).spec_lexer(), st.used)
                &&& final(self).spec_lines() == old(self).spec_lines() + opt_seq(st.line)
                &&& final(self).spec_errors() == old(self).spec_errors() + st.errors
                &&& final(self).spec_done() == st.done
            }),
    {
        let ghost s = start.rest();
        let ghost l = start.line();
        let ghost lines0 = self.spec_lines();
        let ghost errs0 = self.spec_errors();
        let dest = match self.operand(Ghost(start), Ghost(k0)) {
            Some(t) => t,
            None => {
                proof {
                    assert(self.spec_lines() =~= lines0 + opt_seq(None));
                    assert(self.spec_errors() =~= errs0 + Seq::<ErrorModel>::empty().push(
                        diag(line_at(s, l, s.len() as int), ErrorKind::UnexpectedEnd, None),
                    ));
                }
                return;
            },
        };
        let ghost k1 = k0 + (lex_token(s.skip(k0))->0).1;
        self.expect_comma(Ghost(start), Ghost(k1));
        let ghost e1 = comma_step(s, l, k1).0;
        let ghost k2 = comma_step(s, l, k1).1;
        let src1 = match self.operand(Ghost(start), Ghost(k2)) {
            Some(t) => t,
            None => {
                proof {
                    assert(self.spec_lines() =~= lines0 + opt_seq(None));
                    assert(self.spec_errors() =~= errs0 + e1.push(
                        diag(line_at(s, l, s.len() as int), ErrorKind::UnexpectedEnd, None),
                    ));
                }
                return;
            },
        };
        let ghost k3 = k2 + (lex_token(s.skip(k2))->0).1;
        self.expect_comma(Ghost(start), Ghost(k3));
        let ghost e2 = comma_step(s, l, k3).0;
        let ghost k4 = comma_step(s, l, k3).1;
        proof {
            assert(self.spec_errors() =~= errs0 + (e1 + e2));
        }
        let src2 = match self.operand(Ghost(start), Ghost(k4)) {
            Some(t) => t,
            None => {
                proof {
                    assert(self.spec_lines() =~= lines0 + opt_seq(None));
                    assert(self.spec_errors() =~= errs0 + (e1 + e2).push(
                        diag(line_at(s, l, s.len() as int), ErrorKind::UnexpectedEnd, None),
                    ));
                }
                return;
            },
        };
        self.push_line(Line::Inst(InstLine { mnemonic, dest, src1, src2 }));
        proof {
            assert(self.spec_lines() =~= lines0 + opt_seq(
                inst_step(s, l, mnemonic@, k0).line,
            ));
        }
    }
}

} // verus!
