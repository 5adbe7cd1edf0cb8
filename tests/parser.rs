use rvasm::lexer::Lexer;
use rvasm::parser::{ErrorKind, Line, Parser};
use rvasm::token::Token;

fn parse(text: &str) -> (Vec<Line>, Vec<(u32, ErrorKind, Option<Token>)>, bool) {
    let lx = Lexer::new(text);
    let mut p = Parser::new(lx);
    p.parse();
    let done = p.is_done();
    let errors = p.errors().iter().map(|e| (e.line, e.kind, e.tok.clone())).collect();
    let mut lines = Vec::new();
    for l in p.lines() {
        lines.push(match l {
            Line::Label(n) => Line::Label(n.clone()),
            Line::Inst(i) => Line::Inst(rvasm::parser::InstLine {
                mnemonic: i.mnemonic.clone(),
                dest: i.dest.clone(),
                src1: i.src1.clone(),
                src2: i.src2.clone(),
            }),
        });
    }
    (lines, errors, done)
}

fn assert_inst(l: &Line, mnemonic: &str, d: Token, a: Token, b: Token) {
    match l {
        Line::Inst(i) => {
            assert_eq!(i.mnemonic, mnemonic);
            assert_eq!(i.dest, d);
            assert_eq!(i.src1, a);
            assert_eq!(i.src2, b);
        }
        Line::Label(n) => panic!("expected an instruction, found label {}", n),
    }
}

#[test]
fn three_register_instruction() {
    let (lines, errors, done) = parse("add a0, a1, a2");
    assert_eq!(lines.len(), 1);
    assert_inst(&lines[0], "add", Token::Reg(10), Token::Reg(11), Token::Reg(12));
    assert!(errors.is_empty());
    assert!(done);
}

#[test]
fn missing_first_comma() {
    let (lines, errors, _) = parse("add a0 a1, a2");
    assert_eq!(lines.len(), 1);
    assert_inst(&lines[0], "add", Token::Reg(10), Token::Reg(11), Token::Reg(12));
    assert_eq!(errors, vec![(1, ErrorKind::MissingComma, None)]);
}

#[test]
fn premature_end_of_input() {
    let (lines, errors, done) = parse("add a0,");
    assert!(lines.is_empty());
    assert_eq!(errors, vec![(1, ErrorKind::UnexpectedEnd, None)]);
    assert!(done);
}

#[test]
fn number_cannot_start_a_line() {
    let (lines, errors, done) = parse("123 a0, a1, a2\nsub a0, a1, a2");
    assert!(lines.is_empty());
    assert_eq!(
        errors,
        vec![(1, ErrorKind::ExpectedMnemonic, Some(Token::Number("123".to_string())))]
    );
    assert!(done);
}

#[test]
fn label_then_instruction() {
    let (lines, errors, _) = parse("loop: add a0, a1, a2");
    assert_eq!(lines.len(), 2);
    match &lines[0] {
        Line::Label(n) => assert_eq!(n, "loop"),
        _ => panic!("expected a label"),
    }
    assert_inst(&lines[1], "add", Token::Reg(10), Token::Reg(11), Token::Reg(12));
    assert!(errors.is_empty());
}

#[test]
fn several_lines_with_line_numbers() {
    let text = "add t0, t1, 0x10\n\nsub s0 s1 s2\nor a0,";
    let (lines, errors, _) = parse(text);
    assert_eq!(lines.len(), 2);
    assert_inst(&lines[0], "add", Token::Reg(5), Token::Reg(6), Token::Hex("0X10".to_string()));
    assert_inst(&lines[1], "sub", Token::Reg(8), Token::Reg(9), Token::Reg(18));
    assert_eq!(
        errors,
        vec![
            (3, ErrorKind::MissingComma, None),
            (3, ErrorKind::MissingComma, None),
            (4, ErrorKind::UnexpectedEnd, None),
        ]
    );
}

#[test]
fn empty_input_parses_to_nothing() {
    let (lines, errors, done) = parse("  \n ");
    assert!(lines.is_empty());
    assert!(errors.is_empty());
    assert!(done);
}

#[test]
fn single_step_recognizes_one_line() {
    let mut p = Parser::new(Lexer::new("x: add a0, a1, a2"));
    p.parse_one_inst();
    assert_eq!(p.lines().len(), 1);
    assert!(!p.is_done());
    p.parse_one_inst();
    assert_eq!(p.lines().len(), 2);
    p.parse_one_inst();
    assert!(p.is_done());
}

#[test]
fn error_recorders() {
    let mut p = Parser::new(Lexer::new(""));
    p.inst_error(7);
    p.unexpeted_end_error();
    p.error(Token::Comma);
    let kinds: Vec<(u32, ErrorKind)> = p.errors().iter().map(|e| (e.line, e.kind)).collect();
    assert_eq!(
        kinds,
        vec![(7, ErrorKind::MissingComma), (1, ErrorKind::UnexpectedEnd), (1, ErrorKind::ExpectedMnemonic)]
    );
    assert_eq!(p.errors()[2].tok, Some(Token::Comma));
}

#[test]
fn finished_parser_consumes_nothing() {
    let mut p = Parser::new(Lexer::new("7 add a0, a1, a2"));
    p.parse_one_inst();
    assert!(p.is_done());
    assert_eq!(p.errors().len(), 1);
    p.parse_one_inst();
    p.parse();
    assert_eq!(p.errors().len(), 1);
    assert!(p.lines().is_empty());
}
