use rvasm::lexer::{Lexer, Source};
use rvasm::token::Token;

fn lex(text: &str) -> Vec<Token> {
    let mut lx = Lexer::new(text);
    lx.tokens()
}

fn iden(s: &str) -> Token {
    Token::Iden(s.to_string())
}

#[test]
fn whitespace_only_yields_nothing() {
    for text in ["", " ", "\t\t", "\n", " \r\n \x0b\x0c ", "\u{3000}\u{a0}"] {
        let mut lx = Lexer::new(text);
        assert_eq!(lx.next_token(), None, "input {:?}", text);
        assert!(lex(text).is_empty());
    }
}

#[test]
fn register_names_map_to_indices() {
    let abi = [
        "zero", "ra", "sp", "gp", "tp", "t0", "t1", "t2", "s0", "s1", "a0", "a1", "a2", "a3", "a4",
        "a5", "a6", "a7", "s2", "s3", "s4", "s5", "s6", "s7", "s8", "s9", "s10", "s11", "t3", "t4",
        "t5", "t6",
    ];
    for (i, name) in abi.iter().enumerate() {
        assert_eq!(lex(name), vec![Token::Reg(i as u8)], "alias {}", name);
        assert_eq!(lex(&name.to_uppercase()), vec![Token::Reg(i as u8)], "alias {}", name);
        let numeric = format!("x{}", i);
        assert_eq!(lex(&numeric), vec![Token::Reg(i as u8)], "name {}", numeric);
        assert_eq!(lex(&numeric.to_uppercase()), vec![Token::Reg(i as u8)]);
    }
    assert_eq!(lex("fp"), vec![Token::Reg(8)]);
    for sp in ["SP", "sp", "Sp", "sP"] {
        assert_eq!(lex(sp), vec![Token::Reg(2)]);
    }
    assert_eq!(lex("x32"), vec![iden("x32")]);
    assert_eq!(lex("x01"), vec![iden("x01")]);
}

#[test]
fn hex_literals() {
    assert_eq!(lex("0x"), vec![Token::BadLexeme("0X".to_string())]);
    assert_eq!(lex("0x1A"), vec![Token::Hex("0X1A".to_string())]);
    assert_eq!(lex("0XfF09"), vec![Token::Hex("0XfF09".to_string())]);
    assert_eq!(lex("0x1g"), vec![Token::Hex("0X1".to_string()), iden("g")]);
}

#[test]
fn size_directive_synonyms() {
    assert_eq!(lex(".word"), vec![Token::Word]);
    assert_eq!(lex(".long"), vec![Token::Word]);
    assert_eq!(lex(".WORD"), vec![Token::Word]);
    assert_eq!(lex("word"), vec![Token::Word]);
    // A dot must be followed by a letter to start a directive.
    assert_eq!(lex(".4byte"), vec![Token::Bad('.'), Token::Number("4".to_string()), Token::Byte]);
    assert_eq!(lex(".half .short"), vec![Token::HalfWord, Token::HalfWord]);
    assert_eq!(lex(".dword .quad"), vec![Token::DoubleWord, Token::DoubleWord]);
}

#[test]
fn other_directives() {
    assert_eq!(
        lex(".string .asciz .equ .align .p2align .section .text .data .rodata .bss .byte"),
        vec![
            Token::Str,
            Token::Strz,
            Token::Equ,
            Token::ByteAlign,
            Token::P2Align,
            Token::Section,
            Token::TextSection,
            Token::DataSection,
            Token::ReadOnlyData,
            Token::UninitializedData,
            Token::Byte,
        ]
    );
    assert_eq!(lex(".proc .macro .begin .end"), vec![Token::Proc, Token::Macro, Token::Begin, Token::End]);
    assert_eq!(lex(".foo"), vec![Token::BadLexeme("foo".to_string())]);
    assert_eq!(lex("."), vec![Token::Bad('.')]);
    assert_eq!(lex(". x"), vec![Token::Bad('.'), iden("x")]);
}

#[test]
fn keywords() {
    assert_eq!(
        lex("proc macro begin end return true false"),
        vec![Token::Proc, Token::Macro, Token::Begin, Token::End, Token::Return, Token::True, Token::False]
    );
    assert_eq!(lex("TRUE Return"), vec![Token::True, Token::Return]);
}

#[test]
fn labels_need_an_adjacent_colon() {
    assert_eq!(lex("foo:"), vec![Token::Label("foo".to_string())]);
    assert_eq!(lex("foo :"), vec![iden("foo"), Token::Colon]);
    assert_eq!(lex("a0:"), vec![Token::Reg(10), Token::Colon]);
    assert_eq!(lex("loop_1: x"), vec![Token::Label("loop_1".to_string()), iden("x")]);
}

#[test]
fn punctuation_alone() {
    let table = [
        ('=', Token::Assign),
        ('!', Token::Negate),
        ('+', Token::Plus),
        ('-', Token::Minus),
        ('/', Token::Div),
        ('*', Token::Mult),
        ('%', Token::Mod),
        (',', Token::Comma),
        (':', Token::Colon),
        (';', Token::Semicolon),
        ('#', Token::Sharp),
        ('(', Token::LeftParen),
        (')', Token::RightParen),
        ('[', Token::LeftSqBrace),
        (']', Token::RightSqBrace),
    ];
    for (c, t) in table.iter() {
        assert_eq!(lex(&c.to_string()), vec![t.clone()]);
    }
    for i in 0..table.len() {
        for j in 0..table.len() {
            if i != j {
                assert_ne!(table[i].1, table[j].1);
            }
        }
    }
}

#[test]
fn decimal_numbers() {
    assert_eq!(lex("123"), vec![Token::Number("123".to_string())]);
    assert_eq!(lex("42,7"), vec![Token::Number("42".to_string()), Token::Comma, Token::Number("7".to_string())]);
    assert_eq!(lex("1\u{663}"), vec![Token::Number("1\u{663}".to_string())]);
}

#[test]
fn leading_zero_is_dropped() {
    assert_eq!(lex("007"), vec![Token::Number("07".to_string())]);
    assert_eq!(lex("05"), vec![Token::Number("5".to_string())]);
    assert_eq!(lex("0"), vec![Token::Number("0".to_string())]);
    assert_eq!(lex("0 1"), vec![Token::Number(" 1".to_string())]);
}

#[test]
fn bad_characters() {
    assert_eq!(lex("@"), vec![Token::Bad('@')]);
    assert_eq!(lex("a$b"), vec![iden("a"), Token::Bad('$'), iden("b")]);
}

#[test]
fn identifiers() {
    assert_eq!(lex("add"), vec![iden("add")]);
    assert_eq!(lex("Add_2 mov"), vec![iden("Add_2"), iden("mov")]);
    assert_eq!(lex("\u{e9}t\u{e9}"), vec![iden("\u{e9}t\u{e9}")]);
}

#[test]
fn line_numbers_count_newlines() {
    let mut lx = Lexer::new("a\n\nb\r\nc");
    assert_eq!(lx.linenum(), 1);
    assert_eq!(lx.next_token(), Some(iden("a")));
    assert_eq!(lx.linenum(), 1);
    assert_eq!(lx.next_token(), Some(iden("b")));
    assert_eq!(lx.linenum(), 3);
    assert_eq!(lx.next_token(), Some(iden("c")));
    assert_eq!(lx.linenum(), 4);
    assert_eq!(lx.next_token(), None);
}

#[test]
fn eat_comma_consumes_only_a_comma() {
    let mut lx = Lexer::new("  , x");
    assert!(lx.eat_comma());
    assert!(!lx.eat_comma());
    assert_eq!(lx.next_token(), Some(iden("x")));
}

#[test]
fn lexer_from_source() {
    let src = Source::loaded("a.s".to_string(), "sp, ra".to_string());
    assert_eq!(src.fname(), "a.s");
    assert_eq!(src.error(), "");
    let mut lx = Lexer::from(&src);
    assert_eq!(lx.tokens(), vec![Token::Reg(2), Token::Comma, Token::Reg(1)]);

    let bad = Source::failed("b.s".to_string(), "not found".to_string());
    assert_eq!(bad.text(), "");
    assert_eq!(bad.error(), "not found");
    let mut lx = Lexer::from(&bad);
    assert_eq!(lx.next_token(), None);
}

#[test]
fn keyword_lookup_tables() {
    assert_eq!(Lexer::lookup_keyword("Zero"), Some(Token::Reg(0)));
    assert_eq!(Lexer::lookup_keyword("RETURN"), Some(Token::Return));
    assert_eq!(Lexer::lookup_keyword("bss"), Some(Token::UninitializedData));
    assert_eq!(Lexer::lookup_directive("bss"), Some(Token::UninitializedData));
    assert_eq!(Lexer::lookup_directive("sp"), None);
    assert_eq!(Lexer::lookup_keyword("add"), None);
}
