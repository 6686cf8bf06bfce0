use minicc::tokenize::{LexKind, Lexeme, Token, TokenKind, Tokenizer};

fn tok(kind: TokenKind, text: &str, start: usize, end: usize) -> Token {
    Token { kind, tok: text.to_string(), span: start..end }
}

#[test]
fn tokenizes_expression() {
    let t = Tokenizer::new("a.c", String::from("a+1"));
    assert_eq!(t.path, "a.c");
    assert_eq!(t.context, "a+1");
    assert_eq!(t.tokens.len(), 4);
    assert_eq!(t.tokens[0].kind, TokenKind::TkIdent);
    assert_eq!(t.tokens[0].tok, "a");
    assert_eq!(t.tokens[0].span, 0..1);
    assert_eq!(t.tokens[1].kind, TokenKind::TkPunct);
    assert_eq!(t.tokens[1].tok, "+");
    assert_eq!(t.tokens[1].span, 1..2);
    assert_eq!(t.tokens[2].kind, TokenKind::TkNum);
    assert_eq!(t.tokens[2].tok, "1");
    assert_eq!(t.tokens[2].span, 2..3);
    assert_eq!(t.tokens[3].kind, TokenKind::TkEof);
    assert_eq!(t.tokens[3].tok, "");
    assert_eq!(t.tokens[3].span, 0..0);
}

#[test]
fn empty_source_gives_only_eof() {
    let t = Tokenizer::new("e.c", String::new());
    assert_eq!(t.tokens.len(), 1);
    assert_eq!(t.tokens[0].kind, TokenKind::TkEof);
    assert_eq!(t.tokens[0].tok, "");
}

#[test]
fn skips_whitespace_and_keeps_multi_char_symbols() {
    let t = Tokenizer::new("w.c", String::from("  x <= 10 ;\n"));
    let texts: Vec<&str> = t.tokens.iter().map(|t| t.tok.as_str()).collect();
    assert_eq!(texts, vec!["x", "<=", "10", ";", ""]);
    assert_eq!(t.tokens[1].span, 4..6);
    assert_eq!(t.tokens[2].kind, TokenKind::TkNum);
}

#[test]
fn keywords_are_identifiers_and_other_lexemes_end_class() {
    let t = Tokenizer::new("k.c", String::from("return 1.5 \"s\" /* c */"));
    assert_eq!(t.tokens[0].kind, TokenKind::TkIdent);
    assert_eq!(t.tokens[0].tok, "return");
    assert_eq!(t.tokens[1].kind, TokenKind::TkEof);
    assert_eq!(t.tokens[1].tok, "1.5");
    assert_eq!(t.tokens[2].kind, TokenKind::TkEof);
    assert_eq!(t.tokens[3].kind, TokenKind::TkEof);
    assert_eq!(t.tokens[3].tok, "/* c */");
    assert_eq!(t.tokens.len(), 5);
}

#[test]
fn index_reads_token() {
    let t = Tokenizer::new("i.c", String::from("a b"));
    assert_eq!(t.index(1).tok, "b");
}

#[test]
fn token_equality_ignores_span() {
    assert_eq!(tok(TokenKind::TkNum, "1", 0, 1), tok(TokenKind::TkNum, "1", 5, 6));
    assert_ne!(tok(TokenKind::TkNum, "1", 0, 1), tok(TokenKind::TkPunct, "1", 0, 1));
    assert_ne!(tok(TokenKind::TkNum, "1", 0, 1), tok(TokenKind::TkNum, "2", 0, 1));
}

#[test]
fn token_equals_its_text() {
    assert!(tok(TokenKind::TkPunct, "{", 0, 1) == "{");
    assert!(!(tok(TokenKind::TkPunct, "{", 0, 1) == "}"));
    let t = tok(TokenKind::TkIdent, "if", 3, 5);
    let r: &Token = &t;
    assert!(r == "if");
    assert!(!(r == "else"));
}

#[test]
fn tokenizer_from_given_lexemes() {
    let lexemes = vec![
        Lexeme { token: LexKind::Identifier, span: 0..3, slice: String::from("foo") },
        Lexeme { token: LexKind::Symbol, span: 4..5, slice: String::from("=") },
        Lexeme { token: LexKind::Int, span: 6..8, slice: String::from("42") },
        Lexeme { token: LexKind::Comment, span: 9..13, slice: String::from("// c") },
    ];
    let t = Tokenizer::from_lexemes("l.c", String::from("foo = 42 // c"), lexemes);
    assert_eq!(t.path, "l.c");
    assert_eq!(t.tokens.len(), 5);
    assert_eq!(t.tokens[0], tok(TokenKind::TkIdent, "foo", 0, 3));
    assert_eq!(t.tokens[0].span, 0..3);
    assert_eq!(t.tokens[1].kind, TokenKind::TkPunct);
    assert_eq!(t.tokens[2].kind, TokenKind::TkNum);
    assert_eq!(t.tokens[2].span, 6..8);
    assert_eq!(t.tokens[3].kind, TokenKind::TkEof);
    assert_eq!(t.tokens[3].tok, "// c");
    assert_eq!(t.tokens[4], tok(TokenKind::TkEof, "", 0, 0));
}
