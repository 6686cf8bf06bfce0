use minicc::ast::{Function, Node, NodeKind, Obj, Program};
use minicc::tokenize::{Token, TokenKind, Tokenizer};
use minicc::utils::Mbox;

fn parsed(src: &str) -> Program {
    let mut p = Program::new(Tokenizer::new("test.c", String::from(src)));
    assert!(p.try_parse().is_ok());
    p
}

#[test]
fn dumps_arithmetic() {
    let (text, complete) = parsed("{ return 1+2*3; }").try_dump();
    assert!(complete);
    assert_eq!(
        text,
        "stack-size: 0\nBlock:\n  return:\n    +:\n    lhs:\n      NdNum: 1\n    rhs:\n      *:\n      lhs:\n        NdNum: 2\n      rhs:\n        NdNum: 3\n"
    );
}

#[test]
fn dumps_locals_and_variables() {
    let (text, complete) = parsed("{ a = 1; return a; }").try_dump();
    assert!(complete);
    assert_eq!(
        text,
        "stack-size: 0\nlocal: a (offset 0)\nBlock:\n  ExprStmp:\n    =:\n    lhs:\n      NdVar: a\n    rhs:\n      NdNum: 1\n  return:\n    NdVar: a\n"
    );
}

#[test]
fn dumps_comparisons_and_negation() {
    let (text, complete) = parsed("{ -x<=2!=y; }").try_dump();
    assert!(complete);
    assert_eq!(
        text,
        "stack-size: 0\nlocal: x (offset 0)\nlocal: y (offset 0)\nBlock:\n  ExprStmp:\n    !=:\n    lhs:\n      <=:\n      lhs:\n        -:\n          NdVar: x\n      rhs:\n        NdNum: 2\n    rhs:\n      NdVar: y\n"
    );
}

#[test]
fn dumps_if_else_and_nested_blocks() {
    let (text, complete) = parsed("{ if (a) { b; } else c; if (a) ; }").try_dump();
    assert!(complete);
    assert_eq!(
        text,
        "stack-size: 0\nlocal: a (offset 0)\nlocal: b (offset 0)\nlocal: c (offset 0)\nBlock:\n  if:\n  cond:\n    NdVar: a\n  then:\n    Block:\n      ExprStmp:\n        NdVar: b\n  else:\n    ExprStmp:\n      NdVar: c\n  if:\n  cond:\n    NdVar: a\n  then:\n    Block:\n"
    );
}

#[test]
fn dump_stops_at_a_loop() {
    let (text, complete) = parsed("{ 1; while (a) a; 2; }").try_dump();
    assert!(!complete);
    assert_eq!(text, "stack-size: 0\nlocal: a (offset 0)\nBlock:\n  ExprStmp:\n    NdNum: 1\n");
}

#[test]
fn dump_without_function_is_empty() {
    let p = Program::new(Tokenizer::new("e.c", String::from("{ }")));
    assert_eq!(p.try_dump(), (String::new(), false));
}

#[test]
fn dumps_frame_size_and_negative_offsets() {
    let tokens = vec![
        Token { kind: TokenKind::TkIdent, tok: String::from("x"), span: 0..1 },
        Token { kind: TokenKind::TkEof, tok: String::new(), span: 0..0 },
    ];
    let tokenizer = Tokenizer { path: String::from("f.c"), context: String::from("x"), tokens };
    let mut p = Program::new(tokenizer);
    let body = Node::from_unary(NodeKind::NdReturn, Mbox::new(Node::from_obj(0)));
    p.asts = Mbox::new(Function { stack_size: 1234, locals: vec![Obj { token_id: 0, offset: -8 }], body: Mbox::new(body) });
    let (text, complete) = p.try_dump();
    assert!(complete);
    assert_eq!(text, "stack-size: 1234\nlocal: x (offset -8)\nreturn:\n  NdVar: x\n");
}

#[test]
fn dump_stops_at_missing_token() {
    let tokenizer = Tokenizer { path: String::from("g.c"), context: String::new(), tokens: Vec::new() };
    let mut p = Program::new(tokenizer);
    p.asts = Mbox::new(Function { stack_size: -3, locals: vec![Obj { token_id: 5, offset: 0 }], body: Mbox::new(Node::from(NodeKind::NdBlock)) });
    let (text, complete) = p.try_dump();
    assert!(!complete);
    assert_eq!(text, "stack-size: -3\n");
}

#[test]
fn dump_stops_at_missing_child() {
    let tokens = vec![Token { kind: TokenKind::TkNum, tok: String::from("7"), span: 0..1 }];
    let objs: Vec<Obj> = Vec::new();
    let node = Node::from_binary(NodeKind::NdSub, Mbox::new(Node::from_token(NodeKind::NdNum, 0)), Mbox::nil());
    let mut out = String::new();
    let complete = Program::dump_ast(&tokens, &objs, &node, 1, &mut out);
    assert!(!complete);
    assert_eq!(out, " -:\n lhs:\n   NdNum: 7\n rhs:\n");
}

#[test]
fn dump_ast_appends() {
    let tokens = vec![Token { kind: TokenKind::TkNum, tok: String::from("42"), span: 0..2 }];
    let objs: Vec<Obj> = Vec::new();
    let mut out = String::from("> ");
    let complete = Program::dump_ast(&tokens, &objs, &Node::from_token(NodeKind::NdNum, 0), 0, &mut out);
    assert!(complete);
    assert_eq!(out, "> NdNum: 42\n");
    let mut bad = String::new();
    assert!(!Program::dump_ast(&tokens, &objs, &Node::from_obj(0), 0, &mut bad));
    assert_eq!(bad, "");
}

#[test]
fn dump_gives_text_of_complete_program() {
    let text = parsed("{ return 7; }").dump();
    assert_eq!(text, "stack-size: 0\nBlock:\n  return:\n    NdNum: 7\n");
}

#[test]
fn deeper_dump_shifts_every_line() {
    let p = parsed("{ if (a) b = 1; else { return -a; } }");
    let f = p.asts.as_ref().unwrap();
    let body = f.body.as_ref().unwrap();
    let mut at0 = String::new();
    assert!(Program::dump_ast(&p.tokenizer.tokens, &f.locals, body, 0, &mut at0));
    let mut at3 = String::new();
    assert!(Program::dump_ast(&p.tokenizer.tokens, &f.locals, body, 3, &mut at3));
    let shifted: String = at0.lines().map(|l| format!("   {}\n", l)).collect();
    assert_eq!(at3, shifted);
    assert!(at0.starts_with("Block:\n  if:\n  cond:\n"));
}
