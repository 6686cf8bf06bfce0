use minicc::ast::{Node, NodeKind, Program};
use minicc::parse::ParseError;
use minicc::tokenize::{Token, TokenKind, Tokenizer};

fn program(src: &str) -> Program {
    Program::new(Tokenizer::new("test.c", String::from(src)))
}

fn body(p: &Program) -> &Node {
    p.asts.as_ref().unwrap().body.as_ref().unwrap()
}

fn child(n: &Option<Box<Node>>) -> &Node {
    n.as_ref().unwrap()
}

#[test]
fn new_program_starts_at_first_token() {
    let p = program("{ }");
    assert_eq!(p.pos, 0);
    assert!(p.locals.is_empty());
    assert!(p.asts.is_nil());
    assert_eq!(p.tokenizer.tokens.len(), 3);
}

#[test]
fn parses_empty_block() {
    let mut p = program("{ }");
    assert!(p.try_parse().is_ok());
    assert_eq!(p.pos, 2);
    let b = body(&p);
    assert_eq!(b.kind, NodeKind::NdBlock);
    assert!(b.body.is_empty());
    assert_eq!(b.token_id, 1);
    let f = p.asts.as_ref().unwrap();
    assert_eq!(f.stack_size, 0);
    assert!(f.locals.is_empty());
}

#[test]
fn leading_brace_is_optional() {
    let mut p = program("return 1; }");
    assert!(p.try_parse().is_ok());
    let b = body(&p);
    assert_eq!(b.kind, NodeKind::NdBlock);
    assert_eq!(b.token_id, 0);
    assert_eq!(b.body.len(), 1);
    assert_eq!(child(&b.body[0]).kind, NodeKind::NdReturn);
}

#[test]
fn multiplication_binds_tighter_than_addition() {
    let mut p = program("{ return 1+2*3; }");
    assert!(p.try_parse().is_ok());
    let ret = child(&body(&p).body[0]);
    assert_eq!(ret.kind, NodeKind::NdReturn);
    let add = child(&ret.lhs);
    assert_eq!(add.kind, NodeKind::NdAdd);
    assert_eq!(child(&add.lhs).kind, NodeKind::NdNum);
    assert_eq!(child(&add.lhs).token_id, 2);
    let mul = child(&add.rhs);
    assert_eq!(mul.kind, NodeKind::NdMul);
    assert_eq!(child(&mul.lhs).token_id, 4);
    assert_eq!(child(&mul.rhs).token_id, 6);
}

#[test]
fn subtraction_is_left_associative() {
    let mut p = program("{ 5-2-1; }");
    assert!(p.try_parse().is_ok());
    let stmt = child(&body(&p).body[0]);
    assert_eq!(stmt.kind, NodeKind::NdExprStmp);
    let outer = child(&stmt.lhs);
    assert_eq!(outer.kind, NodeKind::NdSub);
    assert_eq!(child(&outer.rhs).token_id, 5);
    let inner = child(&outer.lhs);
    assert_eq!(inner.kind, NodeKind::NdSub);
    assert_eq!(child(&inner.lhs).token_id, 1);
    assert_eq!(child(&inner.rhs).token_id, 3);
}

#[test]
fn assignment_is_right_associative() {
    let mut p = program("{ a=b=1; }");
    assert!(p.try_parse().is_ok());
    let outer = child(&child(&body(&p).body[0]).lhs);
    assert_eq!(outer.kind, NodeKind::NdAssign);
    assert_eq!(child(&outer.lhs).kind, NodeKind::NdVar);
    assert_eq!(child(&outer.lhs).obj, 0);
    let inner = child(&outer.rhs);
    assert_eq!(inner.kind, NodeKind::NdAssign);
    assert_eq!(child(&inner.lhs).obj, 1);
    assert_eq!(child(&inner.rhs).kind, NodeKind::NdNum);
}

#[test]
fn greater_than_swaps_operands() {
    let mut p = program("{ 1>2; 3>=4; }");
    assert!(p.try_parse().is_ok());
    let gt = child(&child(&body(&p).body[0]).lhs);
    assert_eq!(gt.kind, NodeKind::NdLt);
    assert_eq!(child(&gt.lhs).token_id, 3);
    assert_eq!(child(&gt.rhs).token_id, 1);
    let ge = child(&child(&body(&p).body[1]).lhs);
    assert_eq!(ge.kind, NodeKind::NdLe);
    assert_eq!(child(&ge.lhs).token_id, 7);
    assert_eq!(child(&ge.rhs).token_id, 5);
}

#[test]
fn equality_and_negation() {
    let mut p = program("{ -1==+2; 1!=2; }");
    assert!(p.try_parse().is_ok());
    let eq = child(&child(&body(&p).body[0]).lhs);
    assert_eq!(eq.kind, NodeKind::NdEq);
    let neg = child(&eq.lhs);
    assert_eq!(neg.kind, NodeKind::NdNeg);
    assert_eq!(child(&neg.lhs).kind, NodeKind::NdNum);
    assert_eq!(child(&eq.rhs).kind, NodeKind::NdNum);
    assert_eq!(child(&eq.rhs).token_id, 5);
    let ne = child(&child(&body(&p).body[1]).lhs);
    assert_eq!(ne.kind, NodeKind::NdNe);
}

#[test]
fn parentheses_group() {
    let mut p = program("{ (1+2)*3; }");
    assert!(p.try_parse().is_ok());
    let mul = child(&child(&body(&p).body[0]).lhs);
    assert_eq!(mul.kind, NodeKind::NdMul);
    assert_eq!(child(&mul.lhs).kind, NodeKind::NdAdd);
    assert_eq!(child(&mul.rhs).token_id, 7);
}

#[test]
fn variables_get_one_local_each() {
    let mut p = program("{ a=1; b=a; return b; }");
    assert!(p.try_parse().is_ok());
    assert_eq!(p.locals.len(), 2);
    assert_eq!(p.locals[0].token_id, 1);
    assert_eq!(p.locals[1].token_id, 5);
    assert_eq!(p.locals[0].offset, 0);
    let f = p.asts.as_ref().unwrap();
    assert_eq!(f.locals.len(), 2);
    let second = child(&child(&body(&p).body[1]).lhs);
    assert_eq!(child(&second.lhs).obj, 1);
    assert_eq!(child(&second.rhs).obj, 0);
    assert_eq!(child(&second.rhs).token_id, 7);
}

#[test]
fn if_else_statement() {
    let mut p = program("{ if (a) 1; else 2; if (b) 3; }");
    assert!(p.try_parse().is_ok());
    let first = child(&body(&p).body[0]);
    assert_eq!(first.kind, NodeKind::NdIf);
    assert_eq!(child(&first.cond).kind, NodeKind::NdVar);
    assert_eq!(child(&first.then_branch).kind, NodeKind::NdExprStmp);
    assert_eq!(child(&first.els).kind, NodeKind::NdExprStmp);
    let second = child(&body(&p).body[1]);
    assert_eq!(second.kind, NodeKind::NdIf);
    assert!(second.els.is_none());
}

#[test]
fn for_and_while_loops() {
    let mut p = program("{ for (i=0; i<3; i=i+1) ; for (;;) {} while (i) i=i-1; }");
    assert!(p.try_parse().is_ok());
    let f = child(&body(&p).body[0]);
    assert_eq!(f.kind, NodeKind::NdFor);
    assert_eq!(child(&f.init).kind, NodeKind::NdExprStmp);
    assert_eq!(child(&f.cond).kind, NodeKind::NdLt);
    assert_eq!(child(&f.inc).kind, NodeKind::NdAssign);
    assert_eq!(child(&f.then_branch).kind, NodeKind::NdBlock);
    let bare = child(&body(&p).body[1]);
    assert_eq!(bare.kind, NodeKind::NdFor);
    assert_eq!(child(&bare.init).kind, NodeKind::NdBlock);
    assert!(bare.cond.is_none() && bare.inc.is_none());
    let w = child(&body(&p).body[2]);
    assert_eq!(w.kind, NodeKind::NdFor);
    assert!(w.init.is_none() && w.inc.is_none());
    assert_eq!(child(&w.cond).kind, NodeKind::NdVar);
    assert_eq!(p.locals.len(), 1);
}

#[test]
fn nested_block_and_empty_statement() {
    let mut p = program("{ { 1; } ; }");
    assert!(p.try_parse().is_ok());
    let b = body(&p);
    assert_eq!(b.body.len(), 2);
    assert_eq!(child(&b.body[0]).kind, NodeKind::NdBlock);
    assert_eq!(child(&b.body[0]).body.len(), 1);
    assert_eq!(child(&b.body[1]).kind, NodeKind::NdBlock);
    assert!(child(&b.body[1]).body.is_empty());
}

#[test]
fn missing_semicolon_is_expected_token() {
    let mut p = program("{ 1 }");
    match p.try_parse() {
        Err(ParseError::ExpectedToken { expected, found }) => {
            assert_eq!(expected, ";");
            assert_eq!(found, "}");
        },
        other => panic!("unexpected result {:?}", other),
    }
    assert_eq!(p.pos, 0);
    assert!(p.asts.is_nil());
    assert!(p.locals.is_empty());
}

#[test]
fn missing_expression_is_reported() {
    let mut p = program("{ a = ; }");
    assert!(matches!(p.try_parse(), Err(ParseError::ExpectedExpression)));
    assert_eq!(p.pos, 0);
    assert!(p.locals.is_empty());
    assert!(p.asts.is_nil());
}

#[test]
fn unclosed_block_reaches_end_token() {
    let mut p = program("{ 1;");
    assert!(matches!(p.try_parse(), Err(ParseError::ExpectedExpression)));
    let mut q = program("{ (1; }");
    match q.try_parse() {
        Err(ParseError::ExpectedToken { expected, found }) => {
            assert_eq!(expected, ")");
            assert_eq!(found, ";");
        },
        other => panic!("unexpected result {:?}", other),
    }
}

#[test]
fn reading_past_the_tokens_is_out_of_bounds() {
    let tokenizer = Tokenizer { path: String::from("x.c"), context: String::new(), tokens: Vec::new() };
    let mut p = Program::new(tokenizer);
    assert!(matches!(p.try_parse(), Err(ParseError::IndexOutOfBounds)));
    let tokens = vec![Token { kind: TokenKind::TkPunct, tok: String::from("{"), span: 0..1 }];
    let tokenizer = Tokenizer { path: String::from("y.c"), context: String::from("{"), tokens };
    let mut q = Program::new(tokenizer);
    assert!(matches!(q.try_parse(), Err(ParseError::IndexOutOfBounds)));
    assert_eq!(q.pos, 0);
}

#[test]
fn parse_stores_function() {
    let mut p = program("{ x = 2; }");
    p.parse();
    assert_eq!(p.pos, 6);
    let f = p.asts.as_ref().unwrap();
    assert_eq!(f.locals.len(), 1);
    assert_eq!(f.locals[0].token_id, 1);
    assert_eq!(body(&p).body.len(), 1);
}

#[test]
fn expression_and_assignment_rules_agree() {
    let mut a = program("x = y == 1 ;");
    let mut b = program("x = y == 1 ;");
    let ea = a.expr().ok().unwrap();
    let eb = b.assign().ok().unwrap();
    assert_eq!(a.pos, b.pos);
    assert_eq!(a.pos, 5);
    assert_eq!(ea.as_ref().unwrap().kind, NodeKind::NdAssign);
    assert_eq!(eb.as_ref().unwrap().kind, NodeKind::NdAssign);
    assert_eq!(a.locals.len(), b.locals.len());
}

#[test]
fn leading_plus_adds_no_node() {
    let mut plain = program("- x");
    let mut plus = program("+ - x");
    let a = plain.unary().ok().unwrap();
    let b = plus.unary().ok().unwrap();
    assert_eq!(a.as_ref().unwrap().kind, NodeKind::NdNeg);
    assert_eq!(b.as_ref().unwrap().kind, NodeKind::NdNeg);
    assert_eq!(plus.pos, plain.pos + 1);
    assert_eq!(plain.locals[0].token_id + 1, plus.locals[0].token_id);
}

#[test]
fn end_token_is_never_consumed() {
    let mut p = program("");
    assert_eq!(p.tokenizer.tokens.len(), 1);
    assert!(matches!(p.consume(";"), Ok(false)));
    assert_eq!(p.pos, 0);
    assert!(matches!(p.expect(")"), Err(ParseError::ExpectedToken { .. })));
    assert_eq!(p.pos, 0);
    assert!(matches!(p.primary(), Err(ParseError::ExpectedExpression)));
    assert_eq!(p.pos, 0);
}

#[test]
fn parsed_body_is_a_block_with_locals_in_order() {
    let mut p = program("{ b = 1; a = b; c = a; }");
    assert!(p.try_parse().is_ok());
    assert_eq!(body(&p).kind, NodeKind::NdBlock);
    let names: Vec<&str> = p.locals.iter().map(|o| p.tokenizer.tokens[o.token_id].tok.as_str()).collect();
    assert_eq!(names, vec!["b", "a", "c"]);
    assert!(p.locals.iter().all(|o| o.offset == 0));
}

#[test]
fn statement_rule_reports_missing_semicolon() {
    let mut p = program("return 1 }");
    match p.stmt() {
        Err(ParseError::ExpectedToken { expected, found }) => {
            assert_eq!(expected, ";");
            assert_eq!(found, "}");
        },
        other => panic!("unexpected result {:?}", other.is_ok()),
    }
    let mut q = program("a ;");
    assert!(matches!(q.compound_stmt(), Err(ParseError::ExpectedExpression)));
}
