use crate::ast::{blank, view_body, view_child, Function, Node, NodeKind, NodeView, Obj, Program};
use crate::tokenize::{Token, TokenKind, TokenView, Tokenizer};
use crate::utils::Mbox;
use vstd::prelude::*;

verus! {

/// Why a token sequence is not a program.
#[derive(Debug)]
pub enum ParseError {
    /// A required token is missing: what was expected and what was found instead.
    ExpectedToken { expected: String, found: String },
    /// An expression was required and the current token cannot start one.
    ExpectedExpression,
    /// A token position outside the token sequence was read.
    IndexOutOfBounds,
}

/// A parse error as a plain value.
pub enum ParseErrorView {
    ExpectedToken { expected: Seq<char>, found: Seq<char> },
    ExpectedExpression,
    IndexOutOfBounds,
}

impl View for ParseError {
    type V = ParseErrorView;

    open spec fn view(&self) -> ParseErrorView {
        match self {
            ParseError::ExpectedToken { expected, found } => ParseErrorView::ExpectedToken {
                expected: expected@,
                found: found@,
            },
            ParseError::ExpectedExpression => ParseErrorView::ExpectedExpression,
            ParseError::IndexOutOfBounds => ParseErrorView::IndexOutOfBounds,
        }
    }
}

/// The result of parsing one construct: its tree, the position after it and the locals after it.
pub struct Step {
    pub node: NodeView,
    pub pos: int,
    pub locals: Seq<Obj>,
}

/// Whether the token at `p` is `s` (reading past the end is an error).
pub open spec fn spec_consume(toks: Seq<TokenView>, p: int, s: Seq<char>) -> Result<bool, ParseErrorView> {
    if 0 <= p < toks.len() {
        Ok(toks[p].tok == s)
    } else {
        Err(ParseErrorView::IndexOutOfBounds)
    }
}

/// The position after the token `s` at `p`, which must be there.
pub open spec fn spec_expect(toks: Seq<TokenView>, p: int, s: Seq<char>) -> Result<int, ParseErrorView> {
    if 0 <= p < toks.len() {
        if toks[p].tok == s {
            Ok(p + 1)
        } else {
            Err(ParseErrorView::ExpectedToken { expected: s, found: toks[p].tok })
        }
    } else {
        Err(ParseErrorView::IndexOutOfBounds)
    }
}

/// The index of the first local, from `i` on, whose naming token has text `name`.
pub open spec fn spec_find_local(toks: Seq<TokenView>, locals: Seq<Obj>, name: Seq<char>, i: int) -> Result<Option<int>, ParseErrorView>
    decreases locals.len() - i,
{
    if i < 0 || i >= locals.len() {
        Ok(None)
    } else if locals[i].token_id >= toks.len() {
        Err(ParseErrorView::IndexOutOfBounds)
    } else if toks[locals[i].token_id as int].tok == name {
        Ok(Some(i))
    } else {
        spec_find_local(toks, locals, name, i + 1)
    }
}

/// A childless node of `kind` at token `t`.
pub open spec fn node_leaf(kind: NodeKind, t: int) -> NodeView {
    NodeView { token_id: t as usize, ..blank(kind) }
}

/// A node of `kind` over `e` (held as `lhs`) at token `t`.
pub open spec fn node_unary(kind: NodeKind, e: NodeView, t: int) -> NodeView {
    NodeView { lhs: Some(Box::new(e)), token_id: t as usize, ..blank(kind) }
}

/// A node of `kind` over `l` and `r` at token `t`.
pub open spec fn node_binary(kind: NodeKind, l: NodeView, r: NodeView, t: int) -> NodeView {
    NodeView { lhs: Some(Box::new(l)), rhs: Some(Box::new(r)), token_id: t as usize, ..blank(kind) }
}

/// A variable node for local `obj` at token `t`.
pub open spec fn node_var(obj: int, t: int) -> NodeView {
    NodeView { obj: obj as usize, token_id: t as usize, ..blank(NodeKind::NdVar) }
}

/// A block node with statements `body` at token `t`.
pub open spec fn node_block(body: Seq<Option<Box<NodeView>>>, t: int) -> NodeView {
    NodeView { body, token_id: t as usize, ..blank(NodeKind::NdBlock) }
}

/// An optional child, boxed.
pub open spec fn boxed(n: Option<NodeView>) -> Option<Box<NodeView>> {
    match n {
        Some(v) => Some(Box::new(v)),
        None => None,
    }
}

/// An `if` node at token `t`.
pub open spec fn node_if(c: NodeView, th: NodeView, el: Option<NodeView>, t: int) -> NodeView {
    NodeView {
        cond: Some(Box::new(c)),
        then_branch: Some(Box::new(th)),
        els: boxed(el),
        token_id: t as usize,
        ..blank(NodeKind::NdIf)
    }
}

/// A loop node at token `t`; `while` leaves `init` and `inc` out.
pub open spec fn node_for(init: Option<NodeView>, c: Option<NodeView>, inc: Option<NodeView>, body: NodeView, t: int) -> NodeView {
    NodeView {
        init: boxed(init),
        cond: boxed(c),
        inc: boxed(inc),
        then_branch: Some(Box::new(body)),
        token_id: t as usize,
        ..blank(NodeKind::NdFor)
    }
}

// The grammar, one spec function per rule. Each takes the tokens, the read position and the
// locals so far, and gives the tree, the position after it and the locals after it, or the error
// at which parsing stops. The guards `p < q` (or `p <= q`) on recursive calls at a position `q`
// reached by a sub-parse only make termination evident: every sub-parse moves forward, so they hold.

// primary = "(" expr ")" | num | ident
pub open spec fn spec_primary(toks: Seq<TokenView>, p: int, l: Seq<Obj>) -> Result<Step, ParseErrorView>
    decreases toks.len() - p, 14int,
{
    match spec_consume(toks, p, "("@) {
        Err(e) => Err(e),
        Ok(true) => match spec_expr(toks, p + 1, l) {
            Err(e) => Err(e),
            Ok(s) => match spec_expect(toks, s.pos, ")"@) {
                Err(e) => Err(e),
                Ok(q) => Ok(Step { node: s.node, pos: q, locals: s.locals }),
            },
        },
        Ok(false) => if toks[p].kind == TokenKind::TkNum {
            Ok(Step { node: node_leaf(NodeKind::NdNum, p), pos: p + 1, locals: l })
        } else if toks[p].kind == TokenKind::TkIdent {
            match spec_find_local(toks, l, toks[p].tok, 0) {
                Err(e) => Err(e),
                Ok(Some(i)) => Ok(Step { node: node_var(i, p), pos: p + 1, locals: l }),
                Ok(None) => Ok(Step {
                    node: node_var(l.len() as int, p),
                    pos: p + 1,
                    locals: l.push(Obj { token_id: p as usize, offset: 0 }),
                }),
            }
        } else {
            Err(ParseErrorView::ExpectedExpression)
        },
    }
}

// unary = ("+" | "-") unary | primary
pub open spec fn spec_unary(toks: Seq<TokenView>, p: int, l: Seq<Obj>) -> Result<Step, ParseErrorView>
    decreases toks.len() - p, 15int,
{
    match spec_consume(toks, p, "+"@) {
        Err(e) => Err(e),
        Ok(true) => spec_unary(toks, p + 1, l),
        Ok(false) => match spec_consume(toks, p, "-"@) {
            Err(e) => Err(e),
            Ok(true) => match spec_unary(toks, p + 1, l) {
                Err(e) => Err(e),
                Ok(s) => Ok(Step { node: node_unary(NodeKind::NdNeg, s.node, s.pos), pos: s.pos, locals: s.locals }),
            },
            Ok(false) => spec_primary(toks, p, l),
        },
    }
}

// mul = unary ("*" unary | "/" unary)*
pub open spec fn spec_mul(toks: Seq<TokenView>, p: int, l: Seq<Obj>) -> Result<Step, ParseErrorView>
    decreases toks.len() - p, 17int,
{
    match spec_unary(toks, p, l) {
        Err(e) => Err(e),
        Ok(s) => if p <= s.pos <= toks.len() {
            spec_mul_rest(toks, s.node, s.pos, s.locals)
        } else {
            Err(ParseErrorView::IndexOutOfBounds)
        },
    }
}

/// The binary operator of the `mul` tail at `p`, if any: its node kind, and whether the
/// operands are swapped.
pub open spec fn mul_op_at(toks: Seq<TokenView>, p: int) -> Result<Option<(NodeKind, bool)>, ParseErrorView> {
    if !(0 <= p < toks.len()) {
        Err(ParseErrorView::IndexOutOfBounds)
    } else if toks[p].tok == "*"@ {
        Ok(Some((NodeKind::NdMul, false)))
    } else if toks[p].tok == "/"@ {
        Ok(Some((NodeKind::NdDiv, false)))
    } else {
        Ok(None)
    }
}

/// The `("*" unary | "/" unary)*` tail of `mul`, with `lhs` parsed so far.
pub open spec fn spec_mul_rest(toks: Seq<TokenView>, lhs: NodeView, p: int, l: Seq<Obj>) -> Result<Step, ParseErrorView>
    decreases toks.len() - p, 16int,
{
    match mul_op_at(toks, p) {
        Err(e) => Err(e),
        Ok(Some((kind, swap))) => match spec_unary(toks, p + 1, l) {
            Err(e) => Err(e),
            Ok(s) => if p < s.pos <= toks.len() {
                let joined = if swap {
                    node_binary(kind, s.node, lhs, s.pos)
                } else {
                    node_binary(kind, lhs, s.node, s.pos)
                };
                spec_mul_rest(toks, joined, s.pos, s.locals)
            } else {
                Err(ParseErrorView::IndexOutOfBounds)
            },
        },
        Ok(None) => Ok(Step { node: lhs, pos: p, locals: l }),
    }
}

// add = mul ("+" mul | "-" mul)*
pub open spec fn spec_add(toks: Seq<TokenView>, p: int, l: Seq<Obj>) -> Result<Step, ParseErrorView>
    decreases toks.len() - p, 19int,
{
    match spec_mul(toks, p, l) {
        Err(e) => Err(e),
        Ok(s) => if p <= s.pos <= toks.len() {
            spec_add_rest(toks, s.node, s.pos, s.locals)
        } else {
            Err(ParseErrorView::IndexOutOfBounds)
        },
    }
}

/// The binary operator of the `add` tail at `p`, if any: its node kind, and whether the
/// operands are swapped.
pub open spec fn add_op_at(toks: Seq<TokenView>, p: int) -> Result<Option<(NodeKind, bool)>, ParseErrorView> {
    if !(0 <= p < toks.len()) {
        Err(ParseErrorView::IndexOutOfBounds)
    } else if toks[p].tok == "+"@ {
        Ok(Some((NodeKind::NdAdd, false)))
    } else if toks[p].tok == "-"@ {
        Ok(Some((NodeKind::NdSub, false)))
    } else {
        Ok(None)
    }
}

/// The `("+" mul | "-" mul)*` tail of `add`, with `lhs` parsed so far.
pub open spec fn spec_add_rest(toks: Seq<TokenView>, lhs: NodeView, p: int, l: Seq<Obj>) -> Result<Step, ParseErrorView>
    decreases toks.len() - p, 18int,
{
    match add_op_at(toks, p) {
        Err(e) => Err(e),
        Ok(Some((kind, swap))) => match spec_mul(toks, p + 1, l) {
            Err(e) => Err(e),
            Ok(s) => if p < s.pos <= toks.len() {
                let joined = if swap {
                    node_binary(kind, s.node, lhs, s.pos)
                } else {
                    node_binary(kind, lhs, s.node, s.pos)
                };
                spec_add_rest(toks, joined, s.pos, s.locals)
            } else {
                Err(ParseErrorView::IndexOutOfBounds)
            },
        },
        Ok(None) => Ok(Step { node: lhs, pos: p, locals: l }),
    }
}

// relational = add ("<" add | "<=" add | ">" add | ">=" add)*
pub open spec fn spec_relational(toks: Seq<TokenView>, p: int, l: Seq<Obj>) -> Result<Step, ParseErrorView>
    decreases toks.len() - p, 21int,
{
    match spec_add(toks, p, l) {
        Err(e) => Err(e),
        Ok(s) => if p <= s.pos <= toks.len() {
            spec_relational_rest(toks, s.node, s.pos, s.locals)
        } else {
            Err(ParseErrorView::IndexOutOfBounds)
        },
    }
}

/// The binary operator of the `relational` tail at `p`, if any: its node kind, and whether the
/// operands are swapped.
pub open spec fn relational_op_at(toks: Seq<TokenView>, p: int) -> Result<Option<(NodeKind, bool)>, ParseErrorView> {
    if !(0 <= p < toks.len()) {
        Err(ParseErrorView::IndexOutOfBounds)
    } else if toks[p].tok == "<"@ {
        Ok(Some((NodeKind::NdLt, false)))
    } else if toks[p].tok == "<="@ {
        Ok(Some((NodeKind::NdLe, false)))
    } else if toks[p].tok == ">"@ {
        Ok(Some((NodeKind::NdLt, true)))
    } else if toks[p].tok == ">="@ {
        Ok(Some((NodeKind::NdLe, true)))
    } else {
        Ok(None)
    }
}

/// The comparison tail of `relational`, with `lhs` parsed so far: `>` and `>=` become `<` and `<=`
/// with the operands swapped.
pub open spec fn spec_relational_rest(toks: Seq<TokenView>, lhs: NodeView, p: int, l: Seq<Obj>) -> Result<Step, ParseErrorView>
    decreases toks.len() - p, 20int,
{
    match relational_op_at(toks, p) {
        Err(e) => Err(e),
        Ok(Some((kind, swap))) => match spec_add(toks, p + 1, l) {
            Err(e) => Err(e),
            Ok(s) => if p < s.pos <= toks.len() {
                let joined = if swap {
                    node_binary(kind, s.node, lhs, s.pos)
                } else {
                    node_binary(kind, lhs, s.node, s.pos)
                };
                spec_relational_rest(toks, joined, s.pos, s.locals)
            } else {
                Err(ParseErrorView::IndexOutOfBounds)
            },
        },
        Ok(None) => Ok(Step { node: lhs, pos: p, locals: l }),
    }
}

// equality = relational ("==" relational | "!=" relational)*
pub open spec fn spec_equality(toks: Seq<TokenView>, p: int, l: Seq<Obj>) -> Result<Step, ParseErrorView>
    decreases toks.len() - p, 24int,
{
    match spec_relational(toks, p, l) {
        Err(e) => Err(e),
        Ok(s) => if p <= s.pos <= toks.len() {
            spec_equality_rest(toks, s.node, s.pos, s.locals)
        } else {
            Err(ParseErrorView::IndexOutOfBounds)
        },
    }
}

/// The binary operator of the `equality` tail at `p`, if any: its node kind, and whether the
/// operands are swapped.
pub open spec fn equality_op_at(toks: Seq<TokenView>, p: int) -> Result<Option<(NodeKind, bool)>, ParseErrorView> {
    if !(0 <= p < toks.len()) {
        Err(ParseErrorView::IndexOutOfBounds)
    } else if toks[p].tok == "=="@ {
        Ok(Some((NodeKind::NdEq, false)))
    } else if toks[p].tok == "!="@ {
        Ok(Some((NodeKind::NdNe, false)))
    } else {
        Ok(None)
    }
}

/// The `("==" relational | "!=" relational)*` tail of `equality`, with `lhs` parsed so far.
pub open spec fn spec_equality_rest(toks: Seq<TokenView>, lhs: NodeView, p: int, l: Seq<Obj>) -> Result<Step, ParseErrorView>
    decreases toks.len() - p, 22int,
{
    match equality_op_at(toks, p) {
        Err(e) => Err(e),
        Ok(Some((kind, swap))) => match spec_relational(toks, p + 1, l) {
            Err(e) => Err(e),
            Ok(s) => if p < s.pos <= toks.len() {
                let joined = if swap {
                    node_binary(kind, s.node, lhs, s.pos)
                } else {
                    node_binary(kind, lhs, s.node, s.pos)
                };
                spec_equality_rest(toks, joined, s.pos, s.locals)
            } else {
                Err(ParseErrorView::IndexOutOfBounds)
            },
        },
        Ok(None) => Ok(Step { node: lhs, pos: p, locals: l }),
    }
}

// assign = equality ("=" assign)?
pub open spec fn spec_assign(toks: Seq<TokenView>, p: int, l: Seq<Obj>) -> Result<Step, ParseErrorView>
    decreases toks.len() - p, 25int,
{
    match spec_equality(toks, p, l) {
        Err(e) => Err(e),
        Ok(s) => match spec_consume(toks, s.pos, "="@) {
            Err(e) => Err(e),
            Ok(true) => if p <= s.pos {
                match spec_assign(toks, s.pos + 1, s.locals) {
                    Err(e) => Err(e),
                    Ok(r) => Ok(Step {
                        node: node_binary(NodeKind::NdAssign, s.node, r.node, r.pos),
                        pos: r.pos,
                        locals: r.locals,
                    }),
                }
            } else {
                Err(ParseErrorView::IndexOutOfBounds)
            },
            Ok(false) => Ok(s),
        },
    }
}

// expr = assign
pub open spec fn spec_expr(toks: Seq<TokenView>, p: int, l: Seq<Obj>) -> Result<Step, ParseErrorView>
    decreases toks.len() - p, 26int,
{
    spec_assign(toks, p, l)
}

// expr-stmt = expr? ";"
pub open spec fn spec_expr_stmt(toks: Seq<TokenView>, p: int, l: Seq<Obj>) -> Result<Step, ParseErrorView>
    decreases toks.len() - p, 27int,
{
    match spec_consume(toks, p, ";"@) {
        Err(e) => Err(e),
        Ok(true) => Ok(Step { node: node_leaf(NodeKind::NdBlock, p + 1), pos: p + 1, locals: l }),
        Ok(false) => match spec_expr(toks, p, l) {
            Err(e) => Err(e),
            Ok(s) => match spec_expect(toks, s.pos, ";"@) {
                Err(e) => Err(e),
                Ok(q) => Ok(Step { node: node_unary(NodeKind::NdExprStmp, s.node, s.pos), pos: q, locals: s.locals }),
            },
        },
    }
}

/// An optional expression closed by `term`: `term` alone gives none, else `expr term`.
pub open spec fn spec_opt_expr(toks: Seq<TokenView>, p: int, l: Seq<Obj>, term: Seq<char>) -> Result<(Option<NodeView>, int, Seq<Obj>), ParseErrorView>
    decreases toks.len() - p, 27int,
{
    match spec_consume(toks, p, term) {
        Err(e) => Err(e),
        Ok(true) => Ok((None, p + 1, l)),
        Ok(false) => match spec_expr(toks, p, l) {
            Err(e) => Err(e),
            Ok(s) => match spec_expect(toks, s.pos, term) {
                Err(e) => Err(e),
                Ok(q) => Ok((Some(s.node), q, s.locals)),
            },
        },
    }
}

/// `expr ";"`, the rest of a `return` statement after `return`.
pub open spec fn spec_return(toks: Seq<TokenView>, p: int, l: Seq<Obj>) -> Result<Step, ParseErrorView> {
    match spec_expr(toks, p, l) {
        Err(e) => Err(e),
        Ok(s) => match spec_expect(toks, s.pos, ";"@) {
            Err(e) => Err(e),
            Ok(q) => Ok(Step { node: node_unary(NodeKind::NdReturn, s.node, s.pos), pos: q, locals: s.locals }),
        },
    }
}

/// `"(" expr ")" stmt ("else" stmt)?`, the rest of an `if` statement after `if`.
pub open spec fn spec_if(toks: Seq<TokenView>, p: int, l: Seq<Obj>) -> Result<Step, ParseErrorView>
    decreases toks.len() - p, 28int,
{
    match spec_expect(toks, p, "("@) {
        Err(e) => Err(e),
        Ok(q1) => match spec_expr(toks, q1, l) {
            Err(e) => Err(e),
            Ok(c) => match spec_expect(toks, c.pos, ")"@) {
                Err(e) => Err(e),
                Ok(q2) => if p < q2 <= toks.len() {
                    match spec_stmt(toks, q2, c.locals) {
                        Err(e) => Err(e),
                        Ok(t) => match spec_consume(toks, t.pos, "else"@) {
                            Err(e) => Err(e),
                            Ok(true) => if p <= t.pos {
                                match spec_stmt(toks, t.pos + 1, t.locals) {
                                    Err(e) => Err(e),
                                    Ok(e) => Ok(Step {
                                        node: node_if(c.node, t.node, Some(e.node), e.pos),
                                        pos: e.pos,
                                        locals: e.locals,
                                    }),
                                }
                            } else {
                                Err(ParseErrorView::IndexOutOfBounds)
                            },
                            Ok(false) => Ok(Step {
                                node: node_if(c.node, t.node, None, t.pos),
                                pos: t.pos,
                                locals: t.locals,
                            }),
                        },
                    }
                } else {
                    Err(ParseErrorView::IndexOutOfBounds)
                },
            },
        },
    }
}

/// `"(" expr-stmt expr? ";" expr? ")" stmt`, the rest of a `for` statement after `for`.
pub open spec fn spec_for(toks: Seq<TokenView>, p: int, l: Seq<Obj>) -> Result<Step, ParseErrorView>
    decreases toks.len() - p, 28int,
{
    match spec_expect(toks, p, "("@) {
        Err(e) => Err(e),
        Ok(q1) => match spec_expr_stmt(toks, q1, l) {
            Err(e) => Err(e),
            Ok(i) => if p < i.pos <= toks.len() {
                match spec_opt_expr(toks, i.pos, i.locals, ";"@) {
                    Err(e) => Err(e),
                    Ok((c, q2, l2)) => if p < q2 <= toks.len() {
                        match spec_opt_expr(toks, q2, l2, ")"@) {
                            Err(e) => Err(e),
                            Ok((n, q3, l3)) => if p < q3 <= toks.len() {
                                match spec_stmt(toks, q3, l3) {
                                    Err(e) => Err(e),
                                    Ok(b) => Ok(Step {
                                        node: node_for(Some(i.node), c, n, b.node, b.pos),
                                        pos: b.pos,
                                        locals: b.locals,
                                    }),
                                }
                            } else {
                                Err(ParseErrorView::IndexOutOfBounds)
                            },
                        }
                    } else {
                        Err(ParseErrorView::IndexOutOfBounds)
                    },
                }
            } else {
                Err(ParseErrorView::IndexOutOfBounds)
            },
        },
    }
}

/// `"(" expr ")" stmt`, the rest of a `while` statement after `while`.
pub open spec fn spec_while(toks: Seq<TokenView>, p: int, l: Seq<Obj>) -> Result<Step, ParseErrorView>
    decreases toks.len() - p, 28int,
{
    match spec_expect(toks, p, "("@) {
        Err(e) => Err(e),
        Ok(q1) => match spec_expr(toks, q1, l) {
            Err(e) => Err(e),
            Ok(c) => match spec_expect(toks, c.pos, ")"@) {
                Err(e) => Err(e),
                Ok(q2) => if p < q2 <= toks.len() {
                    match spec_stmt(toks, q2, c.locals) {
                        Err(e) => Err(e),
                        Ok(b) => Ok(Step {
                            node: node_for(None, Some(c.node), None, b.node, b.pos),
                            pos: b.pos,
                            locals: b.locals,
                        }),
                    }
                } else {
                    Err(ParseErrorView::IndexOutOfBounds)
                },
            },
        },
    }
}

// stmt = "return" expr ";"
//      | "if" "(" expr ")" stmt ("else" stmt)?
//      | "for" "(" expr-stmt expr? ";" expr? ")" stmt
//      | "while" "(" expr ")" stmt
//      | "{" compound-stmt
//      | expr-stmt
pub open spec fn spec_stmt(toks: Seq<TokenView>, p: int, l: Seq<Obj>) -> Result<Step, ParseErrorView>
    decreases toks.len() - p, 28int,
{
    match spec_consume(toks, p, "return"@) {
        Err(e) => Err(e),
        Ok(true) => spec_return(toks, p + 1, l),
        Ok(false) => if toks[p].tok == "if"@ {
            spec_if(toks, p + 1, l)
        } else if toks[p].tok == "for"@ {
            spec_for(toks, p + 1, l)
        } else if toks[p].tok == "while"@ {
            spec_while(toks, p + 1, l)
        } else if toks[p].tok == "{"@ {
            spec_compound_stmt(toks, p + 1, l)
        } else {
            spec_expr_stmt(toks, p, l)
        },
    }
}

// compound-stmt = stmt* "}"
pub open spec fn spec_compound_stmt(toks: Seq<TokenView>, p: int, l: Seq<Obj>) -> Result<Step, ParseErrorView>
    decreases toks.len() - p, 30int,
{
    spec_compound_rest(toks, p, Seq::empty(), p, l)
}

/// The `stmt* "}"` loop of a block that started at token `t`, with `body` parsed so far.
pub open spec fn spec_compound_rest(toks: Seq<TokenView>, t: int, body: Seq<Option<Box<NodeView>>>, p: int, l: Seq<Obj>) -> Result<Step, ParseErrorView>
    decreases toks.len() - p, 29int,
{
    match spec_consume(toks, p, "}"@) {
        Err(e) => Err(e),
        Ok(true) => Ok(Step { node: node_block(body, t), pos: p + 1, locals: l }),
        Ok(false) => match spec_stmt(toks, p, l) {
            Err(e) => Err(e),
            Ok(s) => if p < s.pos <= toks.len() {
                spec_compound_rest(toks, t, body.push(Some(Box::new(s.node))), s.pos, s.locals)
            } else {
                Err(ParseErrorView::IndexOutOfBounds)
            },
        },
    }
}

/// The statement rules, to name one in a contract.
pub enum StmtRule {
    Stmt,
    If,
    For,
    While,
    Compound,
    /// The loop of a block that started at the given token, with the given statements so far.
    CompoundRest(int, Seq<Option<Box<NodeView>>>),
}

/// What parsing the statement rule `rule` from `p` gives. Kept opaque so that a contract that names
/// a rule does not unfold it; revealed where one rule is related to another.
#[verifier::opaque]
pub open spec fn stmt_rule(rule: StmtRule, toks: Seq<TokenView>, p: int, l: Seq<Obj>) -> Result<Step, ParseErrorView> {
    match rule {
        StmtRule::Stmt => spec_stmt(toks, p, l),
        StmtRule::If => spec_if(toks, p, l),
        StmtRule::For => spec_for(toks, p, l),
        StmtRule::While => spec_while(toks, p, l),
        StmtRule::Compound => spec_compound_stmt(toks, p, l),
        StmtRule::CompoundRest(t, body) => spec_compound_rest(toks, t, body, p, l),
    }
}

/// A statement that starts with `return` goes on as a `return` statement; reading past the
/// end fails.
proof fn lemma_stmt_return(t: Seq<TokenView>, p: int, l: Seq<Obj>)
    ensures
        spec_consume(t, p, "return"@) is Err ==> stmt_rule(StmtRule::Stmt, t, p, l)
            == Err::<Step, ParseErrorView>(ParseErrorView::IndexOutOfBounds),
        spec_consume(t, p, "return"@) == Ok::<bool, ParseErrorView>(true) ==> stmt_rule(StmtRule::Stmt, t, p, l)
            == spec_return(t, p + 1, l),
{
    reveal(stmt_rule);
}

/// Any other statement goes on by the rule its first token names.
proof fn lemma_stmt_keyword(t: Seq<TokenView>, p: int, l: Seq<Obj>, rule: StmtRule)
    requires
        spec_consume(t, p, "return"@) == Ok::<bool, ParseErrorView>(false),
        rule is If ==> t[p].tok == "if"@,
        rule is For ==> t[p].tok != "if"@ && t[p].tok == "for"@,
        rule is While ==> t[p].tok != "if"@ && t[p].tok != "for"@ && t[p].tok == "while"@,
        rule is Compound ==> t[p].tok != "if"@ && t[p].tok != "for"@ && t[p].tok != "while"@ && t[p].tok == "{"@,
        rule is If || rule is For || rule is While || rule is Compound,
    ensures
        stmt_rule(StmtRule::Stmt, t, p, l) == stmt_rule(rule, t, p + 1, l),
{
    reveal(stmt_rule);
}

/// A statement whose first token is no keyword is an expression statement.
proof fn lemma_stmt_expr(t: Seq<TokenView>, p: int, l: Seq<Obj>)
    requires
        spec_consume(t, p, "return"@) == Ok::<bool, ParseErrorView>(false),
        t[p].tok != "if"@ && t[p].tok != "for"@ && t[p].tok != "while"@ && t[p].tok != "{"@,
    ensures
        stmt_rule(StmtRule::Stmt, t, p, l) == spec_expr_stmt(t, p, l),
{
    reveal(stmt_rule);
}

/// A block's statements are parsed by its loop, which starts with no statements.
proof fn lemma_compound_start(t: Seq<TokenView>, p: int, l: Seq<Obj>)
    ensures
        stmt_rule(StmtRule::Compound, t, p, l) == stmt_rule(StmtRule::CompoundRest(p, Seq::empty()), t, p, l),
{
    reveal(stmt_rule);
}

/// One turn of a block's statement loop: `}` ends it, else one statement is added.
proof fn lemma_compound_step(t: Seq<TokenView>, start: int, body: Seq<Option<Box<NodeView>>>, p: int, l: Seq<Obj>)
    ensures
        spec_consume(t, p, "}"@) is Err ==> stmt_rule(StmtRule::CompoundRest(start, body), t, p, l)
            == Err::<Step, ParseErrorView>(ParseErrorView::IndexOutOfBounds),
        spec_consume(t, p, "}"@) == Ok::<bool, ParseErrorView>(true) ==> stmt_rule(StmtRule::CompoundRest(start, body), t, p, l)
            == Ok::<Step, ParseErrorView>(Step { node: node_block(body, start), pos: p + 1, locals: l }),
        spec_consume(t, p, "}"@) == Ok::<bool, ParseErrorView>(false) ==> match stmt_rule(StmtRule::Stmt, t, p, l) {
            Err(e) => stmt_rule(StmtRule::CompoundRest(start, body), t, p, l) == Err::<Step, ParseErrorView>(e),
            Ok(s) => p < s.pos <= t.len() ==> stmt_rule(StmtRule::CompoundRest(start, body), t, p, l)
                == stmt_rule(StmtRule::CompoundRest(start, body.push(Some(Box::new(s.node)))), t, s.pos, s.locals),
        },
{
    reveal(stmt_rule);
}

// program = "{"? compound-stmt
pub open spec fn spec_program(toks: Seq<TokenView>, p: int, l: Seq<Obj>) -> Result<Step, ParseErrorView> {
    match spec_consume(toks, p, "{"@) {
        Err(e) => Err(e),
        Ok(true) => stmt_rule(StmtRule::Compound, toks, p + 1, l),
        Ok(false) => stmt_rule(StmtRule::Compound, toks, p, l),
    }
}


/// The view of the node that a parse result points to, if any.
pub open spec fn mbox_node(m: Mbox<Node>) -> Option<NodeView> {
    match m.0 {
        Some(b) => Some((*b)@),
        None => None,
    }
}

/// `r` is what parsing from `before` gives according to `expected`, and `after` is the program
/// state it leaves: the position and locals after the construct; tokens and result unchanged.
pub open spec fn parsed(before: Program, after: Program, r: Result<Mbox<Node>, ParseError>, expected: Result<Step, ParseErrorView>) -> bool {
    &&& after.tokenizer == before.tokenizer
    &&& after.asts == before.asts
    &&& match expected {
        Ok(s) => match r {
            Ok(m) => mbox_node(m) == Some(s.node) && after.pos == s.pos && after.locals@ == s.locals,
            Err(_) => false,
        },
        Err(e) => match r {
            Ok(_) => false,
            Err(x) => x@ == e,
        },
    }
}

impl Program {
    /// The tokens being parsed.
    pub open spec fn toks(&self) -> Seq<TokenView> {
        self.tokenizer.toks()
    }

    /// A program over `tokenizer`, to be read from its first token, with no locals and no result yet.
    pub fn new(tokenizer: Tokenizer) -> (p: Self)
        ensures
            p.tokenizer == tokenizer,
            p.pos == 0,
            p.locals@ == Seq::<Obj>::empty(),
            p.asts@ is None,
    {
        Self { tokenizer, pos: 0, asts: Mbox::nil(), locals: Vec::new() }
    }

    /// Whether `asts` holds the function with `body` and `locals` as a parse leaves it.
    pub open spec fn holds_function(asts: Mbox<Function>, body: NodeView, locals: Seq<Obj>) -> bool {
        match asts@ {
            Some(f) => f.stack_size == 0 && f.locals@ == locals && mbox_node(f.body) == Some(body),
            None => false,
        }
    }

    /// Parses the function body from the current position: an optional `{`, then a block up to
    /// its `}`. On success the function is stored in `asts`; on failure nothing changes and the
    /// error says what was wrong.
    pub fn try_parse(&mut self) -> (r: Result<(), ParseError>)
        ensures
            final(self).tokenizer == old(self).tokenizer,
            match spec_program(old(self).toks(), old(self).pos as int, old(self).locals@) {
                Ok(s) => r is Ok && final(self).pos == s.pos && final(self).locals@ == s.locals
                    && Self::holds_function(final(self).asts, s.node, s.locals),
                Err(e) => (match r {
                    Ok(_) => false,
                    Err(x) => x@ == e,
                }) && final(self).pos == old(self).pos && final(self).locals@ == old(self).locals@
                    && final(self).asts == old(self).asts,
            },
    {
        let ghost t = self.toks();
        let ghost l = self.locals@;
        let start = self.pos;
        let saved = self.locals.clone();
        proof {
            assert(saved@ =~= self.locals@);
        }
        match self.consume("{") {
            Err(e) => return Err(e),
            Ok(_) => {},
        }
        let body = match self.compound_stmt() {
            Err(e) => {
                self.pos = start;
                self.locals = saved;
                return Err(e);
            },
            Ok(n) => n,
        };
        let locals = self.locals.clone();
        proof {
            assert(locals@ =~= self.locals@);
        }
        let func = Function { stack_size: 0, body, locals };
        self.asts = Mbox::new(func);
        Ok(())
    }

    /// Parses the function body from the current position, which must be a well-formed program
    /// (see `try_parse` for what happens otherwise); the function is stored in `asts`.
    pub fn parse(&mut self)
        requires
            spec_program(old(self).toks(), old(self).pos as int, old(self).locals@) is Ok,
        ensures
            final(self).tokenizer == old(self).tokenizer,
            match spec_program(old(self).toks(), old(self).pos as int, old(self).locals@) {
                Ok(s) => final(self).pos == s.pos && final(self).locals@ == s.locals
                    && Self::holds_function(final(self).asts, s.node, s.locals),
                Err(_) => false,
            },
    {
        let _ = self.try_parse();
    }

    /// The current token, which must exist.
    pub fn peek(&self) -> (r: Result<&Token, ParseError>)
        ensures
            match r {
                Ok(t) => self.pos < self.tokenizer.tokens@.len() <= usize::MAX && *t == self.tokenizer.tokens@[self.pos as int],
                Err(e) => self.pos >= self.tokenizer.tokens@.len() && e@ == ParseErrorView::IndexOutOfBounds,
            },
    {
        if self.pos < self.tokenizer.tokens.len() {
            Ok(&self.tokenizer.tokens[self.pos])
        } else {
            Err(ParseError::IndexOutOfBounds)
        }
    }

    /// Moves past the current token if it is `expected`, and says whether it did.
    pub fn consume(&mut self, expected: &str) -> (r: Result<bool, ParseError>)
        ensures
            final(self).tokenizer == old(self).tokenizer,
            final(self).asts == old(self).asts,
            final(self).locals == old(self).locals,
            match spec_consume(old(self).toks(), old(self).pos as int, expected@) {
                Ok(b) => r == Ok::<bool, ParseError>(b) && final(self).pos == old(self).pos + (if b { 1int } else { 0int }),
                Err(e) => (match r {
                    Ok(_) => false,
                    Err(x) => x@ == e,
                }) && final(self).pos == old(self).pos,
            },
    {
        let hit = match self.peek() {
            Ok(token) => token == expected,
            Err(e) => return Err(e),
        };
        if hit {
            self.pos += 1;
        }
        Ok(hit)
    }

    /// Moves past the current token, which must be `expected`.
    pub fn expect(&mut self, expected: &str) -> (r: Result<(), ParseError>)
        ensures
            final(self).tokenizer == old(self).tokenizer,
            final(self).asts == old(self).asts,
            final(self).locals == old(self).locals,
            match spec_expect(old(self).toks(), old(self).pos as int, expected@) {
                Ok(q) => r is Ok && final(self).pos == q,
                Err(e) => (match r {
                    Ok(_) => false,
                    Err(x) => x@ == e,
                }) && final(self).pos == old(self).pos,
            },
    {
        match self.consume(expected) {
            Err(e) => Err(e),
            Ok(true) => Ok(()),
            Ok(false) => {
                let found = self.tokenizer.tokens[self.pos].tok.clone();
                Err(ParseError::ExpectedToken { expected: expected.to_owned(), found })
            },
        }
    }

    /// The index of the first local named like the token at `name_pos`, if any.
    fn find_local(&self, name_pos: usize) -> (r: Result<Option<usize>, ParseError>)
        requires
            name_pos < self.tokenizer.tokens@.len(),
        ensures
            match spec_find_local(self.toks(), self.locals@, self.toks()[name_pos as int].tok, 0) {
                Ok(Some(i)) => r == Ok::<Option<usize>, ParseError>(Some(i as usize)),
                Ok(None) => r == Ok::<Option<usize>, ParseError>(None),
                Err(e) => match r {
                    Ok(_) => false,
                    Err(x) => x@ == e,
                },
            },
    {
        let ghost toks = self.toks();
        let ghost name = toks[name_pos as int].tok;
        let mut i: usize = 0;
        while i < self.locals.len()
            invariant
                0 <= i <= self.locals@.len(),
                name_pos < self.tokenizer.tokens@.len(),
                toks == self.toks(),
                name == toks[name_pos as int].tok,
                spec_find_local(toks, self.locals@, name, 0) == spec_find_local(toks, self.locals@, name, i as int),
            decreases self.locals@.len() - i,
        {
            let token_id = self.locals[i].token_id;
            if token_id >= self.tokenizer.tokens.len() {
                return Err(ParseError::IndexOutOfBounds);
            }
            if self.tokenizer.tokens[token_id].tok == self.tokenizer.tokens[name_pos].tok {
                return Ok(Some(i));
            }
            i += 1;
        }
        Ok(None)
    }

    /// Parses `primary = "(" expr ")" | num | ident`
    /// from the current position; the result is what the rule gives (see `parsed`).
    #[verifier::rlimit(80)]
    pub fn primary(&mut self) -> (r: Result<Mbox<Node>, ParseError>)
        ensures
            parsed(*old(self), *final(self), r, spec_primary(old(self).toks(), old(self).pos as int, old(self).locals@)),
            r is Ok ==> old(self).pos < final(self).pos <= old(self).toks().len(),
            r is Err && spec_consume(old(self).toks(), old(self).pos as int, "("@) != Ok::<bool, ParseErrorView>(true)
                ==> final(self).pos == old(self).pos && final(self).locals@ == old(self).locals@,
        decreases old(self).toks().len() - old(self).pos, 14int,
    {
        match self.consume("(") {
            Err(e) => return Err(e),
            Ok(true) => {
                let node = match self.expr() {
                    Err(e) => return Err(e),
                    Ok(n) => n,
                };
                match self.expect(")") {
                    Err(e) => return Err(e),
                    Ok(()) => {},
                }
                return Ok(node);
            },
            Ok(false) => {},
        }
        let pos = self.pos;
        let kind = match self.peek() {
            Ok(token) => token.kind,
            Err(e) => return Err(e),
        };
        if kind == TokenKind::TkNum {
            let node = Node::from_token(NodeKind::NdNum, pos);
            self.pos += 1;
            return Ok(Mbox::new(node));
        }
        if kind == TokenKind::TkIdent {
            let obj_id = match self.find_local(pos) {
                Err(e) => return Err(e),
                Ok(Some(idx)) => idx,
                Ok(None) => {
                    self.locals.push(Obj { token_id: pos, offset: 0 });
                    self.locals.len() - 1
                },
            };
            let mut node = Node::from_obj(obj_id);
            node.token_id = pos;
            self.pos += 1;
            return Ok(Mbox::new(node));
        }
        Err(ParseError::ExpectedExpression)
    }

    /// Parses `unary = ("+" | "-") unary | primary`
    /// from the current position; the result is what the rule gives (see `parsed`).
    pub fn unary(&mut self) -> (r: Result<Mbox<Node>, ParseError>)
        ensures
            parsed(*old(self), *final(self), r, spec_unary(old(self).toks(), old(self).pos as int, old(self).locals@)),
            r is Ok ==> old(self).pos < final(self).pos <= old(self).toks().len(),
        decreases old(self).toks().len() - old(self).pos, 15int,
    {
        match self.consume("+") {
            Err(e) => return Err(e),
            Ok(true) => return self.unary(),
            Ok(false) => {},
        }
        match self.consume("-") {
            Err(e) => return Err(e),
            Ok(true) => {
                let operand = match self.unary() {
                    Err(e) => return Err(e),
                    Ok(n) => n,
                };
                let mut node = Node::from_unary(NodeKind::NdNeg, operand);
                node.token_id = self.pos;
                return Ok(Mbox::new(node));
            },
            Ok(false) => {},
        }
        self.primary()
    }

    /// Parses `expr = assign`
    /// from the current position; the result is what the rule gives (see `parsed`).
    pub fn expr(&mut self) -> (r: Result<Mbox<Node>, ParseError>)
        ensures
            parsed(*old(self), *final(self), r, spec_expr(old(self).toks(), old(self).pos as int, old(self).locals@)),
            r is Ok ==> old(self).pos < final(self).pos <= old(self).toks().len(),
        decreases old(self).toks().len() - old(self).pos, 26int,
    {
        self.assign()
    }

    /// Parses `mul = unary ("*" unary | "/" unary)*`
    /// from the current position; the result is what the rule gives (see `parsed`).
    #[verifier::rlimit(60)]
    pub fn mul(&mut self) -> (r: Result<Mbox<Node>, ParseError>)
        ensures
            parsed(*old(self), *final(self), r, spec_mul(old(self).toks(), old(self).pos as int, old(self).locals@)),
            r is Ok ==> old(self).pos < final(self).pos <= old(self).toks().len(),
        decreases old(self).toks().len() - old(self).pos, 17int,
    {
        let mut node = match self.unary() {
            Err(e) => return Err(e),
            Ok(n) => n,
        };
        loop
            invariant
                self.tokenizer == old(self).tokenizer,
                self.asts == old(self).asts,
                old(self).pos < self.pos <= self.toks().len(),
                mbox_node(node) is Some,
                spec_mul(old(self).toks(), old(self).pos as int, old(self).locals@) == spec_mul_rest(
                    self.toks(),
                    mbox_node(node)->0,
                    self.pos as int,
                    self.locals@,
                ),
            decreases self.toks().len() - self.pos,
        {
            let (kind, swap) = match self.consume("*") {
                Err(e) => return Err(e),
                Ok(true) => (NodeKind::NdMul, false),
                Ok(false) => match self.consume("/") {
                    Err(e) => return Err(e),
                    Ok(true) => (NodeKind::NdDiv, false),
                    Ok(false) => return Ok(node),
                },
            };
            let rhs = match self.unary() {
                Err(e) => return Err(e),
                Ok(n) => n,
            };
            let mut joined = if swap {
                Node::from_binary(kind, rhs, node)
            } else {
                Node::from_binary(kind, node, rhs)
            };
            joined.token_id = self.pos;
            node = Mbox::new(joined);
        }
    }

    /// Parses `add = mul ("+" mul | "-" mul)*`
    /// from the current position; the result is what the rule gives (see `parsed`).
    #[verifier::rlimit(60)]
    pub fn add(&mut self) -> (r: Result<Mbox<Node>, ParseError>)
        ensures
            parsed(*old(self), *final(self), r, spec_add(old(self).toks(), old(self).pos as int, old(self).locals@)),
            r is Ok ==> old(self).pos < final(self).pos <= old(self).toks().len(),
        decreases old(self).toks().len() - old(self).pos, 19int,
    {
        let mut node = match self.mul() {
            Err(e) => return Err(e),
            Ok(n) => n,
        };
        loop
            invariant
                self.tokenizer == old(self).tokenizer,
                self.asts == old(self).asts,
                old(self).pos < self.pos <= self.toks().len(),
                mbox_node(node) is Some,
                spec_add(old(self).toks(), old(self).pos as int, old(self).locals@) == spec_add_rest(
                    self.toks(),
                    mbox_node(node)->0,
                    self.pos as int,
                    self.locals@,
                ),
            decreases self.toks().len() - self.pos,
        {
            let (kind, swap) = match self.consume("+") {
                Err(e) => return Err(e),
                Ok(true) => (NodeKind::NdAdd, false),
                Ok(false) => match self.consume("-") {
                    Err(e) => return Err(e),
                    Ok(true) => (NodeKind::NdSub, false),
                    Ok(false) => return Ok(node),
                },
            };
            let rhs = match self.mul() {
                Err(e) => return Err(e),
                Ok(n) => n,
            };
            let mut joined = if swap {
                Node::from_binary(kind, rhs, node)
            } else {
                Node::from_binary(kind, node, rhs)
            };
            joined.token_id = self.pos;
            node = Mbox::new(joined);
        }
    }

    /// Parses `relational = add ("<" add | "<=" add | ">" add | ">=" add)*`
    /// from the current position; the result is what the rule gives (see `parsed`).
    #[verifier::rlimit(60)]
    pub fn relational(&mut self) -> (r: Result<Mbox<Node>, ParseError>)
        ensures
            parsed(*old(self), *final(self), r, spec_relational(old(self).toks(), old(self).pos as int, old(self).locals@)),
            r is Ok ==> old(self).pos < final(self).pos <= old(self).toks().len(),
        decreases old(self).toks().len() - old(self).pos, 21int,
    {
        let mut node = match self.add() {
            Err(e) => return Err(e),
            Ok(n) => n,
        };
        loop
            invariant
                self.tokenizer == old(self).tokenizer,
                self.asts == old(self).asts,
                old(self).pos < self.pos <= self.toks().len(),
                mbox_node(node) is Some,
                spec_relational(old(self).toks(), old(self).pos as int, old(self).locals@) == spec_relational_rest(
                    self.toks(),
                    mbox_node(node)->0,
                    self.pos as int,
                    self.locals@,
                ),
            decreases self.toks().len() - self.pos,
        {
            let (kind, swap) = match self.consume("<") {
                Err(e) => return Err(e),
                Ok(true) => (NodeKind::NdLt, false),
                Ok(false) => match self.consume("<=") {
                    Err(e) => return Err(e),
                    Ok(true) => (NodeKind::NdLe, false),
                    Ok(false) => match self.consume(">") {
                        Err(e) => return Err(e),
                        Ok(true) => (NodeKind::NdLt, true),
                        Ok(false) => match self.consume(">=") {
                            Err(e) => return Err(e),
                            Ok(true) => (NodeKind::NdLe, true),
                            Ok(false) => return Ok(node),
                        },
                    },
                },
            };
            let rhs = match self.add() {
                Err(e) => return Err(e),
                Ok(n) => n,
            };
            let mut joined = if swap {
                Node::from_binary(kind, rhs, node)
            } else {
                Node::from_binary(kind, node, rhs)
            };
            joined.token_id = self.pos;
            node = Mbox::new(joined);
        }
    }

    /// Parses `equality = relational ("==" relational | "!=" relational)*`
    /// from the current position; the result is what the rule gives (see `parsed`).
    #[verifier::rlimit(60)]
    pub fn equality(&mut self) -> (r: Result<Mbox<Node>, ParseError>)
        ensures
            parsed(*old(self), *final(self), r, spec_equality(old(self).toks(), old(self).pos as int, old(self).locals@)),
            r is Ok ==> old(self).pos < final(self).pos <= old(self).toks().len(),
        decreases old(self).toks().len() - old(self).pos, 24int,
    {
        let mut node = match self.relational() {
            Err(e) => return Err(e),
            Ok(n) => n,
        };
        loop
            invariant
                self.tokenizer == old(self).tokenizer,
                self.asts == old(self).asts,
                old(self).pos < self.pos <= self.toks().len(),
                mbox_node(node) is Some,
                spec_equality(old(self).toks(), old(self).pos as int, old(self).locals@) == spec_equality_rest(
                    self.toks(),
                    mbox_node(node)->0,
                    self.pos as int,
                    self.locals@,
                ),
            decreases self.toks().len() - self.pos,
        {
            let (kind, swap) = match self.consume("==") {
                Err(e) => return Err(e),
                Ok(true) => (NodeKind::NdEq, false),
                Ok(false) => match self.consume("!=") {
                    Err(e) => return Err(e),
                    Ok(true) => (NodeKind::NdNe, false),
                    Ok(false) => return Ok(node),
                },
            };
            let rhs = match self.relational() {
                Err(e) => return Err(e),
                Ok(n) => n,
            };
            let mut joined = if swap {
                Node::from_binary(kind, rhs, node)
            } else {
                Node::from_binary(kind, node, rhs)
            };
            joined.token_id = self.pos;
            node = Mbox::new(joined);
        }
    }

    /// Parses `assign = equality ("=" assign)?`
    /// from the current position; the result is what the rule gives (see `parsed`).
    pub fn assign(&mut self) -> (r: Result<Mbox<Node>, ParseError>)
        ensures
            parsed(*old(self), *final(self), r, spec_assign(old(self).toks(), old(self).pos as int, old(self).locals@)),
            r is Ok ==> old(self).pos < final(self).pos <= old(self).toks().len(),
        decreases old(self).toks().len() - old(self).pos, 25int,
    {
        let node = match self.equality() {
            Err(e) => return Err(e),
            Ok(n) => n,
        };
        match self.consume("=") {
            Err(e) => return Err(e),
            Ok(true) => {
                let value = match self.assign() {
                    Err(e) => return Err(e),
                    Ok(n) => n,
                };
                let mut node = Node::from_binary(NodeKind::NdAssign, node, value);
                node.token_id = self.pos;
                return Ok(Mbox::new(node));
            },
            Ok(false) => {},
        }
        Ok(node)
    }

    /// Parses `expr-stmt = expr? ";"`
    /// from the current position; the result is what the rule gives (see `parsed`).
    pub fn expr_stmt(&mut self) -> (r: Result<Mbox<Node>, ParseError>)
        ensures
            parsed(*old(self), *final(self), r, spec_expr_stmt(old(self).toks(), old(self).pos as int, old(self).locals@)),
            r is Ok ==> old(self).pos < final(self).pos <= old(self).toks().len(),
        decreases old(self).toks().len() - old(self).pos, 27int,
    {
        match self.consume(";") {
            Err(e) => return Err(e),
            Ok(true) => return Ok(Mbox::new(Node::from_token(NodeKind::NdBlock, self.pos))),
            Ok(false) => {},
        }
        let value = match self.expr() {
            Err(e) => return Err(e),
            Ok(n) => n,
        };
        let mut node = Node::from_unary(NodeKind::NdExprStmp, value);
        node.token_id = self.pos;
        match self.expect(";") {
            Err(e) => return Err(e),
            Ok(()) => {},
        }
        Ok(Mbox::new(node))
    }

    /// An optional expression closed by `term`; nil when `term` comes at once.
    fn opt_expr(&mut self, term: &str) -> (r: Result<Mbox<Node>, ParseError>)
        ensures
            final(self).tokenizer == old(self).tokenizer,
            final(self).asts == old(self).asts,
            match spec_opt_expr(old(self).toks(), old(self).pos as int, old(self).locals@, term@) {
                Ok((n, q, l)) => match r {
                    Ok(m) => mbox_node(m) == n && final(self).pos == q && final(self).locals@ == l,
                    Err(_) => false,
                },
                Err(e) => match r {
                    Ok(_) => false,
                    Err(x) => x@ == e,
                },
            },
            r is Ok ==> old(self).pos < final(self).pos <= old(self).toks().len(),
        decreases old(self).toks().len() - old(self).pos, 27int,
    {
        match self.consume(term) {
            Err(e) => return Err(e),
            Ok(true) => return Ok(Mbox::nil()),
            Ok(false) => {},
        }
        let node = match self.expr() {
            Err(e) => return Err(e),
            Ok(n) => n,
        };
        match self.expect(term) {
            Err(e) => return Err(e),
            Ok(()) => {},
        }
        Ok(node)
    }

    /// The rest of a `return` statement, after `return`.
    fn return_stmt(&mut self) -> (r: Result<Mbox<Node>, ParseError>)
        ensures
            parsed(*old(self), *final(self), r, spec_return(old(self).toks(), old(self).pos as int, old(self).locals@)),
            r is Ok ==> old(self).pos < final(self).pos <= old(self).toks().len(),
    {
        let value = match self.expr() {
            Err(e) => return Err(e),
            Ok(n) => n,
        };
        let mut node = Node::from_unary(NodeKind::NdReturn, value);
        node.token_id = self.pos;
        match self.expect(";") {
            Err(e) => return Err(e),
            Ok(()) => {},
        }
        Ok(Mbox::new(node))
    }

    /// The rest of an `if` statement, after `if`.
    #[verifier::rlimit(60)]
    fn if_stmt(&mut self) -> (r: Result<Mbox<Node>, ParseError>)
        ensures
            parsed(*old(self), *final(self), r, stmt_rule(StmtRule::If, old(self).toks(), old(self).pos as int, old(self).locals@)),
            r is Ok ==> old(self).pos < final(self).pos <= old(self).toks().len(),
        decreases old(self).toks().len() - old(self).pos, 28int,
    {
        let ghost target = stmt_rule(StmtRule::If, self.toks(), self.pos as int, self.locals@);
        match self.expect("(") {
            Err(e) => {
                assert(target == Err::<Step, ParseErrorView>(e@)) by { reveal(stmt_rule); }
                return Err(e);
            },
            Ok(()) => {},
        }
        let cond = match self.expr() {
            Err(e) => {
                assert(target == Err::<Step, ParseErrorView>(e@)) by { reveal(stmt_rule); }
                return Err(e);
            },
            Ok(n) => n,
        };
        match self.expect(")") {
            Err(e) => {
                assert(target == Err::<Step, ParseErrorView>(e@)) by { reveal(stmt_rule); }
                return Err(e);
            },
            Ok(()) => {},
        }
        let then_branch = match self.stmt() {
            Err(e) => {
                assert(target == Err::<Step, ParseErrorView>(e@)) by { reveal(stmt_rule); }
                return Err(e);
            },
            Ok(n) => n,
        };
        let els = match self.consume("else") {
            Err(e) => {
                assert(target == Err::<Step, ParseErrorView>(e@)) by { reveal(stmt_rule); }
                return Err(e);
            },
            Ok(true) => match self.stmt() {
                Err(e) => {
                    assert(target == Err::<Step, ParseErrorView>(e@)) by { reveal(stmt_rule); }
                    return Err(e);
                },
                Ok(n) => n,
            },
            Ok(false) => Mbox::nil(),
        };
        let mut node = Node::from_token(NodeKind::NdIf, self.pos);
        node.cond = cond.0;
        node.then_branch = then_branch.0;
        node.els = els.0;
        assert(target == Ok::<Step, ParseErrorView>(Step { node: node@, pos: self.pos as int, locals: self.locals@ }))
            by { reveal(stmt_rule); }
        Ok(Mbox::new(node))
    }

    /// The rest of a `for` statement, after `for`.
    #[verifier::rlimit(60)]
    fn for_stmt(&mut self) -> (r: Result<Mbox<Node>, ParseError>)
        ensures
            parsed(*old(self), *final(self), r, stmt_rule(StmtRule::For, old(self).toks(), old(self).pos as int, old(self).locals@)),
            r is Ok ==> old(self).pos < final(self).pos <= old(self).toks().len(),
        decreases old(self).toks().len() - old(self).pos, 28int,
    {
        let ghost target = stmt_rule(StmtRule::For, self.toks(), self.pos as int, self.locals@);
        match self.expect("(") {
            Err(e) => {
                assert(target == Err::<Step, ParseErrorView>(e@)) by { reveal(stmt_rule); }
                return Err(e);
            },
            Ok(()) => {},
        }
        let init = match self.expr_stmt() {
            Err(e) => {
                assert(target == Err::<Step, ParseErrorView>(e@)) by { reveal(stmt_rule); }
                return Err(e);
            },
            Ok(n) => n,
        };
        let cond = match self.opt_expr(";") {
            Err(e) => {
                assert(target == Err::<Step, ParseErrorView>(e@)) by { reveal(stmt_rule); }
                return Err(e);
            },
            Ok(n) => n,
        };
        let inc = match self.opt_expr(")") {
            Err(e) => {
                assert(target == Err::<Step, ParseErrorView>(e@)) by { reveal(stmt_rule); }
                return Err(e);
            },
            Ok(n) => n,
        };
        let body = match self.stmt() {
            Err(e) => {
                assert(target == Err::<Step, ParseErrorView>(e@)) by { reveal(stmt_rule); }
                return Err(e);
            },
            Ok(n) => n,
        };
        let mut node = Node::from_token(NodeKind::NdFor, self.pos);
        node.init = init.0;
        node.cond = cond.0;
        node.inc = inc.0;
        node.then_branch = body.0;
        assert(target == Ok::<Step, ParseErrorView>(Step { node: node@, pos: self.pos as int, locals: self.locals@ }))
            by { reveal(stmt_rule); }
        Ok(Mbox::new(node))
    }

    /// The rest of a `while` statement, after `while`.
    #[verifier::rlimit(60)]
    fn while_stmt(&mut self) -> (r: Result<Mbox<Node>, ParseError>)
        ensures
            parsed(*old(self), *final(self), r, stmt_rule(StmtRule::While, old(self).toks(), old(self).pos as int, old(self).locals@)),
            r is Ok ==> old(self).pos < final(self).pos <= old(self).toks().len(),
        decreases old(self).toks().len() - old(self).pos, 28int,
    {
        let ghost target = stmt_rule(StmtRule::While, self.toks(), self.pos as int, self.locals@);
        match self.expect("(") {
            Err(e) => {
                assert(target == Err::<Step, ParseErrorView>(e@)) by { reveal(stmt_rule); }
                return Err(e);
            },
            Ok(()) => {},
        }
        let cond = match self.expr() {
            Err(e) => {
                assert(target == Err::<Step, ParseErrorView>(e@)) by { reveal(stmt_rule); }
                return Err(e);
            },
            Ok(n) => n,
        };
        match self.expect(")") {
            Err(e) => {
                assert(target == Err::<Step, ParseErrorView>(e@)) by { reveal(stmt_rule); }
                return Err(e);
            },
            Ok(()) => {},
        }
        let body = match self.stmt() {
            Err(e) => {
                assert(target == Err::<Step, ParseErrorView>(e@)) by { reveal(stmt_rule); }
                return Err(e);
            },
            Ok(n) => n,
        };
        let mut node = Node::from_token(NodeKind::NdFor, self.pos);
        node.cond = cond.0;
        node.then_branch = body.0;
        assert(target == Ok::<Step, ParseErrorView>(Step { node: node@, pos: self.pos as int, locals: self.locals@ }))
            by { reveal(stmt_rule); }
        Ok(Mbox::new(node))
    }

    /// Parses a statement by the rule
    /// stmt = "return" expr ";"
    ///      | "if" "(" expr ")" stmt ("else" stmt)?
    ///      | "for" "(" expr-stmt expr? ";" expr? ")" stmt
    ///      | "while" "(" expr ")" stmt
    ///      | "{" compound-stmt
    ///      | expr-stmt
    ///
    ///
    /// from the current position; the result is what the rule gives (see `parsed`).
    pub fn stmt(&mut self) -> (r: Result<Mbox<Node>, ParseError>)
        ensures
            parsed(*old(self), *final(self), r, stmt_rule(StmtRule::Stmt, old(self).toks(), old(self).pos as int, old(self).locals@)),
            r is Ok ==> old(self).pos < final(self).pos <= old(self).toks().len(),
        decreases old(self).toks().len() - old(self).pos, 28int,
    {
        let ghost t = self.toks();
        let ghost p = self.pos as int;
        let ghost l = self.locals@;
        proof {
            lemma_stmt_return(t, p, l);
        }
        match self.consume("return") {
            Err(e) => return Err(e),
            Ok(true) => return self.return_stmt(),
            Ok(false) => {},
        }
        match self.consume("if") {
            Err(e) => return Err(e),
            Ok(true) => {
                proof {
                    lemma_stmt_keyword(t, p, l, StmtRule::If);
                }
                return self.if_stmt();
            },
            Ok(false) => {},
        }
        match self.consume("for") {
            Err(e) => return Err(e),
            Ok(true) => {
                proof {
                    lemma_stmt_keyword(t, p, l, StmtRule::For);
                }
                return self.for_stmt();
            },
            Ok(false) => {},
        }
        match self.consume("while") {
            Err(e) => return Err(e),
            Ok(true) => {
                proof {
                    lemma_stmt_keyword(t, p, l, StmtRule::While);
                }
                return self.while_stmt();
            },
            Ok(false) => {},
        }
        match self.consume("{") {
            Err(e) => return Err(e),
            Ok(true) => {
                proof {
                    lemma_stmt_keyword(t, p, l, StmtRule::Compound);
                }
                return self.compound_stmt();
            },
            Ok(false) => {},
        }
        proof {
            lemma_stmt_expr(t, p, l);
        }
        self.expr_stmt()
    }

    /// Parses `compound-stmt = stmt* "}"`
    /// from the current position; the result is what the rule gives (see `parsed`).
    pub fn compound_stmt(&mut self) -> (r: Result<Mbox<Node>, ParseError>)
        ensures
            parsed(*old(self), *final(self), r, stmt_rule(StmtRule::Compound, old(self).toks(), old(self).pos as int, old(self).locals@)),
            r is Ok ==> old(self).pos < final(self).pos <= old(self).toks().len(),
        decreases old(self).toks().len() - old(self).pos, 30int,
    {
        let ghost start = self.pos as int;
        let mut node = Node::from_token(NodeKind::NdBlock, self.pos);
        proof {
            lemma_compound_start(self.toks(), start, self.locals@);
            assert(node@.body =~= Seq::empty());
        }
        loop
            invariant
                self.tokenizer == old(self).tokenizer,
                self.asts == old(self).asts,
                start == old(self).pos,
                start <= self.pos,
                start < self.pos ==> self.pos <= self.toks().len(),
                node@ == node_block(node@.body, start),
                stmt_rule(StmtRule::Compound, old(self).toks(), start, old(self).locals@) == stmt_rule(
                    StmtRule::CompoundRest(start, node@.body),
                    self.toks(),
                    self.pos as int,
                    self.locals@,
                ),
            decreases self.toks().len() - self.pos,
        {
            proof {
                lemma_compound_step(self.toks(), start, node@.body, self.pos as int, self.locals@);
            }
            match self.consume("}") {
                Err(e) => return Err(e),
                Ok(true) => return Ok(Mbox::new(node)),
                Ok(false) => {},
            }
            let statement = match self.stmt() {
                Err(e) => return Err(e),
                Ok(n) => n,
            };
            let ghost before = node.body@;
            let ghost added = view_child(statement.0);
            node.body.push(statement.0);
            assert(node.body@.drop_last() =~= before);
            assert(view_body(node.body@) == view_body(before).push(added));
        }
    }
}

} // verus!
