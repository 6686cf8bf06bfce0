use crate::ast::{view_body, view_child, Function, Node, NodeKind, NodeView, Obj, Program};
use crate::tokenize::{token_views, Token, TokenView};
use vstd::prelude::*;
use vstd::string::StringExecFns;

verus! {

// The text dump of a parsed program. Each spec function gives the text that is written and
// whether the dump gets to its end (`false` where a token or local that a node names is missing,
// a required child is nil, or the node kind has no dump).

/// `n` spaces.
pub open spec fn spaces(n: int) -> Seq<char> {
    Seq::new(n as nat, |i: int| ' ')
}

/// One output line: `indent` spaces, `text` and a newline.
pub open spec fn line(indent: int, text: Seq<char>) -> Seq<char> {
    spaces(indent) + text + seq!['\n']
}

/// Text written in full.
pub open spec fn done(text: Seq<char>) -> (Seq<char>, bool) {
    (text, true)
}

/// A dump that stops before writing anything.
pub open spec fn stop() -> (Seq<char>, bool) {
    (Seq::empty(), false)
}

/// `a`, then `b` if `a` got to its end.
pub open spec fn chain(a: (Seq<char>, bool), b: (Seq<char>, bool)) -> (Seq<char>, bool) {
    if a.1 {
        (a.0 + b.0, b.1)
    } else {
        a
    }
}

/// The decimal digits of `n`.
pub open spec fn dec_nat(n: nat) -> Seq<char>
    decreases n,
{
    if n < 10 {
        seq![(n + 48) as char]
    } else {
        dec_nat(n / 10).push((n % 10 + 48) as char)
    }
}

/// `i` in decimal, with a leading `-` when negative.
pub open spec fn dec_int(i: int) -> Seq<char> {
    if i < 0 {
        seq!['-'] + dec_nat((-i) as nat)
    } else {
        dec_nat(i as nat)
    }
}

/// The operator that heads the dump of a two-operand node.
pub open spec fn binary_op(kind: NodeKind) -> Option<Seq<char>> {
    match kind {
        NodeKind::NdAdd => Some("+"@),
        NodeKind::NdSub => Some("-"@),
        NodeKind::NdMul => Some("*"@),
        NodeKind::NdDiv => Some("/"@),
        NodeKind::NdEq => Some("=="@),
        NodeKind::NdNe => Some("!="@),
        NodeKind::NdLt => Some("<"@),
        NodeKind::NdLe => Some("<="@),
        NodeKind::NdAssign => Some("="@),
        _ => None,
    }
}

/// The dump of node `n` indented by `r`.
pub open spec fn dump_node(toks: Seq<TokenView>, objs: Seq<Obj>, n: NodeView, r: int) -> (Seq<char>, bool)
    decreases n, 0int,
{
    match binary_op(n.kind) {
        Some(op) => chain(
            chain(
                chain(done(line(r, op + ":"@) + line(r, "lhs:"@)), dump_child(toks, objs, n.lhs, r)),
                done(line(r, "rhs:"@)),
            ),
            dump_child(toks, objs, n.rhs, r),
        ),
        None => match n.kind {
            NodeKind::NdNum => if n.token_id < toks.len() {
                done(line(r, "NdNum: "@ + toks[n.token_id as int].tok))
            } else {
                stop()
            },
            NodeKind::NdNeg => chain(done(line(r, "-:"@)), dump_child(toks, objs, n.lhs, r)),
            NodeKind::NdExprStmp => chain(done(line(r, "ExprStmp:"@)), dump_child(toks, objs, n.lhs, r)),
            NodeKind::NdVar => if n.obj < objs.len() && objs[n.obj as int].token_id < toks.len() {
                done(line(r, "NdVar: "@ + toks[objs[n.obj as int].token_id as int].tok))
            } else {
                stop()
            },
            NodeKind::NdReturn => chain(done(line(r, "return:"@)), dump_child(toks, objs, n.lhs, r)),
            NodeKind::NdBlock => chain(done(line(r, "Block:"@)), dump_body(toks, objs, n.body, r)),
            NodeKind::NdIf => chain(
                chain(
                    chain(
                        chain(done(line(r, "if:"@) + line(r, "cond:"@)), dump_child(toks, objs, n.cond, r)),
                        done(line(r, "then:"@)),
                    ),
                    dump_child(toks, objs, n.then_branch, r),
                ),
                match n.els {
                    Some(_) => chain(done(line(r, "else:"@)), dump_child(toks, objs, n.els, r)),
                    None => done(Seq::empty()),
                },
            ),
            _ => stop(),
        },
    }
}

/// The dump of a required child of a node indented by `r`, itself indented by `r + 2`.
pub open spec fn dump_child(toks: Seq<TokenView>, objs: Seq<Obj>, c: Option<Box<NodeView>>, r: int) -> (Seq<char>, bool)
    decreases c, 1int,
{
    match c {
        Some(b) => if r + 2 <= usize::MAX {
            dump_node(toks, objs, *b, r + 2)
        } else {
            stop()
        },
        None => stop(),
    }
}

/// The dumps of a block's statements, in order.
pub open spec fn dump_body(toks: Seq<TokenView>, objs: Seq<Obj>, body: Seq<Option<Box<NodeView>>>, r: int) -> (Seq<char>, bool)
    decreases body, 0int,
{
    if body.len() == 0 {
        done(Seq::empty())
    } else {
        chain(dump_body(toks, objs, body.drop_last(), r), dump_child(toks, objs, body.last(), r))
    }
}

/// The line of one local: its name and its stack offset.
pub open spec fn dump_local(toks: Seq<TokenView>, o: Obj) -> (Seq<char>, bool) {
    if o.token_id < toks.len() {
        done(line(0, "local: "@ + toks[o.token_id as int].tok + " (offset "@ + dec_int(o.offset as int) + ")"@))
    } else {
        stop()
    }
}

/// The lines of the locals, in order.
pub open spec fn dump_locals(toks: Seq<TokenView>, locals: Seq<Obj>) -> (Seq<char>, bool)
    decreases locals.len(),
{
    if locals.len() == 0 {
        done(Seq::empty())
    } else {
        chain(dump_locals(toks, locals.drop_last()), dump_local(toks, locals.last()))
    }
}

/// The dump of a parsed function: its frame size, its locals, then its body.
pub open spec fn dump_program(toks: Seq<TokenView>, asts: Option<Function>) -> (Seq<char>, bool) {
    match asts {
        None => stop(),
        Some(f) => chain(
            chain(done(line(0, "stack-size: "@ + dec_int(f.stack_size as int))), dump_locals(toks, f.locals@)),
            match f.body@ {
                Some(b) => dump_node(toks, f.locals@, b@, 0),
                None => stop(),
            },
        ),
    }
}

/// The statement views of a block, one for each statement, in order.
proof fn lemma_view_body(b: Seq<Option<Box<Node>>>)
    ensures
        view_body(b).len() == b.len(),
        forall|j: int| 0 <= j < b.len() ==> view_body(b)[j] == view_child(#[trigger] b[j]),
    decreases b.len(),
{
    if b.len() > 0 {
        lemma_view_body(b.drop_last());
        assert forall|j: int| 0 <= j < b.len() implies view_body(b)[j] == view_child(#[trigger] b[j]) by {
            if j < b.len() - 1 {
                assert(b.drop_last()[j] == b[j]);
            }
        }
    }
}

/// Once a prefix of a block fails to dump, the whole block's dump is that prefix's.
proof fn lemma_dump_body_stops(toks: Seq<TokenView>, objs: Seq<Obj>, s: Seq<Option<Box<NodeView>>>, k: int, r: int)
    requires
        0 <= k <= s.len(),
        !dump_body(toks, objs, s.take(k), r).1,
    ensures
        dump_body(toks, objs, s, r) == dump_body(toks, objs, s.take(k), r),
    decreases s.len(),
{
    if k < s.len() {
        assert(s.drop_last().take(k) =~= s.take(k));
        lemma_dump_body_stops(toks, objs, s.drop_last(), k, r);
    } else {
        assert(s.take(k) =~= s);
    }
}

/// Once a prefix of the locals fails to dump, the whole dump of the locals is that prefix's.
proof fn lemma_dump_locals_stops(toks: Seq<TokenView>, s: Seq<Obj>, k: int)
    requires
        0 <= k <= s.len(),
        !dump_locals(toks, s.take(k)).1,
    ensures
        dump_locals(toks, s) == dump_locals(toks, s.take(k)),
    decreases s.len(),
{
    if k < s.len() {
        assert(s.drop_last().take(k) =~= s.take(k));
        lemma_dump_locals_stops(toks, s.drop_last(), k);
    } else {
        assert(s.take(k) =~= s);
    }
}

/// The text of one decimal digit.
fn digit_text(d: u64) -> (s: &'static str)
    requires
        d < 10,
    ensures
        s@ == seq![(d + 48) as char],
{
    proof {
        reveal_strlit("0");
        reveal_strlit("1");
        reveal_strlit("2");
        reveal_strlit("3");
        reveal_strlit("4");
        reveal_strlit("5");
        reveal_strlit("6");
        reveal_strlit("7");
        reveal_strlit("8");
        reveal_strlit("9");
    }
    match d {
        0 => "0",
        1 => "1",
        2 => "2",
        3 => "3",
        4 => "4",
        5 => "5",
        6 => "6",
        7 => "7",
        8 => "8",
        _ => "9",
    }
}

/// Appends `n` in decimal.
fn push_dec_nat(out: &mut String, n: u64)
    ensures
        final(out)@ == old(out)@ + dec_nat(n as nat),
    decreases n,
{
    if n >= 10 {
        push_dec_nat(out, n / 10);
    }
    out.append(digit_text(n % 10));
    proof {
        if n >= 10 {
            assert(final(out)@ =~= old(out)@ + dec_nat(n as nat)) by {
                assert(dec_nat(n as nat) == dec_nat((n / 10) as nat).push(((n % 10) + 48) as char));
            }
        }
    }
}

/// Appends `v` in decimal, with a leading `-` when negative.
fn push_dec(out: &mut String, v: i32)
    ensures
        final(out)@ == old(out)@ + dec_int(v as int),
{
    if v < 0 {
        proof {
            reveal_strlit("-");
        }
        out.append("-");
        let magnitude: i64 = -(v as i64);
        push_dec_nat(out, magnitude as u64);
        assert(final(out)@ =~= old(out)@ + dec_int(v as int));
    } else {
        push_dec_nat(out, v as u64);
    }
}

/// Appends `n` spaces.
fn push_spaces(out: &mut String, n: usize)
    ensures
        final(out)@ == old(out)@ + spaces(n as int),
{
    let mut i: usize = 0;
    while i < n
        invariant
            i <= n,
            out@ == old(out)@ + spaces(i as int),
        decreases n - i,
    {
        proof {
            reveal_strlit(" ");
        }
        out.append(" ");
        assert(spaces(i as int + 1) =~= spaces(i as int) + " "@);
        i += 1;
        assert(out@ =~= old(out)@ + spaces(i as int));
    }
}

/// Appends one line made of `indent` spaces, `text` and a newline.
fn push_line(out: &mut String, indent: usize, text: &str)
    ensures
        final(out)@ == old(out)@ + line(indent as int, text@),
{
    proof {
        reveal_strlit("\n");
    }
    push_spaces(out, indent);
    out.append(text);
    out.append("\n");
    assert(final(out)@ =~= old(out)@ + line(indent as int, text@));
}

/// Appends one line made of `indent` spaces, `a`, `b` and a newline.
fn push_line2(out: &mut String, indent: usize, a: &str, b: &str)
    ensures
        final(out)@ == old(out)@ + line(indent as int, a@ + b@),
{
    proof {
        reveal_strlit("\n");
    }
    push_spaces(out, indent);
    out.append(a);
    out.append(b);
    out.append("\n");
    assert(final(out)@ =~= old(out)@ + line(indent as int, a@ + b@));
}

/// The operator text of a two-operand node kind.
fn binary_op_text(kind: NodeKind) -> (r: Option<&'static str>)
    ensures
        match r {
            Some(s) => binary_op(kind) == Some(s@),
            None => binary_op(kind) is None,
        },
{
    match kind {
        NodeKind::NdAdd => Some("+"),
        NodeKind::NdSub => Some("-"),
        NodeKind::NdMul => Some("*"),
        NodeKind::NdDiv => Some("/"),
        NodeKind::NdEq => Some("=="),
        NodeKind::NdNe => Some("!="),
        NodeKind::NdLt => Some("<"),
        NodeKind::NdLe => Some("<="),
        NodeKind::NdAssign => Some("="),
        _ => None,
    }
}

impl Program {
    /// Appends the dump of node `ast` indented by `retract` spaces, and says whether it got to its
    /// end.
    pub fn dump_ast(tokens: &Vec<Token>, objs: &Vec<Obj>, ast: &Node, retract: usize, out: &mut String) -> (ok: bool)
        ensures
            final(out)@ == old(out)@ + dump_node(token_views(tokens@), objs@, ast@, retract as int).0,
            ok == dump_node(token_views(tokens@), objs@, ast@, retract as int).1,
        decreases ast, 2int,
    {
        let ghost toks = token_views(tokens@);
        let ghost r = retract as int;
        match binary_op_text(ast.kind) {
            Some(op) => {
                return Self::dump_binary(tokens, objs, ast, op, retract, out);
            },
            None => {},
        }
        match ast.kind {
            NodeKind::NdNum => {
                if ast.token_id < tokens.len() {
                    push_line2(out, retract, "NdNum: ", tokens[ast.token_id].tok.as_str());
                    true
                } else {
                    assert(out@ =~= old(out)@ + dump_node(toks, objs@, ast@, r).0);
                    false
                }
            },
            NodeKind::NdVar => {
                if ast.obj < objs.len() && objs[ast.obj].token_id < tokens.len() {
                    push_line2(out, retract, "NdVar: ", tokens[objs[ast.obj].token_id].tok.as_str());
                    true
                } else {
                    assert(out@ =~= old(out)@ + dump_node(toks, objs@, ast@, r).0);
                    false
                }
            },
            NodeKind::NdNeg => Self::dump_unary(tokens, objs, ast, "-:", retract, out),
            NodeKind::NdExprStmp => Self::dump_unary(tokens, objs, ast, "ExprStmp:", retract, out),
            NodeKind::NdReturn => Self::dump_unary(tokens, objs, ast, "return:", retract, out),
            NodeKind::NdBlock => Self::dump_block(tokens, objs, ast, retract, out),
            NodeKind::NdIf => Self::dump_if(tokens, objs, ast, retract, out),
            _ => {
                assert(out@ =~= old(out)@ + dump_node(toks, objs@, ast@, r).0);
                false
            },
        }
    }

    /// The dump of a two-operand node whose operator text is `op`.
    fn dump_binary(tokens: &Vec<Token>, objs: &Vec<Obj>, ast: &Node, op: &str, retract: usize, out: &mut String) -> (ok: bool)
        requires
            binary_op(ast.kind) == Some(op@),
        ensures
            final(out)@ == old(out)@ + dump_node(token_views(tokens@), objs@, ast@, retract as int).0,
            ok == dump_node(token_views(tokens@), objs@, ast@, retract as int).1,
        decreases ast, 1int,
    {
        proof {
            reveal_strlit(":");
        }
        let ghost toks = token_views(tokens@);
        let ghost r = retract as int;
        push_line2(out, retract, op, ":");
        push_line(out, retract, "lhs:");
        if !Self::dump_child(tokens, objs, &ast.lhs, retract, out) {
            assert(out@ =~= old(out)@ + dump_node(toks, objs@, ast@, r).0);
            return false;
        }
        push_line(out, retract, "rhs:");
        let ok = Self::dump_child(tokens, objs, &ast.rhs, retract, out);
        assert(out@ =~= old(out)@ + dump_node(toks, objs@, ast@, r).0);
        ok
    }

    /// The dump of a one-child node (`-`, an expression statement, `return`) headed by `head`.
    fn dump_unary(tokens: &Vec<Token>, objs: &Vec<Obj>, ast: &Node, head: &str, retract: usize, out: &mut String) -> (ok: bool)
        requires
            ast.kind == NodeKind::NdNeg ==> head@ == "-:"@,
            ast.kind == NodeKind::NdExprStmp ==> head@ == "ExprStmp:"@,
            ast.kind == NodeKind::NdReturn ==> head@ == "return:"@,
            ast.kind == NodeKind::NdNeg || ast.kind == NodeKind::NdExprStmp || ast.kind == NodeKind::NdReturn,
        ensures
            final(out)@ == old(out)@ + dump_node(token_views(tokens@), objs@, ast@, retract as int).0,
            ok == dump_node(token_views(tokens@), objs@, ast@, retract as int).1,
        decreases ast, 1int,
    {
        let ghost toks = token_views(tokens@);
        let ghost r = retract as int;
        push_line(out, retract, head);
        let ok = Self::dump_child(tokens, objs, &ast.lhs, retract, out);
        assert(out@ =~= old(out)@ + dump_node(toks, objs@, ast@, r).0);
        ok
    }

    /// The dump of an `if` node: its condition, its branch and, where present, its `else` branch.
    fn dump_if(tokens: &Vec<Token>, objs: &Vec<Obj>, ast: &Node, retract: usize, out: &mut String) -> (ok: bool)
        requires
            ast.kind == NodeKind::NdIf,
        ensures
            final(out)@ == old(out)@ + dump_node(token_views(tokens@), objs@, ast@, retract as int).0,
            ok == dump_node(token_views(tokens@), objs@, ast@, retract as int).1,
        decreases ast, 1int,
    {
        let ghost toks = token_views(tokens@);
        let ghost r = retract as int;
        push_line(out, retract, "if:");
        push_line(out, retract, "cond:");
        if !Self::dump_child(tokens, objs, &ast.cond, retract, out) {
            assert(out@ =~= old(out)@ + dump_node(toks, objs@, ast@, r).0);
            return false;
        }
        push_line(out, retract, "then:");
        if !Self::dump_child(tokens, objs, &ast.then_branch, retract, out) {
            assert(out@ =~= old(out)@ + dump_node(toks, objs@, ast@, r).0);
            return false;
        }
        let ok = match &ast.els {
            Some(_) => {
                push_line(out, retract, "else:");
                Self::dump_child(tokens, objs, &ast.els, retract, out)
            },
            None => true,
        };
        assert(out@ =~= old(out)@ + dump_node(toks, objs@, ast@, r).0);
        ok
    }

    /// The dump of a block: a head line, then each statement in order.
    fn dump_block(tokens: &Vec<Token>, objs: &Vec<Obj>, ast: &Node, retract: usize, out: &mut String) -> (ok: bool)
        requires
            ast.kind == NodeKind::NdBlock,
        ensures
            final(out)@ == old(out)@ + dump_node(token_views(tokens@), objs@, ast@, retract as int).0,
            ok == dump_node(token_views(tokens@), objs@, ast@, retract as int).1,
        decreases ast, 1int,
    {
        let ghost toks = token_views(tokens@);
        let ghost r = retract as int;
        let ghost body = ast@.body;
        proof {
            lemma_view_body(ast.body@);
            assert(body.take(0) =~= Seq::<Option<Box<NodeView>>>::empty());
        }
        push_line(out, retract, "Block:");
        let ghost head = out@;
        let mut i: usize = 0;
        while i < ast.body.len()
            invariant
                i <= ast.body@.len(),
                ast.kind == NodeKind::NdBlock,
                head == old(out)@ + line(r, "Block:"@),
                body == ast@.body,
                body.len() == ast.body@.len(),
                forall|j: int| 0 <= j < body.len() ==> body[j] == view_child(#[trigger] ast.body@[j]),
                toks == token_views(tokens@),
                r == retract,
                out@ == head + dump_body(toks, objs@, body.take(i as int), r).0,
                dump_body(toks, objs@, body.take(i as int), r).1,
            decreases ast.body@.len() - i,
        {
            let ghost before = out@;
            let ok = Self::dump_child(tokens, objs, &ast.body[i], retract, out);
            proof {
                let t = body.take(i as int + 1);
                assert(t.drop_last() =~= body.take(i as int));
                assert(t.last() == view_child(ast.body@[i as int]));
                assert(out@ =~= head + dump_body(toks, objs@, t, r).0);
                assert(dump_body(toks, objs@, t, r).1 == ok);
            }
            if !ok {
                proof {
                    lemma_dump_body_stops(toks, objs@, body, i as int + 1, r);
                    assert(!dump_body(toks, objs@, body, r).1);
                }
                assert(out@ =~= old(out)@ + dump_node(toks, objs@, ast@, r).0);
                return false;
            }
            i += 1;
        }
        assert(body.take(i as int) =~= body);
        assert(out@ =~= old(out)@ + dump_node(toks, objs@, ast@, r).0);
        true
    }

    /// Appends the dump of a required child indented by `retract + 2` spaces.
    fn dump_child(tokens: &Vec<Token>, objs: &Vec<Obj>, child: &Option<Box<Node>>, retract: usize, out: &mut String) -> (ok: bool)
        ensures
            final(out)@ == old(out)@ + dump_child(token_views(tokens@), objs@, view_child(*child), retract as int).0,
            ok == dump_child(token_views(tokens@), objs@, view_child(*child), retract as int).1,
        decreases child, 3int,
    {
        match child {
            Some(node) => if retract <= usize::MAX - 2 {
                Self::dump_ast(tokens, objs, node, retract + 2, out)
            } else {
                assert(out@ =~= old(out)@ + Seq::<char>::empty());
                false
            },
            None => {
                assert(out@ =~= old(out)@ + Seq::<char>::empty());
                false
            },
        }
    }

    /// Appends one line per local, in order, and says whether every local names a token.
    fn dump_locals(tokens: &Vec<Token>, locals: &Vec<Obj>, out: &mut String) -> (ok: bool)
        ensures
            final(out)@ == old(out)@ + dump_locals(token_views(tokens@), locals@).0,
            ok == dump_locals(token_views(tokens@), locals@).1,
    {
        let ghost toks = token_views(tokens@);
        let mut i: usize = 0;
        assert(locals@.take(0) =~= Seq::<Obj>::empty());
        assert(old(out)@ + Seq::<char>::empty() =~= old(out)@);
        while i < locals.len()
            invariant
                i <= locals@.len(),
                toks == token_views(tokens@),
                out@ == old(out)@ + dump_locals(toks, locals@.take(i as int)).0,
                dump_locals(toks, locals@.take(i as int)).1,
            decreases locals@.len() - i,
        {
            proof {
                reveal_strlit("local: ");
                reveal_strlit(" (offset ");
                reveal_strlit(")");
                reveal_strlit("\n");
            }
            let local = locals[i];
            let ghost t = locals@.take(i as int + 1);
            assert(t.drop_last() =~= locals@.take(i as int));
            assert(t.last() == local);
            if local.token_id >= tokens.len() {
                proof {
                    lemma_dump_locals_stops(toks, locals@, i as int + 1);
                }
                assert(out@ =~= old(out)@ + dump_locals(toks, locals@).0);
                return false;
            }
            let ghost mark = out@;
            push_spaces(out, 0);
            out.append("local: ");
            out.append(tokens[local.token_id].tok.as_str());
            out.append(" (offset ");
            push_dec(out, local.offset);
            out.append(")");
            out.append("\n");
            assert(out@ =~= mark + dump_local(toks, local).0);
            i += 1;
            assert(out@ =~= old(out)@ + dump_locals(toks, locals@.take(i as int)).0);
        }
        assert(locals@.take(i as int) =~= locals@);
        true
    }

    /// The dump of the parsed function, which must dump in full (a function must have been parsed,
    /// and every token and local that the dump names must exist; a loop has no dump): its frame
    /// size, one line per local, then its body.
    pub fn dump(&self) -> (text: String)
        requires
            dump_program(self.toks(), self.asts@).1,
        ensures
            text@ == dump_program(self.toks(), self.asts@).0,
    {
        let (text, _) = self.try_dump();
        text
    }

    /// The dump of the parsed function: its frame size, one line per local, then its body; and
    /// whether the dump gets to its end (it stops where no function was parsed yet, or where a
    /// token or local that it names is missing).
    pub fn try_dump(&self) -> (r: (String, bool))
        ensures
            r.0@ == dump_program(self.toks(), self.asts@).0,
            r.1 == dump_program(self.toks(), self.asts@).1,
    {
        proof {
            reveal_strlit("stack-size: ");
            reveal_strlit("\n");
        }
        let mut out = String::new();
        let func = match self.asts.as_ref() {
            Some(f) => f,
            None => return (out, false),
        };
        let ghost toks = self.toks();
        push_spaces(&mut out, 0);
        out.append("stack-size: ");
        push_dec(&mut out, func.stack_size);
        out.append("\n");
        assert(out@ =~= line(0, "stack-size: "@ + dec_int(func.stack_size as int)));
        if !Self::dump_locals(&self.tokenizer.tokens, &func.locals, &mut out) {
            assert(out@ =~= dump_program(toks, self.asts@).0);
            return (out, false);
        }
        match func.body.as_ref() {
            Some(body) => {
                let ok = Self::dump_ast(&self.tokenizer.tokens, &func.locals, body, 0, &mut out);
                assert(out@ =~= dump_program(toks, self.asts@).0);
                (out, ok)
            },
            None => {
                assert(out@ =~= dump_program(toks, self.asts@).0);
                (out, false)
            },
        }
    }
}

} // verus!
