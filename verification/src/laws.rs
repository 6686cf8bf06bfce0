use crate::ast::{Function, NodeKind, NodeView, Obj, Program};
use crate::dump::{
    binary_op, chain, dec_int, dec_nat, done, dump_body, dump_child, dump_locals, dump_node, dump_program, line,
    spaces, stop,
};
use crate::parse::{
    add_op_at, boxed, equality_op_at, mul_op_at, node_binary, node_block, node_for, node_if, node_leaf,
    node_unary, node_var, relational_op_at, spec_add, spec_add_rest, spec_assign, spec_compound_rest,
    spec_compound_stmt, spec_consume, spec_equality, spec_equality_rest, spec_expect, spec_expr,
    spec_expr_stmt, spec_find_local, spec_for, spec_if, spec_mul, spec_mul_rest, spec_opt_expr,
    spec_primary, spec_program, spec_relational, spec_relational_rest, spec_return, spec_stmt,
    spec_unary, spec_while, stmt_rule, ParseErrorView, Step,
};
use crate::tokenize::{c_lexemes, eof_token, kind_of, token_of, tokens_of, LexKind, TokenKind, TokenView};
use crate::utils::Mbox;
use vstd::prelude::*;

verus! {

// Properties that hold of every input: of the token sequence a text gives, of what the parser
// builds from tokens, and of the dump of what the parser built.

/// The larger of two numbers.
pub open spec fn larger(a: nat, b: nat) -> nat {
    if a >= b {
        a
    } else {
        b
    }
}

/// The height of a tree: one more than that of its highest child.
pub open spec fn depth(n: NodeView) -> nat
    decreases n, 0int,
{
    1 + larger(
        larger(larger(depth_child(n.lhs), depth_child(n.rhs)), larger(depth_child(n.cond), depth_child(n.then_branch))),
        larger(larger(depth_child(n.els), depth_child(n.init)), larger(depth_child(n.inc), depth_body(n.body))),
    )
}

/// The height of an optional child; 0 where there is none.
pub open spec fn depth_child(c: Option<Box<NodeView>>) -> nat
    decreases c, 1int,
{
    match c {
        Some(b) => depth(*b),
        None => 0,
    }
}

/// The height of the highest statement of a block.
pub open spec fn depth_body(body: Seq<Option<Box<NodeView>>>) -> nat
    decreases body, 0int,
{
    if body.len() == 0 {
        0
    } else {
        larger(depth_body(body.drop_last()), depth_child(body.last()))
    }
}

/// Whether a tree holds a `for` or `while` loop.
pub open spec fn contains_loop(n: NodeView) -> bool
    decreases n, 0int,
{
    ||| n.kind == NodeKind::NdFor
    ||| loop_child(n.lhs)
    ||| loop_child(n.rhs)
    ||| loop_child(n.cond)
    ||| loop_child(n.then_branch)
    ||| loop_child(n.els)
    ||| loop_child(n.init)
    ||| loop_child(n.inc)
    ||| loop_body(n.body)
}

/// Whether an optional child holds a loop.
pub open spec fn loop_child(c: Option<Box<NodeView>>) -> bool
    decreases c, 1int,
{
    match c {
        Some(b) => contains_loop(*b),
        None => false,
    }
}

/// Whether a statement of a block holds a loop.
pub open spec fn loop_body(body: Seq<Option<Box<NodeView>>>) -> bool
    decreases body, 0int,
{
    body.len() > 0 && (loop_body(body.drop_last()) || loop_child(body.last()))
}

/// Whether a tree is complete over the tokens `ts` and `nl` locals: each node has the children its
/// kind needs, each number node points at a number token, and each variable names a local.
pub open spec fn complete(n: NodeView, ts: Seq<TokenView>, nl: int) -> bool
    decreases n, 0int,
{
    match binary_op(n.kind) {
        Some(_) => n.lhs is Some && complete_opt(n.lhs, ts, nl) && n.rhs is Some && complete_opt(n.rhs, ts, nl),
        None => match n.kind {
            NodeKind::NdNum => n.token_id < ts.len() && ts[n.token_id as int].kind == TokenKind::TkNum,
            NodeKind::NdVar => n.obj < nl,
            NodeKind::NdNeg | NodeKind::NdExprStmp | NodeKind::NdReturn => n.lhs is Some && complete_opt(n.lhs, ts, nl),
            NodeKind::NdBlock => complete_body(n.body, ts, nl),
            NodeKind::NdIf => {
                &&& n.cond is Some && complete_opt(n.cond, ts, nl)
                &&& n.then_branch is Some && complete_opt(n.then_branch, ts, nl)
                &&& complete_opt(n.els, ts, nl)
            },
            NodeKind::NdFor => {
                &&& complete_opt(n.init, ts, nl)
                &&& complete_opt(n.cond, ts, nl)
                &&& complete_opt(n.inc, ts, nl)
                &&& n.then_branch is Some && complete_opt(n.then_branch, ts, nl)
            },
            _ => false,
        },
    }
}

/// Whether an optional child, where present, is complete.
pub open spec fn complete_opt(c: Option<Box<NodeView>>, ts: Seq<TokenView>, nl: int) -> bool
    decreases c, 1int,
{
    match c {
        Some(b) => complete(*b, ts, nl),
        None => true,
    }
}

/// Whether every statement of a block is present and complete.
pub open spec fn complete_body(body: Seq<Option<Box<NodeView>>>, ts: Seq<TokenView>, nl: int) -> bool
    decreases body, 0int,
{
    body.len() == 0 || (complete_body(body.drop_last(), ts, nl) && body.last() is Some && complete_opt(body.last(), ts, nl))
}

/// Whether each local names a token.
pub open spec fn locals_named(toks: Seq<TokenView>, l: Seq<Obj>) -> bool {
    forall|j: int| 0 <= j < l.len() ==> (#[trigger] l[j]).token_id < toks.len()
}

/// Whether no two locals have the same name.
pub open spec fn names_distinct(toks: Seq<TokenView>, l: Seq<Obj>) -> bool {
    forall|i: int, j: int|
        0 <= i < j < l.len() ==> toks[(#[trigger] l[i]).token_id as int].tok != toks[(#[trigger] l[j]).token_id as int].tok
}

/// A tree stays complete when locals are added.
proof fn lemma_complete_more_locals(n: NodeView, ts: Seq<TokenView>, nl: int, nl2: int)
    requires
        complete(n, ts, nl),
        nl <= nl2,
    ensures
        complete(n, ts, nl2),
    decreases n, 0int,
{
    lemma_complete_opt_more_locals(n.lhs, ts, nl, nl2);
    lemma_complete_opt_more_locals(n.rhs, ts, nl, nl2);
    lemma_complete_opt_more_locals(n.cond, ts, nl, nl2);
    lemma_complete_opt_more_locals(n.then_branch, ts, nl, nl2);
    lemma_complete_opt_more_locals(n.els, ts, nl, nl2);
    lemma_complete_opt_more_locals(n.init, ts, nl, nl2);
    lemma_complete_opt_more_locals(n.inc, ts, nl, nl2);
    if n.kind == NodeKind::NdBlock {
        lemma_complete_body_more_locals(n.body, ts, nl, nl2);
    }
}

proof fn lemma_complete_opt_more_locals(c: Option<Box<NodeView>>, ts: Seq<TokenView>, nl: int, nl2: int)
    requires
        nl <= nl2,
    ensures
        complete_opt(c, ts, nl) ==> complete_opt(c, ts, nl2),
    decreases c, 1int,
{
    match c {
        Some(b) => if complete(*b, ts, nl) {
            lemma_complete_more_locals(*b, ts, nl, nl2);
        },
        None => {},
    }
}

proof fn lemma_complete_body_more_locals(body: Seq<Option<Box<NodeView>>>, ts: Seq<TokenView>, nl: int, nl2: int)
    requires
        complete_body(body, ts, nl),
        nl <= nl2,
    ensures
        complete_body(body, ts, nl2),
    decreases body, 0int,
{
    if body.len() > 0 {
        lemma_complete_body_more_locals(body.drop_last(), ts, nl, nl2);
        lemma_complete_opt_more_locals(body.last(), ts, nl, nl2);
    }
}

/// A complete tree without loops dumps in full, given room for its indentation.
proof fn lemma_dump_node_full(toks: Seq<TokenView>, objs: Seq<Obj>, n: NodeView, r: int)
    requires
        complete(n, toks, objs.len() as int),
        !contains_loop(n),
        locals_named(toks, objs),
        0 <= r,
        r + 2 * depth(n) <= usize::MAX,
    ensures
        dump_node(toks, objs, n, r).1,
    decreases n, 0int,
{
    let ts = toks;
    let nl = objs.len() as int;
    match binary_op(n.kind) {
        Some(_) => {
            lemma_dump_child_full(toks, objs, n.lhs, r);
            lemma_dump_child_full(toks, objs, n.rhs, r);
        },
        None => {
            if n.kind == NodeKind::NdNeg || n.kind == NodeKind::NdExprStmp || n.kind == NodeKind::NdReturn {
                lemma_dump_child_full(toks, objs, n.lhs, r);
            } else if n.kind == NodeKind::NdBlock {
                lemma_dump_body_full(toks, objs, n.body, r);
            } else if n.kind == NodeKind::NdIf {
                lemma_dump_child_full(toks, objs, n.cond, r);
                lemma_dump_child_full(toks, objs, n.then_branch, r);
                if n.els is Some {
                    lemma_dump_child_full(toks, objs, n.els, r);
                }
            }
        },
    }
}

proof fn lemma_dump_child_full(toks: Seq<TokenView>, objs: Seq<Obj>, c: Option<Box<NodeView>>, r: int)
    requires
        c is Some,
        complete_opt(c, toks, objs.len() as int),
        !loop_child(c),
        locals_named(toks, objs),
        0 <= r,
        r + 2 + 2 * depth_child(c) <= usize::MAX,
    ensures
        dump_child(toks, objs, c, r).1,
    decreases c, 1int,
{
    match c {
        Some(b) => lemma_dump_node_full(toks, objs, *b, r + 2),
        None => {},
    }
}

proof fn lemma_dump_body_full(toks: Seq<TokenView>, objs: Seq<Obj>, body: Seq<Option<Box<NodeView>>>, r: int)
    requires
        complete_body(body, toks, objs.len() as int),
        !loop_body(body),
        locals_named(toks, objs),
        0 <= r,
        r + 2 + 2 * depth_body(body) <= usize::MAX,
    ensures
        dump_body(toks, objs, body, r).1,
    decreases body, 0int,
{
    if body.len() > 0 {
        lemma_dump_body_full(toks, objs, body.drop_last(), r);
        lemma_dump_child_full(toks, objs, body.last(), r);
    }
}

/// Locals that each name a token all dump.
proof fn lemma_dump_locals_full(toks: Seq<TokenView>, l: Seq<Obj>)
    requires
        locals_named(toks, l),
    ensures
        dump_locals(toks, l).1,
    decreases l.len(),
{
    if l.len() > 0 {
        assert(locals_named(toks, l.drop_last()));
        lemma_dump_locals_full(toks, l.drop_last());
    }
}

/// Whether the tokens end with the end-of-input token: empty text, class `TkEof`.
pub open spec fn ends_with_eof(toks: Seq<TokenView>) -> bool {
    toks.len() > 0 && toks.last().kind == TokenKind::TkEof && toks.last().tok.len() == 0
}

/// Whether positions and local numbers from `p` on fit in a machine word.
pub open spec fn room(toks: Seq<TokenView>, p: int, l: Seq<Obj>) -> bool {
    toks.len() <= usize::MAX && l.len() + toks.len() - p <= usize::MAX
}

/// `l2` is `l` with locals appended, at most one per token of `[p, q)`, each named by an
/// identifier in `[p, q)` and at offset 0, in the order of their tokens; named and distinct
/// locals stay so.
pub open spec fn grows(toks: Seq<TokenView>, l: Seq<Obj>, l2: Seq<Obj>, p: int, q: int) -> bool {
    &&& l.len() <= l2.len() <= l.len() + (q - p)
    &&& l2.subrange(0, l.len() as int) == l
    &&& forall|j: int|
        l.len() <= j < l2.len() ==> p <= (#[trigger] l2[j]).token_id < q && toks[l2[j].token_id as int].kind
            == TokenKind::TkIdent && l2[j].offset == 0
    &&& forall|i: int, j: int| l.len() <= i < j < l2.len() ==> (#[trigger] l2[i]).token_id < (#[trigger] l2[j]).token_id
    &&& locals_named(toks, l) ==> locals_named(toks, l2)
    &&& locals_named(toks, l) && names_distinct(toks, l) ==> names_distinct(toks, l2)
}

/// What a failure from `p` never is where the tokens end with the end-of-input token, `p` is
/// inside them and the locals name tokens: a read out of bounds.
pub open spec fn err_in_bounds(toks: Seq<TokenView>, p: int, l: Seq<Obj>, e: ParseErrorView) -> bool {
    ends_with_eof(toks) && 0 <= p < toks.len() && locals_named(toks, l) ==> !(e is IndexOutOfBounds)
}

/// What a successful read from `p` to `q` leaves: `q` within the tokens (before the end-of-input
/// token where there is one) and the locals grown from `l` to `l2` by names read in between.
pub open spec fn moved(toks: Seq<TokenView>, p: int, l: Seq<Obj>, q: int, l2: Seq<Obj>) -> bool {
    &&& p <= q <= toks.len()
    &&& (ends_with_eof(toks) ==> q < toks.len())
    &&& grows(toks, l, l2, p, q)
}

/// What parsing a rule from `p` gives: it reads at least one token, builds a complete tree no
/// higher than the tokens read, and fails in bounds.
pub open spec fn sound(toks: Seq<TokenView>, p: int, l: Seq<Obj>, r: Result<Step, ParseErrorView>) -> bool {
    match r {
        Ok(s) => {
            &&& p < s.pos
            &&& moved(toks, p, l, s.pos, s.locals)
            &&& complete(s.node, toks, s.locals.len() as int)
            &&& depth(s.node) <= s.pos - p
        },
        Err(e) => err_in_bounds(toks, p, l, e),
    }
}

/// The same for the tail of a rule that continues `lhs` from `p`, which may read nothing.
pub open spec fn sound_tail(toks: Seq<TokenView>, lhs: NodeView, p: int, l: Seq<Obj>, r: Result<Step, ParseErrorView>) -> bool {
    match r {
        Ok(s) => {
            &&& moved(toks, p, l, s.pos, s.locals)
            &&& complete(s.node, toks, s.locals.len() as int)
            &&& depth(s.node) <= depth(lhs) + (s.pos - p)
        },
        Err(e) => err_in_bounds(toks, p, l, e),
    }
}

/// The same for an optional expression closed by a token.
pub open spec fn sound_opt(toks: Seq<TokenView>, p: int, l: Seq<Obj>, r: Result<(Option<NodeView>, int, Seq<Obj>), ParseErrorView>) -> bool {
    match r {
        Ok((n, q, l2)) => {
            &&& p < q
            &&& moved(toks, p, l, q, l2)
            &&& match n {
                Some(e) => complete(e, toks, l2.len() as int) && depth(e) < q - p,
                None => true,
            }
        },
        Err(e) => err_in_bounds(toks, p, l, e),
    }
}

/// The same for the statement loop of a block with `body` parsed so far.
pub open spec fn sound_block(toks: Seq<TokenView>, body: Seq<Option<Box<NodeView>>>, p: int, l: Seq<Obj>, r: Result<Step, ParseErrorView>) -> bool {
    match r {
        Ok(s) => {
            &&& p < s.pos
            &&& moved(toks, p, l, s.pos, s.locals)
            &&& complete(s.node, toks, s.locals.len() as int)
            &&& depth(s.node) <= 1 + larger(depth_body(body), (s.pos - p - 1) as nat)
        },
        Err(e) => err_in_bounds(toks, p, l, e),
    }
}

/// The tokens that the grammar names are not empty.
proof fn lemma_literals()
    ensures
        "("@.len() > 0,
        ")"@.len() > 0,
        "+"@.len() > 0,
        "-"@.len() > 0,
        "*"@.len() > 0,
        "/"@.len() > 0,
        "<"@.len() > 0,
        "<="@.len() > 0,
        ">"@.len() > 0,
        ">="@.len() > 0,
        "=="@.len() > 0,
        "!="@.len() > 0,
        "="@.len() > 0,
        ";"@.len() > 0,
        "return"@.len() > 0,
        "if"@.len() > 0,
        "else"@.len() > 0,
        "for"@.len() > 0,
        "while"@.len() > 0,
        "{"@.len() > 0,
        "}"@.len() > 0,
{
    reveal_strlit("(");
    reveal_strlit(")");
    reveal_strlit("+");
    reveal_strlit("-");
    reveal_strlit("*");
    reveal_strlit("/");
    reveal_strlit("<");
    reveal_strlit("<=");
    reveal_strlit(">");
    reveal_strlit(">=");
    reveal_strlit("==");
    reveal_strlit("!=");
    reveal_strlit("=");
    reveal_strlit(";");
    reveal_strlit("return");
    reveal_strlit("if");
    reveal_strlit("else");
    reveal_strlit("for");
    reveal_strlit("while");
    reveal_strlit("{");
    reveal_strlit("}");
}

/// Locals grow from themselves over any stretch.
proof fn lemma_grows_refl(toks: Seq<TokenView>, l: Seq<Obj>, p: int, q: int)
    requires
        p <= q,
    ensures
        grows(toks, l, l, p, q),
{
    assert(l.subrange(0, l.len() as int) =~= l);
}

/// Growth over `[p, q)` then over `[q, r)` is growth over `[p, r)`.
proof fn lemma_grows_trans(toks: Seq<TokenView>, l0: Seq<Obj>, l1: Seq<Obj>, l2: Seq<Obj>, p: int, q: int, r: int)
    requires
        grows(toks, l0, l1, p, q),
        grows(toks, l1, l2, q, r),
        p <= q <= r,
    ensures
        grows(toks, l0, l2, p, r),
{
    assert(l2.subrange(0, l0.len() as int) =~= l1.subrange(0, l0.len() as int)) by {
        assert forall|j: int| 0 <= j < l0.len() implies l2.subrange(0, l0.len() as int)[j] == l1.subrange(0, l0.len() as int)[j] by {
            assert(l2.subrange(0, l1.len() as int)[j] == l1[j]);
        }
    }
    assert forall|j: int| l0.len() <= j < l2.len() implies p <= (#[trigger] l2[j]).token_id < r && toks[l2[j].token_id as int].kind
        == TokenKind::TkIdent && l2[j].offset == 0 by {
        if j < l1.len() {
            assert(l2.subrange(0, l1.len() as int)[j] == l1[j]);
        }
    }
    assert forall|i: int, j: int| l0.len() <= i < j < l2.len() implies (#[trigger] l2[i]).token_id < (
    #[trigger] l2[j]).token_id by {
        if j < l1.len() {
            assert(l2.subrange(0, l1.len() as int)[j] == l1[j]);
            assert(l2.subrange(0, l1.len() as int)[i] == l1[i]);
        } else if i < l1.len() {
            assert(l2.subrange(0, l1.len() as int)[i] == l1[i]);
            assert(l1[i].token_id < q);
        }
    }
}

/// Growth over a stretch is growth over any wider one.
proof fn lemma_grows_widen(toks: Seq<TokenView>, l: Seq<Obj>, l2: Seq<Obj>, p: int, q: int, p0: int, q0: int)
    requires
        grows(toks, l, l2, p, q),
        p0 <= p,
        q <= q0,
    ensures
        grows(toks, l, l2, p0, q0),
{
}

/// A read from `p` to `q` then from `q` to `r` is a read from `p` to `r`.
proof fn lemma_moved_trans(toks: Seq<TokenView>, p: int, l0: Seq<Obj>, q: int, l1: Seq<Obj>, r: int, l2: Seq<Obj>)
    requires
        moved(toks, p, l0, q, l1),
        moved(toks, q, l1, r, l2),
    ensures
        moved(toks, p, l0, r, l2),
{
    lemma_grows_trans(toks, l0, l1, l2, p, q, r);
}

/// A failure in bounds from a later position, with grown locals, is one from an earlier position.
proof fn lemma_err_back(toks: Seq<TokenView>, p: int, l0: Seq<Obj>, q: int, l1: Seq<Obj>, e: ParseErrorView)
    requires
        moved(toks, p, l0, q, l1),
        err_in_bounds(toks, q, l1, e),
        0 <= p,
    ensures
        err_in_bounds(toks, p, l0, e),
{
}

/// Where no local from `i` on is named `name`, they all name tokens and none has that name.
proof fn lemma_find_local_none(toks: Seq<TokenView>, l: Seq<Obj>, name: Seq<char>, i: int)
    requires
        0 <= i,
        spec_find_local(toks, l, name, i) == Ok::<Option<int>, ParseErrorView>(None),
    ensures
        forall|j: int| i <= j < l.len() ==> (#[trigger] l[j]).token_id < toks.len() && toks[l[j].token_id as int].tok != name,
    decreases l.len() - i,
{
    if i < l.len() {
        lemma_find_local_none(toks, l, name, i + 1);
    }
}

/// A local found from `i` on is one of the locals.
proof fn lemma_find_local_some(toks: Seq<TokenView>, l: Seq<Obj>, name: Seq<char>, i: int, k: int)
    requires
        0 <= i,
        spec_find_local(toks, l, name, i) == Ok::<Option<int>, ParseErrorView>(Some(k)),
    ensures
        i <= k < l.len(),
    decreases l.len() - i,
{
    if i < l.len() && toks[l[i].token_id as int].tok != name {
        lemma_find_local_some(toks, l, name, i + 1, k);
    }
}

/// With named locals, looking one up never reads out of bounds.
proof fn lemma_find_local_named(toks: Seq<TokenView>, l: Seq<Obj>, name: Seq<char>, i: int)
    requires
        0 <= i,
        locals_named(toks, l),
    ensures
        spec_find_local(toks, l, name, i) is Ok,
    decreases l.len() - i,
{
    if i < l.len() {
        assert(l[i].token_id < toks.len());
        lemma_find_local_named(toks, l, name, i + 1);
    }
}

/// Adding a local for an identifier at `p` that no local has as its name grows the locals.
proof fn lemma_new_local(toks: Seq<TokenView>, l: Seq<Obj>, p: int)
    requires
        0 <= p < toks.len() <= usize::MAX,
        toks[p].kind == TokenKind::TkIdent,
        spec_find_local(toks, l, toks[p].tok, 0) == Ok::<Option<int>, ParseErrorView>(None),
    ensures
        grows(toks, l, l.push(Obj { token_id: p as usize, offset: 0 }), p, p + 1),
{
    let l2 = l.push(Obj { token_id: p as usize, offset: 0 });
    lemma_find_local_none(toks, l, toks[p].tok, 0);
    assert(l2.subrange(0, l.len() as int) =~= l);
    if locals_named(toks, l) && names_distinct(toks, l) {
        assert forall|i: int, j: int| 0 <= i < j < l2.len() implies toks[(#[trigger] l2[i]).token_id as int].tok
            != toks[(#[trigger] l2[j]).token_id as int].tok by {
            if j == l.len() {
                assert(l2[i] == l[i]);
            } else {
                assert(l2[i] == l[i] && l2[j] == l[j]);
            }
        }
    }
    if locals_named(toks, l) {
        assert forall|j: int| 0 <= j < l2.len() implies (#[trigger] l2[j]).token_id < toks.len() by {
            if j < l.len() {
                assert(l2[j] == l[j]);
            }
        }
    }
}

/// A read from just after a non-empty token at `p` is a read from `p`.
proof fn lemma_moved_from_next(toks: Seq<TokenView>, p: int, l: Seq<Obj>, q: int, l2: Seq<Obj>)
    requires
        moved(toks, p + 1, l, q, l2),
    ensures
        moved(toks, p, l, q, l2),
{
    lemma_grows_widen(toks, l, l2, p + 1, q, p, q);
}

/// A failure in bounds after a non-empty token at `p` is a failure in bounds from `p`.
proof fn lemma_err_from_next(toks: Seq<TokenView>, p: int, l: Seq<Obj>, e: ParseErrorView)
    requires
        0 <= p < toks.len(),
        toks[p].tok.len() > 0,
        err_in_bounds(toks, p + 1, l, e),
    ensures
        err_in_bounds(toks, p, l, e),
{
}

/// A sound parse from just after a non-empty token at `p` is a sound parse from `p`.
proof fn lemma_sound_from_next(toks: Seq<TokenView>, p: int, l: Seq<Obj>, r: Result<Step, ParseErrorView>)
    requires
        0 <= p < toks.len(),
        toks[p].tok.len() > 0,
        sound(toks, p + 1, l, r),
    ensures
        sound(toks, p, l, r),
{
    match r {
        Ok(s) => lemma_moved_from_next(toks, p, l, s.pos, s.locals),
        Err(e) => lemma_err_from_next(toks, p, l, e),
    }
}

/// Testing for a non-empty token `t` at `p`: a match reads it, and a failure is in bounds.
proof fn lemma_consume_at(toks: Seq<TokenView>, p: int, l: Seq<Obj>, t: Seq<char>)
    requires
        t.len() > 0,
    ensures
        match spec_consume(toks, p, t) {
            Ok(true) => moved(toks, p, l, p + 1, l) && toks[p].tok.len() > 0,
            Ok(false) => 0 <= p < toks.len(),
            Err(e) => err_in_bounds(toks, p, l, e),
        },
{
    if 0 <= p < toks.len() {
        lemma_grows_refl(toks, l, p, p + 1);
    }
}

/// After a read from `p` to `q`: a test for a non-empty token `t` at `q` that matches reads it
/// too, and one that fails does so in bounds.
proof fn lemma_consume_after(toks: Seq<TokenView>, p: int, l: Seq<Obj>, q: int, l1: Seq<Obj>, t: Seq<char>)
    requires
        t.len() > 0,
        moved(toks, p, l, q, l1),
    ensures
        match spec_consume(toks, q, t) {
            Ok(true) => moved(toks, p, l, q + 1, l1),
            Ok(false) => true,
            Err(e) => err_in_bounds(toks, p, l, e),
        },
{
    lemma_grows_widen(toks, l, l1, p, q, p, q + 1);
}

/// After a read from `p` to `q`: requiring a non-empty token `t` at `q` reads it, or fails in
/// bounds.
proof fn lemma_expect_after(toks: Seq<TokenView>, p: int, l: Seq<Obj>, q: int, l1: Seq<Obj>, t: Seq<char>)
    requires
        t.len() > 0,
        moved(toks, p, l, q, l1),
    ensures
        match spec_expect(toks, q, t) {
            Ok(q2) => q2 == q + 1 && moved(toks, p, l, q2, l1),
            Err(e) => err_in_bounds(toks, p, l, e),
        },
{
    lemma_grows_widen(toks, l, l1, p, q, p, q + 1);
}

/// A rule's head parsed soundly, then its tail: the rule parsed soundly.
proof fn lemma_head_then_tail(toks: Seq<TokenView>, p: int, l: Seq<Obj>, s: Step, r: Result<Step, ParseErrorView>)
    requires
        sound(toks, p, l, Ok(s)),
        sound_tail(toks, s.node, s.pos, s.locals, r),
    ensures
        sound(toks, p, l, r),
{
    match r {
        Ok(s2) => lemma_moved_trans(toks, p, l, s.pos, s.locals, s2.pos, s2.locals),
        Err(e) => {
            if p >= 0 {
                lemma_err_back(toks, p, l, s.pos, s.locals, e);
            }
        },
    }
}

/// One operator of a tail at `p`: the operand parsed soundly from `p + 1` and joined with `lhs`
/// into `j`, then the rest of the tail: the tail from `p` parsed soundly.
proof fn lemma_tail_step(toks: Seq<TokenView>, lhs: NodeView, p: int, l: Seq<Obj>, s: Step, j: NodeView, r: Result<Step, ParseErrorView>)
    requires
        0 <= p < toks.len(),
        toks[p].tok.len() > 0,
        sound(toks, p + 1, l, Ok(s)),
        depth(j) <= depth(lhs) + (s.pos - p),
        sound_tail(toks, j, s.pos, s.locals, r),
    ensures
        sound_tail(toks, lhs, p, l, r),
{
    lemma_moved_from_next(toks, p, l, s.pos, s.locals);
    match r {
        Ok(s2) => lemma_moved_trans(toks, p, l, s.pos, s.locals, s2.pos, s2.locals),
        Err(e) => lemma_err_back(toks, p, l, s.pos, s.locals, e),
    }
}

/// Joining `lhs` with an operand parsed soundly from `p + 1` gives a complete tree no higher than
/// `lhs` plus the tokens read from `p`.
proof fn lemma_join(toks: Seq<TokenView>, kind: NodeKind, swap: bool, lhs: NodeView, p: int, l: Seq<Obj>, s: Step)
    requires
        binary_op(kind) is Some,
        complete(lhs, toks, l.len() as int),
        sound(toks, p + 1, l, Ok(s)),
    ensures
        complete(
            if swap { node_binary(kind, s.node, lhs, s.pos) } else { node_binary(kind, lhs, s.node, s.pos) },
            toks,
            s.locals.len() as int,
        ),
        depth(if swap { node_binary(kind, s.node, lhs, s.pos) } else { node_binary(kind, lhs, s.node, s.pos) })
            <= depth(lhs) + (s.pos - p),
{
    lemma_complete_more_locals(lhs, toks, l.len() as int, s.locals.len() as int);
    assert(depth_body(Seq::<Option<Box<NodeView>>>::empty()) == 0);
}

/// A one-child node over a complete tree is complete, one higher.
proof fn lemma_wrap(kind: NodeKind, e: NodeView, t: int, ts: Seq<TokenView>, nl: int)
    requires
        kind == NodeKind::NdNeg || kind == NodeKind::NdExprStmp || kind == NodeKind::NdReturn,
        complete(e, ts, nl),
    ensures
        complete(node_unary(kind, e, t), ts, nl),
        depth(node_unary(kind, e, t)) == 1 + depth(e),
{
    assert(depth_body(Seq::<Option<Box<NodeView>>>::empty()) == 0);
}

// primary = "(" expr ")" | num | ident
#[verifier::rlimit(60)]
proof fn lemma_primary(toks: Seq<TokenView>, p: int, l: Seq<Obj>)
    requires
        room(toks, p, l),
    ensures
        sound(toks, p, l, spec_primary(toks, p, l)),
    decreases toks.len() - p, 14int,
{
    lemma_literals();
    lemma_consume_at(toks, p, l, "("@);
    match spec_consume(toks, p, "("@) {
        Err(_) => {},
        Ok(true) => {
            lemma_expr(toks, p + 1, l);
            match spec_expr(toks, p + 1, l) {
                Err(e) => lemma_err_from_next(toks, p, l, e),
                Ok(s) => {
                    lemma_moved_from_next(toks, p, l, s.pos, s.locals);
                    lemma_expect_after(toks, p, l, s.pos, s.locals, ")"@);
                },
            }
        },
        Ok(false) => {
            assert(depth_body(Seq::<Option<Box<NodeView>>>::empty()) == 0);
            if toks[p].kind == TokenKind::TkNum {
                lemma_grows_refl(toks, l, p, p + 1);
            } else if toks[p].kind == TokenKind::TkIdent {
                if locals_named(toks, l) {
                    lemma_find_local_named(toks, l, toks[p].tok, 0);
                }
                match spec_find_local(toks, l, toks[p].tok, 0) {
                    Err(_) => {},
                    Ok(Some(i)) => {
                        lemma_find_local_some(toks, l, toks[p].tok, 0, i);
                        lemma_grows_refl(toks, l, p, p + 1);
                    },
                    Ok(None) => lemma_new_local(toks, l, p),
                }
            }
        },
    }
}

// unary = ("+" | "-") unary | primary
#[verifier::rlimit(60)]
proof fn lemma_unary(toks: Seq<TokenView>, p: int, l: Seq<Obj>)
    requires
        room(toks, p, l),
    ensures
        sound(toks, p, l, spec_unary(toks, p, l)),
    decreases toks.len() - p, 15int,
{
    lemma_literals();
    lemma_consume_at(toks, p, l, "+"@);
    lemma_consume_at(toks, p, l, "-"@);
    match spec_consume(toks, p, "+"@) {
        Err(_) => {},
        Ok(true) => {
            lemma_unary(toks, p + 1, l);
            lemma_sound_from_next(toks, p, l, spec_unary(toks, p + 1, l));
        },
        Ok(false) => match spec_consume(toks, p, "-"@) {
            Err(_) => {},
            Ok(true) => {
                lemma_unary(toks, p + 1, l);
                match spec_unary(toks, p + 1, l) {
                    Err(e) => lemma_err_from_next(toks, p, l, e),
                    Ok(s) => {
                        lemma_moved_from_next(toks, p, l, s.pos, s.locals);
                        lemma_wrap(NodeKind::NdNeg, s.node, s.pos, toks, s.locals.len() as int);
                    },
                }
            },
            Ok(false) => lemma_primary(toks, p, l),
        },
    }
}

// mul = unary ("*" unary | "/" unary)*
#[verifier::rlimit(60)]
proof fn lemma_mul(toks: Seq<TokenView>, p: int, l: Seq<Obj>)
    requires
        room(toks, p, l),
    ensures
        sound(toks, p, l, spec_mul(toks, p, l)),
    decreases toks.len() - p, 17int,
{
    lemma_unary(toks, p, l);
    match spec_unary(toks, p, l) {
        Err(_) => {},
        Ok(s) => {
            lemma_mul_rest(toks, s.node, s.pos, s.locals);
            lemma_head_then_tail(toks, p, l, s, spec_mul_rest(toks, s.node, s.pos, s.locals));
        },
    }
}

#[verifier::rlimit(60)]
proof fn lemma_mul_rest(toks: Seq<TokenView>, lhs: NodeView, p: int, l: Seq<Obj>)
    requires
        room(toks, p, l),
        complete(lhs, toks, l.len() as int),
    ensures
        sound_tail(toks, lhs, p, l, spec_mul_rest(toks, lhs, p, l)),
    decreases toks.len() - p, 16int,
{
    lemma_literals();
    match mul_op_at(toks, p) {
        Err(_) => {},
        Ok(Some((kind, swap))) => {
            lemma_unary(toks, p + 1, l);
            match spec_unary(toks, p + 1, l) {
                Err(e) => lemma_err_from_next(toks, p, l, e),
                Ok(s) => {
                    lemma_join(toks, kind, swap, lhs, p, l, s);
                    let j = if swap { node_binary(kind, s.node, lhs, s.pos) } else { node_binary(kind, lhs, s.node, s.pos) };
                    lemma_mul_rest(toks, j, s.pos, s.locals);
                    lemma_tail_step(toks, lhs, p, l, s, j, spec_mul_rest(toks, j, s.pos, s.locals));
                },
            }
        },
        Ok(None) => lemma_grows_refl(toks, l, p, p),
    }
}

// add = mul ("+" mul | "-" mul)*
#[verifier::rlimit(60)]
proof fn lemma_add(toks: Seq<TokenView>, p: int, l: Seq<Obj>)
    requires
        room(toks, p, l),
    ensures
        sound(toks, p, l, spec_add(toks, p, l)),
    decreases toks.len() - p, 19int,
{
    lemma_mul(toks, p, l);
    match spec_mul(toks, p, l) {
        Err(_) => {},
        Ok(s) => {
            lemma_add_rest(toks, s.node, s.pos, s.locals);
            lemma_head_then_tail(toks, p, l, s, spec_add_rest(toks, s.node, s.pos, s.locals));
        },
    }
}

#[verifier::rlimit(60)]
proof fn lemma_add_rest(toks: Seq<TokenView>, lhs: NodeView, p: int, l: Seq<Obj>)
    requires
        room(toks, p, l),
        complete(lhs, toks, l.len() as int),
    ensures
        sound_tail(toks, lhs, p, l, spec_add_rest(toks, lhs, p, l)),
    decreases toks.len() - p, 18int,
{
    lemma_literals();
    match add_op_at(toks, p) {
        Err(_) => {},
        Ok(Some((kind, swap))) => {
            lemma_mul(toks, p + 1, l);
            match spec_mul(toks, p + 1, l) {
                Err(e) => lemma_err_from_next(toks, p, l, e),
                Ok(s) => {
                    lemma_join(toks, kind, swap, lhs, p, l, s);
                    let j = if swap { node_binary(kind, s.node, lhs, s.pos) } else { node_binary(kind, lhs, s.node, s.pos) };
                    lemma_add_rest(toks, j, s.pos, s.locals);
                    lemma_tail_step(toks, lhs, p, l, s, j, spec_add_rest(toks, j, s.pos, s.locals));
                },
            }
        },
        Ok(None) => lemma_grows_refl(toks, l, p, p),
    }
}

// relational = add ("<" add | "<=" add | ">" add | ">=" add)*
#[verifier::rlimit(60)]
proof fn lemma_relational(toks: Seq<TokenView>, p: int, l: Seq<Obj>)
    requires
        room(toks, p, l),
    ensures
        sound(toks, p, l, spec_relational(toks, p, l)),
    decreases toks.len() - p, 21int,
{
    lemma_add(toks, p, l);
    match spec_add(toks, p, l) {
        Err(_) => {},
        Ok(s) => {
            lemma_relational_rest(toks, s.node, s.pos, s.locals);
            lemma_head_then_tail(toks, p, l, s, spec_relational_rest(toks, s.node, s.pos, s.locals));
        },
    }
}

#[verifier::rlimit(60)]
proof fn lemma_relational_rest(toks: Seq<TokenView>, lhs: NodeView, p: int, l: Seq<Obj>)
    requires
        room(toks, p, l),
        complete(lhs, toks, l.len() as int),
    ensures
        sound_tail(toks, lhs, p, l, spec_relational_rest(toks, lhs, p, l)),
    decreases toks.len() - p, 20int,
{
    lemma_literals();
    match relational_op_at(toks, p) {
        Err(_) => {},
        Ok(Some((kind, swap))) => {
            lemma_add(toks, p + 1, l);
            match spec_add(toks, p + 1, l) {
                Err(e) => lemma_err_from_next(toks, p, l, e),
                Ok(s) => {
                    lemma_join(toks, kind, swap, lhs, p, l, s);
                    let j = if swap { node_binary(kind, s.node, lhs, s.pos) } else { node_binary(kind, lhs, s.node, s.pos) };
                    lemma_relational_rest(toks, j, s.pos, s.locals);
                    lemma_tail_step(toks, lhs, p, l, s, j, spec_relational_rest(toks, j, s.pos, s.locals));
                },
            }
        },
        Ok(None) => lemma_grows_refl(toks, l, p, p),
    }
}

// equality = relational ("==" relational | "!=" relational)*
#[verifier::rlimit(60)]
proof fn lemma_equality(toks: Seq<TokenView>, p: int, l: Seq<Obj>)
    requires
        room(toks, p, l),
    ensures
        sound(toks, p, l, spec_equality(toks, p, l)),
    decreases toks.len() - p, 24int,
{
    lemma_relational(toks, p, l);
    match spec_relational(toks, p, l) {
        Err(_) => {},
        Ok(s) => {
            lemma_equality_rest(toks, s.node, s.pos, s.locals);
            lemma_head_then_tail(toks, p, l, s, spec_equality_rest(toks, s.node, s.pos, s.locals));
        },
    }
}

#[verifier::rlimit(60)]
proof fn lemma_equality_rest(toks: Seq<TokenView>, lhs: NodeView, p: int, l: Seq<Obj>)
    requires
        room(toks, p, l),
        complete(lhs, toks, l.len() as int),
    ensures
        sound_tail(toks, lhs, p, l, spec_equality_rest(toks, lhs, p, l)),
    decreases toks.len() - p, 22int,
{
    lemma_literals();
    match equality_op_at(toks, p) {
        Err(_) => {},
        Ok(Some((kind, swap))) => {
            lemma_relational(toks, p + 1, l);
            match spec_relational(toks, p + 1, l) {
                Err(e) => lemma_err_from_next(toks, p, l, e),
                Ok(s) => {
                    lemma_join(toks, kind, swap, lhs, p, l, s);
                    let j = if swap { node_binary(kind, s.node, lhs, s.pos) } else { node_binary(kind, lhs, s.node, s.pos) };
                    lemma_equality_rest(toks, j, s.pos, s.locals);
                    lemma_tail_step(toks, lhs, p, l, s, j, spec_equality_rest(toks, j, s.pos, s.locals));
                },
            }
        },
        Ok(None) => lemma_grows_refl(toks, l, p, p),
    }
}

// assign = equality ("=" assign)?
#[verifier::rlimit(60)]
proof fn lemma_assign(toks: Seq<TokenView>, p: int, l: Seq<Obj>)
    requires
        room(toks, p, l),
    ensures
        sound(toks, p, l, spec_assign(toks, p, l)),
    decreases toks.len() - p, 25int,
{
    lemma_literals();
    lemma_equality(toks, p, l);
    match spec_equality(toks, p, l) {
        Err(_) => {},
        Ok(s) => {
            lemma_consume_after(toks, p, l, s.pos, s.locals, "="@);
            match spec_consume(toks, s.pos, "="@) {
                Err(_) => {},
                Ok(true) => {
                    lemma_assign(toks, s.pos + 1, s.locals);
                    match spec_assign(toks, s.pos + 1, s.locals) {
                        Err(e) => lemma_err_back(toks, p, l, s.pos + 1, s.locals, e),
                        Ok(r) => {
                            lemma_moved_trans(toks, p, l, s.pos + 1, s.locals, r.pos, r.locals);
                            lemma_join(toks, NodeKind::NdAssign, false, s.node, s.pos, s.locals, r);
                        },
                    }
                },
                Ok(false) => {},
            }
        },
    }
}

// expr = assign
proof fn lemma_expr(toks: Seq<TokenView>, p: int, l: Seq<Obj>)
    requires
        room(toks, p, l),
    ensures
        sound(toks, p, l, spec_expr(toks, p, l)),
    decreases toks.len() - p, 26int,
{
    lemma_assign(toks, p, l);
}

/// Requiring a non-empty token `t` at `p`: a match reads it, and a failure is in bounds.
proof fn lemma_expect_at(toks: Seq<TokenView>, p: int, l: Seq<Obj>, t: Seq<char>)
    requires
        t.len() > 0,
    ensures
        match spec_expect(toks, p, t) {
            Ok(q) => q == p + 1 && moved(toks, p, l, q, l) && 0 <= p < toks.len() && toks[p].tok.len() > 0,
            Err(e) => err_in_bounds(toks, p, l, e),
        },
{
    if 0 <= p < toks.len() {
        lemma_grows_refl(toks, l, p, p + 1);
    }
}

/// A block node over complete statements is complete, one higher than its highest statement.
proof fn lemma_block_node(body: Seq<Option<Box<NodeView>>>, t: int, ts: Seq<TokenView>, nl: int)
    ensures
        complete(node_block(body, t), ts, nl) == complete_body(body, ts, nl),
        depth(node_block(body, t)) == 1 + depth_body(body),
{
}

/// An `if` node over complete parts is complete, one higher than its highest part.
proof fn lemma_if_node(c: NodeView, th: NodeView, el: Option<NodeView>, t: int, ts: Seq<TokenView>, nl: int)
    requires
        complete(c, ts, nl),
        complete(th, ts, nl),
        el matches Some(e) ==> complete(e, ts, nl),
    ensures
        complete(node_if(c, th, el, t), ts, nl),
        depth(node_if(c, th, el, t)) == 1 + larger(larger(depth(c), depth(th)), match el {
            Some(e) => depth(e),
            None => 0,
        }),
{
    assert(depth_body(Seq::<Option<Box<NodeView>>>::empty()) == 0);
}

/// A loop node over complete parts is complete, one higher than its highest part.
proof fn lemma_for_node(i: Option<NodeView>, c: Option<NodeView>, n: Option<NodeView>, b: NodeView, t: int, ts: Seq<TokenView>, nl: int)
    requires
        i matches Some(x) ==> complete(x, ts, nl),
        c matches Some(x) ==> complete(x, ts, nl),
        n matches Some(x) ==> complete(x, ts, nl),
        complete(b, ts, nl),
    ensures
        complete(node_for(i, c, n, b, t), ts, nl),
        depth(node_for(i, c, n, b, t)) == 1 + larger(
            larger(depth_child(boxed(c)), depth(b)),
            larger(depth_child(boxed(i)), depth_child(boxed(n))),
        ),
{
    assert(depth_body(Seq::<Option<Box<NodeView>>>::empty()) == 0);
}

// expr-stmt = expr? ";"
#[verifier::rlimit(60)]
proof fn lemma_expr_stmt(toks: Seq<TokenView>, p: int, l: Seq<Obj>)
    requires
        room(toks, p, l),
    ensures
        sound(toks, p, l, spec_expr_stmt(toks, p, l)),
    decreases toks.len() - p, 27int,
{
    lemma_literals();
    lemma_consume_at(toks, p, l, ";"@);
    match spec_consume(toks, p, ";"@) {
        Err(_) => {},
        Ok(true) => lemma_block_node(Seq::empty(), p + 1, toks, l.len() as int),
        Ok(false) => {
            lemma_expr(toks, p, l);
            match spec_expr(toks, p, l) {
                Err(_) => {},
                Ok(s) => {
                    lemma_expect_after(toks, p, l, s.pos, s.locals, ";"@);
                    lemma_wrap(NodeKind::NdExprStmp, s.node, s.pos, toks, s.locals.len() as int);
                },
            }
        },
    }
}

/// `expr? term`, for a non-empty token `term`.
#[verifier::rlimit(60)]
proof fn lemma_opt_expr(toks: Seq<TokenView>, p: int, l: Seq<Obj>, term: Seq<char>)
    requires
        room(toks, p, l),
        term.len() > 0,
    ensures
        sound_opt(toks, p, l, spec_opt_expr(toks, p, l, term)),
    decreases toks.len() - p, 27int,
{
    lemma_consume_at(toks, p, l, term);
    match spec_consume(toks, p, term) {
        Err(_) => {},
        Ok(true) => {},
        Ok(false) => {
            lemma_expr(toks, p, l);
            match spec_expr(toks, p, l) {
                Err(_) => {},
                Ok(s) => lemma_expect_after(toks, p, l, s.pos, s.locals, term),
            }
        },
    }
}

/// `expr ";"` after `return`.
#[verifier::rlimit(60)]
proof fn lemma_return(toks: Seq<TokenView>, p: int, l: Seq<Obj>)
    requires
        room(toks, p, l),
    ensures
        sound(toks, p, l, spec_return(toks, p, l)),
    decreases toks.len() - p, 27int,
{
    lemma_literals();
    lemma_expr(toks, p, l);
    match spec_expr(toks, p, l) {
        Err(_) => {},
        Ok(s) => {
            lemma_expect_after(toks, p, l, s.pos, s.locals, ";"@);
            lemma_wrap(NodeKind::NdReturn, s.node, s.pos, toks, s.locals.len() as int);
        },
    }
}

/// `"(" expr ")" stmt ("else" stmt)?` after `if`.
#[verifier::rlimit(60)]
proof fn lemma_if(toks: Seq<TokenView>, p: int, l: Seq<Obj>)
    requires
        room(toks, p, l),
    ensures
        sound(toks, p, l, spec_if(toks, p, l)),
    decreases toks.len() - p, 28int,
{
    lemma_literals();
    let ts = toks;
    lemma_expect_at(toks, p, l, "("@);
    match spec_expect(toks, p, "("@) {
        Err(_) => {},
        Ok(q1) => {
            lemma_expr(toks, q1, l);
            match spec_expr(toks, q1, l) {
                Err(e) => lemma_err_from_next(toks, p, l, e),
                Ok(c) => {
                    lemma_moved_from_next(toks, p, l, c.pos, c.locals);
                    lemma_expect_after(toks, p, l, c.pos, c.locals, ")"@);
                    match spec_expect(toks, c.pos, ")"@) {
                        Err(_) => {},
                        Ok(q2) => {
                            lemma_stmt(toks, q2, c.locals);
                            match spec_stmt(toks, q2, c.locals) {
                                Err(e) => lemma_err_back(toks, p, l, q2, c.locals, e),
                                Ok(t) => {
                                    lemma_moved_trans(toks, p, l, q2, c.locals, t.pos, t.locals);
                                    lemma_complete_more_locals(c.node, ts, c.locals.len() as int, t.locals.len() as int);
                                    lemma_consume_after(toks, p, l, t.pos, t.locals, "else"@);
                                    match spec_consume(toks, t.pos, "else"@) {
                                        Err(_) => {},
                                        Ok(true) => {
                                            lemma_stmt(toks, t.pos + 1, t.locals);
                                            match spec_stmt(toks, t.pos + 1, t.locals) {
                                                Err(e) => lemma_err_back(toks, p, l, t.pos + 1, t.locals, e),
                                                Ok(e) => {
                                                    lemma_moved_trans(toks, p, l, t.pos + 1, t.locals, e.pos, e.locals);
                                                    let nl = e.locals.len() as int;
                                                    lemma_complete_more_locals(c.node, ts, t.locals.len() as int, nl);
                                                    lemma_complete_more_locals(t.node, ts, t.locals.len() as int, nl);
                                                    lemma_if_node(c.node, t.node, Some(e.node), e.pos, ts, nl);
                                                },
                                            }
                                        },
                                        Ok(false) => lemma_if_node(c.node, t.node, None, t.pos, ts, t.locals.len() as int),
                                    }
                                },
                            }
                        },
                    }
                },
            }
        },
    }
}

/// `"(" expr-stmt expr? ";" expr? ")" stmt` after `for`.
#[verifier::rlimit(100)]
proof fn lemma_for(toks: Seq<TokenView>, p: int, l: Seq<Obj>)
    requires
        room(toks, p, l),
    ensures
        sound(toks, p, l, spec_for(toks, p, l)),
    decreases toks.len() - p, 28int,
{
    lemma_literals();
    let ts = toks;
    lemma_expect_at(toks, p, l, "("@);
    match spec_expect(toks, p, "("@) {
        Err(_) => {},
        Ok(q1) => {
            lemma_expr_stmt(toks, q1, l);
            match spec_expr_stmt(toks, q1, l) {
                Err(e) => lemma_err_from_next(toks, p, l, e),
                Ok(i) => {
                    lemma_moved_from_next(toks, p, l, i.pos, i.locals);
                    lemma_opt_expr(toks, i.pos, i.locals, ";"@);
                    match spec_opt_expr(toks, i.pos, i.locals, ";"@) {
                        Err(e) => lemma_err_back(toks, p, l, i.pos, i.locals, e),
                        Ok((c, q2, l2)) => {
                            lemma_moved_trans(toks, p, l, i.pos, i.locals, q2, l2);
                            lemma_opt_expr(toks, q2, l2, ")"@);
                            match spec_opt_expr(toks, q2, l2, ")"@) {
                                Err(e) => lemma_err_back(toks, p, l, q2, l2, e),
                                Ok((n, q3, l3)) => {
                                    lemma_moved_trans(toks, p, l, q2, l2, q3, l3);
                                    lemma_stmt(toks, q3, l3);
                                    match spec_stmt(toks, q3, l3) {
                                        Err(e) => lemma_err_back(toks, p, l, q3, l3, e),
                                        Ok(b) => {
                                            lemma_moved_trans(toks, p, l, q3, l3, b.pos, b.locals);
                                            let nl = b.locals.len() as int;
                                            lemma_complete_more_locals(i.node, ts, i.locals.len() as int, nl);
                                            if let Some(x) = c {
                                                lemma_complete_more_locals(x, ts, l2.len() as int, nl);
                                            }
                                            if let Some(x) = n {
                                                lemma_complete_more_locals(x, ts, l3.len() as int, nl);
                                            }
                                            lemma_for_node(Some(i.node), c, n, b.node, b.pos, ts, nl);
                                        },
                                    }
                                },
                            }
                        },
                    }
                },
            }
        },
    }
}

/// `"(" expr ")" stmt` after `while`.
#[verifier::rlimit(60)]
proof fn lemma_while(toks: Seq<TokenView>, p: int, l: Seq<Obj>)
    requires
        room(toks, p, l),
    ensures
        sound(toks, p, l, spec_while(toks, p, l)),
    decreases toks.len() - p, 28int,
{
    lemma_literals();
    let ts = toks;
    lemma_expect_at(toks, p, l, "("@);
    match spec_expect(toks, p, "("@) {
        Err(_) => {},
        Ok(q1) => {
            lemma_expr(toks, q1, l);
            match spec_expr(toks, q1, l) {
                Err(e) => lemma_err_from_next(toks, p, l, e),
                Ok(c) => {
                    lemma_moved_from_next(toks, p, l, c.pos, c.locals);
                    lemma_expect_after(toks, p, l, c.pos, c.locals, ")"@);
                    match spec_expect(toks, c.pos, ")"@) {
                        Err(_) => {},
                        Ok(q2) => {
                            lemma_stmt(toks, q2, c.locals);
                            match spec_stmt(toks, q2, c.locals) {
                                Err(e) => lemma_err_back(toks, p, l, q2, c.locals, e),
                                Ok(b) => {
                                    lemma_moved_trans(toks, p, l, q2, c.locals, b.pos, b.locals);
                                    lemma_complete_more_locals(c.node, ts, c.locals.len() as int, b.locals.len() as int);
                                    lemma_for_node(None, Some(c.node), None, b.node, b.pos, ts, b.locals.len() as int);
                                },
                            }
                        },
                    }
                },
            }
        },
    }
}

// stmt = "return" expr ";" | "if" ... | "for" ... | "while" ... | "{" compound-stmt | expr-stmt
#[verifier::rlimit(60)]
proof fn lemma_stmt(toks: Seq<TokenView>, p: int, l: Seq<Obj>)
    requires
        room(toks, p, l),
    ensures
        sound(toks, p, l, spec_stmt(toks, p, l)),
    decreases toks.len() - p, 28int,
{
    lemma_literals();
    lemma_consume_at(toks, p, l, "return"@);
    match spec_consume(toks, p, "return"@) {
        Err(_) => {},
        Ok(true) => {
            lemma_return(toks, p + 1, l);
            lemma_sound_from_next(toks, p, l, spec_return(toks, p + 1, l));
        },
        Ok(false) => {
            if toks[p].tok == "if"@ {
                lemma_if(toks, p + 1, l);
                lemma_sound_from_next(toks, p, l, spec_if(toks, p + 1, l));
            } else if toks[p].tok == "for"@ {
                lemma_for(toks, p + 1, l);
                lemma_sound_from_next(toks, p, l, spec_for(toks, p + 1, l));
            } else if toks[p].tok == "while"@ {
                lemma_while(toks, p + 1, l);
                lemma_sound_from_next(toks, p, l, spec_while(toks, p + 1, l));
            } else if toks[p].tok == "{"@ {
                lemma_compound_stmt(toks, p + 1, l);
                lemma_sound_from_next(toks, p, l, spec_compound_stmt(toks, p + 1, l));
            } else {
                lemma_expr_stmt(toks, p, l);
            }
        },
    }
}

// compound-stmt = stmt* "}"
#[verifier::rlimit(60)]
proof fn lemma_compound_stmt(toks: Seq<TokenView>, p: int, l: Seq<Obj>)
    requires
        room(toks, p, l),
    ensures
        sound(toks, p, l, spec_compound_stmt(toks, p, l)),
    decreases toks.len() - p, 30int,
{
    lemma_compound_rest(toks, p, Seq::empty(), p, l);
}

/// A block with one more statement: complete when both parts are, as high as the higher.
proof fn lemma_body_push(body: Seq<Option<Box<NodeView>>>, x: NodeView, ts: Seq<TokenView>, nl: int)
    ensures
        complete_body(body.push(Some(Box::new(x))), ts, nl) == (complete_body(body, ts, nl) && complete(x, ts, nl)),
        depth_body(body.push(Some(Box::new(x)))) == larger(depth_body(body), depth(x)),
{
    let body2 = body.push(Some(Box::new(x)));
    assert(body2.drop_last() =~= body);
    assert(body2.last() == Some(Box::new(x)));
    assert(complete_opt(body2.last(), ts, nl) == complete(x, ts, nl));
    assert(depth_child(body2.last()) == depth(x));
    assert(complete_body(body2, ts, nl) == (complete_body(body2.drop_last(), ts, nl) && body2.last() is Some
        && complete_opt(body2.last(), ts, nl)));
    assert(depth_body(body2) == larger(depth_body(body2.drop_last()), depth_child(body2.last())));
}

/// The statement loop of a block that started at `t`, with `body` parsed so far.
#[verifier::rlimit(60)]
proof fn lemma_compound_rest(toks: Seq<TokenView>, t: int, body: Seq<Option<Box<NodeView>>>, p: int, l: Seq<Obj>)
    requires
        room(toks, p, l),
        complete_body(body, toks, l.len() as int),
    ensures
        sound_block(toks, body, p, l, spec_compound_rest(toks, t, body, p, l)),
    decreases toks.len() - p, 29int,
{
    lemma_literals();
    let ts = toks;
    lemma_consume_at(toks, p, l, "}"@);
    match spec_consume(toks, p, "}"@) {
        Err(_) => {},
        Ok(true) => lemma_block_node(body, t, ts, l.len() as int),
        Ok(false) => {
            lemma_stmt(toks, p, l);
            match spec_stmt(toks, p, l) {
                Err(_) => {},
                Ok(s) => {
                    let body2 = body.push(Some(Box::new(s.node)));
                    lemma_complete_body_more_locals(body, ts, l.len() as int, s.locals.len() as int);
                    lemma_body_push(body, s.node, ts, s.locals.len() as int);
                    lemma_compound_rest(toks, t, body2, s.pos, s.locals);
                    match spec_compound_rest(toks, t, body2, s.pos, s.locals) {
                        Err(e) => lemma_err_back(toks, p, l, s.pos, s.locals, e),
                        Ok(s2) => lemma_moved_trans(toks, p, l, s.pos, s.locals, s2.pos, s2.locals),
                    }
                },
            }
        },
    }
}

/// A program is `{`, optionally, then a block.
#[verifier::rlimit(60)]
proof fn lemma_program(toks: Seq<TokenView>, p: int, l: Seq<Obj>)
    requires
        room(toks, p, l),
    ensures
        sound(toks, p, l, spec_program(toks, p, l)),
{
    reveal(stmt_rule);
    lemma_literals();
    lemma_consume_at(toks, p, l, "{"@);
    match spec_consume(toks, p, "{"@) {
        Err(_) => {},
        Ok(true) => {
            lemma_compound_stmt(toks, p + 1, l);
            lemma_sound_from_next(toks, p, l, spec_compound_stmt(toks, p + 1, l));
        },
        Ok(false) => lemma_compound_stmt(toks, p, l),
    }
}

/// The tokens of a text are its lexemes in order, each turned into a token with the lexeme's text
/// and span, then one end-of-input token.
pub proof fn law_tokens_follow_lexemes(source: Seq<char>)
    ensures
        tokens_of(source).len() == c_lexemes(source).len() + 1,
        forall|i: int| 0 <= i < c_lexemes(source).len() ==> #[trigger] tokens_of(source)[i] == token_of(c_lexemes(source)[i]),
        tokens_of(source).last() == eof_token(),
        ends_with_eof(tokens_of(source)),
{
}

/// A block's statement loop, where it succeeds, gives a block node.
proof fn lemma_compound_rest_block(toks: Seq<TokenView>, t: int, body: Seq<Option<Box<NodeView>>>, p: int, l: Seq<Obj>)
    ensures
        spec_compound_rest(toks, t, body, p, l) matches Ok(s) ==> s.node.kind == NodeKind::NdBlock,
    decreases toks.len() - p,
{
    if spec_consume(toks, p, "}"@) == Ok::<bool, ParseErrorView>(false) {
        match spec_stmt(toks, p, l) {
            Ok(s) => if p < s.pos <= toks.len() {
                lemma_compound_rest_block(toks, t, body.push(Some(Box::new(s.node))), s.pos, s.locals);
            },
            Err(_) => {},
        }
    }
}

/// A program, where it parses, is a block.
proof fn lemma_program_block(toks: Seq<TokenView>, p: int, l: Seq<Obj>)
    ensures
        spec_program(toks, p, l) matches Ok(s) ==> s.node.kind == NodeKind::NdBlock,
{
    reveal(stmt_rule);
    lemma_compound_rest_block(toks, p + 1, Seq::empty(), p + 1, l);
    lemma_compound_rest_block(toks, p, Seq::empty(), p, l);
}

/// Parsing a program reads forward and only appends locals. On success it has read at least one
/// token and stops within the tokens; the locals from before keep their places; each new local is
/// named by an identifier that the parse read and has offset 0, with at most one new local per
/// token read, and the new locals come in the order of their tokens; where the locals from before
/// each name a token and no two share a name, the same holds after; and the tree is a complete
/// block: every node has the children its kind needs, every number node points at a number token
/// and every variable node names a local.
pub proof fn law_parse_appends_locals(toks: Seq<TokenView>, p: int, l: Seq<Obj>)
    requires
        toks.len() + l.len() <= usize::MAX,
    ensures
        match spec_program(toks, p, l) {
            Ok(s) => {
                &&& p < s.pos <= toks.len()
                &&& grows(toks, l, s.locals, p, s.pos)
                &&& complete(s.node, toks, s.locals.len() as int)
                &&& s.node.kind == NodeKind::NdBlock
            },
            Err(_) => true,
        },
{
    lemma_program_block(toks, p, l);
    if p >= 0 {
        lemma_program(toks, p, l);
    } else {
        reveal(stmt_rule);
    }
}

/// On any tokens that end with the end-of-input token, parsing from a position inside them, with
/// locals that each name a token, never reads past the end: it succeeds, or fails on a missing
/// token or a missing expression.
pub proof fn law_parse_stays_in_bounds(toks: Seq<TokenView>, p: int, l: Seq<Obj>)
    requires
        ends_with_eof(toks),
        0 <= p < toks.len(),
        locals_named(toks, l),
        toks.len() + l.len() <= usize::MAX,
    ensures
        spec_program(toks, p, l) != Err::<Step, ParseErrorView>(ParseErrorView::IndexOutOfBounds),
{
    lemma_program(toks, p, l);
}

/// In particular, on the tokens of any text, which end with the end-of-input token, parsing from a
/// position inside them, with locals that each name a token, never reads past the end.
pub proof fn law_parse_of_text_stays_in_bounds(source: Seq<char>, p: int, l: Seq<Obj>)
    requires
        0 <= p < tokens_of(source).len(),
        locals_named(tokens_of(source), l),
        tokens_of(source).len() + l.len() <= usize::MAX,
    ensures
        spec_program(tokens_of(source), p, l) != Err::<Step, ParseErrorView>(ParseErrorView::IndexOutOfBounds),
{
    law_tokens_follow_lexemes(source);
    law_parse_stays_in_bounds(tokens_of(source), p, l);
}

/// What a successful parse stores, the dump prints in full, unless it holds a `for` or `while`
/// loop, which the dump does not print. Where the locals from before each name a token (as none
/// do, in a fresh program), every node that the parser builds has the children, the token and the
/// local that its dump reads, and the tree is shallow enough for its indentation.
pub proof fn law_parsed_program_dumps(toks: Seq<TokenView>, p: int, l: Seq<Obj>, asts: Mbox<Function>)
    requires
        2 * toks.len() + l.len() <= usize::MAX,
        locals_named(toks, l),
        match spec_program(toks, p, l) {
            Ok(s) => Program::holds_function(asts, s.node, s.locals) && !contains_loop(s.node),
            Err(_) => false,
        },
    ensures
        dump_program(toks, asts@).1,
{
    if p < 0 {
        reveal(stmt_rule);
        assert(false);
    }
    lemma_program(toks, p, l);
    match spec_program(toks, p, l) {
        Ok(s) => {
            lemma_dump_node_full(toks, s.locals, s.node, 0);
            lemma_dump_locals_full(toks, s.locals);
        },
        Err(_) => {},
    }
}

/// The end-of-input token, whose text is empty, is never consumed: testing for any non-empty token
/// at a position inside tokens that end with it never fails, and a match there is followed by
/// another token.
pub proof fn law_end_token_never_consumed(toks: Seq<TokenView>, p: int, t: Seq<char>)
    requires
        ends_with_eof(toks),
        0 <= p < toks.len(),
        t.len() > 0,
    ensures
        spec_consume(toks, p, t) is Ok,
        spec_consume(toks, p, t) == Ok::<bool, ParseErrorView>(true) ==> p + 1 < toks.len(),
{
}

/// An expression is an assignment: the two rules give the same result on every input.
pub proof fn law_expr_is_assign(toks: Seq<TokenView>, p: int, l: Seq<Obj>)
    ensures
        spec_expr(toks, p, l) == spec_assign(toks, p, l),
{
}

/// A leading unary `+` adds no node: the rule from a `+` gives what it gives from the next token.
pub proof fn law_unary_plus_adds_no_node(toks: Seq<TokenView>, p: int, l: Seq<Obj>)
    requires
        0 <= p < toks.len(),
        toks[p].tok == "+"@,
    ensures
        spec_unary(toks, p, l) == spec_unary(toks, p + 1, l),
{
}

/// How a comparison tail after `x` joins its next operand `y`, parsed after the operator at `p`:
/// `x < y` and `x <= y` keep the order, while `x > y` joins as `y < x` and `x >= y` as `y <= x`,
/// the same nodes with the operands swapped.
pub proof fn law_comparison_joins(toks: Seq<TokenView>, x: NodeView, p: int, l: Seq<Obj>, y: Step)
    requires
        0 <= p < toks.len(),
        spec_add(toks, p + 1, l) == Ok::<Step, ParseErrorView>(y),
        p < y.pos <= toks.len(),
    ensures
        toks[p].tok == "<"@ ==> spec_relational_rest(toks, x, p, l) == spec_relational_rest(
            toks,
            node_binary(NodeKind::NdLt, x, y.node, y.pos),
            y.pos,
            y.locals,
        ),
        toks[p].tok == "<="@ ==> spec_relational_rest(toks, x, p, l) == spec_relational_rest(
            toks,
            node_binary(NodeKind::NdLe, x, y.node, y.pos),
            y.pos,
            y.locals,
        ),
        toks[p].tok == ">"@ ==> spec_relational_rest(toks, x, p, l) == spec_relational_rest(
            toks,
            node_binary(NodeKind::NdLt, y.node, x, y.pos),
            y.pos,
            y.locals,
        ),
        toks[p].tok == ">="@ ==> spec_relational_rest(toks, x, p, l) == spec_relational_rest(
            toks,
            node_binary(NodeKind::NdLe, y.node, x, y.pos),
            y.pos,
            y.locals,
        ),
{
    reveal_strlit("<");
    reveal_strlit("<=");
    reveal_strlit(">");
    reveal_strlit(">=");
    assert("<"@ != "<="@ && "<"@ != ">"@ && "<"@ != ">="@) by {
        assert("<"@.len() != "<="@.len() && "<"@[0] != ">"@[0] && "<"@.len() != ">="@.len());
    }
    assert("<="@ != ">"@ && "<="@ != ">="@) by {
        assert("<="@.len() != ">"@.len() && "<="@[0] != ">="@[0]);
    }
    assert(">"@ != ">="@) by {
        assert(">"@.len() != ">="@.len());
    }
    assert(relational_op_at(toks, p) == if toks[p].tok == "<"@ {
        Ok::<Option<(NodeKind, bool)>, ParseErrorView>(Some((NodeKind::NdLt, false)))
    } else if toks[p].tok == "<="@ {
        Ok(Some((NodeKind::NdLe, false)))
    } else if toks[p].tok == ">"@ {
        Ok(Some((NodeKind::NdLt, true)))
    } else if toks[p].tok == ">="@ {
        Ok(Some((NodeKind::NdLe, true)))
    } else {
        Ok(None)
    });
}

/// `while (c) s` is a loop node whose condition and body are the trees of `c` and `s`, with no
/// initializer and no step.
pub proof fn law_while_loop(toks: Seq<TokenView>, p: int, l: Seq<Obj>, c: Step, b: Step)
    requires
        0 <= p < toks.len(),
        toks.len() + l.len() <= usize::MAX,
        toks[p].tok == "("@,
        spec_expr(toks, p + 1, l) == Ok::<Step, ParseErrorView>(c),
        c.pos < toks.len(),
        toks[c.pos].tok == ")"@,
        spec_stmt(toks, c.pos + 1, c.locals) == Ok::<Step, ParseErrorView>(b),
    ensures
        spec_while(toks, p, l) == Ok::<Step, ParseErrorView>(
            Step { node: node_for(None, Some(c.node), None, b.node, b.pos), pos: b.pos, locals: b.locals },
        ),
{
    lemma_expr(toks, p + 1, l);
}

/// An empty initializer statement at `p + 1`.
proof fn lemma_empty_init(toks: Seq<TokenView>, p: int, l: Seq<Obj>)
    requires
        0 <= p,
        p + 1 < toks.len(),
        toks[p + 1].tok == ";"@,
    ensures
        spec_expr_stmt(toks, p + 1, l) == Ok::<Step, ParseErrorView>(
            Step { node: node_leaf(NodeKind::NdBlock, p + 2), pos: p + 2, locals: l },
        ),
{
}

/// A condition `c` closed by `;`, then no step before `)`.
proof fn lemma_cond_then_close(toks: Seq<TokenView>, p: int, l: Seq<Obj>, c: Step)
    requires
        0 <= p,
        p + 2 < toks.len(),
        toks[p + 2].tok != ";"@,
        spec_expr(toks, p + 2, l) == Ok::<Step, ParseErrorView>(c),
        0 <= c.pos,
        c.pos + 1 < toks.len(),
        toks[c.pos].tok == ";"@,
        toks[c.pos + 1].tok == ")"@,
    ensures
        spec_opt_expr(toks, p + 2, l, ";"@) == Ok::<(Option<NodeView>, int, Seq<Obj>), ParseErrorView>(
            (Some(c.node), c.pos + 1, c.locals),
        ),
        spec_opt_expr(toks, c.pos + 1, c.locals, ")"@) == Ok::<(Option<NodeView>, int, Seq<Obj>), ParseErrorView>(
            (None, c.pos + 2, c.locals),
        ),
{
}

/// `for (; c;) s` is the same loop node as `while (c) s` but for its initializer, an empty
/// statement: its condition and body are the trees of `c` and `s`, and it has no step.
#[verifier::rlimit(100)]
pub proof fn law_for_loop_without_init_or_step(toks: Seq<TokenView>, p: int, l: Seq<Obj>, c: Step, b: Step)
    requires
        0 <= p,
        p + 2 < toks.len(),
        toks.len() + l.len() <= usize::MAX,
        toks[p].tok == "("@,
        toks[p + 1].tok == ";"@,
        toks[p + 2].tok != ";"@,
        spec_expr(toks, p + 2, l) == Ok::<Step, ParseErrorView>(c),
        c.pos + 1 < toks.len(),
        toks[c.pos].tok == ";"@,
        toks[c.pos + 1].tok == ")"@,
        spec_stmt(toks, c.pos + 2, c.locals) == Ok::<Step, ParseErrorView>(b),
    ensures
        spec_for(toks, p, l) == Ok::<Step, ParseErrorView>(
            Step {
                node: node_for(Some(node_leaf(NodeKind::NdBlock, p + 2)), Some(c.node), None, b.node, b.pos),
                pos: b.pos,
                locals: b.locals,
            },
        ),
{
    lemma_expr(toks, p + 2, l);
    lemma_empty_init(toks, p, l);
    lemma_cond_then_close(toks, p, l, c);
}

/// The texts of a block's statements, each dumped at indentation `r`, in order.
pub open spec fn statement_texts(toks: Seq<TokenView>, objs: Seq<Obj>, body: Seq<Option<Box<NodeView>>>, r: int) -> Seq<char>
    decreases body.len(),
{
    if body.len() == 0 {
        Seq::empty()
    } else {
        statement_texts(toks, objs, body.drop_last(), r) + match body.last() {
            Some(b) => dump_node(toks, objs, *b, r).0,
            None => Seq::empty(),
        }
    }
}

/// Whether each statement of a block is present and dumps in full at indentation `r`.
pub open spec fn statements_dump(toks: Seq<TokenView>, objs: Seq<Obj>, body: Seq<Option<Box<NodeView>>>, r: int) -> bool {
    forall|i: int|
        0 <= i < body.len() ==> match #[trigger] body[i] {
            Some(b) => dump_node(toks, objs, *b, r).1,
            None => false,
        }
}

proof fn lemma_dump_body_texts(toks: Seq<TokenView>, objs: Seq<Obj>, body: Seq<Option<Box<NodeView>>>, r: int)
    requires
        r + 2 <= usize::MAX,
        statements_dump(toks, objs, body, r + 2),
    ensures
        dump_body(toks, objs, body, r) == (statement_texts(toks, objs, body, r + 2), true),
    decreases body.len(),
{
    if body.len() > 0 {
        assert(statements_dump(toks, objs, body.drop_last(), r + 2)) by {
            assert forall|i: int| 0 <= i < body.drop_last().len() implies match #[trigger] body.drop_last()[i] {
                Some(b) => dump_node(toks, objs, *b, r + 2).1,
                None => false,
            } by {
                assert(body.drop_last()[i] == body[i]);
            }
        }
        lemma_dump_body_texts(toks, objs, body.drop_last(), r);
        assert(body[body.len() - 1] == body.last());
        match body.last() {
            Some(b) => {
                assert(dump_node(toks, objs, *b, r + 2).1);
                assert(dump_child(toks, objs, body.last(), r) == dump_node(toks, objs, *b, r + 2));
            },
            None => {
                assert(false);
            },
        }
    }
}

/// A block dumps as its head line `Block:` followed by each statement, in order, two spaces
/// further in; with no statements, it dumps as the head line alone.
pub proof fn law_block_dump(toks: Seq<TokenView>, objs: Seq<Obj>, n: NodeView, r: int)
    requires
        n.kind == NodeKind::NdBlock,
        r + 2 <= usize::MAX,
        statements_dump(toks, objs, n.body, r + 2),
    ensures
        dump_node(toks, objs, n, r) == (line(r, "Block:"@) + statement_texts(toks, objs, n.body, r + 2), true),
{
    lemma_dump_body_texts(toks, objs, n.body, r);
}

/// Whether a text holds no line break.
pub open spec fn one_line(s: Seq<char>) -> bool {
    forall|i: int| 0 <= i < s.len() ==> s[i] != '\n'
}

/// Whether a text is empty or ends with a line break.
pub open spec fn whole_lines(s: Seq<char>) -> bool {
    s.len() == 0 || s.last() == '\n'
}

/// `s` with `k` spaces put at the start of each of its lines.
pub open spec fn shifted(s: Seq<char>, k: int) -> Seq<char>
    decreases s.len(),
{
    if s.len() == 0 {
        Seq::empty()
    } else if s.len() == 1 || s[s.len() - 2] == '\n' {
        shifted(s.drop_last(), k) + spaces(k) + seq![s.last()]
    } else {
        shifted(s.drop_last(), k).push(s.last())
    }
}

/// Shifting text made of whole lines, then more text, shifts each part.
proof fn lemma_shifted_append(a: Seq<char>, b: Seq<char>, k: int)
    requires
        whole_lines(a),
    ensures
        shifted(a + b, k) == shifted(a, k) + shifted(b, k),
    decreases b.len(),
{
    if b.len() == 0 {
        assert(a + b =~= a);
        assert(shifted(a, k) + shifted(b, k) =~= shifted(a, k));
    } else {
        let ab = a + b;
        lemma_shifted_append(a, b.drop_last(), k);
        assert(ab.drop_last() =~= a + b.drop_last());
        assert(ab.last() == b.last());
        if b.len() == 1 {
            assert(b.drop_last() =~= Seq::<char>::empty());
            if a.len() > 0 {
                assert(ab[ab.len() - 2] == a.last());
            }
            assert(shifted(ab, k) =~= shifted(a, k) + shifted(b, k));
        } else {
            assert(ab[ab.len() - 2] == b[b.len() - 2]);
            assert(shifted(ab, k) =~= shifted(a, k) + shifted(b, k));
        }
    }
}

/// A text with a line break at most at its end is shifted by putting the spaces in front.
proof fn lemma_shifted_single(s: Seq<char>, k: int)
    requires
        s.len() > 0,
        one_line(s.drop_last()),
    ensures
        shifted(s, k) == spaces(k) + s,
    decreases s.len(),
{
    if s.len() == 1 {
        assert(s.drop_last() =~= Seq::<char>::empty());
        assert(shifted(s.drop_last(), k) =~= Seq::<char>::empty());
        assert(seq![s.last()] =~= s);
        assert(shifted(s, k) =~= spaces(k) + s);
    } else {
        assert(s[s.len() - 2] == s.drop_last()[s.len() - 2]);
        assert(one_line(s.drop_last().drop_last()));
        lemma_shifted_single(s.drop_last(), k);
        assert(shifted(s, k) =~= spaces(k) + s);
    }
}

/// A line indented by `r` and shifted by `k` is the line indented by `r + k`.
proof fn lemma_shifted_line(r: int, k: int, t: Seq<char>)
    requires
        0 <= r,
        0 <= k,
        one_line(t),
    ensures
        shifted(line(r, t), k) == line(r + k, t),
        whole_lines(line(r, t)),
{
    let s = line(r, t);
    assert(s.drop_last() =~= spaces(r) + t);
    lemma_shifted_single(s, k);
    assert(spaces(k) + s =~= line(r + k, t));
}

/// The texts that the dump writes after the indentation hold no line break.
proof fn lemma_dump_texts_one_line(kind: NodeKind)
    ensures
        one_line("lhs:"@),
        one_line("rhs:"@),
        one_line("-:"@),
        one_line("ExprStmp:"@),
        one_line("return:"@),
        one_line("Block:"@),
        one_line("if:"@),
        one_line("cond:"@),
        one_line("then:"@),
        one_line("else:"@),
        one_line("NdNum: "@),
        one_line("NdVar: "@),
        binary_op(kind) matches Some(op) ==> one_line(op + ":"@),
{
    reveal_strlit("lhs:");
    reveal_strlit("rhs:");
    reveal_strlit("-:");
    reveal_strlit("ExprStmp:");
    reveal_strlit("return:");
    reveal_strlit("Block:");
    reveal_strlit("if:");
    reveal_strlit("cond:");
    reveal_strlit("then:");
    reveal_strlit("else:");
    reveal_strlit("NdNum: ");
    reveal_strlit("NdVar: ");
    reveal_strlit(":");
    reveal_strlit("+");
    reveal_strlit("-");
    reveal_strlit("*");
    reveal_strlit("/");
    reveal_strlit("==");
    reveal_strlit("!=");
    reveal_strlit("<");
    reveal_strlit("<=");
    reveal_strlit("=");
    if let Some(op) = binary_op(kind) {
        assert(one_line(op + ":"@));
    }
}

/// Two pieces of dump, each shifted, chain into the shifted chain.
proof fn lemma_shifted_chain(a: (Seq<char>, bool), b: (Seq<char>, bool), k: int)
    requires
        whole_lines(a.0),
        whole_lines(b.0),
    ensures
        chain((shifted(a.0, k), a.1), (shifted(b.0, k), b.1)) == (shifted(chain(a, b).0, k), chain(a, b).1),
        whole_lines(chain(a, b).0),
{
    if a.1 {
        lemma_shifted_append(a.0, b.0, k);
        if b.0.len() > 0 {
            assert((a.0 + b.0).last() == b.0.last());
        } else {
            assert(a.0 + b.0 =~= a.0);
        }
    }
}

/// Whether the token texts that the dump of `n` prints hold no line break: those of its number
/// nodes and of the locals that its variable nodes name.
pub open spec fn prints_one_line(toks: Seq<TokenView>, objs: Seq<Obj>, n: NodeView) -> bool
    decreases n, 0int,
{
    &&& (n.kind == NodeKind::NdNum && n.token_id < toks.len() ==> one_line(toks[n.token_id as int].tok))
    &&& (n.kind == NodeKind::NdVar && n.obj < objs.len() && objs[n.obj as int].token_id < toks.len() ==> one_line(
        toks[objs[n.obj as int].token_id as int].tok,
    ))
    &&& prints_one_line_child(toks, objs, n.lhs)
    &&& prints_one_line_child(toks, objs, n.rhs)
    &&& prints_one_line_child(toks, objs, n.cond)
    &&& prints_one_line_child(toks, objs, n.then_branch)
    &&& prints_one_line_child(toks, objs, n.els)
    &&& prints_one_line_body(toks, objs, n.body)
}

/// The same for an optional child; true where there is none.
pub open spec fn prints_one_line_child(toks: Seq<TokenView>, objs: Seq<Obj>, c: Option<Box<NodeView>>) -> bool
    decreases c, 1int,
{
    match c {
        Some(b) => prints_one_line(toks, objs, *b),
        None => true,
    }
}

/// The same for each statement of a block.
pub open spec fn prints_one_line_body(toks: Seq<TokenView>, objs: Seq<Obj>, body: Seq<Option<Box<NodeView>>>) -> bool
    decreases body, 0int,
{
    body.len() == 0 || (prints_one_line_body(toks, objs, body.drop_last()) && prints_one_line_child(
        toks,
        objs,
        body.last(),
    ))
}

proof fn lemma_one_line_append(a: Seq<char>, b: Seq<char>)
    requires
        one_line(a),
        one_line(b),
    ensures
        one_line(a + b),
{
    assert forall|i: int| 0 <= i < (a + b).len() implies (a + b)[i] != '\n' by {
        if i < a.len() {
            assert((a + b)[i] == a[i]);
        } else {
            assert((a + b)[i] == b[i - a.len()]);
        }
    }
}

/// The dump of a node `k` spaces further in is its dump with `k` more spaces on each line.
proof fn lemma_shift_node(toks: Seq<TokenView>, objs: Seq<Obj>, n: NodeView, r: int, k: int)
    requires
        0 <= r,
        0 <= k,
        r + k + 2 * depth(n) <= usize::MAX,
        prints_one_line(toks, objs, n),
    ensures
        dump_node(toks, objs, n, r + k) == (shifted(dump_node(toks, objs, n, r).0, k), dump_node(toks, objs, n, r).1),
        whole_lines(dump_node(toks, objs, n, r).0),
    decreases n, 1int,
{
    lemma_dump_texts_one_line(n.kind);
    let rk = r + k;
    match binary_op(n.kind) {
        Some(op) => {
            lemma_shifted_line(r, k, op + ":"@);
            lemma_shifted_line(r, k, "lhs:"@);
            lemma_shifted_line(r, k, "rhs:"@);
            let first = done(line(r, op + ":"@) + line(r, "lhs:"@));
            lemma_shifted_append(line(r, op + ":"@), line(r, "lhs:"@), k);
            assert(whole_lines(first.0)) by {
                assert(first.0.last() == line(r, "lhs:"@).last());
            }
            lemma_shift_child(toks, objs, n.lhs, r, k);
            lemma_shift_child(toks, objs, n.rhs, r, k);
            let a = chain(first, dump_child(toks, objs, n.lhs, r));
            lemma_shifted_chain(first, dump_child(toks, objs, n.lhs, r), k);
            let b = chain(a, done(line(r, "rhs:"@)));
            lemma_shifted_chain(a, done(line(r, "rhs:"@)), k);
            lemma_shifted_chain(b, dump_child(toks, objs, n.rhs, r), k);
        },
        None => {
            if n.kind == NodeKind::NdNum {
                if n.token_id < toks.len() {
                    lemma_one_line_append("NdNum: "@, toks[n.token_id as int].tok);
                    lemma_shifted_line(r, k, "NdNum: "@ + toks[n.token_id as int].tok);
                }
            } else if n.kind == NodeKind::NdVar {
                if n.obj < objs.len() && objs[n.obj as int].token_id < toks.len() {
                    lemma_one_line_append("NdVar: "@, toks[objs[n.obj as int].token_id as int].tok);
                    lemma_shifted_line(r, k, "NdVar: "@ + toks[objs[n.obj as int].token_id as int].tok);
                }
            } else if n.kind == NodeKind::NdNeg || n.kind == NodeKind::NdExprStmp || n.kind == NodeKind::NdReturn {
                let head = if n.kind == NodeKind::NdNeg {
                    "-:"@
                } else if n.kind == NodeKind::NdExprStmp {
                    "ExprStmp:"@
                } else {
                    "return:"@
                };
                lemma_shifted_line(r, k, head);
                lemma_shift_child(toks, objs, n.lhs, r, k);
                lemma_shifted_chain(done(line(r, head)), dump_child(toks, objs, n.lhs, r), k);
            } else if n.kind == NodeKind::NdBlock {
                lemma_shifted_line(r, k, "Block:"@);
                lemma_shift_body(toks, objs, n.body, r, k);
                lemma_shifted_chain(done(line(r, "Block:"@)), dump_body(toks, objs, n.body, r), k);
            } else if n.kind == NodeKind::NdIf {
                lemma_shift_if(toks, objs, n, r, k);
            }
        },
    }
}

/// The `if` case of `lemma_shift_node`.
proof fn lemma_shift_if(toks: Seq<TokenView>, objs: Seq<Obj>, n: NodeView, r: int, k: int)
    requires
        n.kind == NodeKind::NdIf,
        0 <= r,
        0 <= k,
        r + k + 2 * depth(n) <= usize::MAX,
        prints_one_line(toks, objs, n),
    ensures
        dump_node(toks, objs, n, r + k) == (shifted(dump_node(toks, objs, n, r).0, k), dump_node(toks, objs, n, r).1),
        whole_lines(dump_node(toks, objs, n, r).0),
    decreases n, 0int,
{
    lemma_dump_texts_one_line(n.kind);
    lemma_shifted_line(r, k, "if:"@);
    lemma_shifted_line(r, k, "cond:"@);
    lemma_shifted_line(r, k, "then:"@);
    lemma_shifted_line(r, k, "else:"@);
    let first = done(line(r, "if:"@) + line(r, "cond:"@));
    lemma_shifted_append(line(r, "if:"@), line(r, "cond:"@), k);
    assert(whole_lines(first.0)) by {
        assert(first.0.last() == line(r, "cond:"@).last());
    }
    lemma_shift_child(toks, objs, n.cond, r, k);
    lemma_shift_child(toks, objs, n.then_branch, r, k);
    let a = chain(first, dump_child(toks, objs, n.cond, r));
    lemma_shifted_chain(first, dump_child(toks, objs, n.cond, r), k);
    let b = chain(a, done(line(r, "then:"@)));
    lemma_shifted_chain(a, done(line(r, "then:"@)), k);
    let c = chain(b, dump_child(toks, objs, n.then_branch, r));
    lemma_shifted_chain(b, dump_child(toks, objs, n.then_branch, r), k);
    match n.els {
        Some(_) => {
            lemma_shift_child(toks, objs, n.els, r, k);
            let e = chain(done(line(r, "else:"@)), dump_child(toks, objs, n.els, r));
            lemma_shifted_chain(done(line(r, "else:"@)), dump_child(toks, objs, n.els, r), k);
            lemma_shifted_chain(c, e, k);
        },
        None => {
            let e = done(Seq::<char>::empty());
            assert(shifted(e.0, k) =~= e.0);
            lemma_shifted_chain(c, e, k);
        },
    }
}

proof fn lemma_shift_child(toks: Seq<TokenView>, objs: Seq<Obj>, c: Option<Box<NodeView>>, r: int, k: int)
    requires
        0 <= r,
        0 <= k,
        r + k + 2 + 2 * depth_child(c) <= usize::MAX,
        prints_one_line_child(toks, objs, c),
    ensures
        dump_child(toks, objs, c, r + k) == (shifted(dump_child(toks, objs, c, r).0, k), dump_child(toks, objs, c, r).1),
        whole_lines(dump_child(toks, objs, c, r).0),
    decreases c, 2int,
{
    match c {
        Some(b) => {
            lemma_shift_node(toks, objs, *b, r + 2, k);
            assert(r + 2 + k == r + k + 2);
        },
        None => {},
    }
}

proof fn lemma_shift_body(toks: Seq<TokenView>, objs: Seq<Obj>, body: Seq<Option<Box<NodeView>>>, r: int, k: int)
    requires
        0 <= r,
        0 <= k,
        r + k + 2 + 2 * depth_body(body) <= usize::MAX,
        prints_one_line_body(toks, objs, body),
    ensures
        dump_body(toks, objs, body, r + k) == (shifted(dump_body(toks, objs, body, r).0, k), dump_body(toks, objs, body, r).1),
        whole_lines(dump_body(toks, objs, body, r).0),
    decreases body, 0int,
{
    if body.len() > 0 {
        lemma_shift_body(toks, objs, body.drop_last(), r, k);
        lemma_shift_child(toks, objs, body.last(), r, k);
        lemma_shifted_chain(dump_body(toks, objs, body.drop_last(), r), dump_child(toks, objs, body.last(), r), k);
    }
}

/// A chain writes at least what its first part writes.
proof fn lemma_chain_len(a: (Seq<char>, bool), b: (Seq<char>, bool))
    ensures
        chain(a, b).0.len() >= a.0.len(),
{
}

/// A dump that gets to its end writes at least one line.
proof fn lemma_dump_nonempty(toks: Seq<TokenView>, objs: Seq<Obj>, n: NodeView, r: int)
    requires
        0 <= r,
    ensures
        dump_node(toks, objs, n, r).1 ==> dump_node(toks, objs, n, r).0.len() > 0,
{
    assert forall|t: Seq<char>| #[trigger] line(r, t).len() > 0 by {
        assert(line(r, t).last() == '\n');
    }
    match binary_op(n.kind) {
        Some(op) => {
            let first = done(line(r, op + ":"@) + line(r, "lhs:"@));
            let a = chain(first, dump_child(toks, objs, n.lhs, r));
            let b = chain(a, done(line(r, "rhs:"@)));
            lemma_chain_len(first, dump_child(toks, objs, n.lhs, r));
            lemma_chain_len(a, done(line(r, "rhs:"@)));
            lemma_chain_len(b, dump_child(toks, objs, n.rhs, r));
            assert(line(r, op + ":"@).len() > 0);
        },
        None => {
            if n.kind == NodeKind::NdNeg || n.kind == NodeKind::NdExprStmp || n.kind == NodeKind::NdReturn {
                let head = if n.kind == NodeKind::NdNeg {
                    "-:"@
                } else if n.kind == NodeKind::NdExprStmp {
                    "ExprStmp:"@
                } else {
                    "return:"@
                };
                lemma_chain_len(done(line(r, head)), dump_child(toks, objs, n.lhs, r));
                assert(line(r, head).len() > 0);
            } else if n.kind == NodeKind::NdBlock {
                lemma_chain_len(done(line(r, "Block:"@)), dump_body(toks, objs, n.body, r));
                assert(line(r, "Block:"@).len() > 0);
            } else if n.kind == NodeKind::NdIf {
                let first = done(line(r, "if:"@) + line(r, "cond:"@));
                let a = chain(first, dump_child(toks, objs, n.cond, r));
                let b = chain(a, done(line(r, "then:"@)));
                let c = chain(b, dump_child(toks, objs, n.then_branch, r));
                let e = match n.els {
                    Some(_) => chain(done(line(r, "else:"@)), dump_child(toks, objs, n.els, r)),
                    None => done(Seq::empty()),
                };
                lemma_chain_len(first, dump_child(toks, objs, n.cond, r));
                lemma_chain_len(a, done(line(r, "then:"@)));
                lemma_chain_len(b, dump_child(toks, objs, n.then_branch, r));
                lemma_chain_len(c, e);
                assert(line(r, "if:"@).len() > 0);
            } else if n.kind == NodeKind::NdNum {
                assert(line(r, "NdNum: "@ + toks[n.token_id as int].tok).len() > 0);
            } else if n.kind == NodeKind::NdVar {
                assert(line(r, "NdVar: "@ + toks[objs[n.obj as int].token_id as int].tok).len() > 0);
            }
        },
    }
}

/// Indenting a dump `k` spaces further puts `k` more spaces at the start of each of its lines and
/// changes nothing else (with `r = 0`: every line of a dump at `k` starts with `k` spaces), as
/// long as the deeper dump still fits its indentation and no token text that the dump prints
/// holds a line break. A dump that gets to its end is not empty.
pub proof fn law_dump_indent_shift(toks: Seq<TokenView>, objs: Seq<Obj>, n: NodeView, r: int, k: int)
    requires
        0 <= r,
        0 <= k,
        r + k + 2 * depth(n) <= usize::MAX,
        prints_one_line(toks, objs, n),
    ensures
        dump_node(toks, objs, n, r + k) == (shifted(dump_node(toks, objs, n, r).0, k), dump_node(toks, objs, n, r).1),
        dump_node(toks, objs, n, r).1 ==> dump_node(toks, objs, n, r).0.len() > 0,
{
    lemma_shift_node(toks, objs, n, r, k);
    lemma_dump_nonempty(toks, objs, n, r);
}

/// How a product tail after `x` joins its next operand `y`, a unary expression parsed after the
/// operator at `p`: `x * y` and `x / y` keep the operands in order, the left one first, and the
/// tail goes on after `y`. So products associate to the left.
pub proof fn law_product_joins(toks: Seq<TokenView>, x: NodeView, p: int, l: Seq<Obj>, y: Step)
    requires
        0 <= p < toks.len(),
        spec_unary(toks, p + 1, l) == Ok::<Step, ParseErrorView>(y),
        p < y.pos <= toks.len(),
    ensures
        toks[p].tok == "*"@ ==> spec_mul_rest(toks, x, p, l) == spec_mul_rest(
            toks,
            node_binary(NodeKind::NdMul, x, y.node, y.pos),
            y.pos,
            y.locals,
        ),
        toks[p].tok == "/"@ ==> spec_mul_rest(toks, x, p, l) == spec_mul_rest(
            toks,
            node_binary(NodeKind::NdDiv, x, y.node, y.pos),
            y.pos,
            y.locals,
        ),
{
    reveal_strlit("*");
    reveal_strlit("/");
    assert("*"@ != "/"@) by {
        assert("*"@[0] != "/"@[0]);
    }
}

/// How a sum tail after `x` joins its next operand `y`, a product parsed after the operator at
/// `p`: `x + y` and `x - y` keep the operands in order, and the tail goes on after `y`. So sums
/// associate to the left, and bind looser than products.
pub proof fn law_sum_joins(toks: Seq<TokenView>, x: NodeView, p: int, l: Seq<Obj>, y: Step)
    requires
        0 <= p < toks.len(),
        spec_mul(toks, p + 1, l) == Ok::<Step, ParseErrorView>(y),
        p < y.pos <= toks.len(),
    ensures
        toks[p].tok == "+"@ ==> spec_add_rest(toks, x, p, l) == spec_add_rest(
            toks,
            node_binary(NodeKind::NdAdd, x, y.node, y.pos),
            y.pos,
            y.locals,
        ),
        toks[p].tok == "-"@ ==> spec_add_rest(toks, x, p, l) == spec_add_rest(
            toks,
            node_binary(NodeKind::NdSub, x, y.node, y.pos),
            y.pos,
            y.locals,
        ),
{
    reveal_strlit("+");
    reveal_strlit("-");
    assert("+"@ != "-"@) by {
        assert("+"@[0] != "-"@[0]);
    }
}

/// How an equality tail after `x` joins its next operand `y`, a comparison parsed after the
/// operator at `p`: `x == y` and `x != y` keep the operands in order, and the tail goes on after
/// `y`. So equality tests bind looser than comparisons, sums and products.
pub proof fn law_equality_joins(toks: Seq<TokenView>, x: NodeView, p: int, l: Seq<Obj>, y: Step)
    requires
        0 <= p < toks.len(),
        spec_relational(toks, p + 1, l) == Ok::<Step, ParseErrorView>(y),
        p < y.pos <= toks.len(),
    ensures
        toks[p].tok == "=="@ ==> spec_equality_rest(toks, x, p, l) == spec_equality_rest(
            toks,
            node_binary(NodeKind::NdEq, x, y.node, y.pos),
            y.pos,
            y.locals,
        ),
        toks[p].tok == "!="@ ==> spec_equality_rest(toks, x, p, l) == spec_equality_rest(
            toks,
            node_binary(NodeKind::NdNe, x, y.node, y.pos),
            y.pos,
            y.locals,
        ),
{
    reveal_strlit("==");
    reveal_strlit("!=");
    assert("=="@ != "!="@) by {
        assert("=="@[0] != "!="@[0]);
    }
}

/// An assignment `x = v`: after an equality-level expression `x` whose next token is `=`, the
/// value is a whole assignment parsed after the `=`, so assignment associates to the right; and
/// with no `=` the assignment is `x` itself.
pub proof fn law_assignment_joins(toks: Seq<TokenView>, p: int, l: Seq<Obj>, x: Step)
    requires
        0 <= p,
        spec_equality(toks, p, l) == Ok::<Step, ParseErrorView>(x),
        p <= x.pos < toks.len(),
    ensures
        toks[x.pos].tok == "="@ ==> spec_assign(toks, p, l) == match spec_assign(toks, x.pos + 1, x.locals) {
            Ok(v) => Ok::<Step, ParseErrorView>(
                Step { node: node_binary(NodeKind::NdAssign, x.node, v.node, v.pos), pos: v.pos, locals: v.locals },
            ),
            Err(e) => Err(e),
        },
        toks[x.pos].tok != "="@ ==> spec_assign(toks, p, l) == Ok::<Step, ParseErrorView>(x),
{
}

/// Unary minus: where the token at `p` is `-`, the rule gives a negation whose operand is the
/// unary expression after the `-` (so in `-a + b` only `a` is negated), or that expression's
/// error.
pub proof fn law_unary_minus(toks: Seq<TokenView>, p: int, l: Seq<Obj>)
    requires
        0 <= p < toks.len(),
        toks[p].tok == "-"@,
    ensures
        spec_unary(toks, p, l) == match spec_unary(toks, p + 1, l) {
            Ok(s) => Ok::<Step, ParseErrorView>(
                Step { node: node_unary(NodeKind::NdNeg, s.node, s.pos), pos: s.pos, locals: s.locals },
            ),
            Err(e) => Err(e),
        },
{
    reveal_strlit("+");
    reveal_strlit("-");
    assert("+"@ != "-"@) by {
        assert("+"@[0] != "-"@[0]);
    }
}

/// Each expression level starts with the level below it: a product with a unary expression, a
/// sum with a product, a comparison with a sum, an equality test with a comparison; the tail then
/// continues from there.
pub proof fn law_expression_levels(toks: Seq<TokenView>, p: int, l: Seq<Obj>)
    ensures
        spec_mul(toks, p, l) == match spec_unary(toks, p, l) {
            Ok(s) => if p <= s.pos <= toks.len() {
                spec_mul_rest(toks, s.node, s.pos, s.locals)
            } else {
                Err(ParseErrorView::IndexOutOfBounds)
            },
            Err(e) => Err(e),
        },
        spec_add(toks, p, l) == match spec_mul(toks, p, l) {
            Ok(s) => if p <= s.pos <= toks.len() {
                spec_add_rest(toks, s.node, s.pos, s.locals)
            } else {
                Err(ParseErrorView::IndexOutOfBounds)
            },
            Err(e) => Err(e),
        },
        spec_relational(toks, p, l) == match spec_add(toks, p, l) {
            Ok(s) => if p <= s.pos <= toks.len() {
                spec_relational_rest(toks, s.node, s.pos, s.locals)
            } else {
                Err(ParseErrorView::IndexOutOfBounds)
            },
            Err(e) => Err(e),
        },
        spec_equality(toks, p, l) == match spec_relational(toks, p, l) {
            Ok(s) => if p <= s.pos <= toks.len() {
                spec_equality_rest(toks, s.node, s.pos, s.locals)
            } else {
                Err(ParseErrorView::IndexOutOfBounds)
            },
            Err(e) => Err(e),
        },
{
}

/// The dump label of each two-operand node kind is its operator's text: `+ - * / == != < <= =`
/// for additions, subtractions, products, quotients, equality and inequality tests, less-than
/// and less-or-equal comparisons and assignments; distinct kinds get distinct labels, and no
/// other kind is dumped as a two-operand node.
pub proof fn law_operator_labels(a: NodeKind, b: NodeKind)
    ensures
        binary_op(NodeKind::NdAdd) == Some("+"@),
        binary_op(NodeKind::NdSub) == Some("-"@),
        binary_op(NodeKind::NdMul) == Some("*"@),
        binary_op(NodeKind::NdDiv) == Some("/"@),
        binary_op(NodeKind::NdEq) == Some("=="@),
        binary_op(NodeKind::NdNe) == Some("!="@),
        binary_op(NodeKind::NdLt) == Some("<"@),
        binary_op(NodeKind::NdLe) == Some("<="@),
        binary_op(NodeKind::NdAssign) == Some("="@),
        binary_op(a) is Some && binary_op(a) == binary_op(b) ==> a == b,
        binary_op(a) is Some <==> (a == NodeKind::NdAdd || a == NodeKind::NdSub || a == NodeKind::NdMul || a
            == NodeKind::NdDiv || a == NodeKind::NdEq || a == NodeKind::NdNe || a == NodeKind::NdLt || a
            == NodeKind::NdLe || a == NodeKind::NdAssign),
{
    reveal_strlit("+");
    reveal_strlit("-");
    reveal_strlit("*");
    reveal_strlit("/");
    reveal_strlit("==");
    reveal_strlit("!=");
    reveal_strlit("<");
    reveal_strlit("<=");
    reveal_strlit("=");
    let labels = seq!["+"@, "-"@, "*"@, "/"@, "=="@, "!="@, "<"@, "<="@, "="@];
    assert forall|i: int, j: int| 0 <= i < j < 9 implies labels[i] != labels[j] by {
        if labels[i].len() == labels[j].len() {
            if labels[i].len() == 1 {
                assert(labels[i][0] != labels[j][0]);
            } else {
                assert(labels[i][0] != labels[j][0] || labels[i][1] != labels[j][1]);
            }
        }
    }
    assert(labels[0] == "+"@ && labels[1] == "-"@ && labels[2] == "*"@ && labels[3] == "/"@ && labels[4] == "=="@);
    assert(labels[5] == "!="@ && labels[6] == "<"@ && labels[7] == "<="@ && labels[8] == "="@);
}

/// Looking a local up by name from `i` on finds the first local from `i` whose naming token has
/// exactly that text; it finds none only where no local from `i` has that name.
pub proof fn law_find_local(toks: Seq<TokenView>, l: Seq<Obj>, name: Seq<char>, i: int)
    requires
        0 <= i,
        locals_named(toks, l),
    ensures
        spec_find_local(toks, l, name, i) matches Ok(Some(k)) ==> {
            &&& i <= k < l.len()
            &&& toks[l[k].token_id as int].tok == name
            &&& forall|j: int| i <= j < k ==> toks[(#[trigger] l[j]).token_id as int].tok != name
        },
        spec_find_local(toks, l, name, i) matches Ok(None) ==> forall|j: int|
            i <= j < l.len() ==> toks[(#[trigger] l[j]).token_id as int].tok != name,
        spec_find_local(toks, l, name, i) is Ok,
    decreases l.len() - i,
{
    if i < l.len() {
        assert(l[i].token_id < toks.len());
        law_find_local(toks, l, name, i + 1);
    }
}

/// A variable: where the token at `p` is an identifier, the rule gives a variable node for the
/// local with the same name, the one already there if any (the locals are unchanged), else a new
/// local at offset 0 named by this token, appended; the variable's local always has the
/// identifier's exact text as its name.
pub proof fn law_variable_names_its_local(toks: Seq<TokenView>, p: int, l: Seq<Obj>)
    requires
        0 <= p < toks.len() <= usize::MAX,
        l.len() < usize::MAX,
        locals_named(toks, l),
        toks[p].kind == TokenKind::TkIdent,
        toks[p].tok != "("@,
    ensures
        spec_primary(toks, p, l) matches Ok(s) && {
            &&& s.pos == p + 1
            &&& s.node.kind == NodeKind::NdVar
            &&& s.node.obj < s.locals.len()
            &&& toks[s.locals[s.node.obj as int].token_id as int].tok == toks[p].tok
            &&& (exists|k: int| 0 <= k < l.len() && toks[(#[trigger] l[k]).token_id as int].tok == toks[p].tok)
                ==> s.locals == l
            &&& (forall|k: int| 0 <= k < l.len() ==> toks[(#[trigger] l[k]).token_id as int].tok != toks[p].tok)
                ==> s.locals == l.push(Obj { token_id: p as usize, offset: 0 })
        },
{
    law_find_local(toks, l, toks[p].tok, 0);
    match spec_find_local(toks, l, toks[p].tok, 0) {
        Ok(Some(k)) => {},
        Ok(None) => {
            assert(l.push(Obj { token_id: p as usize, offset: 0 })[l.len() as int].token_id == p);
        },
        Err(_) => {},
    }
}

/// The token class of each lexeme class: integer literals are numbers, symbols are punctuators,
/// identifiers (keywords among them) are identifiers, and every other lexeme is of the end class.
pub proof fn law_token_classes(k: LexKind)
    ensures
        kind_of(LexKind::Int) == TokenKind::TkNum,
        kind_of(LexKind::Symbol) == TokenKind::TkPunct,
        kind_of(LexKind::Identifier) == TokenKind::TkIdent,
        !(k == LexKind::Int || k == LexKind::Symbol || k == LexKind::Identifier) ==> kind_of(k) == TokenKind::TkEof,
{
}

/// The value of a text of decimal digits.
pub open spec fn decimal_value(s: Seq<char>) -> int
    decreases s.len(),
{
    if s.len() == 0 {
        0
    } else {
        decimal_value(s.drop_last()) * 10 + (s.last() as int - '0' as int)
    }
}

/// Whether a text is made of decimal digits only.
pub open spec fn all_digits(s: Seq<char>) -> bool {
    forall|i: int| 0 <= i < s.len() ==> '0' <= #[trigger] s[i] <= '9'
}

/// The character of a decimal digit stands for that digit.
proof fn lemma_digit_char(d: int)
    requires
        0 <= d < 10,
    ensures
        ((d + 48) as char) as int == d + 48,
        '0' <= ((d + 48) as char) <= '9',
{
}

/// Numbers are written in decimal: the digits of `n` have value `n`, with no leading zero; a
/// negative number is written as `-` and the digits of its magnitude.
pub proof fn law_decimal(n: nat, i: int)
    ensures
        all_digits(dec_nat(n)),
        dec_nat(n).len() > 0,
        decimal_value(dec_nat(n)) == n,
        dec_nat(n)[0] == '0' ==> n == 0,
        i >= 0 ==> dec_int(i) == dec_nat(i as nat),
        i < 0 ==> dec_int(i) == seq!['-'] + dec_nat((-i) as nat),
    decreases n,
{
    lemma_digit_char((n % 10) as int);
    if n >= 10 {
        law_decimal(n / 10, 0);
        let d = dec_nat((n / 10) as nat);
        let s = dec_nat(n);
        assert(s == d.push(((n % 10) + 48) as char));
        assert(s.drop_last() =~= d);
        assert(s[0] == d[0]);
        assert forall|j: int| 0 <= j < s.len() implies '0' <= #[trigger] s[j] <= '9' by {
            if j < d.len() {
                assert(s[j] == d[j]);
            }
        }
        assert((n / 10) * 10 + n % 10 == n);
        assert(s.last() as int == n % 10 + 48);
        assert(decimal_value(s) == decimal_value(d) * 10 + (s.last() as int - '0' as int));
    } else {
        let s = dec_nat(n);
        assert(s.drop_last() =~= Seq::<char>::empty());
        assert(n % 10 == n);
        assert(s.last() as int == n + 48);
        assert(decimal_value(s) == decimal_value(s.drop_last()) * 10 + (s.last() as int - '0' as int));
    }
}

/// A primary expression: a parenthesized expression is the inner expression's tree, read up to
/// its `)` (a missing `)` is reported); a number is a number node at its token, reading one
/// token and adding no local; any other token that is no identifier cannot start an expression.
pub proof fn law_primary_forms(toks: Seq<TokenView>, p: int, l: Seq<Obj>)
    requires
        0 <= p < toks.len(),
    ensures
        toks[p].tok == "("@ ==> spec_primary(toks, p, l) == match spec_expr(toks, p + 1, l) {
            Ok(e) => if 0 <= e.pos < toks.len() && toks[e.pos].tok == ")"@ {
                Ok::<Step, ParseErrorView>(Step { node: e.node, pos: e.pos + 1, locals: e.locals })
            } else if 0 <= e.pos < toks.len() {
                Err(ParseErrorView::ExpectedToken { expected: ")"@, found: toks[e.pos].tok })
            } else {
                Err(ParseErrorView::IndexOutOfBounds)
            },
            Err(x) => Err(x),
        },
        toks[p].tok != "("@ && toks[p].kind == TokenKind::TkNum ==> spec_primary(toks, p, l) == Ok::<
            Step,
            ParseErrorView,
        >(Step { node: node_leaf(NodeKind::NdNum, p), pos: p + 1, locals: l }),
        toks[p].tok != "("@ && toks[p].kind != TokenKind::TkNum && toks[p].kind != TokenKind::TkIdent
            ==> spec_primary(toks, p, l) == Err::<Step, ParseErrorView>(ParseErrorView::ExpectedExpression),
{
}

/// A `return` statement: the expression after `return`, which must be followed by `;`, held by a
/// return node.
pub proof fn law_return_statement(toks: Seq<TokenView>, p: int, l: Seq<Obj>, e: Step)
    requires
        0 <= p < toks.len(),
        toks[p].tok == "return"@,
        spec_expr(toks, p + 1, l) == Ok::<Step, ParseErrorView>(e),
        0 <= e.pos < toks.len(),
    ensures
        toks[e.pos].tok == ";"@ ==> spec_stmt(toks, p, l) == Ok::<Step, ParseErrorView>(
            Step { node: node_unary(NodeKind::NdReturn, e.node, e.pos), pos: e.pos + 1, locals: e.locals },
        ),
        toks[e.pos].tok != ";"@ ==> spec_stmt(toks, p, l) == Err::<Step, ParseErrorView>(
            ParseErrorView::ExpectedToken { expected: ";"@, found: toks[e.pos].tok },
        ),
{
}

/// The keywords and opening tokens that start a statement other than an expression statement.
pub open spec fn starts_statement(t: Seq<char>) -> bool {
    t == "return"@ || t == "if"@ || t == "for"@ || t == "while"@ || t == "{"@
}

/// An expression statement: `;` alone is an empty block; otherwise an expression, which must be
/// followed by `;`, held by an expression-statement node.
pub proof fn law_expression_statement(toks: Seq<TokenView>, p: int, l: Seq<Obj>)
    requires
        0 <= p < toks.len(),
        !starts_statement(toks[p].tok),
    ensures
        toks[p].tok == ";"@ ==> spec_stmt(toks, p, l) == Ok::<Step, ParseErrorView>(
            Step { node: node_leaf(NodeKind::NdBlock, p + 1), pos: p + 1, locals: l },
        ),
        toks[p].tok != ";"@ ==> spec_stmt(toks, p, l) == match spec_expr(toks, p, l) {
            Ok(e) => if 0 <= e.pos < toks.len() && toks[e.pos].tok == ";"@ {
                Ok::<Step, ParseErrorView>(
                    Step { node: node_unary(NodeKind::NdExprStmp, e.node, e.pos), pos: e.pos + 1, locals: e.locals },
                )
            } else if 0 <= e.pos < toks.len() {
                Err(ParseErrorView::ExpectedToken { expected: ";"@, found: toks[e.pos].tok })
            } else {
                Err(ParseErrorView::IndexOutOfBounds)
            },
            Err(x) => Err(x),
        },
{
}

/// An `if` statement: its condition is the expression in the parentheses, its branch the first
/// statement after them, and its `else` branch, where an `else` follows, the statement after the
/// `else`; the node stands at the end of what it read.
#[verifier::rlimit(60)]
pub proof fn law_if_statement(toks: Seq<TokenView>, p: int, l: Seq<Obj>, c: Step, t: Step)
    requires
        0 <= p,
        p + 1 < toks.len(),
        toks.len() + l.len() <= usize::MAX,
        toks[p].tok == "if"@,
        toks[p + 1].tok == "("@,
        spec_expr(toks, p + 2, l) == Ok::<Step, ParseErrorView>(c),
        c.pos < toks.len(),
        toks[c.pos].tok == ")"@,
        spec_stmt(toks, c.pos + 1, c.locals) == Ok::<Step, ParseErrorView>(t),
    ensures
        t.pos < toks.len() && toks[t.pos].tok != "else"@ ==> spec_stmt(toks, p, l) == Ok::<Step, ParseErrorView>(
            Step { node: node_if(c.node, t.node, None, t.pos), pos: t.pos, locals: t.locals },
        ),
        t.pos < toks.len() && toks[t.pos].tok == "else"@ ==> spec_stmt(toks, p, l) == match spec_stmt(
            toks,
            t.pos + 1,
            t.locals,
        ) {
            Ok(e) => Ok::<Step, ParseErrorView>(
                Step { node: node_if(c.node, t.node, Some(e.node), e.pos), pos: e.pos, locals: e.locals },
            ),
            Err(x) => Err(x),
        },
{
    lemma_literals();
    lemma_expr(toks, p + 2, l);
    lemma_stmt(toks, c.pos + 1, c.locals);
    reveal_strlit("return");
    reveal_strlit("if");
    assert("if"@ != "return"@) by {
        assert("if"@.len() != "return"@.len());
    }
    assert(spec_stmt(toks, p, l) == spec_if(toks, p + 1, l));
}

/// A block's statements: `}` ends the block, which holds the statements read so far in order;
/// any other token starts the next statement, which is added after them.
pub proof fn law_block_statements(toks: Seq<TokenView>, t: int, body: Seq<Option<Box<NodeView>>>, p: int, l: Seq<Obj>)
    requires
        0 <= p < toks.len(),
    ensures
        toks[p].tok == "}"@ ==> spec_compound_rest(toks, t, body, p, l) == Ok::<Step, ParseErrorView>(
            Step { node: node_block(body, t), pos: p + 1, locals: l },
        ),
        toks[p].tok != "}"@ ==> spec_compound_rest(toks, t, body, p, l) == match spec_stmt(toks, p, l) {
            Ok(s) => if p < s.pos <= toks.len() {
                spec_compound_rest(toks, t, body.push(Some(Box::new(s.node))), s.pos, s.locals)
            } else {
                Err(ParseErrorView::IndexOutOfBounds)
            },
            Err(x) => Err(x),
        },
{
}

/// The dump of each kind of node, indented by `r`: a two-operand node is its operator label, then
/// `lhs:` and the left operand, then `rhs:` and the right operand, each two spaces further in; a
/// number is `NdNum: ` and its token's text; a variable is `NdVar: ` and its local's name; a
/// negation, an expression statement and a `return` are their head line and their operand; an
/// `if` is its head, `cond:` and the condition, `then:` and the branch, then `else:` and the
/// `else` branch where there is one; a loop has no dump.
pub proof fn law_dump_forms(toks: Seq<TokenView>, objs: Seq<Obj>, n: NodeView, r: int)
    requires
        0 <= r,
        r + 2 <= usize::MAX,
    ensures
        binary_op(n.kind) is Some && n.lhs is Some && n.rhs is Some && dump_node(
            toks,
            objs,
            *(n.lhs->0),
            r + 2,
        ).1 ==> dump_node(toks, objs, n, r) == (
            line(r, binary_op(n.kind)->0 + ":"@) + line(r, "lhs:"@) + dump_node(toks, objs, *(n.lhs->0), r + 2).0 + line(r, "rhs:"@)
                + dump_node(toks, objs, *(n.rhs->0), r + 2).0,
            dump_node(toks, objs, *(n.rhs->0), r + 2).1,
        ),
        n.kind == NodeKind::NdNum ==> dump_node(toks, objs, n, r) == if n.token_id < toks.len() {
            (line(r, "NdNum: "@ + toks[n.token_id as int].tok), true)
        } else {
            (Seq::<char>::empty(), false)
        },
        n.kind == NodeKind::NdVar ==> dump_node(toks, objs, n, r) == if n.obj < objs.len() && objs[n.obj as int].token_id
            < toks.len() {
            (line(r, "NdVar: "@ + toks[objs[n.obj as int].token_id as int].tok), true)
        } else {
            (Seq::<char>::empty(), false)
        },
        n.kind == NodeKind::NdNeg && n.lhs is Some ==> dump_node(toks, objs, n, r) == (
            line(r, "-:"@) + dump_node(toks, objs, *(n.lhs->0), r + 2).0,
            dump_node(toks, objs, *(n.lhs->0), r + 2).1,
        ),
        n.kind == NodeKind::NdExprStmp && n.lhs is Some ==> dump_node(toks, objs, n, r) == (
            line(r, "ExprStmp:"@) + dump_node(toks, objs, *(n.lhs->0), r + 2).0,
            dump_node(toks, objs, *(n.lhs->0), r + 2).1,
        ),
        n.kind == NodeKind::NdReturn && n.lhs is Some ==> dump_node(toks, objs, n, r) == (
            line(r, "return:"@) + dump_node(toks, objs, *(n.lhs->0), r + 2).0,
            dump_node(toks, objs, *(n.lhs->0), r + 2).1,
        ),
        n.kind == NodeKind::NdIf && n.cond is Some && n.then_branch is Some && dump_node(
            toks,
            objs,
            *(n.cond->0),
            r + 2,
        ).1 && dump_node(toks, objs, *(n.then_branch->0), r + 2).1 ==> dump_node(toks, objs, n, r) == match n.els {
            None => (
                line(r, "if:"@) + line(r, "cond:"@) + dump_node(toks, objs, *(n.cond->0), r + 2).0 + line(r, "then:"@)
                    + dump_node(toks, objs, *(n.then_branch->0), r + 2).0,
                true,
            ),
            Some(_) => (
                line(r, "if:"@) + line(r, "cond:"@) + dump_node(toks, objs, *(n.cond->0), r + 2).0 + line(r, "then:"@)
                    + dump_node(toks, objs, *(n.then_branch->0), r + 2).0 + line(r, "else:"@) + dump_node(toks, objs, *(n.els->0), r + 2).0,
                dump_node(toks, objs, *(n.els->0), r + 2).1,
            ),
        },
        n.kind == NodeKind::NdFor ==> dump_node(toks, objs, n, r) == (Seq::<char>::empty(), false),
{
    law_operator_labels(n.kind, n.kind);
    if binary_op(n.kind) is Some && n.lhs is Some && n.rhs is Some {
        let a = n.lhs->0;
        let b = n.rhs->0;
        let op = binary_op(n.kind)->0;
        let first = line(r, op + ":"@) + line(r, "lhs:"@);
        assert(first + dump_node(toks, objs, *a, r + 2).0 + line(r, "rhs:"@) + dump_node(toks, objs, *b, r + 2).0
            =~= line(r, op + ":"@) + line(r, "lhs:"@) + dump_node(toks, objs, *a, r + 2).0 + line(r, "rhs:"@)
            + dump_node(toks, objs, *b, r + 2).0);
    }
    if n.kind == NodeKind::NdIf && n.cond is Some && n.then_branch is Some {
        let c = n.cond->0;
        let t = n.then_branch->0;
        let x = line(r, "if:"@) + line(r, "cond:"@) + dump_node(toks, objs, *c, r + 2).0 + line(r, "then:"@)
            + dump_node(toks, objs, *t, r + 2).0;
        assert(x + Seq::<char>::empty() =~= x);
        if n.els is Some {
            let e = n.els->0;
            assert(x + (line(r, "else:"@) + dump_node(toks, objs, *e, r + 2).0) =~= x + line(r, "else:"@)
                + dump_node(toks, objs, *e, r + 2).0);
        }
    }
}

/// The dump's header and locals: no parsed function dumps nothing; a parsed function dumps
/// `stack-size: ` and its frame size, then one `local: <name> (offset <offset>)` line per local in
/// order, then its body at indentation 0; a local whose naming token is missing stops the dump.
pub proof fn law_dump_header(toks: Seq<TokenView>, f: Function, l: Seq<Obj>, o: Obj)
    ensures
        dump_program(toks, None) == (Seq::<char>::empty(), false),
        f.body@ is Some && dump_locals(toks, f.locals@).1 ==> dump_program(toks, Some(f)) == (
            line(0, "stack-size: "@ + dec_int(f.stack_size as int)) + dump_locals(toks, f.locals@).0 + dump_node(
                toks,
                f.locals@,
                f.body@->0@,
                0,
            ).0,
            dump_node(toks, f.locals@, f.body@->0@, 0).1,
        ),
        dump_locals(toks, Seq::empty()) == (Seq::<char>::empty(), true),
        dump_locals(toks, l).1 ==> dump_locals(toks, l.push(o)) == (
            dump_locals(toks, l).0 + if o.token_id < toks.len() {
                line(0, "local: "@ + toks[o.token_id as int].tok + " (offset "@ + dec_int(o.offset as int) + ")"@)
            } else {
                Seq::<char>::empty()
            },
            o.token_id < toks.len(),
        ),
{
    assert(l.push(o).drop_last() =~= l);
    if f.body@ is Some {
        let x = line(0, "stack-size: "@ + dec_int(f.stack_size as int));
        assert(x + dump_locals(toks, f.locals@).0 + dump_node(toks, f.locals@, f.body@->0@, 0).0 =~= x + (dump_locals(
            toks,
            f.locals@,
        ).0 + dump_node(toks, f.locals@, f.body@->0@, 0).0));
    }
}

/// A token keeps its lexeme's text and span, with the class that the lexeme class maps to.
pub proof fn law_token_of_lexeme(x: crate::tokenize::LexemeView)
    ensures
        token_of(x).tok == x.slice,
        token_of(x).span == x.span,
        token_of(x).kind == kind_of(x.token),
{
}

/// Requiring a token: where the token at `p` has the text `t`, the read moves one token on;
/// where it has another text, the error names both `t` and that text; past the end it is a read
/// out of bounds. Testing for a token says whether its text is `t`.
pub proof fn law_expect_token(toks: Seq<TokenView>, p: int, t: Seq<char>)
    ensures
        0 <= p < toks.len() && toks[p].tok == t ==> spec_expect(toks, p, t) == Ok::<int, ParseErrorView>(p + 1),
        0 <= p < toks.len() && toks[p].tok != t ==> spec_expect(toks, p, t) == Err::<int, ParseErrorView>(
            ParseErrorView::ExpectedToken { expected: t, found: toks[p].tok },
        ),
        !(0 <= p < toks.len()) ==> spec_expect(toks, p, t) == Err::<int, ParseErrorView>(ParseErrorView::IndexOutOfBounds),
        0 <= p < toks.len() ==> spec_consume(toks, p, t) == Ok::<bool, ParseErrorView>(toks[p].tok == t),
{
}

/// The nodes the parser builds: a leaf of a kind at a token; a one-operand node holding its
/// operand as `lhs`; a two-operand node holding its left operand as `lhs` and its right one as
/// `rhs`; a variable naming a local; a block holding its statements in order; an `if` holding its
/// condition, branch and optional `else` branch; a loop holding its optional initializer,
/// condition and step and its body. Every other child is empty.
pub proof fn law_node_shapes(
    kind: NodeKind,
    a: NodeView,
    b: NodeView,
    e: Option<NodeView>,
    f: Option<NodeView>,
    g: Option<NodeView>,
    body: Seq<Option<Box<NodeView>>>,
    i: int,
    t: int,
)
    requires
        0 <= t <= usize::MAX,
        0 <= i <= usize::MAX,
    ensures
        node_leaf(kind, t).kind == kind && node_leaf(kind, t).token_id == t && node_leaf(kind, t).lhs is None
            && node_leaf(kind, t).rhs is None && node_leaf(kind, t).body.len() == 0,
        node_unary(kind, a, t).kind == kind && node_unary(kind, a, t).lhs == Some(Box::new(a)) && node_unary(
            kind,
            a,
            t,
        ).rhs is None && node_unary(kind, a, t).token_id == t,
        node_binary(kind, a, b, t).kind == kind && node_binary(kind, a, b, t).lhs == Some(Box::new(a))
            && node_binary(kind, a, b, t).rhs == Some(Box::new(b)) && node_binary(kind, a, b, t).token_id == t,
        node_var(i, t).kind == NodeKind::NdVar && node_var(i, t).obj == i && node_var(i, t).token_id == t,
        node_block(body, t).kind == NodeKind::NdBlock && node_block(body, t).body == body && node_block(body, t).token_id
            == t,
        node_if(a, b, e, t).kind == NodeKind::NdIf && node_if(a, b, e, t).cond == Some(Box::new(a)) && node_if(
            a,
            b,
            e,
            t,
        ).then_branch == Some(Box::new(b)) && node_if(a, b, e, t).els == boxed(e) && node_if(a, b, e, t).lhs is None,
        node_for(e, f, g, a, t).kind == NodeKind::NdFor && node_for(e, f, g, a, t).init == boxed(e) && node_for(
            e,
            f,
            g,
            a,
            t,
        ).cond == boxed(f) && node_for(e, f, g, a, t).inc == boxed(g) && node_for(e, f, g, a, t).then_branch == Some(
            Box::new(a),
        ),
        e matches Some(x) ==> boxed(e) == Some(Box::new(x)),
        e is None ==> boxed(e) is None,
{
}

/// A line of the dump: `indent` spaces, the text, and a line break.
pub proof fn law_line(indent: int, text: Seq<char>)
    requires
        0 <= indent,
    ensures
        line(indent, text).len() == indent + text.len() + 1,
        forall|j: int| 0 <= j < indent ==> #[trigger] line(indent, text)[j] == ' ',
        line(indent, text).subrange(indent, indent + text.len()) == text,
        line(indent, text).last() == '\n',
{
    assert(line(indent, text).subrange(indent, indent + text.len()) =~= text);
}

/// A program is a block, after an optional `{`; a block's statement loop starts at its first
/// token with no statements.
pub proof fn law_program_form(toks: Seq<TokenView>, p: int, l: Seq<Obj>)
    requires
        0 <= p < toks.len(),
    ensures
        toks[p].tok == "{"@ ==> spec_program(toks, p, l) == spec_compound_stmt(toks, p + 1, l),
        toks[p].tok != "{"@ ==> spec_program(toks, p, l) == spec_compound_stmt(toks, p, l),
        spec_compound_stmt(toks, p, l) == spec_compound_rest(toks, p, Seq::empty(), p, l),
{
    reveal(stmt_rule);
}

} // verus!
