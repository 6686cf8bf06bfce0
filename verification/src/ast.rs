use crate::tokenize::Tokenizer;
use crate::utils::Mbox;
use vstd::prelude::*;

verus! {

/// The kinds of syntax-tree nodes.
#[derive(Debug, Clone, Copy, PartialEq, Eq, Structural)]
pub enum NodeKind {
    NdNum,
    NdAdd,
    NdSub,
    NdMul,
    NdDiv,
    NdNeg,
    NdEq,
    NdNe,
    NdLt,
    NdLe,
    NdAssign,
    NdReturn,
    NdIf,
    NdFor,
    NdBlock,
    NdExprStmp,
    NdVar,
}

pub type TokenID = usize;

pub type ObjID = usize;

/// A syntax-tree node. Children that a kind does not use stay nil.
#[derive(Debug)]
pub struct Node {
    pub kind: NodeKind,
    pub lhs: Option<Box<Node>>,
    pub rhs: Option<Box<Node>>,
    // children of `if` and `for`
    pub cond: Option<Box<Node>>,
    pub then_branch: Option<Box<Node>>,
    pub els: Option<Box<Node>>,
    pub init: Option<Box<Node>>,
    pub inc: Option<Box<Node>>,
    // statements of a block
    pub body: Vec<Option<Box<Node>>>,
    pub obj: ObjID,
    pub token_id: TokenID,
}

/// A syntax-tree node as a plain value, with the same shape as `Node`.
pub struct NodeView {
    pub kind: NodeKind,
    pub lhs: Option<Box<NodeView>>,
    pub rhs: Option<Box<NodeView>>,
    pub cond: Option<Box<NodeView>>,
    pub then_branch: Option<Box<NodeView>>,
    pub els: Option<Box<NodeView>>,
    pub init: Option<Box<NodeView>>,
    pub inc: Option<Box<NodeView>>,
    pub body: Seq<Option<Box<NodeView>>>,
    pub obj: ObjID,
    pub token_id: TokenID,
}

/// The view of an optional child.
pub open spec fn view_child(c: Option<Box<Node>>) -> Option<Box<NodeView>>
    decreases c, 1int,
{
    match c {
        Some(b) => Some(Box::new(view_node(*b))),
        None => None,
    }
}

/// The views of a block's statements.
pub open spec fn view_body(s: Seq<Option<Box<Node>>>) -> Seq<Option<Box<NodeView>>>
    decreases s, 0int,
{
    if s.len() == 0 {
        Seq::empty()
    } else {
        view_body(s.drop_last()).push(view_child(s.last()))
    }
}

/// The view of a node: the same tree, field by field.
pub open spec fn view_node(n: Node) -> NodeView
    decreases n, 0int,
{
    NodeView {
        kind: n.kind,
        lhs: view_child(n.lhs),
        rhs: view_child(n.rhs),
        cond: view_child(n.cond),
        then_branch: view_child(n.then_branch),
        els: view_child(n.els),
        init: view_child(n.init),
        inc: view_child(n.inc),
        body: view_body(n.body@),
        obj: n.obj,
        token_id: n.token_id,
    }
}

impl View for Node {
    type V = NodeView;

    open spec fn view(&self) -> NodeView {
        view_node(*self)
    }
}

/// The view of the node a pointer holds, if any.
pub open spec fn view_mbox(m: Mbox<Node>) -> Option<Box<NodeView>> {
    view_child(m.0)
}

/// A node of the given kind with no children, no object and no token.
pub open spec fn blank(kind: NodeKind) -> NodeView {
    NodeView {
        kind,
        lhs: None,
        rhs: None,
        cond: None,
        then_branch: None,
        els: None,
        init: None,
        inc: None,
        body: Seq::empty(),
        obj: usize::MAX,
        token_id: usize::MAX,
    }
}

/// A copy of an optional child, with the same tree.
fn clone_child(c: &Option<Box<Node>>) -> (r: Option<Box<Node>>)
    ensures
        view_child(r) == view_child(*c),
    decreases c, 1int,
{
    match c {
        Some(b) => Some(Box::new(clone_node(b))),
        None => None,
    }
}

/// A copy of a node, with the same tree.
fn clone_node(n: &Node) -> (r: Node)
    ensures
        r@ == n@,
    decreases n, 0int,
{
    let mut body: Vec<Option<Box<Node>>> = Vec::new();
    let mut i: usize = 0;
    assert(n.body@.take(0) =~= Seq::<Option<Box<Node>>>::empty());
    while i < n.body.len()
        invariant
            i <= n.body@.len(),
            view_body(body@) == view_body(n.body@.take(i as int)),
        decreases n.body@.len() - i,
    {
        let c = clone_child(&n.body[i]);
        let ghost before = body@;
        body.push(c);
        assert(body@.drop_last() =~= before);
        assert(n.body@.take(i as int + 1).drop_last() =~= n.body@.take(i as int));
        i += 1;
    }
    assert(n.body@.take(i as int) =~= n.body@);
    let r = Node {
        kind: n.kind,
        lhs: clone_child(&n.lhs),
        rhs: clone_child(&n.rhs),
        cond: clone_child(&n.cond),
        then_branch: clone_child(&n.then_branch),
        els: clone_child(&n.els),
        init: clone_child(&n.init),
        inc: clone_child(&n.inc),
        body,
        obj: n.obj,
        token_id: n.token_id,
    };
    r
}

/// A copy of a node is the same tree.
impl Clone for Node {
    fn clone(&self) -> (r: Self)
        ensures
            r@ == self@,
    {
        clone_node(self)
    }
}

impl Node {
    /// A node of the given kind, with every child nil and no object or token.
    pub fn from(kind: NodeKind) -> (node: Self)
        ensures
            node@ == blank(kind),
    {
        let node = Self {
            kind,
            lhs: None,
            rhs: None,
            cond: None,
            then_branch: None,
            els: None,
            init: None,
            inc: None,
            body: Vec::new(),
            obj: usize::MAX,
            token_id: usize::MAX,
        };
        assert(node@.body =~= Seq::empty());
        node
    }

    /// A binary node over `lhs` and `rhs`.
    pub fn from_binary(kind: NodeKind, lhs: Mbox<Node>, rhs: Mbox<Node>) -> (node: Self)
        ensures
            node@ == (NodeView { lhs: view_mbox(lhs), rhs: view_mbox(rhs), ..blank(kind) }),
    {
        let mut this = Self::from(kind);
        this.lhs = lhs.0;
        this.rhs = rhs.0;
        this
    }

    /// A unary node over `expr`, held as `lhs`.
    pub fn from_unary(kind: NodeKind, expr: Mbox<Node>) -> (node: Self)
        ensures
            node@ == (NodeView { lhs: view_mbox(expr), ..blank(kind) }),
    {
        let mut this = Self::from(kind);
        this.lhs = expr.0;
        this
    }

    /// A node of the given kind that points at a token.
    pub fn from_token(kind: NodeKind, token_id: TokenID) -> (node: Self)
        ensures
            node@ == (NodeView { token_id, ..blank(kind) }),
    {
        let mut this = Self::from(kind);
        this.token_id = token_id;
        this
    }

    /// A variable node for the local object `obj`.
    pub fn from_obj(obj: ObjID) -> (node: Self)
        ensures
            node@ == (NodeView { obj, ..blank(NodeKind::NdVar) }),
    {
        let mut this = Self::from(NodeKind::NdVar);
        this.obj = obj;
        this
    }
}

/// A local variable: the token that first named it, and its stack offset.
#[derive(Debug, Clone, Copy)]
pub struct Obj {
    pub token_id: TokenID,
    pub offset: i32,
}

/// A parsed function: its frame size, its locals and its body.
#[derive(Debug)]
pub struct Function {
    pub stack_size: i32,
    pub locals: Vec<Obj>,
    pub body: Mbox<Node>,
}

/// A program being parsed: its tokens, the read position, the locals found so far and the result.
pub struct Program {
    pub tokenizer: Tokenizer,
    pub pos: TokenID,
    pub locals: Vec<Obj>,
    pub asts: Mbox<Function>,
}

} // verus!
