use minicc::ast::{Node, NodeKind};
use minicc::utils::Mbox;

#[test]
fn from_gives_childless_node() {
    let n = Node::from(NodeKind::NdReturn);
    assert_eq!(n.kind, NodeKind::NdReturn);
    assert!(n.lhs.is_none() && n.rhs.is_none());
    assert!(n.cond.is_none() && n.then_branch.is_none() && n.els.is_none());
    assert!(n.init.is_none() && n.inc.is_none());
    assert!(n.body.is_empty());
    assert_eq!(n.obj, usize::MAX);
    assert_eq!(n.token_id, usize::MAX);
}

#[test]
fn from_binary_holds_both_operands() {
    let l = Mbox::new(Node::from_token(NodeKind::NdNum, 0));
    let r = Mbox::new(Node::from_token(NodeKind::NdNum, 2));
    let n = Node::from_binary(NodeKind::NdAdd, l, r);
    assert_eq!(n.kind, NodeKind::NdAdd);
    assert_eq!(n.lhs.as_ref().unwrap().token_id, 0);
    assert_eq!(n.rhs.as_ref().unwrap().token_id, 2);
    assert_eq!(n.token_id, usize::MAX);
}

#[test]
fn from_unary_holds_operand_as_lhs() {
    let e = Mbox::new(Node::from_obj(3));
    let n = Node::from_unary(NodeKind::NdNeg, e);
    assert_eq!(n.kind, NodeKind::NdNeg);
    assert_eq!(n.lhs.as_ref().unwrap().obj, 3);
    assert!(n.rhs.is_none());
}

#[test]
fn from_unary_with_nil_operand() {
    let n = Node::from_unary(NodeKind::NdExprStmp, Mbox::nil());
    assert!(n.lhs.is_none());
}

#[test]
fn from_token_and_from_obj() {
    let t = Node::from_token(NodeKind::NdNum, 9);
    assert_eq!(t.kind, NodeKind::NdNum);
    assert_eq!(t.token_id, 9);
    assert_eq!(t.obj, usize::MAX);
    let v = Node::from_obj(4);
    assert_eq!(v.kind, NodeKind::NdVar);
    assert_eq!(v.obj, 4);
    assert_eq!(v.token_id, usize::MAX);
}

#[test]
fn clone_copies_the_tree() {
    let mut block = Node::from_token(NodeKind::NdBlock, 0);
    block.body.push(Some(Box::new(Node::from_unary(NodeKind::NdReturn, Mbox::new(Node::from_obj(2))))));
    block.body.push(None);
    let copy = block.clone();
    assert_eq!(copy.kind, NodeKind::NdBlock);
    assert_eq!(copy.token_id, 0);
    assert_eq!(copy.body.len(), 2);
    let ret = copy.body[0].as_ref().unwrap();
    assert_eq!(ret.kind, NodeKind::NdReturn);
    assert_eq!(ret.lhs.as_ref().unwrap().obj, 2);
    assert!(copy.body[1].is_none());
}
