//! The passes over a document, node by node: what each does to one node,
//! stated over the node and over what was parsed of its address.

pub mod address;
pub mod embed;
pub mod image;
pub mod link;

use vstd::prelude::*;
use crate::formatter::{lemma_children_view, visited, AstNode, NodeValue, Visit};
use self::address::address_of;

verus! {

/// A node whose value and children were replaced after a visit has the
/// visited tree.
pub(crate) proof fn lemma_visited(before: AstNode, after: AstNode, v: Visit)
    requires
        after.id == before.id,
        after.start_line == before.start_line,
        after.value@ == v.value,
        after.children@ == before.children@.take(v.keep.count(before.children@.len() as int)),
    ensures
        after@ == visited(before@, v),
{
    lemma_children_view(before);
    lemma_children_view(after);
    assert(after@.children =~= visited(before@, v).children);
}

/// The address that a link or an image holds.
pub(crate) fn address(node: &AstNode) -> (r: String)
    ensures
        r@ == address_of(node@),
{
    proof {
        lemma_children_view(*node);
    }
    match &node.value {
        NodeValue::Link(link) => link.url.clone(),
        NodeValue::Image(link) => link.url.clone(),
        _ => String::new(),
    }
}

/// Whether a node is a link.
pub(crate) fn is_link(node: &AstNode) -> (r: bool)
    ensures
        r == (node@.value is Link),
{
    proof {
        lemma_children_view(*node);
    }
    match &node.value {
        NodeValue::Link(_) => true,
        _ => false,
    }
}

/// Whether a node is an image.
pub(crate) fn is_image(node: &AstNode) -> (r: bool)
    ensures
        r == (node@.value is Image),
{
    proof {
        lemma_children_view(*node);
    }
    match &node.value {
        NodeValue::Image(_) => true,
        _ => false,
    }
}

} // verus!
