//! The structural document tree: scalars, sequences, and ordered mappings.

use vstd::prelude::*;

verus! {

/// One structural value of a parsed document. A mapping keeps its entries in
/// insertion order; the order is significant and is preserved on
/// re-serialization.
#[derive(Debug, PartialEq, Eq)]
pub enum Node {
    Scalar(String),
    Sequence(Vec<Node>),
    Mapping(Vec<(String, Node)>),
}

/// The mathematical model of a `Node`: the same tree over `Seq`.
pub enum NodeV {
    Scalar(Seq<char>),
    Sequence(Seq<NodeV>),
    Mapping(Seq<(Seq<char>, NodeV)>),
}

pub open spec fn node_view(n: Node) -> NodeV
    decreases n,
{
    match n {
        Node::Scalar(s) => NodeV::Scalar(s@),
        Node::Sequence(items) => NodeV::Sequence(items_view(items@)),
        Node::Mapping(entries) => NodeV::Mapping(entries_view(entries@)),
    }
}

/// The model of one mapping's entry list.
pub open spec fn entries_view(entries: Seq<(String, Node)>) -> Seq<(Seq<char>, NodeV)>
    decreases entries,
{
    if entries.len() == 0 {
        Seq::empty()
    } else {
        seq![(entries[0].0@, node_view(entries[0].1))] + entries_view(entries.drop_first())
    }
}

/// The model of one sequence's element list.
pub open spec fn items_view(items: Seq<Node>) -> Seq<NodeV>
    decreases items,
{
    if items.len() == 0 {
        Seq::empty()
    } else {
        seq![node_view(items[0])] + items_view(items.drop_first())
    }
}

impl View for Node {
    type V = NodeV;

    open spec fn view(&self) -> NodeV {
        node_view(*self)
    }
}

/// How `entries_view` reads entry by entry.
pub proof fn lemma_entries_view(entries: Seq<(String, Node)>)
    ensures
        entries_view(entries).len() == entries.len(),
        forall|i: int| 0 <= i < entries.len()
            ==> entries_view(entries)[i] == (entries[i].0@, node_view(entries[i].1)),
    decreases entries.len(),
{
    if entries.len() > 0 {
        lemma_entries_view(entries.drop_first());
    }
}

/// How `items_view` reads element by element.
pub proof fn lemma_items_view(items: Seq<Node>)
    ensures
        items_view(items).len() == items.len(),
        forall|i: int| 0 <= i < items.len() ==> items_view(items)[i] == node_view(items[i]),
    decreases items.len(),
{
    if items.len() > 0 {
        lemma_items_view(items.drop_first());
    }
}

} // verus!
