//! Queries: what the converter hands back for a statement that it has
//! lowered.
use crate::node::MirNodeRef;
use vstd::prelude::*;

verus! {

/// A query as the converter hands it back: its name, the nodes without
/// ancestors that it starts from, and its one leaf.
#[derive(Debug, PartialEq, Eq)]
pub struct MirQuery {
    pub name: String,
    pub roots: Vec<MirNodeRef>,
    pub leaf: MirNodeRef,
}

/// A query as a value.
pub ghost struct MirQueryView {
    pub name: Seq<char>,
    pub roots: Seq<usize>,
    pub leaf: usize,
}

impl DeepView for MirQuery {
    type V = MirQueryView;

    open spec fn deep_view(&self) -> MirQueryView {
        MirQueryView { name: self.name@, roots: self.roots@, leaf: self.leaf }
    }
}

impl MirQueryView {
    /// The query of one node, which is its root and its leaf.
    pub open spec fn singleton(name: Seq<char>, node: usize) -> MirQueryView {
        MirQueryView { name, roots: seq![node], leaf: node }
    }
}

impl MirQuery {
    /// The query of one node, which is its root and its leaf.
    pub fn singleton(name: &str, node: MirNodeRef) -> (r: MirQuery)
        ensures
            r.deep_view() == MirQueryView::singleton(name@, node),
    {
        let mut roots: Vec<MirNodeRef> = Vec::new();
        roots.push(node);
        assert(roots@ =~= seq![node]);
        MirQuery { name: name.to_owned(), roots, leaf: node }
    }
}

} // verus!
