//! One node of the search tree, held in a flat, append-only arena and
//! addressed by index.  Child indices are always greater than their parent's
//! index, so no node ever references a not-yet-created one.

use vstd::prelude::*;

use super::domain::Domain;

verus! {

/// The mathematical view of a [`Node`].
pub ghost struct NodeModel<D: Domain> {
    /// The view of the diff accumulated to reach this node.
    pub diff: D::DiffV,
    /// The root agent's utility evaluated against that diff.
    pub score: i64,
    /// The index of the direct parent, `None` for the root.
    pub parent: Option<usize>,
    /// The index of the top-level branch this node is reachable through,
    /// `None` for the root.
    pub og_parent: Option<usize>,
    /// The display tags and indices of the children, in creation order.
    pub children: Seq<(D::DisplayAction, usize)>,
}

/// One explored state of the search tree.
pub struct Node<D: Domain> {
    pub(crate) diff: D::Diff,
    pub(crate) score: i64,
    pub(crate) parent: Option<usize>,
    pub(crate) og_parent: Option<usize>,
    pub(crate) children: Vec<(D::DisplayAction, usize)>,
}

impl<D: Domain> View for Node<D> {
    type V = NodeModel<D>;

    closed spec fn view(&self) -> NodeModel<D> {
        NodeModel {
            diff: D::diff_view(self.diff),
            score: self.score,
            parent: self.parent,
            og_parent: self.og_parent,
            children: self.children@,
        }
    }
}

impl<D: Domain> Node<D> {
    pub fn new(
        diff: D::Diff,
        score: i64,
        parent: Option<usize>,
        og_parent: Option<usize>,
        children: Vec<(D::DisplayAction, usize)>,
    ) -> (r: Node<D>)
        ensures
            r@ == (NodeModel::<D> {
                diff: D::diff_view(diff),
                score: score,
                parent: parent,
                og_parent: og_parent,
                children: children@,
            }),
    {
        Node { diff, score, parent, og_parent, children }
    }

    /// Replaces this node's child list.
    pub fn add_children(&mut self, children: Vec<(D::DisplayAction, usize)>)
        ensures
            final(self)@ == (NodeModel::<D> { children: children@, ..old(self)@ }),
    {
        self.children = children;
    }

    /// A copy of the diff accumulated at this node.
    pub fn diff(&self) -> (r: D::Diff)
        ensures
            D::diff_view(r) == self@.diff,
    {
        D::clone_diff(&self.diff)
    }

    pub fn score(&self) -> (r: i64)
        ensures
            r == self@.score,
    {
        self.score
    }

    pub fn parent(&self) -> (r: Option<usize>)
        ensures
            r == self@.parent,
    {
        self.parent
    }

    /// The index of the top-level branch this node is reachable through;
    /// `None` only for the root node.
    pub fn og_parent(&self) -> (r: Option<usize>)
        ensures
            r == self@.og_parent,
    {
        self.og_parent
    }

    pub fn children(&self) -> (r: &Vec<(D::DisplayAction, usize)>)
        ensures
            r@ == self@.children,
    {
        &self.children
    }
}

} // verus!
