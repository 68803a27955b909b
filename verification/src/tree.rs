//! The element tree: every element of a markup in the order in which it
//! was opened, addressed by its position.

use crate::markup_element::{elements_view, ElementView, MarkupElement};
use vstd::prelude::*;

verus! {

/// Whether a list of positions rises strictly.
pub open spec fn increasing(s: Seq<usize>) -> bool {
    forall|a: int, b: int| 0 <= a < b < s.len() ==> s[a] < s[b]
}

/// What holds of the element at position `i` of a tree: it knows its
/// position; its depth is at most its position; without a parent its depth
/// is 0, with one it lies one level below the parent, after it, and among
/// the parent's children; its children come after it, in rising order, and
/// name it as their parent.
pub open spec fn node_wf(t: Seq<ElementView>, i: int) -> bool {
    &&& t[i].position == Some(i as usize)
    &&& t[i].deep <= i
    &&& match t[i].parent_node {
        None => t[i].deep == 0,
        Some(p) => p < i && t[i].deep == t[p as int].deep + 1 && t[p as int].children.contains(
            i as usize,
        ),
    }
    &&& increasing(t[i].children)
    &&& forall|k: int|
        0 <= k < t[i].children.len() ==> i < (#[trigger] t[i].children[k]) < t.len()
            && t[t[i].children[k] as int].parent_node == Some(i as usize)
}

/// What holds of a tree: `node_wf` of each of its elements. The first
/// element, where there is one, is the root.
pub open spec fn tree_wf(t: Seq<ElementView>) -> bool {
    forall|i: int| 0 <= i < t.len() ==> node_wf(t, i)
}

/// The elements of a markup. Each element is known by its position; an
/// element stands after its parent and before its children.
#[derive(Debug)]
pub struct MarkupTree {
    nodes: Vec<MarkupElement>,
}

impl View for MarkupTree {
    type V = Seq<ElementView>;

    closed spec fn view(&self) -> Seq<ElementView> {
        elements_view(self.nodes@)
    }
}

impl MarkupTree {
    #[verifier::type_invariant]
    spec fn well_formed(&self) -> bool {
        tree_wf(elements_view(self.nodes@))
    }

    /// The tree without any element.
    pub fn new() -> (r: Self)
        ensures
            r@.len() == 0,
    {
        MarkupTree { nodes: Vec::new() }
    }

    /// The tree of the given elements.
    pub fn from_nodes(nodes: Vec<MarkupElement>) -> (r: Self)
        requires
            tree_wf(elements_view(nodes@)),
        ensures
            r@ == elements_view(nodes@),
    {
        MarkupTree { nodes }
    }

    /// The number of elements.
    pub fn len(&self) -> (n: usize)
        ensures
            n == self@.len(),
            tree_wf(self@),
    {
        proof {
            use_type_invariant(self);
        }
        self.nodes.len()
    }

    /// The element at a position.
    pub fn node(&self, i: usize) -> (e: &MarkupElement)
        requires
            i < self@.len(),
        ensures
            e@ == self@[i as int],
            node_wf(self@, i as int),
            tree_wf(self@),
            self@.len() <= usize::MAX,
    {
        proof {
            use_type_invariant(self);
            assert(self.nodes.len() == self.nodes@.len());
        }
        &self.nodes[i]
    }

    /// The position of the root: the first element, if there is one.
    pub fn root(&self) -> (r: Option<usize>)
        ensures
            r == if self@.len() > 0 {
                Some(0usize)
            } else {
                None
            },
    {
        if self.nodes.len() > 0 {
            Some(0)
        } else {
            None
        }
    }
}

impl Clone for MarkupTree {
    fn clone(&self) -> (r: Self)
        ensures
            r@ == self@,
    {
        proof {
            use_type_invariant(self);
        }
        let nodes = crate::markup_element::clone_elements(&self.nodes);
        MarkupTree { nodes }
    }
}

/// The laws of the tree: the root is the first element, at depth 0 and
/// without a parent above it in the list; every element with a parent lies
/// exactly one level below it and is one of its children.
pub proof fn lemma_tree_depths(t: Seq<ElementView>, i: int)
    requires
        tree_wf(t),
        0 <= i < t.len(),
    ensures
        t[0].deep == 0,
        t[0].parent_node is None,
        t[i].parent_node matches Some(p) ==> p < i && t[i].deep == t[p as int].deep + 1
            && t[p as int].children.contains(i as usize),
        forall|k: int|
            0 <= k < t[i].children.len() ==> t[#[trigger] t[i].children[k] as int].deep
                == t[i].deep + 1,
{
    assert(node_wf(t, 0));
    assert(node_wf(t, i));
    assert forall|k: int| 0 <= k < t[i].children.len() implies t[#[trigger] t[i].children[k]
        as int].deep == t[i].deep + 1 by {
        let c = t[i].children[k] as int;
        assert(node_wf(t, c));
    }
}

} // verus!
