//! One element of a markup tree.

use crate::string_map::{Pairs, StringMap};
use crate::text::{clone_strings, contains_string, opt_view, owned, strings_view};
use vstd::prelude::*;

verus! {

/// One element of the markup: a tag with its attributes and its text.
/// `position`, `children` and `parent_node` are positions in the tree that
/// holds the element.
#[derive(Debug)]
pub struct MarkupElement {
    /// The place of the element in its tree; none for an element that a
    /// layout made up.
    pub position: Option<usize>,
    /// The number of ancestors.
    pub deep: usize,
    pub id: String,
    /// The tag, in lower case.
    pub name: String,
    /// The place in the focus order; -1 for an element that takes no focus.
    pub order: i32,
    pub text: Option<String>,
    pub attributes: StringMap,
    pub children: Vec<usize>,
    pub parent_node: Option<usize>,
    /// The ids of which one must be drawn before this element may be.
    pub dependencies: Vec<String>,
}

/// The mathematical value of an element.
pub struct ElementView {
    pub position: Option<usize>,
    pub deep: usize,
    pub id: Seq<char>,
    pub name: Seq<char>,
    pub order: i32,
    pub text: Option<Seq<char>>,
    pub attributes: Pairs,
    pub children: Seq<usize>,
    pub parent_node: Option<usize>,
    pub dependencies: Seq<Seq<char>>,
}

impl View for MarkupElement {
    type V = ElementView;

    open spec fn view(&self) -> ElementView {
        ElementView {
            position: self.position,
            deep: self.deep,
            id: self.id@,
            name: self.name@,
            order: self.order,
            text: opt_view(self.text),
            attributes: self.attributes@,
            children: self.children@,
            parent_node: self.parent_node,
            dependencies: strings_view(self.dependencies@),
        }
    }
}

/// The values of a list of elements, in order.
pub open spec fn elements_view(v: Seq<MarkupElement>) -> Seq<ElementView> {
    v.map_values(|e: MarkupElement| e@)
}

/// The ids of a list of elements, in order.
pub open spec fn element_ids(v: Seq<ElementView>) -> Seq<Seq<char>> {
    v.map_values(|e: ElementView| e.id)
}

/// The element with a dependency added at the end.
pub open spec fn with_dependency(e: ElementView, dependency: Option<Seq<char>>) -> ElementView {
    match dependency {
        Some(id) => ElementView { dependencies: e.dependencies.push(id), ..e },
        None => e,
    }
}

/// The element with a dependency added at the end, unless it has it.
pub open spec fn ensure_dependency(e: ElementView, dependency: Option<Seq<char>>) -> ElementView {
    match dependency {
        Some(id) => if e.dependencies.contains(id) {
            e
        } else {
            ElementView { dependencies: e.dependencies.push(id), ..e }
        },
        None => e,
    }
}

/// A copy of an optional string.
pub fn clone_text(text: &Option<String>) -> (r: Option<String>)
    ensures
        opt_view(r) == opt_view(*text),
{
    match text {
        Some(s) => Some(s.clone()),
        None => None,
    }
}

impl Clone for MarkupElement {
    fn clone(&self) -> (r: Self)
        ensures
            r@ == self@,
    {
        MarkupElement {
            position: self.position,
            deep: self.deep,
            id: self.id.clone(),
            name: self.name.clone(),
            order: self.order,
            text: clone_text(&self.text),
            attributes: self.attributes.clone(),
            children: self.children.clone(),
            parent_node: self.parent_node,
            dependencies: clone_strings(&self.dependencies),
        }
    }
}

impl MarkupElement {
    /// Adds a dependency at the end of the list.
    pub fn add_dependency(&mut self, id: &str)
        ensures
            final(self)@ == with_dependency(old(self)@, Some(id@)),
    {
        let ghost before = strings_view(self.dependencies@);
        self.dependencies.push(owned(id));
        assert(strings_view(self.dependencies@) =~= before.push(id@));
    }

    /// Adds a dependency at the end of the list, unless the list has it.
    pub fn require_dependency(&mut self, id: &str)
        ensures
            final(self)@ == ensure_dependency(old(self)@, Some(id@)),
    {
        if !contains_string(&self.dependencies, id) {
            self.add_dependency(id);
        }
    }
}

/// A copy of a list of elements.
pub fn clone_elements(v: &Vec<MarkupElement>) -> (r: Vec<MarkupElement>)
    ensures
        elements_view(r@) == elements_view(v@),
        r@.len() == v@.len(),
{
    let mut out: Vec<MarkupElement> = Vec::new();
    let mut i: usize = 0;
    while i < v.len()
        invariant
            i <= v.len(),
            out@.len() == i,
            forall|j: int| 0 <= j < i ==> out@[j]@ == v@[j]@,
        decreases v.len() - i,
    {
        out.push(v[i].clone());
        i = i + 1;
    }
    proof {
        assert(elements_view(out@) =~= elements_view(v@));
    }
    out
}

} // verus!
