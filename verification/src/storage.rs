//! The registry of renderers that stand in for the built-in drawing of a
//! tag.

use crate::registry::{
    entries_view, find_entry, lemma_find_entry_absent, lemma_find_entry_at, register,
};
use crate::text::{owned, str_eq};
use vstd::prelude::*;

verus! {

/// What a registry of renderers offers. `R` is the type of the renderers;
/// calling one is left to the painter that owns the frame.
pub trait IRendererStorage<R>: Sized {
    /// The entries held, in the order in which they were registered.
    spec fn entries(&self) -> Seq<(Seq<char>, R)>;

    fn has_component(&self, tagname: &str) -> (r: bool)
        ensures
            r == (find_entry(self.entries(), tagname@) is Some),
    ;

    fn add_renderer(&mut self, tagname: &str, render: R) -> (r: &mut Self)
        ensures
            r.entries() == register(old(self).entries(), tagname@, render),
            final(self).entries() == final(r).entries(),
    ;
}

/// A registry of renderers by tag. The first renderer registered under a
/// tag is the one that counts.
pub struct RendererStorage<R> {
    storage: Vec<(String, R)>,
}

impl<R> View for RendererStorage<R> {
    type V = Seq<(Seq<char>, R)>;

    closed spec fn view(&self) -> Seq<(Seq<char>, R)> {
        entries_view(self.storage@)
    }
}

impl<R> RendererStorage<R> {
    /// The registry without any renderer.
    pub fn new() -> (r: Self)
        ensures
            r@ == Seq::<(Seq<char>, R)>::empty(),
    {
        let r = RendererStorage { storage: Vec::new() };
        assert(r@ =~= Seq::<(Seq<char>, R)>::empty());
        r
    }

    /// The first renderer registered under a tag.
    pub fn renderer(&self, tagname: &str) -> (r: Option<&R>)
        ensures
            match find_entry(self@, tagname@) {
                Some(x) => r matches Some(y) && *y == x,
                None => r is None,
            },
    {
        let mut i: usize = 0;
        while i < self.storage.len()
            invariant
                i <= self.storage.len(),
                forall|j: int| 0 <= j < i ==> self@[j].0 != tagname@,
            decreases self.storage.len() - i,
        {
            if str_eq(self.storage[i].0.as_str(), tagname) {
                proof {
                    lemma_find_entry_at(self@, tagname@, i as int);
                }
                return Some(&self.storage[i].1);
            }
            i = i + 1;
        }
        proof {
            lemma_find_entry_absent(self@, tagname@);
        }
        None
    }

    /// Whether a renderer is registered under a tag.
    pub fn contains(&self, tagname: &str) -> (r: bool)
        ensures
            r == (find_entry(self@, tagname@) is Some),
    {
        self.renderer(tagname).is_some()
    }

    /// Registers a renderer under a tag, unless the tag has one.
    pub fn register(&mut self, tagname: &str, render: R)
        ensures
            final(self)@ == register(old(self)@, tagname@, render),
    {
        if !self.contains(tagname) {
            let ghost before = self@;
            self.storage.push((owned(tagname), render));
            assert(self@ =~= before.push((tagname@, render)));
        }
    }
}

impl<R> Default for RendererStorage<R> {
    fn default() -> (r: Self)
        ensures
            r@ == Seq::<(Seq<char>, R)>::empty(),
    {
        RendererStorage::new()
    }
}

impl<R> IRendererStorage<R> for RendererStorage<R> {
    open spec fn entries(&self) -> Seq<(Seq<char>, R)> {
        self@
    }

    fn has_component(&self, tagname: &str) -> (r: bool) {
        self.contains(tagname)
    }

    fn add_renderer(&mut self, tagname: &str, render: R) -> (r: &mut Self) {
        self.register(tagname, render);
        self
    }
}

} // verus!
