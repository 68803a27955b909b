//! The registry of named actions.

use crate::event_response::{EventResponse, ResponseView};
use crate::markup_element::{ElementView, MarkupElement};
use crate::registry::{
    entries_view, find_entry, lemma_find_entry_absent, lemma_find_entry_at, register,
};
use crate::string_map::{insert_pair, lookup, Pairs, StringMap};
use crate::text::{joined, str_eq};
use vstd::prelude::*;

verus! {

/// A callback may be called with any state and any element.
pub open spec fn always_callable<F: Fn(StringMap, Option<MarkupElement>) -> EventResponse>(
    f: F,
) -> bool {
    forall|state: StringMap, node: Option<MarkupElement>| call_requires(f, (state, node))
}

/// The name of the action that every registry holds from the start: the
/// action of a tab that has none of its own.
pub const CHANGE_TAB: &'static str = "__change_tab";

/// The key of the application state that holds the id of the selected tab
/// of a tab strip.
pub open spec fn selection_key(tabs_id: Seq<char>) -> Seq<char> {
    tabs_id + ":index"@
}

/// The element that an action is called with, as a plain value.
pub open spec fn node_view(node: Option<MarkupElement>) -> Option<ElementView> {
    match node {
        Some(n) => Some(n@),
        None => None,
    }
}

/// The state after a tab was chosen: the id of the tab stands under the
/// selection key of the strip that its `tabs-id` attribute names. Without
/// a tab, or for an element without that attribute, nothing changes.
pub open spec fn change_tab_spec(state: Pairs, node: Option<ElementView>) -> Pairs {
    match node {
        Some(n) => match lookup(n.attributes, "tabs-id"@) {
            Some(strip) => insert_pair(state, selection_key(strip), n.id),
            None => state,
        },
        None => state,
    }
}

/// Whether a name stands for an action: the built-in action does from the
/// start, any other name once a callback is registered under it.
pub open spec fn is_registered<F>(entries: Seq<(Seq<char>, F)>, name: Seq<char>) -> bool {
    name == CHANGE_TAB@ || find_entry(entries, name) is Some
}

/// The entries after a callback was offered under a name: the name of the
/// built-in action is taken, so nothing changes; under any other name the
/// callback is added unless the name is registered.
pub open spec fn register_action<F>(entries: Seq<(Seq<char>, F)>, name: Seq<char>, f: F) -> Seq<
    (Seq<char>, F),
> {
    if name == CHANGE_TAB@ {
        entries
    } else {
        register(entries, name, f)
    }
}

/// What running the action of a name may answer: for the built-in action
/// the state with the tab chosen and the focus given up; for a registered
/// name what its callback answers; nothing for any other name.
pub open spec fn answers<F: Fn(StringMap, Option<MarkupElement>) -> EventResponse>(
    entries: Seq<(Seq<char>, F)>,
    name: Seq<char>,
    state: StringMap,
    node: Option<MarkupElement>,
    r: Option<EventResponse>,
) -> bool {
    if name == CHANGE_TAB@ {
        r matches Some(response) && response@ == ResponseView::CleanFocus(
            change_tab_spec(state@, node_view(node)),
        )
    } else {
        match find_entry(entries, name) {
            Some(f) => r matches Some(response) && call_ensures(f, (state, node), response),
            None => r is None,
        }
    }
}

/// The built-in action of a tab: selects the tab and gives up the focus.
pub fn change_tab(old_state: StringMap, node_wrapper: Option<MarkupElement>) -> (r: EventResponse)
    ensures
        r@ == ResponseView::CleanFocus(change_tab_spec(old_state@, node_view(node_wrapper))),
{
    let mut state = old_state;
    match node_wrapper {
        Some(node) => {
            match node.attributes.get("tabs-id") {
                Some(strip) => {
                    let key = joined(strip.as_str(), ":index");
                    state.insert(key, node.id.clone());
                },
                None => {},
            }
        },
        None => {},
    }
    EventResponse::CLEANFOCUS(state)
}

/// What a registry of actions offers. `F` is the type of the callbacks.
pub trait IActionsStorage<F: Fn(StringMap, Option<MarkupElement>) -> EventResponse>: Sized {
    /// The callbacks held, in the order in which they were registered.
    spec fn entries(&self) -> Seq<(Seq<char>, F)>;

    fn has_action(&self, name: String) -> (r: bool)
        ensures
            r == is_registered(self.entries(), name@),
    ;

    fn add_action(&mut self, name: String, render: F) -> (r: &mut Self)
        requires
            forall|state: StringMap, node: Option<MarkupElement>|
                call_requires(render, (state, node)),
        ensures
            r.entries() == register_action(old(self).entries(), name@, render),
            final(self).entries() == final(r).entries(),
    ;

    fn execute(&self, name: String, state: StringMap, node: Option<MarkupElement>) -> (r: Option<
        EventResponse,
    >)
        ensures
            answers(self.entries(), name@, state, node, r),
    ;
}

/// A registry of named actions. It holds the built-in action of a tab
/// from the start, under a name that no callback can take. Of the
/// callbacks, the first registered under a name is the one that counts,
/// and every callback may be called with any state and any element.
pub struct ActionsStorage<F: Fn(StringMap, Option<MarkupElement>) -> EventResponse> {
    storage: Vec<(String, F)>,
}

impl<F: Fn(StringMap, Option<MarkupElement>) -> EventResponse> View for ActionsStorage<F> {
    type V = Seq<(Seq<char>, F)>;

    closed spec fn view(&self) -> Seq<(Seq<char>, F)> {
        entries_view(self.storage@)
    }
}

impl<F: Fn(StringMap, Option<MarkupElement>) -> EventResponse> ActionsStorage<F> {
    #[verifier::type_invariant]
    spec fn callable(&self) -> bool {
        forall|i: int|
            0 <= i < self.storage@.len() ==> always_callable(#[trigger] self.storage@[i].1)
    }

    /// The registry with the built-in action and no callback.
    pub fn new() -> (r: Self)
        ensures
            r@ == Seq::<(Seq<char>, F)>::empty(),
            is_registered(r@, CHANGE_TAB@),
            forall|name: Seq<char>| #[trigger] is_registered(r@, name) <==> name == CHANGE_TAB@,
    {
        let r = ActionsStorage { storage: Vec::new() };
        assert(r@ =~= Seq::<(Seq<char>, F)>::empty());
        r
    }

    fn position(&self, name: &str) -> (r: Option<usize>)
        ensures
            match r {
                Some(i) => i < self.storage@.len() && find_entry(self@, name@) == Some(
                    self.storage@[i as int].1,
                ) && always_callable(self.storage@[i as int].1),
                None => find_entry(self@, name@) is None,
            },
    {
        proof {
            use_type_invariant(self);
        }
        let mut i: usize = 0;
        while i < self.storage.len()
            invariant
                i <= self.storage.len(),
                forall|j: int| 0 <= j < i ==> self@[j].0 != name@,
            decreases self.storage.len() - i,
        {
            if str_eq(self.storage[i].0.as_str(), name) {
                proof {
                    use_type_invariant(self);
                    lemma_find_entry_at(self@, name@, i as int);
                    assert(always_callable(self.storage@[i as int].1));
                }
                return Some(i);
            }
            i = i + 1;
        }
        proof {
            lemma_find_entry_absent(self@, name@);
        }
        None
    }

    /// Whether a name stands for an action.
    pub fn contains(&self, name: &str) -> (r: bool)
        ensures
            r == is_registered(self@, name@),
    {
        str_eq(name, CHANGE_TAB) || self.position(name).is_some()
    }

    /// Registers a callback under a name, unless the name stands for an
    /// action already.
    pub fn register(&mut self, name: String, action: F)
        requires
            always_callable(action),
        ensures
            final(self)@ == register_action(old(self)@, name@, action),
    {
        proof {
            use_type_invariant(&*self);
        }
        if !str_eq(name.as_str(), CHANGE_TAB) && self.position(name.as_str()).is_none() {
            let ghost before = self@;
            let mut storage: Vec<(String, F)> = Vec::new();
            std::mem::swap(&mut storage, &mut self.storage);
            storage.push((name, action));
            assert(entries_view(storage@) =~= before.push((name@, action)));
            self.storage = storage;
        }
    }

    /// Runs the action of a name, if the name stands for one.
    pub fn call(&self, name: &str, state: StringMap, node: Option<MarkupElement>) -> (r: Option<
        EventResponse,
    >)
        ensures
            answers(self@, name@, state, node, r),
    {
        if str_eq(name, CHANGE_TAB) {
            return Some(change_tab(state, node));
        }
        match self.position(name) {
            Some(i) => {
                let f = &self.storage[i].1;
                Some(f(state, node))
            },
            None => None,
        }
    }
}

impl<F: Fn(StringMap, Option<MarkupElement>) -> EventResponse> Default for ActionsStorage<F> {
    fn default() -> (r: Self)
        ensures
            r@ == Seq::<(Seq<char>, F)>::empty(),
            is_registered(r@, CHANGE_TAB@),
    {
        ActionsStorage::new()
    }
}

impl<F: Fn(StringMap, Option<MarkupElement>) -> EventResponse> IActionsStorage<
    F,
> for ActionsStorage<F> {
    open spec fn entries(&self) -> Seq<(Seq<char>, F)> {
        self@
    }

    fn has_action(&self, name: String) -> (r: bool) {
        self.contains(name.as_str())
    }

    fn add_action(&mut self, name: String, render: F) -> (r: &mut Self) {
        self.register(name, render);
        self
    }

    fn execute(&self, name: String, state: StringMap, node: Option<MarkupElement>) -> (r: Option<
        EventResponse,
    >) {
        self.call(name.as_str(), state, node)
    }
}

} // verus!
