//! The markup-driven interface: the element tree of a markup source with
//! its style sheet, its focus order, the application state and the
//! registered actions.

use crate::actions::{always_callable, is_registered, register_action, ActionsStorage, CHANGE_TAB};
use crate::builder::{build, build_of, by_order, lemma_build_wf, Build};
use crate::event_response::EventResponse;
use crate::geometry::{Alignment, Direction, SizeConstraint};
use crate::grammar::{
    alignment_of, alignment_spec, border_spec, constraint_spec, direction_of, direction_spec,
    is_layout_tag, is_widget_tag, parse_border, parse_constraint, widget_tag,
};
use crate::markup_element::{elements_view, ElementView, MarkupElement};
use crate::markup_events::{events_view, markup_events, read_events, EventView, MarkupEvent};
use crate::registry::find_entry;
use crate::storage::RendererStorage;
use crate::string_map::{Pairs, StringMap};
use crate::styles::{Style, StylesStorage};
use crate::stylesheet::{element_styles, inline_style, read_stylesheet, stylesheet_spec};
use crate::text::{opt_view, owned};
use crate::tree::{tree_wf, MarkupTree};
use crate::widgets::Borders;
use vstd::prelude::*;

verus! {

/// What the event loop waits for.
#[derive(Debug)]
pub enum Event<I> {
    /// A key or another input.
    Input(I),
    /// Time has passed.
    Tick,
}

/// The part of an interface that keys and drawing change.
pub struct Session {
    /// The focused place in the focus order, or -1.
    pub current: i32,
    /// The focus order: the elements that can take focus.
    pub indexed: Seq<ElementView>,
    /// The scopes that were entered and not left, the last on top: each the
    /// id of its element and the focus order it put aside.
    pub contexts: Seq<(Seq<char>, Seq<ElementView>)>,
    /// The application state.
    pub state: Pairs,
    /// The fingerprint of the session when it was drawn last.
    pub fingerprint: Seq<char>,
}

/// The values of a stack of scopes, in order.
pub open spec fn contexts_view(v: Seq<(String, Vec<MarkupElement>)>) -> Seq<
    (Seq<char>, Seq<ElementView>),
> {
    v.map_values(|c: (String, Vec<MarkupElement>)| (c.0@, elements_view(c.1@)))
}

/// An interface read from markup. `F` is the type of the action callbacks,
/// `R` that of the renderers that stand in for the drawing of a tag.
pub struct MarkupParser<F: Fn(StringMap, Option<MarkupElement>) -> EventResponse, R> {
    pub path: String,
    pub failed: bool,
    pub error: Option<String>,
    /// The position of the root in `tree`.
    pub root: Option<usize>,
    pub tree: MarkupTree,
    pub storage: Option<RendererStorage<R>>,
    pub current: i32,
    pub indexed_elements: Vec<MarkupElement>,
    pub contexts: Vec<(String, Vec<MarkupElement>)>,
    pub state: StringMap,
    pub actions: ActionsStorage<F>,
    pub global_styles: StylesStorage,
    pub fingerprint: String,
}

/// The session of an interface that was just built: no focus, no scope,
/// the focus order of the markup and the given state, or nothing at all
/// where the markup is malformed.
pub open spec fn first_session(b: Build, initial: Option<Pairs>) -> Session {
    Session {
        current: -1i32,
        indexed: if b.error is Some {
            Seq::empty()
        } else {
            b.indexed
        },
        contexts: Seq::empty(),
        state: match initial {
            Some(s) => if b.error is Some {
                Seq::empty()
            } else {
                s
            },
            None => Seq::empty(),
        },
        fingerprint: "<empty>"@,
    }
}

/// The tags for which a renderer is registered.
pub open spec fn custom_tag<R>(storage: Option<RendererStorage<R>>, tag: Seq<char>) -> bool {
    match storage {
        Some(s) => find_entry(s@, tag) is Some,
        None => false,
    }
}

/// The view of an optional map.
pub open spec fn opt_pairs(o: Option<StringMap>) -> Option<Pairs> {
    match o {
        Some(m) => Some(m@),
        None => None,
    }
}

impl<F: Fn(StringMap, Option<MarkupElement>) -> EventResponse, R> MarkupParser<F, R> {
    /// The part of the interface that keys and drawing change.
    pub open spec fn session(&self) -> Session {
        Session {
            current: self.current,
            indexed: elements_view(self.indexed_elements@),
            contexts: contexts_view(self.contexts@),
            state: self.state@,
            fingerprint: self.fingerprint@,
        }
    }

    /// What the interface is built from does not change: its path, its
    /// tree, its style sheet, its renderers and its actions are those of
    /// `before`.
    pub open spec fn same_markup(&self, before: &Self) -> bool {
        &&& self.path@ == before.path@
        &&& self.failed == before.failed
        &&& opt_view(self.error) == opt_view(before.error)
        &&& self.root == before.root
        &&& self.tree@ == before.tree@
        &&& self.storage == before.storage
        &&& self.actions@ == before.actions@
        &&& self.global_styles@ == before.global_styles@
    }

    /// What a list of events builds: the tree, the style sheet and the
    /// focus order of `build_of`, with the given renderers and the given
    /// state. Where the events end in an error the interface is marked as
    /// failed and holds the message and nothing else.
    pub open spec fn built_from(
        &self,
        path: Seq<char>,
        events: Seq<EventView>,
        optional_storage: Option<RendererStorage<R>>,
        initial_state: Option<Pairs>,
    ) -> bool {
        let b = build_of(events);
        &&& self.path@ == path
        &&& self.failed == (b.error is Some)
        &&& opt_view(self.error) == b.error
        &&& self.tree@ == if b.error is Some {
            Seq::empty()
        } else {
            b.nodes
        }
        &&& self.root == if b.error is None && b.nodes.len() > 0 {
            Some(0usize)
        } else {
            None
        }
        &&& self.global_styles@ == if b.error is Some {
            Seq::empty()
        } else {
            b.styles
        }
        &&& self.session() == first_session(b, initial_state)
        &&& self.actions@ == Seq::<(Seq<char>, F)>::empty()
        &&& is_registered(self.actions@, CHANGE_TAB@)
        &&& match self.storage {
            Some(s) => b.error is None && match optional_storage {
                Some(given) => s == given,
                None => s@ == Seq::<(Seq<char>, R)>::empty(),
            },
            None => b.error is Some,
        }
    }

    /// Builds the interface from the events of a markup source.
    pub fn from_events(
        path: String,
        events: &Vec<MarkupEvent>,
        optional_storage: Option<RendererStorage<R>>,
        initial_state: Option<StringMap>,
    ) -> (r: Self)
        ensures
            r.built_from(path@, events_view(events@), optional_storage, opt_pairs(initial_state)),
            tree_wf(r.tree@),
            by_order(r.session().indexed),
    {
        let built = build(events);
        proof {
            assert(events.len() == events@.len());
            lemma_build_wf(events_view(events@));
        }
        if built.error.is_some() {
            let r = MarkupParser {
                path,
                failed: true,
                error: built.error,
                root: None,
                tree: MarkupTree::new(),
                storage: None,
                current: -1,
                indexed_elements: Vec::new(),
                contexts: Vec::new(),
                state: StringMap::new(),
                actions: ActionsStorage::new(),
                global_styles: StylesStorage::new(),
                fingerprint: owned("<empty>"),
            };
            proof {
                assert(r.tree@ =~= Seq::<ElementView>::empty());
                assert(elements_view(r.indexed_elements@) =~= Seq::<ElementView>::empty());
                assert(contexts_view(r.contexts@) =~= Seq::<
                    (Seq<char>, Seq<ElementView>),
                >::empty());
            }
            r
        } else {
            let storage = match optional_storage {
                Some(given) => given,
                None => RendererStorage::new(),
            };
            let state = match initial_state {
                Some(given) => given,
                None => StringMap::new(),
            };
            let tree = MarkupTree::from_nodes(built.nodes);
            let root = tree.root();
            let r = MarkupParser {
                path,
                failed: false,
                error: None,
                root,
                tree,
                storage: Some(storage),
                current: -1,
                indexed_elements: built.indexed,
                contexts: Vec::new(),
                state,
                actions: ActionsStorage::new(),
                global_styles: built.styles,
                fingerprint: owned("<empty>"),
            };
            proof {
                assert(contexts_view(r.contexts@) =~= Seq::<
                    (Seq<char>, Seq<ElementView>),
                >::empty());
            }
            r
        }
    }

    /// Reads a markup source and builds the interface from the events that
    /// the XML reader tells of it (`markup_events`).
    pub fn new(
        path: String,
        source: &[u8],
        optional_storage: Option<RendererStorage<R>>,
        initial_state: Option<StringMap>,
    ) -> (r: Self)
        ensures
            r.built_from(path@, markup_events(source@), optional_storage, opt_pairs(initial_state)),
            tree_wf(r.tree@),
            by_order(r.session().indexed),
    {
        let events = read_events(source);
        Self::from_events(path, &events, optional_storage, initial_state)
    }

    /// Registers an action under a name, unless the name has one. Nothing
    /// else of the interface changes.
    pub fn add_action(&mut self, name: &str, action: F) -> (r: &mut Self)
        requires
            always_callable(action),
        ensures
            r.actions@ == register_action(old(self).actions@, name@, action),
            r.session() == old(self).session(),
            r.path@ == old(self).path@,
            r.failed == old(self).failed,
            opt_view(r.error) == opt_view(old(self).error),
            r.tree@ == old(self).tree@,
            r.global_styles@ == old(self).global_styles@,
            r.root == old(self).root,
            r.storage == old(self).storage,
            *final(self) == *final(r),
    {
        self.actions.register(owned(name), action);
        self
    }

    /// A copy of the element at a position of the tree.
    pub fn get_element(&self, node: Option<usize>) -> (r: MarkupElement)
        requires
            node matches Some(i) && i < self.tree@.len(),
        ensures
            r@ == self.tree@[node.unwrap() as int],
    {
        match node {
            Some(i) => self.tree.node(i).clone(),
            None => {
                proof {
                    assert(false);
                }
                self.tree.node(0).clone()
            },
        }
    }

    /// A copy of the element at a position of the tree.
    pub fn extract_element(&self, node: usize) -> (r: MarkupElement)
        requires
            node < self.tree@.len(),
        ensures
            r@ == self.tree@[node as int],
    {
        self.tree.node(node).clone()
    }

    /// Whether a tag is that of a widget.
    pub fn is_widget(node_name: &str) -> (r: bool)
        ensures
            r == widget_tag(node_name@),
    {
        is_widget_tag(node_name)
    }

    /// Whether a tag is `layout`.
    pub fn is_layout(node_name: &str) -> (r: bool)
        ensures
            r == (node_name@ == "layout"@),
    {
        is_layout_tag(node_name)
    }

    /// Reads a `border` attribute, as `border_spec` defines it.
    pub fn get_border(border_value: &str) -> (r: Borders)
        ensures
            r == border_spec(border_value@),
    {
        parse_border(border_value)
    }

    /// Reads a sizing rule, as `constraint_spec` defines it.
    pub fn get_constraint(constraint: String) -> (r: SizeConstraint)
        ensures
            r == constraint_spec(constraint@),
    {
        parse_constraint(constraint.as_str())
    }

    /// The axis along which an element lays out its children: vertical
    /// where its `direction` attribute says `vertical`, else horizontal.
    pub fn get_direction(node: &MarkupElement) -> (r: Direction)
        ensures
            r == direction_spec(node@.attributes),
    {
        direction_of(node)
    }

    /// The alignment of the text of an element, from its `align`
    /// attribute.
    pub fn get_alignment(node: &MarkupElement) -> (r: Alignment)
        ensures
            r == alignment_spec(node@.attributes),
    {
        alignment_of(node)
    }

    /// Reads the rules of a style sheet from the text of an element.
    pub fn process_styles(node: MarkupElement) -> (r: StylesStorage)
        ensures
            r@ == stylesheet_spec(node@.text),
    {
        read_stylesheet(&node)
    }

    /// The inline style of an element: that of its `active_styles`
    /// attribute for an active element, else of `focus_styles` for a
    /// focused one, else of `styles`.
    pub fn get_styles(node: &MarkupElement, focus: bool, active: bool) -> (r: Style)
        ensures
            r == inline_style(node@.attributes, focus, active),
    {
        element_styles(node, focus, active)
    }
}

} // verus!
