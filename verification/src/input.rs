//! What keys do to an interface, and the fingerprint that tells whether it
//! must be drawn again.

use crate::actions::{change_tab_spec, CHANGE_TAB};
use crate::event_response::{EventResponse, ResponseView};
use crate::focus::{advance, retreat};
use crate::markup_element::{element_ids, elements_view, ElementView, MarkupElement};
use crate::markup_parser::{MarkupParser, Session};
use crate::registry::find_entry;
use crate::string_map::{lookup_or_empty, Pairs, StringMap};
use crate::text::{integer_text, integer_to_string, natural_text, natural_to_string, str_eq};
use vstd::prelude::*;

verus! {

/// The keys that the interface itself acts on.
#[derive(Clone, Copy, Debug, PartialEq, Eq, Structural)]
pub enum Key {
    /// Focus onward.
    Tab,
    /// Focus back.
    BackTab,
    /// The action of the focused element.
    Enter,
    /// Any other key.
    Other,
}

/// The texts of a list, with `~` between them.
pub open spec fn join_ids(ids: Seq<Seq<char>>) -> Seq<char>
    decreases ids.len(),
{
    if ids.len() == 0 {
        Seq::empty()
    } else if ids.len() == 1 {
        ids[0]
    } else {
        join_ids(ids.drop_last()) + "~"@ + ids.last()
    }
}

/// The entries of a state, each as `-key_value`, in the order of the
/// state.
pub open spec fn state_text(state: Pairs) -> Seq<char>
    decreases state.len(),
{
    if state.len() == 0 {
        Seq::empty()
    } else {
        state_text(state.drop_last()) + "-"@ + state.last().0 + "_"@ + state.last().1
    }
}

/// The fingerprint of a session: the focused place, the number of scopes,
/// the ids of the focus order and the entries of the state.
pub open spec fn fingerprint_of(s: Session) -> Seq<char> {
    integer_text(s.current as int) + ":"@ + natural_text(s.contexts.len()) + ":"@ + join_ids(
        element_ids(s.indexed),
    ) + ":"@ + state_text(s.state)
}

/// The focused element.
pub open spec fn focused_element(s: Session) -> Option<ElementView> {
    if 0 <= s.current < s.indexed.len() {
        Some(s.indexed[s.current as int])
    } else {
        None
    }
}

/// The session after a response was applied: a new state replaces the old
/// one, and with `CleanFocus` nothing is focused.
pub open spec fn after_response(s: Session, response: ResponseView) -> Session {
    match response {
        ResponseView::Noop => s,
        ResponseView::Quit => s,
        ResponseView::State(state) => Session { state, ..s },
        ResponseView::CleanFocus(state) => Session { state, current: -1i32, ..s },
    }
}

/// The fingerprint does not depend on the fingerprint that was noted: once
/// the fingerprint of a session is noted, the session needs no drawing
/// until its focus, its scopes, its focus order or its state change.
pub proof fn lemma_fingerprint_settles(s: Session)
    ensures
        ({
            let noted = Session { fingerprint: fingerprint_of(s), ..s };
            fingerprint_of(noted) == noted.fingerprint
        }),
{
}

impl<F: Fn(StringMap, Option<MarkupElement>) -> EventResponse, R> MarkupParser<F, R> {
    /// The fingerprint of the session, as `fingerprint_of` defines it.
    pub fn get_fingerprint(&self) -> (r: String)
        ensures
            r@ == fingerprint_of(self.session()),
    {
        let mut text = integer_to_string(self.current as i64);
        text.append(":");
        let depth = natural_to_string(self.contexts.len() as u64);
        text.append(depth.as_str());
        text.append(":");
        let ghost prefix = text@;
        let ghost ids = element_ids(elements_view(self.indexed_elements@));
        let mut i: usize = 0;
        proof {
            assert(text@ =~= prefix + join_ids(ids.subrange(0, 0)));
        }
        while i < self.indexed_elements.len()
            invariant
                i <= self.indexed_elements.len(),
                ids == element_ids(elements_view(self.indexed_elements@)),
                text@ == prefix + join_ids(ids.subrange(0, i as int)),
            decreases self.indexed_elements.len() - i,
        {
            proof {
                let p = ids.subrange(0, i + 1);
                assert(p.drop_last() =~= ids.subrange(0, i as int));
                assert(p.last() == self.indexed_elements@[i as int]@.id);
                if i == 0 {
                    assert(join_ids(ids.subrange(0, 0)) =~= Seq::<char>::empty());
                    assert(p[0] == p.last());
                }
            }
            if i > 0 {
                text.append("~");
            }
            text.append(self.indexed_elements[i].id.as_str());
            proof {
                let p = ids.subrange(0, i + 1);
                if i > 0 {
                    assert(text@ =~= prefix + (join_ids(p.drop_last()) + "~"@ + p.last()));
                } else {
                    assert(text@ =~= prefix + p[0]);
                }
            }
            i = i + 1;
        }
        text.append(":");
        proof {
            assert(ids.subrange(0, self.indexed_elements.len() as int) =~= ids);
        }
        let ghost head = text@;
        let ghost state = self.state@;
        let mut k: usize = 0;
        let count = self.state.len();
        proof {
            assert(state.subrange(0, 0) =~= Seq::<(Seq<char>, Seq<char>)>::empty());
            assert(text@ =~= head + state_text(state.subrange(0, 0)));
        }
        while k < count
            invariant
                k <= count,
                count == state.len(),
                state == self.state@,
                text@ == head + state_text(state.subrange(0, k as int)),
            decreases count - k,
        {
            proof {
                let p = state.subrange(0, k + 1);
                assert(p.drop_last() =~= state.subrange(0, k as int));
                assert(p.last() == state[k as int]);
            }
            let ghost before = state_text(state.subrange(0, k as int));
            text.append("-");
            text.append(self.state.key_at(k).as_str());
            text.append("_");
            text.append(self.state.value_at(k).as_str());
            proof {
                assert(text@ =~= head + (before + "-"@ + state[k as int].0 + "_"@
                    + state[k as int].1));
            }
            k = k + 1;
        }
        proof {
            assert(state.subrange(0, count as int) =~= state);
        }
        text
    }

    /// Whether the session has changed since it was drawn last.
    pub fn needs_render(&self) -> (r: bool)
        ensures
            r == (fingerprint_of(self.session()) != self.session().fingerprint),
    {
        let now = self.get_fingerprint();
        !str_eq(now.as_str(), self.fingerprint.as_str())
    }

    /// Notes the fingerprint of the session as the one that was drawn.
    pub fn update_fingerprint(&mut self)
        ensures
            final(self).session() == (Session {
                fingerprint: fingerprint_of(old(self).session()),
                ..old(self).session()
            }),
            final(self).same_markup(old(self)),
    {
        self.fingerprint = self.get_fingerprint();
    }

    /// What the action of the focused element may answer: nothing without
    /// a focused element; for the built-in action of a tab the state with
    /// the tab chosen and the focus given up; else what the callback
    /// registered under the element's `action` attribute answers to the
    /// state and the element, or nothing where none is registered.
    pub open spec fn action_outcome(&self, response: EventResponse) -> bool {
        match focused_element(self.session()) {
            None => response@ == ResponseView::Noop,
            Some(element) => {
                let action = lookup_or_empty(element.attributes, "action"@);
                if action == CHANGE_TAB@ {
                    response@ == ResponseView::CleanFocus(
                        change_tab_spec(self.state@, Some(element)),
                    )
                } else {
                    match find_entry(self.actions@, action) {
                        None => response@ == ResponseView::Noop,
                        Some(f) => exists|state: StringMap, node: MarkupElement|
                            state@ == self.state@ && node@ == element && #[trigger] call_ensures(
                                f,
                                (state, Some(node)),
                                response,
                            ),
                    }
                }
            },
        }
    }

    /// Runs the action of the focused element and tells its answer.
    pub fn do_action(&self) -> (r: EventResponse)
        ensures
            self.action_outcome(r),
    {
        if self.current >= 0 && (self.current as usize) < self.indexed_elements.len() {
            let current = self.indexed_elements[self.current as usize].clone();
            let action = current.attributes.get_or_empty("action");
            let state = self.state.clone();
            match self.actions.call(action.as_str(), state, Some(current)) {
                Some(response) => response,
                None => EventResponse::NOOP,
            }
        } else {
            EventResponse::NOOP
        }
    }

    /// Applies a response, as `after_response` defines it, and tells
    /// whether the event loop is to end.
    pub fn apply_response(&mut self, response: EventResponse) -> (quit: bool)
        ensures
            final(self).session() == after_response(old(self).session(), response@),
            final(self).same_markup(old(self)),
            quit == (response@ is Quit),
    {
        match response {
            EventResponse::QUIT => true,
            EventResponse::STATE(state) => {
                self.state = state;
                false
            },
            EventResponse::CLEANFOCUS(state) => {
                self.state = state;
                self.current = -1;
                false
            },
            EventResponse::NOOP => false,
        }
    }

    /// What a key may do to a session: `Tab` and `BackTab` move the focus,
    /// `Enter` applies the answer of the action of the focused element,
    /// any other key does nothing. Only an answer can end the event loop.
    pub open spec fn key_outcome(&self, key: Key, after: Session, quit: bool) -> bool {
        match key {
            Key::Tab => after == advance(self.session()) && !quit,
            Key::BackTab => after == retreat(self.session()) && !quit,
            Key::Enter => exists|response: EventResponse| #[trigger]
                self.action_outcome(response) && after == after_response(
                    self.session(),
                    response@,
                ) && quit == (response@ is Quit),
            Key::Other => after == self.session() && !quit,
        }
    }

    /// Acts on a key, as `key_outcome` defines it, and tells whether the
    /// event loop is to end.
    pub fn key_pressed(&mut self, key: Key) -> (quit: bool)
        requires
            old(self).indexed_elements@.len() <= i32::MAX,
        ensures
            old(self).key_outcome(key, final(self).session(), quit),
            final(self).same_markup(old(self)),
    {
        match key {
            Key::Tab => {
                self.go_next();
                false
            },
            Key::BackTab => {
                self.go_prev();
                false
            },
            Key::Enter => {
                let response = self.do_action();
                let ghost answer = response;
                let quit = self.apply_response(response);
                proof {
                    assert(old(self).action_outcome(answer));
                }
                quit
            },
            Key::Other => false,
        }
    }

    /// Handles one input: first the interface acts on the key, then the
    /// caller's handler is asked with the input and a copy of the state,
    /// and its answer is applied. The event loop is to end where either
    /// answer says so.
    pub fn on_key<K, H: Fn(K, StringMap) -> EventResponse>(
        &mut self,
        key: Key,
        input: K,
        on_event: &H,
    ) -> (quit: bool)
        requires
            old(self).indexed_elements@.len() <= i32::MAX,
            forall|state: StringMap| call_requires(*on_event, (input, state)),
        ensures
            final(self).same_markup(old(self)),
            exists|between: Session, first: bool, snapshot: StringMap, response: EventResponse|
                {
                    &&& #[trigger] old(self).key_outcome(key, between, first)
                    &&& snapshot@ == between.state
                    &&& #[trigger] call_ensures(*on_event, (input, snapshot), response)
                    &&& final(self).session() == after_response(between, response@)
                    &&& quit == (first || response@ is Quit)
                },
    {
        let first = self.key_pressed(key);
        let ghost between = self.session();
        let snapshot = self.state.clone();
        let ghost copy = snapshot;
        let response = on_event(input, snapshot);
        let ghost answer = response;
        let second = self.apply_response(response);
        proof {
            assert(call_ensures(*on_event, (input, copy), answer));
            assert(self.session() == after_response(between, answer@));
        }
        first || second
    }
}

} // verus!
