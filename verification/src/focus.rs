//! Keyboard focus: the focus order, the focused place in it, and the
//! scopes that narrow it while a dialog is shown.

use crate::event_response::EventResponse;
use crate::layout::{button_labels, dialog_button, dialog_labels, make_dialog_button};
use crate::markup_element::{elements_view, ElementView, MarkupElement};
use crate::markup_parser::{contexts_view, MarkupParser, Session};
use crate::string_map::StringMap;
use crate::text::{owned, str_eq, strings_view};
use crate::tree::MarkupTree;
use vstd::prelude::*;

verus! {

/// The session with the focus moved on: to the next place of the focus
/// order, from none to the first, and from the last to none.
pub open spec fn advance(s: Session) -> Session {
    Session {
        current: if s.current > s.indexed.len() - 2 {
            -1i32
        } else {
            (s.current + 1) as i32
        },
        ..s
    }
}

/// The session with the focus moved back: to the place before, from the
/// first to none, and from none to the last.
pub open spec fn retreat(s: Session) -> Session {
    Session {
        current: if s.current < 0 {
            (s.indexed.len() - 1) as i32
        } else {
            (s.current - 1) as i32
        },
        ..s
    }
}

/// The session after `count` moves of the focus onward.
pub open spec fn advance_by(s: Session, count: nat) -> Session
    decreases count,
{
    if count == 0 {
        s
    } else {
        advance(advance_by(s, (count - 1) as nat))
    }
}

/// Those of the first `k` of the given positions of a tree whose element
/// can take focus, in order.
pub open spec fn focusable_children(t: Seq<ElementView>, kids: Seq<usize>, k: int) -> Seq<
    ElementView,
>
    decreases k,
{
    if k <= 0 {
        Seq::empty()
    } else {
        let before = focusable_children(t, kids, k - 1);
        let c = kids[k - 1] as int;
        if c < t.len() && t[c].order > -1 {
            before.push(t[c])
        } else {
            before
        }
    }
}

/// Those of the first `k` buttons of a dialog that can take focus.
pub open spec fn focusable_buttons(dialog: ElementView, k: int) -> Seq<ElementView>
    decreases k,
{
    if k <= 0 {
        Seq::empty()
    } else {
        let before = focusable_buttons(dialog, k - 1);
        let button = dialog_button(dialog, k - 1);
        if button.order > -1 {
            before.push(button)
        } else {
            before
        }
    }
}

/// The focus order inside an element: its children that can take focus,
/// and for a dialog its buttons after them.
pub open spec fn scope_members(t: Seq<ElementView>, node: ElementView) -> Seq<ElementView> {
    focusable_children(t, node.children, node.children.len() as int) + if node.name == "dialog"@ {
        focusable_buttons(node, button_labels(node).len() as int)
    } else {
        Seq::empty()
    }
}

/// The session after the scope of an element was entered: unless the scope
/// on top is that of the element, the focus order is put aside on the
/// stack, `members` take its place, and nothing is focused.
pub open spec fn enter_scope(s: Session, id: Seq<char>, members: Seq<ElementView>) -> Session {
    if s.contexts.len() == 0 || s.contexts.last().0 != id {
        Session {
            current: -1i32,
            indexed: members,
            contexts: s.contexts.push((id, s.indexed)),
            fingerprint: "<>"@,
            ..s
        }
    } else {
        Session { fingerprint: "<>"@, ..s }
    }
}

/// The session after the scope of an element was left: where the scope on
/// top is that of the element, it is taken off the stack, the focus order
/// it put aside is back, and nothing is focused.
pub open spec fn leave_scope(s: Session, id: Seq<char>) -> Session {
    if s.contexts.len() > 0 && s.contexts.last().0 == id {
        Session {
            current: -1i32,
            indexed: s.contexts.last().1,
            contexts: s.contexts.drop_last(),
            fingerprint: "<>"@,
            ..s
        }
    } else {
        Session { fingerprint: "<>"@, ..s }
    }
}

/// From no focus, `k` moves onward focus place `k - 1` as long as `k` is at
/// most the size of the focus order, and one move more gives up the focus:
/// a full cycle has one move more than the focus order has places, and
/// only its last move ends without focus.
pub proof fn lemma_focus_cycle(s: Session, k: nat)
    requires
        s.current == -1,
        s.indexed.len() <= i32::MAX,
        k <= s.indexed.len() + 1,
    ensures
        k <= s.indexed.len() ==> advance_by(s, k).current == k - 1,
        k == s.indexed.len() + 1 ==> advance_by(s, k).current == -1,
        advance_by(s, k).indexed == s.indexed,
        advance_by(s, k).contexts == s.contexts,
        advance_by(s, k).state == s.state,
    decreases k,
{
    if k > 0 {
        lemma_focus_cycle(s, (k - 1) as nat);
    }
}

/// Moving back undoes moving on, wherever the focus is in the focus order.
pub proof fn lemma_retreat_undoes_advance(s: Session)
    requires
        -1 <= s.current < s.indexed.len(),
        s.indexed.len() <= i32::MAX,
    ensures
        retreat(advance(s)) == s,
        advance(retreat(s)) == s,
{
}

/// Leaving a scope that was just entered brings back the focus order and
/// the stack of before, with nothing focused.
pub proof fn lemma_scope_round_trip(s: Session, id: Seq<char>, members: Seq<ElementView>)
    requires
        s.contexts.len() == 0 || s.contexts.last().0 != id,
    ensures
        leave_scope(enter_scope(s, id, members), id).indexed == s.indexed,
        leave_scope(enter_scope(s, id, members), id).contexts == s.contexts,
        leave_scope(enter_scope(s, id, members), id).state == s.state,
        leave_scope(enter_scope(s, id, members), id).current == -1,
        enter_scope(s, id, members).indexed == members,
        enter_scope(enter_scope(s, id, members), id, members) == enter_scope(s, id, members),
{
    let entered = enter_scope(s, id, members);
    assert(entered.contexts.drop_last() =~= s.contexts);
}

impl MarkupTree {
    /// The focus order inside an element, as `scope_members` defines it.
    pub fn members_of(&self, node: &MarkupElement) -> (r: Vec<MarkupElement>)
        ensures
            elements_view(r@) == scope_members(self@, node@),
    {
        let mut out: Vec<MarkupElement> = Vec::new();
        let total = self.len();
        let mut i: usize = 0;
        proof {
            assert(elements_view(out@) =~= focusable_children(self@, node@.children, 0));
        }
        while i < node.children.len()
            invariant
                i <= node.children.len(),
                total == self@.len(),
                elements_view(out@) == focusable_children(self@, node@.children, i as int),
            decreases node.children.len() - i,
        {
            let c = node.children[i];
            if c < total {
                let child = self.node(c);
                if child.order > -1 {
                    let ghost before = elements_view(out@);
                    out.push(child.clone());
                    proof {
                        assert(elements_view(out@) =~= before.push(self@[c as int]));
                    }
                }
            }
            i = i + 1;
        }
        if str_eq(node.name.as_str(), "dialog") {
            let labels = dialog_labels(node);
            let ghost children = elements_view(out@);
            let mut k: usize = 0;
            proof {
                assert(elements_view(out@) =~= children + focusable_buttons(node@, 0));
            }
            while k < labels.len()
                invariant
                    k <= labels.len(),
                    strings_view(labels@) == button_labels(node@),
                    elements_view(out@) == children + focusable_buttons(node@, k as int),
                decreases labels.len() - k,
            {
                let button = make_dialog_button(node, &labels, k);
                if button.order > -1 {
                    let ghost before = elements_view(out@);
                    let ghost value = button@;
                    out.push(button);
                    proof {
                        assert(elements_view(out@) =~= before.push(value));
                        assert(elements_view(out@) =~= children + focusable_buttons(node@, k + 1));
                    }
                }
                k = k + 1;
            }
        } else {
            proof {
                assert(elements_view(out@) =~= elements_view(out@) + Seq::<ElementView>::empty());
            }
        }
        out
    }
}

impl<F: Fn(StringMap, Option<MarkupElement>) -> EventResponse, R> MarkupParser<F, R> {
    /// Moves the focus on and tells the focused place.
    pub fn go_next(&mut self) -> (r: i32)
        requires
            old(self).indexed_elements@.len() <= i32::MAX,
        ensures
            final(self).session() == advance(old(self).session()),
            final(self).same_markup(old(self)),
            r == final(self).current,
    {
        let size: i32 = (self.indexed_elements.len() as i32) - 2;
        if self.current > size {
            self.current = -1;
        } else {
            self.current = self.current + 1;
        }
        self.current
    }

    /// Moves the focus back and tells the focused place.
    pub fn go_prev(&mut self) -> (r: i32)
        requires
            old(self).indexed_elements@.len() <= i32::MAX,
        ensures
            final(self).session() == retreat(old(self).session()),
            final(self).same_markup(old(self)),
            r == final(self).current,
    {
        let size: i32 = (self.indexed_elements.len() as i32) - 1;
        if self.current < 0 {
            self.current = size;
        } else {
            self.current = self.current - 1;
        }
        self.current
    }

    /// Enters the scope of an element, as `enter_scope` defines it, with
    /// the focus order of `scope_members`.
    pub fn add_context(&mut self, node: &MarkupElement)
        ensures
            final(self).session() == enter_scope(
                old(self).session(),
                node@.id,
                scope_members(old(self).tree@, node@),
            ),
            final(self).same_markup(old(self)),
    {
        let loc = self.contexts.len();
        let must_insert = loc == 0 || !str_eq(self.contexts[loc - 1].0.as_str(), node.id.as_str());
        if must_insert {
            let mut members = self.tree.members_of(node);
            let ghost before = contexts_view(self.contexts@);
            let ghost focus = elements_view(self.indexed_elements@);
            std::mem::swap(&mut self.indexed_elements, &mut members);
            self.contexts.push((node.id.clone(), members));
            self.current = -1;
            proof {
                assert(contexts_view(self.contexts@) =~= before.push((node@.id, focus)));
            }
        }
        self.fingerprint = owned("<>");
    }

    /// Leaves the scope of an element, as `leave_scope` defines it.
    pub fn remove_context(&mut self, node: &MarkupElement)
        ensures
            final(self).session() == leave_scope(old(self).session(), node@.id),
            final(self).same_markup(old(self)),
    {
        let loc = self.contexts.len();
        if loc > 0 && str_eq(self.contexts[loc - 1].0.as_str(), node.id.as_str()) {
            let ghost before = contexts_view(self.contexts@);
            match self.contexts.pop() {
                Some(top) => {
                    self.indexed_elements = top.1;
                    self.current = -1;
                    proof {
                        assert(contexts_view(self.contexts@) =~= before.drop_last());
                    }
                },
                None => {},
            }
        }
        self.fingerprint = owned("<>");
    }
}

} // verus!
