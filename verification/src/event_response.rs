//! What an action or a key handler asks of the event loop.

use crate::string_map::{Pairs, StringMap};
use vstd::prelude::*;

verus! {

/// The answer of an action or of a key handler.
#[allow(non_camel_case_types)]
#[derive(Debug)]
pub enum EventResponse {
    /// Nothing changes.
    NOOP,
    /// The event loop ends.
    QUIT,
    /// The application state is replaced.
    STATE(StringMap),
    /// The application state is replaced and the focus is cleared.
    CLEANFOCUS(StringMap),
}

/// The mathematical value of an `EventResponse`.
pub enum ResponseView {
    Noop,
    Quit,
    State(Pairs),
    CleanFocus(Pairs),
}

impl View for EventResponse {
    type V = ResponseView;

    open spec fn view(&self) -> ResponseView {
        match self {
            EventResponse::NOOP => ResponseView::Noop,
            EventResponse::QUIT => ResponseView::Quit,
            EventResponse::STATE(state) => ResponseView::State(state@),
            EventResponse::CLEANFOCUS(state) => ResponseView::CleanFocus(state@),
        }
    }
}

} // verus!
