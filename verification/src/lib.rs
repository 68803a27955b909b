//! Markup-driven terminal interfaces: an element tree read from markup,
//! cascading styles, a layout engine, keyboard focus and named actions.

pub mod actions;
pub mod builder;
pub mod cascade;
pub mod display;
pub mod event_response;
pub mod focus;
pub mod geometry;
pub mod grammar;
pub mod input;
pub mod layout;
pub mod markup_element;
pub mod markup_events;
pub mod markup_parser;
pub mod project;
pub mod registry;
pub mod render;
pub mod shape;
pub mod storage;
pub mod string_map;
pub mod styles;
pub mod stylesheet;
pub mod text;
pub mod tree;
pub mod utils;
pub mod widgets;
