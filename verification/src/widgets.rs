//! What a painter needs to know of a widget: its borders, its style, its
//! text.

use crate::geometry::{Alignment, Rect};
use crate::styles::Style;
use vstd::prelude::*;

verus! {

pub const BORDER_NONE: u8 = 0x01;

pub const BORDER_TOP: u8 = 0x02;

pub const BORDER_RIGHT: u8 = 0x04;

pub const BORDER_BOTTOM: u8 = 0x08;

pub const BORDER_LEFT: u8 = 0x10;

pub const BORDER_ALL: u8 = 0x1E;

/// A set of border flags, one bit each (`BORDER_TOP`, ...). `BORDER_NONE` is
/// a flag of its own.
#[derive(Clone, Copy, Debug, PartialEq, Eq, Structural)]
pub struct Borders {
    pub bits: u8,
}

impl Borders {
    /// The set with the flags of either set.
    pub open spec fn with(self, other: Borders) -> Borders {
        Borders { bits: self.bits | other.bits }
    }

    pub fn union(self, other: Borders) -> (r: Borders)
        ensures
            r == self.with(other),
    {
        Borders { bits: self.bits | other.bits }
    }
}

/// The line style of a border.
#[derive(Clone, Copy, Debug, PartialEq, Eq, Structural)]
pub enum BorderType {
    Plain,
    Rounded,
    Double,
}

/// A box: a title where it has one, a style and borders.
#[derive(Debug)]
pub struct Block {
    pub title: Option<String>,
    pub style: Style,
    pub borders: Borders,
    pub border_type: BorderType,
}

/// The mathematical value of a box.
pub struct BlockView {
    pub title: Option<Seq<char>>,
    pub style: Style,
    pub borders: Borders,
    pub border_type: BorderType,
}

impl View for Block {
    type V = BlockView;

    open spec fn view(&self) -> BlockView {
        BlockView {
            title: crate::text::opt_view(self.title),
            style: self.style,
            borders: self.borders,
            border_type: self.border_type,
        }
    }
}

/// A text in a box: `blank_lines` empty lines, then the text. With a
/// `text_style` the text is one span in that style.
#[derive(Debug)]
pub struct Paragraph {
    pub blank_lines: usize,
    pub text: String,
    pub text_style: Option<Style>,
    pub style: Style,
    pub alignment: Alignment,
    /// Whether long lines are wrapped, with the white space at their start
    /// taken off.
    pub wrap: bool,
    pub block: Block,
}

/// The mathematical value of a text in a box.
pub struct ParagraphView {
    pub blank_lines: usize,
    pub text: Seq<char>,
    pub text_style: Option<Style>,
    pub style: Style,
    pub alignment: Alignment,
    pub wrap: bool,
    pub block: BlockView,
}

impl View for Paragraph {
    type V = ParagraphView;

    open spec fn view(&self) -> ParagraphView {
        ParagraphView {
            blank_lines: self.blank_lines,
            text: self.text@,
            text_style: self.text_style,
            style: self.style,
            alignment: self.alignment,
            wrap: self.wrap,
            block: self.block@,
        }
    }
}

/// What is to be painted for one element.
#[derive(Debug)]
pub enum DrawAction {
    /// Nothing.
    Nothing,
    /// What the renderer registered for the tag paints.
    Custom { tag: String },
    /// A box in `area`, on cleared ground where `clear` is set.
    Block { clear: bool, area: Rect, block: Block },
    /// A text in `target`, after `area` was cleared.
    Paragraph { area: Rect, target: Rect, paragraph: Paragraph },
}

/// The mathematical value of a `DrawAction`.
pub enum ActionView {
    Nothing,
    Custom { tag: Seq<char> },
    Block { clear: bool, area: Rect, block: BlockView },
    Paragraph { area: Rect, target: Rect, paragraph: ParagraphView },
}

impl View for DrawAction {
    type V = ActionView;

    open spec fn view(&self) -> ActionView {
        match self {
            DrawAction::Nothing => ActionView::Nothing,
            DrawAction::Custom { tag } => ActionView::Custom { tag: tag@ },
            DrawAction::Block { clear, area, block } => ActionView::Block {
                clear: *clear,
                area: *area,
                block: block@,
            },
            DrawAction::Paragraph { area, target, paragraph } => ActionView::Paragraph {
                area: *area,
                target: *target,
                paragraph: paragraph@,
            },
        }
    }
}

/// The values of a list of draw actions, in order.
pub open spec fn actions_view(v: Seq<DrawAction>) -> Seq<ActionView> {
    v.map_values(|a: DrawAction| a@)
}

} // verus!
