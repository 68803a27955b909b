//! How attribute values are read: sizing rules, axes, alignments, borders
//! and the two families of tags.

use crate::geometry::{Alignment, Direction, SizeConstraint};
use crate::markup_element::MarkupElement;
use crate::string_map::{lookup_or_empty, Pairs};
use crate::text::{
    contains_char, ends_with, ends_with_spec, lemma_split_nonempty, lowercase, parse_u16, parse_u32,
    parse_unsigned, remove_char, remove_text, split_char, split_spec, str_eq, strings_view,
    to_lowercase, without_char, without_text,
};
use crate::utils::{border_from_str, border_named};
use crate::widgets::{Borders, BORDER_NONE};
use vstd::prelude::*;

verus! {

/// A number that was read, or 1 where none could be.
pub open spec fn number_or_one(o: Option<int>) -> int {
    match o {
        Some(v) => v,
        None => 1,
    }
}

/// The sizing rule that a text writes. A text ending in `%` is a percentage,
/// one ending in `min` or `max` a least or greatest length, one with a `:` the
/// ratio of the numbers before and after the first `:`, any other text a
/// length. The marks `%`, `min` and `max` are taken out wherever they stand
/// before the number is read, and a number that cannot be read counts as 1.
pub open spec fn constraint_spec(s: Seq<char>) -> SizeConstraint {
    if ends_with_spec(s, "%"@) {
        SizeConstraint::Percentage(
            number_or_one(parse_unsigned(without_char(s, '%'), 0xFFFF)) as u16,
        )
    } else if ends_with_spec(s, "min"@) {
        SizeConstraint::Min(number_or_one(parse_unsigned(without_text(s, "min"@), 0xFFFF)) as u16)
    } else if ends_with_spec(s, "max"@) {
        SizeConstraint::Max(number_or_one(parse_unsigned(without_text(s, "max"@), 0xFFFF)) as u16)
    } else if s.contains(':') {
        let parts = split_spec(s, ':');
        SizeConstraint::Ratio(
            number_or_one(parse_unsigned(parts[0], 0xFFFF_FFFF)) as u32,
            number_or_one(parse_unsigned(parts[1], 0xFFFF_FFFF)) as u32,
        )
    } else {
        SizeConstraint::Length(number_or_one(parse_unsigned(s, 0xFFFF)) as u16)
    }
}

/// A text with the separator has at least two pieces.
pub proof fn lemma_split_contains(s: Seq<char>, sep: char)
    requires
        s.contains(sep),
    ensures
        split_spec(s, sep).len() >= 2,
    decreases s.len(),
{
    lemma_split_nonempty(s.drop_last(), sep);
    if s.last() != sep {
        let i = choose|i: int| 0 <= i < s.len() && s[i] == sep;
        assert(s.drop_last()[i] == sep);
        lemma_split_contains(s.drop_last(), sep);
    }
}

fn u16_or_one(s: &str) -> (r: u16)
    ensures
        r == number_or_one(parse_unsigned(s@, 0xFFFF)) as u16,
{
    match parse_u16(s) {
        Some(v) => v,
        None => 1,
    }
}

fn u32_or_one(s: &str) -> (r: u32)
    ensures
        r == number_or_one(parse_unsigned(s@, 0xFFFF_FFFF)) as u32,
{
    match parse_u32(s) {
        Some(v) => v,
        None => 1,
    }
}

/// Reads a sizing rule, as `constraint_spec` defines it.
pub fn parse_constraint(constraint: &str) -> (r: SizeConstraint)
    ensures
        r == constraint_spec(constraint@),
{
    if ends_with(constraint, "%") {
        let digits = remove_char(constraint, '%');
        SizeConstraint::Percentage(u16_or_one(digits.as_str()))
    } else if ends_with(constraint, "min") {
        let digits = remove_text(constraint, "min");
        SizeConstraint::Min(u16_or_one(digits.as_str()))
    } else if ends_with(constraint, "max") {
        let digits = remove_text(constraint, "max");
        SizeConstraint::Max(u16_or_one(digits.as_str()))
    } else if contains_char(constraint, ':') {
        let parts = split_char(constraint, ':');
        proof {
            lemma_split_contains(constraint@, ':');
        }
        let x = u32_or_one(parts[0].as_str());
        let y = u32_or_one(parts[1].as_str());
        SizeConstraint::Ratio(x, y)
    } else {
        SizeConstraint::Length(u16_or_one(constraint))
    }
}

/// The axis that a `direction` attribute asks for: vertical for the value
/// `vertical`, horizontal for any other value and where it is absent.
pub open spec fn direction_spec(attributes: Pairs) -> Direction {
    if lookup_or_empty(attributes, "direction"@) == "vertical"@ {
        Direction::Vertical
    } else {
        Direction::Horizontal
    }
}

/// The axis along which an element lays out its children.
pub fn direction_of(node: &MarkupElement) -> (r: Direction)
    ensures
        r == direction_spec(node@.attributes),
{
    let direction = node.attributes.get_or_empty("direction");
    if str_eq(direction.as_str(), "vertical") {
        Direction::Vertical
    } else {
        Direction::Horizontal
    }
}

/// The alignment that an `align` attribute asks for: left unless it is
/// `center` or `right`.
pub open spec fn alignment_spec(attributes: Pairs) -> Alignment {
    let align = lookup_or_empty(attributes, "align"@);
    if align == "center"@ {
        Alignment::Center
    } else if align == "left"@ {
        Alignment::Left
    } else if align == "right"@ {
        Alignment::Right
    } else {
        Alignment::Left
    }
}

/// The alignment of the text of an element.
pub fn alignment_of(node: &MarkupElement) -> (r: Alignment)
    ensures
        r == alignment_spec(node@.attributes),
{
    let align = node.attributes.get_or_empty("align");
    if str_eq(align.as_str(), "center") {
        Alignment::Center
    } else if str_eq(align.as_str(), "left") {
        Alignment::Left
    } else if str_eq(align.as_str(), "right") {
        Alignment::Right
    } else {
        Alignment::Left
    }
}

/// The flags of the names in a list, whatever their case: those of the
/// first name, joined to those of each later one.
pub open spec fn merge_borders(names: Seq<Seq<char>>) -> Borders
    decreases names.len(),
{
    if names.len() == 0 {
        Borders { bits: BORDER_NONE }
    } else if names.len() == 1 {
        border_named(lowercase(names[0]))
    } else {
        merge_borders(names.drop_last()).with(border_named(lowercase(names.last())))
    }
}

/// The borders that a `border` attribute asks for: one name, or several
/// separated by `|`, whatever their case. An unknown name, as the empty one,
/// stands for `BORDER_NONE`.
pub open spec fn border_spec(value: Seq<char>) -> Borders {
    if value.contains('|') {
        merge_borders(split_spec(value, '|'))
    } else {
        border_named(lowercase(value))
    }
}

fn single_border(name: &str) -> (r: Borders)
    ensures
        r == border_named(lowercase(name@)),
{
    let lower = to_lowercase(name);
    border_from_str(lower.as_str())
}

/// Reads a `border` attribute, as `border_spec` defines it.
pub fn parse_border(border_value: &str) -> (r: Borders)
    ensures
        r == border_spec(border_value@),
{
    if contains_char(border_value, '|') {
        let names = split_char(border_value, '|');
        let ghost all = strings_view(names@);
        let mut borders = single_border(names[0].as_str());
        proof {
            assert(all.subrange(0, 1).len() == 1);
            assert(all.subrange(0, 1)[0] == all[0]);
        }
        let mut i: usize = 1;
        while i < names.len()
            invariant
                1 <= i <= names.len(),
                all == strings_view(names@),
                borders == merge_borders(all.subrange(0, i as int)),
            decreases names.len() - i,
        {
            proof {
                let p = all.subrange(0, i + 1);
                assert(p.drop_last() =~= all.subrange(0, i as int));
                assert(p.last() == all[i as int]);
            }
            borders = borders.union(single_border(names[i].as_str()));
            i = i + 1;
        }
        proof {
            assert(all.subrange(0, names.len() as int) =~= all);
        }
        borders
    } else {
        single_border(border_value)
    }
}

/// The tags of the widgets: elements that are placed and not laid out.
pub open spec fn widget_tag(name: Seq<char>) -> bool {
    name == "p"@ || name == "button"@
}

pub fn is_widget_tag(node_name: &str) -> (r: bool)
    ensures
        r == widget_tag(node_name@),
{
    str_eq(node_name, "p") || str_eq(node_name, "button")
}

pub fn is_layout_tag(node_name: &str) -> (r: bool)
    ensures
        r == (node_name@ == "layout"@),
{
    str_eq(node_name, "layout")
}

/// The tags of the markup grammar. An element with any other tag is laid
/// out like a plain element and, without a renderer of its own, drawn as
/// an empty box.
pub open spec fn known_tag(name: Seq<char>) -> bool {
    name == "layout"@ || name == "container"@ || name == "block"@ || name == "styles"@ || name
        == "p"@ || name == "button"@ || name == "dialog"@ || name == "tabs"@ || name
        == "tabs-header"@ || name == "tabs-body"@ || name == "tab-item"@ || name == "tab-content"@
}

/// Whether a tag belongs to the markup grammar.
pub fn is_known_tag(node_name: &str) -> (r: bool)
    ensures
        r == known_tag(node_name@),
{
    str_eq(node_name, "layout") || str_eq(node_name, "container") || str_eq(node_name, "block")
        || str_eq(node_name, "styles") || str_eq(node_name, "p") || str_eq(node_name, "button")
        || str_eq(node_name, "dialog") || str_eq(node_name, "tabs") || str_eq(
        node_name,
        "tabs-header",
    ) || str_eq(node_name, "tabs-body") || str_eq(node_name, "tab-item") || str_eq(
        node_name,
        "tab-content",
    )
}

} // verus!
