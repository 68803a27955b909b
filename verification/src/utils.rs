//! Attribute lookup and the names of colours, modifiers and borders.

use crate::string_map::{lookup_or_empty, StringMap};
use crate::styles::{
    add_modifier_spec, default_style, Color, Modifier, Style, BOLD, CROSSED_OUT, DIM, HIDDEN,
    ITALIC, RAPID_BLINK, REVERSED, SLOW_BLINK, UNDERLINED,
};
use crate::text::{lowercase, split_char, split_spec, str_eq, strings_view, to_lowercase};
use crate::widgets::{
    Borders, BORDER_ALL, BORDER_BOTTOM, BORDER_LEFT, BORDER_NONE, BORDER_RIGHT, BORDER_TOP,
};
use vstd::prelude::*;

verus! {

/// The value of an attribute, or the empty text where it is absent.
pub fn extract_attribute(data: StringMap, attribute_name: &str) -> (r: String)
    ensures
        r@ == lookup_or_empty(data@, attribute_name@),
{
    data.get_or_empty(attribute_name)
}

/// The modifier with a lower-case name; `DIM` for any other text.
pub open spec fn modifier_named(lower: Seq<char>) -> Modifier {
    if lower == "dim"@ {
        Modifier { bits: DIM }
    } else if lower == "bold"@ {
        Modifier { bits: BOLD }
    } else if lower == "italic"@ {
        Modifier { bits: ITALIC }
    } else if lower == "underlined"@ {
        Modifier { bits: UNDERLINED }
    } else if lower == "crossed_out"@ {
        Modifier { bits: CROSSED_OUT }
    } else if lower == "rapid_blink"@ {
        Modifier { bits: RAPID_BLINK }
    } else if lower == "slow_blink"@ {
        Modifier { bits: SLOW_BLINK }
    } else if lower == "reversed"@ {
        Modifier { bits: REVERSED }
    } else if lower == "hidden"@ {
        Modifier { bits: HIDDEN }
    } else {
        Modifier { bits: DIM }
    }
}

/// The modifier with the given lower-case name.
pub fn modifier_of_name(lower: &str) -> (r: Modifier)
    ensures
        r == modifier_named(lower@),
{
    if str_eq(lower, "dim") {
        Modifier { bits: DIM }
    } else if str_eq(lower, "bold") {
        Modifier { bits: BOLD }
    } else if str_eq(lower, "italic") {
        Modifier { bits: ITALIC }
    } else if str_eq(lower, "underlined") {
        Modifier { bits: UNDERLINED }
    } else if str_eq(lower, "crossed_out") {
        Modifier { bits: CROSSED_OUT }
    } else if str_eq(lower, "rapid_blink") {
        Modifier { bits: RAPID_BLINK }
    } else if str_eq(lower, "slow_blink") {
        Modifier { bits: SLOW_BLINK }
    } else if str_eq(lower, "reversed") {
        Modifier { bits: REVERSED }
    } else if str_eq(lower, "hidden") {
        Modifier { bits: HIDDEN }
    } else {
        Modifier { bits: DIM }
    }
}

/// The modifier that a name stands for, whatever its case.
pub fn modifier_from_str(input: &str) -> (r: Modifier)
    ensures
        r == modifier_named(lowercase(input@)),
{
    let lower = to_lowercase(input);
    modifier_of_name(lower.as_str())
}

/// The style that adds the modifier of each name in turn.
pub open spec fn add_modifiers(names: Seq<Seq<char>>) -> Style
    decreases names.len(),
{
    if names.len() == 0 {
        default_style()
    } else {
        add_modifier_spec(
            add_modifiers(names.drop_last()),
            modifier_named(lowercase(names.last())),
        )
    }
}

/// The style that adds the modifiers named in a list, whatever the case of
/// the names. An unknown name stands for `DIM`.
pub fn modifiers_of_names(names: &Vec<String>) -> (r: Style)
    ensures
        r == add_modifiers(strings_view(names@)),
{
    let mut style = Style::new();
    let mut i: usize = 0;
    while i < names.len()
        invariant
            i <= names.len(),
            style == add_modifiers(strings_view(names@).subrange(0, i as int)),
        decreases names.len() - i,
    {
        proof {
            let p = strings_view(names@).subrange(0, i + 1);
            assert(p.drop_last() =~= strings_view(names@).subrange(0, i as int));
        }
        style = style.add_modifier(modifier_from_str(names[i].as_str()));
        i = i + 1;
    }
    proof {
        assert(strings_view(names@).subrange(0, names.len() as int) =~= strings_view(names@));
    }
    style
}

/// The style that adds every modifier of a list separated by `|`.
pub fn modifiers_from_str(input: &str) -> (r: Style)
    ensures
        r == add_modifiers(split_spec(lowercase(input@), '|')),
{
    let lower = to_lowercase(input);
    let names = split_char(lower.as_str(), '|');
    modifiers_of_names(&names)
}

/// The colour with a lower-case name; `Reset` for any other text.
pub open spec fn color_named(lower: Seq<char>) -> Color {
    if lower == "reset"@ {
        Color::Reset
    } else if lower == "black"@ {
        Color::Black
    } else if lower == "red"@ {
        Color::Red
    } else if lower == "green"@ {
        Color::Green
    } else if lower == "yellow"@ {
        Color::Yellow
    } else if lower == "blue"@ {
        Color::Blue
    } else if lower == "magenta"@ {
        Color::Magenta
    } else if lower == "cyan"@ {
        Color::Cyan
    } else if lower == "gray"@ {
        Color::Gray
    } else if lower == "darkgray"@ {
        Color::DarkGray
    } else if lower == "lightred"@ {
        Color::LightRed
    } else if lower == "lightgreen"@ {
        Color::LightGreen
    } else if lower == "lightyellow"@ {
        Color::LightYellow
    } else if lower == "lightblue"@ {
        Color::LightBlue
    } else if lower == "lightmagenta"@ {
        Color::LightMagenta
    } else if lower == "lightcyan"@ {
        Color::LightCyan
    } else if lower == "white"@ {
        Color::White
    } else {
        Color::Reset
    }
}

/// The colour with the given lower-case name.
pub fn color_of_name(lower: &str) -> (r: Color)
    ensures
        r == color_named(lower@),
{
    if str_eq(lower, "reset") {
        Color::Reset
    } else if str_eq(lower, "black") {
        Color::Black
    } else if str_eq(lower, "red") {
        Color::Red
    } else if str_eq(lower, "green") {
        Color::Green
    } else if str_eq(lower, "yellow") {
        Color::Yellow
    } else if str_eq(lower, "blue") {
        Color::Blue
    } else if str_eq(lower, "magenta") {
        Color::Magenta
    } else if str_eq(lower, "cyan") {
        Color::Cyan
    } else if str_eq(lower, "gray") {
        Color::Gray
    } else if str_eq(lower, "darkgray") {
        Color::DarkGray
    } else if str_eq(lower, "lightred") {
        Color::LightRed
    } else if str_eq(lower, "lightgreen") {
        Color::LightGreen
    } else if str_eq(lower, "lightyellow") {
        Color::LightYellow
    } else if str_eq(lower, "lightblue") {
        Color::LightBlue
    } else if str_eq(lower, "lightmagenta") {
        Color::LightMagenta
    } else if str_eq(lower, "lightcyan") {
        Color::LightCyan
    } else if str_eq(lower, "white") {
        Color::White
    } else {
        Color::Reset
    }
}

/// The colour that a name stands for, whatever its case.
pub fn color_from_str(input: &str) -> (r: Color)
    ensures
        r == color_named(lowercase(input@)),
{
    let lower = to_lowercase(input);
    color_of_name(lower.as_str())
}

/// The name of the colour that stands out against the colour with a
/// lower-case name; the empty text for any other text.
pub open spec fn contrast_named(lower: Seq<char>) -> Seq<char> {
    if lower == "black"@ {
        "white"@
    } else if lower == "red"@ {
        "lightRed"@
    } else if lower == "green"@ {
        "lightgreen"@
    } else if lower == "yellow"@ {
        "lightyellow"@
    } else if lower == "blue"@ {
        "lightmagenta"@
    } else if lower == "magenta"@ {
        "lightmagenta"@
    } else if lower == "cyan"@ {
        "lightcyan"@
    } else if lower == "gray"@ {
        "darkgray"@
    } else if lower == "darkgray"@ {
        "gray"@
    } else if lower == "lightred"@ {
        "red"@
    } else if lower == "lightgreen"@ {
        "green"@
    } else if lower == "lightyellow"@ {
        "yellow"@
    } else if lower == "lightblue"@ {
        "blue"@
    } else if lower == "lightmagenta"@ {
        "magenta"@
    } else if lower == "lightcyan"@ {
        "cyan"@
    } else if lower == "white"@ {
        "black"@
    } else {
        ""@
    }
}

/// The contrast of the colour with the given lower-case name.
pub fn contrast_of_name(lower: &str) -> (r: &'static str)
    ensures
        r@ == contrast_named(lower@),
{
    if str_eq(lower, "black") {
        "white"
    } else if str_eq(lower, "red") {
        "lightRed"
    } else if str_eq(lower, "green") {
        "lightgreen"
    } else if str_eq(lower, "yellow") {
        "lightyellow"
    } else if str_eq(lower, "blue") {
        "lightmagenta"
    } else if str_eq(lower, "magenta") {
        "lightmagenta"
    } else if str_eq(lower, "cyan") {
        "lightcyan"
    } else if str_eq(lower, "gray") {
        "darkgray"
    } else if str_eq(lower, "darkgray") {
        "gray"
    } else if str_eq(lower, "lightred") {
        "red"
    } else if str_eq(lower, "lightgreen") {
        "green"
    } else if str_eq(lower, "lightyellow") {
        "yellow"
    } else if str_eq(lower, "lightblue") {
        "blue"
    } else if str_eq(lower, "lightmagenta") {
        "magenta"
    } else if str_eq(lower, "lightcyan") {
        "cyan"
    } else if str_eq(lower, "white") {
        "black"
    } else {
        ""
    }
}

/// The name of the colour that stands out against a named colour, whatever
/// the case of the name.
pub fn contrast_color(input: &str) -> (r: &'static str)
    ensures
        r@ == contrast_named(lowercase(input@)),
{
    let lower = to_lowercase(input);
    contrast_of_name(lower.as_str())
}

/// The border flag with a name; `BORDER_NONE` for any other text.
pub open spec fn border_named(name: Seq<char>) -> Borders {
    if name == "all"@ {
        Borders { bits: BORDER_ALL }
    } else if name == "top"@ {
        Borders { bits: BORDER_TOP }
    } else if name == "bottom"@ {
        Borders { bits: BORDER_BOTTOM }
    } else if name == "left"@ {
        Borders { bits: BORDER_LEFT }
    } else if name == "right"@ {
        Borders { bits: BORDER_RIGHT }
    } else {
        Borders { bits: BORDER_NONE }
    }
}

/// The border flag that a name stands for. The name is taken as it is
/// written: a name in upper case stands for `BORDER_NONE`.
pub fn border_from_str(input: &str) -> (r: Borders)
    ensures
        r == border_named(input@),
{
    if str_eq(input, "all") {
        Borders { bits: BORDER_ALL }
    } else if str_eq(input, "top") {
        Borders { bits: BORDER_TOP }
    } else if str_eq(input, "bottom") {
        Borders { bits: BORDER_BOTTOM }
    } else if str_eq(input, "left") {
        Borders { bits: BORDER_LEFT }
    } else if str_eq(input, "right") {
        Borders { bits: BORDER_RIGHT }
    } else {
        Borders { bits: BORDER_NONE }
    }
}

/// The flags of each name in turn, each joined to `BORDER_NONE` and to the
/// flags before it.
pub open spec fn join_borders(names: Seq<Seq<char>>) -> Borders
    decreases names.len(),
{
    if names.len() == 0 {
        Borders { bits: BORDER_NONE }
    } else {
        border_named(names.last()).with(join_borders(names.drop_last()))
    }
}

/// The flags named in a list, joined to `BORDER_NONE`.
pub fn borders_of_names(names: &Vec<String>) -> (r: Borders)
    ensures
        r == join_borders(strings_view(names@)),
{
    let mut borders = Borders { bits: BORDER_NONE };
    let mut i: usize = 0;
    while i < names.len()
        invariant
            i <= names.len(),
            borders == join_borders(strings_view(names@).subrange(0, i as int)),
        decreases names.len() - i,
    {
        proof {
            let p = strings_view(names@).subrange(0, i + 1);
            assert(p.drop_last() =~= strings_view(names@).subrange(0, i as int));
        }
        borders = border_from_str(names[i].as_str()).union(borders);
        i = i + 1;
    }
    proof {
        assert(strings_view(names@).subrange(0, names.len() as int) =~= strings_view(names@));
    }
    borders
}

/// The flags of a list of names separated by `|`, whatever their case,
/// joined to `BORDER_NONE`.
pub fn borders_from_str(input: &str) -> (r: Borders)
    ensures
        r == join_borders(split_spec(lowercase(input@), '|')),
{
    let lower = to_lowercase(input);
    let names = split_char(lower.as_str(), '|');
    borders_of_names(&names)
}

} // verus!
