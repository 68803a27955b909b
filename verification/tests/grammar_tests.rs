use tui_markup_renderer::geometry::{Alignment, Direction, SizeConstraint};
use tui_markup_renderer::grammar::{
    alignment_of, direction_of, is_known_tag, is_layout_tag, is_widget_tag, parse_border,
    parse_constraint,
};
use tui_markup_renderer::markup_element::MarkupElement;
use tui_markup_renderer::string_map::StringMap;
use tui_markup_renderer::utils::{border_from_str, borders_from_str};
use tui_markup_renderer::widgets::{
    Borders, BORDER_ALL, BORDER_BOTTOM, BORDER_LEFT, BORDER_NONE, BORDER_RIGHT, BORDER_TOP,
};

fn element(name: &str, attributes: &[(&str, &str)]) -> MarkupElement {
    let mut map = StringMap::new();
    for (k, v) in attributes {
        map.insert(k.to_string(), v.to_string());
    }
    MarkupElement {
        position: None,
        deep: 0,
        id: String::from("e"),
        name: name.to_string(),
        order: -1,
        text: None,
        attributes: map,
        children: vec![],
        parent_node: None,
        dependencies: vec![],
    }
}

#[test]
fn constraint_percentage() {
    assert_eq!(parse_constraint("20%"), SizeConstraint::Percentage(20));
}

#[test]
fn constraint_min() {
    assert_eq!(parse_constraint("10min"), SizeConstraint::Min(10));
}

#[test]
fn constraint_max() {
    assert_eq!(parse_constraint("5max"), SizeConstraint::Max(5));
}

#[test]
fn constraint_ratio() {
    assert_eq!(parse_constraint("1:2"), SizeConstraint::Ratio(1, 2));
}

#[test]
fn constraint_length() {
    assert_eq!(parse_constraint("7"), SizeConstraint::Length(7));
}

#[test]
fn constraint_bogus_is_length_one() {
    assert_eq!(parse_constraint("bogus"), SizeConstraint::Length(1));
    assert_eq!(parse_constraint(""), SizeConstraint::Length(1));
}

#[test]
fn constraint_marks_are_taken_out_everywhere() {
    assert_eq!(parse_constraint("2%0%"), SizeConstraint::Percentage(20));
    assert_eq!(parse_constraint("1min0min"), SizeConstraint::Min(10));
    assert_eq!(parse_constraint("mmin"), SizeConstraint::Min(1));
}

#[test]
fn constraint_numbers_out_of_range_count_as_one() {
    assert_eq!(parse_constraint("65536"), SizeConstraint::Length(1));
    assert_eq!(parse_constraint("65535"), SizeConstraint::Length(65535));
    assert_eq!(parse_constraint("-3"), SizeConstraint::Length(1));
    assert_eq!(parse_constraint("x:4294967295"), SizeConstraint::Ratio(1, 4294967295));
    assert_eq!(parse_constraint("1:2:3"), SizeConstraint::Ratio(1, 2));
    assert_eq!(parse_constraint(":"), SizeConstraint::Ratio(1, 1));
}

#[test]
fn direction_is_vertical_only_on_request() {
    assert_eq!(direction_of(&element("layout", &[("direction", "vertical")])), Direction::Vertical);
    assert_eq!(
        direction_of(&element("layout", &[("direction", "horizontal")])),
        Direction::Horizontal
    );
    assert_eq!(
        direction_of(&element("layout", &[("direction", "Vertical")])),
        Direction::Horizontal
    );
    assert_eq!(direction_of(&element("layout", &[])), Direction::Horizontal);
}

#[test]
fn alignment_defaults_to_left() {
    assert_eq!(alignment_of(&element("p", &[("align", "center")])), Alignment::Center);
    assert_eq!(alignment_of(&element("p", &[("align", "right")])), Alignment::Right);
    assert_eq!(alignment_of(&element("p", &[("align", "left")])), Alignment::Left);
    assert_eq!(alignment_of(&element("p", &[("align", "justify")])), Alignment::Left);
    assert_eq!(alignment_of(&element("p", &[])), Alignment::Left);
}

#[test]
fn border_names() {
    assert_eq!(parse_border("all"), Borders { bits: BORDER_ALL });
    assert_eq!(parse_border("ALL"), Borders { bits: BORDER_ALL });
    assert_eq!(parse_border("top"), Borders { bits: BORDER_TOP });
    assert_eq!(parse_border("bottom"), Borders { bits: BORDER_BOTTOM });
    assert_eq!(parse_border("left"), Borders { bits: BORDER_LEFT });
    assert_eq!(parse_border("right"), Borders { bits: BORDER_RIGHT });
    assert_eq!(parse_border("none"), Borders { bits: BORDER_NONE });
    assert_eq!(parse_border(""), Borders { bits: BORDER_NONE });
}

#[test]
fn borders_combine() {
    assert_eq!(parse_border("top|Left"), Borders { bits: BORDER_TOP | BORDER_LEFT });
    assert_eq!(parse_border("top|bogus"), Borders { bits: BORDER_TOP | BORDER_NONE });
    assert_eq!(parse_border("|"), Borders { bits: BORDER_NONE });
}

#[test]
fn border_from_str_takes_the_name_as_written() {
    assert_eq!(border_from_str("top"), Borders { bits: BORDER_TOP });
    assert_eq!(border_from_str("TOP"), Borders { bits: BORDER_NONE });
}

#[test]
fn borders_from_str_joins_to_none() {
    assert_eq!(
        borders_from_str("TOP|right"),
        Borders { bits: BORDER_NONE | BORDER_TOP | BORDER_RIGHT }
    );
    assert_eq!(borders_from_str(""), Borders { bits: BORDER_NONE });
}

#[test]
fn tag_families() {
    assert!(is_widget_tag("p"));
    assert!(is_widget_tag("button"));
    assert!(!is_widget_tag("block"));
    assert!(is_layout_tag("layout"));
    assert!(!is_layout_tag("Layout"));
}

#[test]
fn the_tags_of_the_grammar() {
    for tag in [
        "layout", "container", "block", "styles", "p", "button", "dialog", "tabs", "tabs-header",
        "tabs-body", "tab-item", "tab-content",
    ] {
        assert!(is_known_tag(tag), "{}", tag);
    }
    for tag in ["", "span", "Layout", "tab", "tabs-borders", "p "] {
        assert!(!is_known_tag(tag), "{}", tag);
    }
}
