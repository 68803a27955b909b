use tui_markup_renderer::markup_element::MarkupElement;
use tui_markup_renderer::string_map::StringMap;
use tui_markup_renderer::styles::{
    Color, IStylesStorage, Modifier, Style, StylesStorage, BOLD, ITALIC, UNDERLINED,
};
use tui_markup_renderer::stylesheet::{element_styles, generate_styles, read_stylesheet};

fn styles_node(text: Option<&str>) -> MarkupElement {
    MarkupElement {
        position: None,
        deep: 0,
        id: String::from("s"),
        name: String::from("styles"),
        order: -1,
        text: text.map(String::from),
        attributes: StringMap::new(),
        children: vec![],
        parent_node: None,
        dependencies: vec![],
    }
}

#[test]
fn patch_overwrites_only_what_is_set() {
    let base = Style::new().fg(Color::White).bg(Color::Black);
    let other = Style::new().bg(Color::Red);
    let merged = base.patch(other);
    assert_eq!(merged.fg, Some(Color::White));
    assert_eq!(merged.bg, Some(Color::Red));
    assert_eq!(base.patch(Style::new()), base);
}

#[test]
fn patch_moves_modifiers() {
    let base = Style::new().add_modifier(Modifier { bits: BOLD | ITALIC });
    let other = Style {
        fg: None,
        bg: None,
        add_modifier: Modifier { bits: UNDERLINED },
        sub_modifier: Modifier { bits: BOLD },
    };
    let merged = base.patch(other);
    assert_eq!(merged.add_modifier, Modifier { bits: ITALIC | UNDERLINED });
    assert_eq!(merged.sub_modifier, Modifier { bits: BOLD });
}

#[test]
fn declarations_set_colours_and_modifiers() {
    let style = generate_styles("bg: red; fg:WHITE ;weight:bold;font-decoration:italic|underlined");
    assert_eq!(style.bg, Some(Color::Red));
    assert_eq!(style.fg, Some(Color::White));
    assert_eq!(style.add_modifier, Modifier { bits: BOLD | ITALIC | UNDERLINED });
    assert_eq!(style.sub_modifier, Modifier { bits: 0 });
}

#[test]
fn short_or_odd_declarations_set_nothing() {
    assert_eq!(generate_styles(""), Style::new());
    assert_eq!(generate_styles("a:"), Style::new());
    assert_eq!(generate_styles("bg;fg"), Style::new());
    assert_eq!(generate_styles("margin:3;"), Style::new());
    assert_eq!(generate_styles("bg:nocolour"), Style::new().bg(Color::Reset));
}

#[test]
fn the_last_declaration_of_a_property_counts() {
    assert_eq!(generate_styles("fg:red;fg:blue;").fg, Some(Color::Blue));
}

#[test]
fn inline_styles_follow_the_state() {
    let mut attributes = StringMap::new();
    attributes.insert("styles".to_string(), "fg:red;".to_string());
    attributes.insert("focus_styles".to_string(), "fg:green;".to_string());
    attributes.insert("active_styles".to_string(), "fg:blue;".to_string());
    let mut node = styles_node(None);
    node.attributes = attributes;
    assert_eq!(element_styles(&node, false, false).fg, Some(Color::Red));
    assert_eq!(element_styles(&node, true, false).fg, Some(Color::Green));
    assert_eq!(element_styles(&node, false, true).fg, Some(Color::Blue));
    assert_eq!(element_styles(&node, true, true).fg, Some(Color::Blue));
}

#[test]
fn style_sheet_blocks_become_rules() {
    let sheet = read_stylesheet(&styles_node(Some(
        "p {\n  fg: white;\n}\n#myid { fg: blue; }\nbutton:focus { bg: light red; weight: bold }",
    )));
    assert_eq!(sheet.rule("p"), Style::new().fg(Color::White));
    assert_eq!(sheet.rule("#myid"), Style::new().fg(Color::Blue));
    assert_eq!(
        sheet.rule("button:focus"),
        Style::new().bg(Color::LightRed).add_modifier(Modifier { bits: BOLD })
    );
    assert_eq!(sheet.rule("block"), Style::new());
    assert!(sheet.has_rule("p".to_string()));
    assert!(!sheet.has_rule("block".to_string()));
}

#[test]
fn the_first_rule_under_a_name_counts() {
    let sheet = read_stylesheet(&styles_node(Some("p{fg:red;}p{fg:blue;}")));
    assert_eq!(sheet.rule("p").fg, Some(Color::Red));
    let mut store = StylesStorage::new();
    store
        .add_rule("a".to_string(), Style::new().fg(Color::Red))
        .add_rule("a".to_string(), Style::new().fg(Color::Blue));
    assert_eq!(store.get_rule("a".to_string()).fg, Some(Color::Red));
    assert_eq!(store.get_rule("b".to_string()), Style::new());
}

#[test]
fn blocks_without_braces_are_passed_over() {
    let sheet = read_stylesheet(&styles_node(Some("p}}q{fg:red;}r")));
    assert!(!sheet.has_rule("p".to_string()));
    assert!(!sheet.has_rule("r".to_string()));
    assert_eq!(sheet.rule("q").fg, Some(Color::Red));
    assert!(!read_stylesheet(&styles_node(None)).has_rule("p".to_string()));
}
