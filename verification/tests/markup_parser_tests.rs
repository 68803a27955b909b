use tui_markup_renderer::event_response::EventResponse;
use tui_markup_renderer::markup_element::MarkupElement;
use tui_markup_renderer::markup_events::MarkupEvent;
use tui_markup_renderer::markup_parser::MarkupParser;
use tui_markup_renderer::storage::{IRendererStorage, RendererStorage};
use tui_markup_renderer::string_map::StringMap;
use tui_markup_renderer::styles::{Color, IStylesStorage};

type Callback = fn(StringMap, Option<MarkupElement>) -> EventResponse;
type Parser = MarkupParser<Callback, u8>;

const REAL_SAMPLE: &str = r#"<?xml version="1.0" encoding="UTF-8"?>
<layout id="root" direction="vertical">
  <styles>
    p { fg: white; }
    #greeting { fg: blue; }
  </styles>
  <container id="nav" constraint="5" border="all" title="Nav">
    <p id="greeting" index="2" styles="bg:red;">
      Hello
    </p>
    <button id="go" index="1" action="do_something">Go</button>
  </container>
</layout>"#;

fn start(name: &str, attributes: &[(&str, &str)]) -> MarkupEvent {
    MarkupEvent::Start {
        name: name.to_string(),
        attributes: attributes.iter().map(|(k, v)| (k.to_string(), v.to_string())).collect(),
    }
}

#[test]
fn creation() {
    let filepath = String::from("tests/assets/creation_sample.tml");
    let mp = Parser::new(filepath.clone(), b"<layout id=\"root\"></layout>", None, None);
    assert_eq!(mp.path, filepath);
}

#[test]
fn error_handling() {
    let source = "<layout>\n  <title>Some</header>\n</layout>";
    let mp = Parser::new(String::from("bad_sample.tml"), source.as_bytes(), None, None);
    assert!(mp.failed);
    assert!(mp.error.is_some());
    assert_eq!(mp.error.unwrap(), "Unexpected closing tag: header != title");
    assert!(mp.root.is_none());
    assert_eq!(mp.tree.len(), 0);
    assert!(mp.storage.is_none());
    assert_eq!(mp.indexed_elements.len(), 0);
    assert_eq!(mp.current, -1);
}

#[test]
fn complete_parsing() {
    let mp = Parser::new(String::from("real_sample.tml"), REAL_SAMPLE.as_bytes(), None, None);
    assert!(!mp.failed);
    assert!(mp.error.is_none());
    let root = mp.get_element(mp.root);
    assert_eq!(root.name, "layout");
    assert_eq!(root.children.len(), 2);
}

#[test]
fn tree_has_one_root_and_rising_depths() {
    let mp = Parser::new(String::from("real_sample.tml"), REAL_SAMPLE.as_bytes(), None, None);
    assert_eq!(mp.root, Some(0));
    assert_eq!(mp.tree.len(), 5);
    for i in 0..mp.tree.len() {
        let node = mp.extract_element(i);
        assert_eq!(node.position, Some(i));
        match node.parent_node {
            None => {
                assert_eq!(i, 0);
                assert_eq!(node.deep, 0);
            }
            Some(p) => {
                let parent = mp.extract_element(p);
                assert_eq!(node.deep, parent.deep + 1);
                assert_eq!(parent.children.iter().filter(|c| **c == i).count(), 1);
            }
        }
    }
    let names: Vec<String> = (0..5).map(|i| mp.extract_element(i).name).collect();
    assert_eq!(names, vec!["layout", "styles", "container", "p", "button"]);
}

#[test]
fn text_is_trimmed_and_goes_to_the_open_element() {
    let mp = Parser::new(String::from("real_sample.tml"), REAL_SAMPLE.as_bytes(), None, None);
    assert_eq!(mp.extract_element(3).text, Some(String::from("Hello")));
    assert_eq!(mp.extract_element(4).text, Some(String::from("Go")));
    assert_eq!(mp.extract_element(2).text, None);
    let events = vec![
        start("a", &[]),
        start("b", &[]),
        MarkupEvent::End,
        MarkupEvent::Text(String::from("  after b ")),
        MarkupEvent::End,
    ];
    let mp = Parser::from_events(String::from("x"), &events, None, None);
    assert_eq!(mp.extract_element(0).text, Some(String::from("after b")));
    assert_eq!(mp.extract_element(1).text, None);
    let mp = Parser::new(String::from("x"), b"<a>one<b>two</b>three</a>", None, None);
    assert_eq!(mp.extract_element(0).text, Some(String::from("three")));
    assert_eq!(mp.extract_element(1).text, Some(String::from("two")));
}

#[test]
fn style_sheet_is_read_when_its_element_ends() {
    let mp = Parser::new(String::from("real_sample.tml"), REAL_SAMPLE.as_bytes(), None, None);
    assert_eq!(mp.global_styles.get_rule("p".to_string()).fg, Some(Color::White));
    assert_eq!(mp.global_styles.get_rule("#greeting".to_string()).fg, Some(Color::Blue));
    assert!(!mp.global_styles.has_rule("button".to_string()));
}

#[test]
fn focus_order_is_sorted_by_order() {
    let mp = Parser::new(String::from("real_sample.tml"), REAL_SAMPLE.as_bytes(), None, None);
    let ids: Vec<String> = mp.indexed_elements.iter().map(|e| e.id.clone()).collect();
    assert_eq!(ids, vec!["go", "greeting"]);
    assert_eq!(mp.indexed_elements[0].order, 1);
    assert_eq!(mp.indexed_elements[1].order, 2);
    assert_eq!(mp.indexed_elements[1].text, None);
    assert_eq!(mp.extract_element(0).order, -1);
}

#[test]
fn elements_with_the_same_order_keep_their_turn() {
    let events = vec![
        start("layout", &[]),
        start("p", &[("id", "a"), ("index", "3")]),
        MarkupEvent::End,
        start("p", &[("id", "b"), ("index", "1")]),
        MarkupEvent::End,
        start("p", &[("id", "c"), ("index", "3")]),
        MarkupEvent::End,
        start("p", &[("id", "d"), ("index", "x")]),
        MarkupEvent::End,
        start("p", &[("id", "e"), ("index", "-5")]),
        MarkupEvent::End,
        start("p", &[("id", "f"), ("index", "0")]),
        MarkupEvent::End,
        MarkupEvent::End,
    ];
    let mp = Parser::from_events(String::from("x"), &events, None, None);
    let ids: Vec<String> = mp.indexed_elements.iter().map(|e| e.id.clone()).collect();
    assert_eq!(ids, vec!["f", "b", "a", "c"]);
    assert_eq!(mp.extract_element(5).order, -5);
}

#[test]
fn missing_ids_are_made_from_the_event_count() {
    let events = vec![
        MarkupEvent::Other,
        start("layout", &[]),
        MarkupEvent::Other,
        start("Block", &[("id", "named")]),
        MarkupEvent::End,
        start("p", &[]),
        MarkupEvent::End,
        MarkupEvent::End,
    ];
    let mp = Parser::from_events(String::from("x"), &events, None, None);
    assert_eq!(mp.extract_element(0).id, "unknown_elm_2");
    assert_eq!(mp.extract_element(1).id, "named");
    assert_eq!(mp.extract_element(1).name, "block");
    assert_eq!(mp.extract_element(2).id, "unknown_elm_6");
}

#[test]
fn tabs_get_their_defaults() {
    let events = vec![
        start("tabs", &[("id", "strip")]),
        start("tabs-header", &[("id", "head")]),
        start("tab-item", &[("id", "one")]),
        MarkupEvent::End,
        start("tab-item", &[("id", "two"), ("action", "mine"), ("index", "7"), ("tabs-id", "x")]),
        MarkupEvent::End,
        MarkupEvent::End,
        start("tabs-body", &[("id", "body")]),
        start("tab-content", &[("id", "c1"), ("for", "one")]),
        MarkupEvent::End,
        MarkupEvent::End,
        MarkupEvent::End,
    ];
    let mp = Parser::from_events(String::from("x"), &events, None, None);
    let one = mp.extract_element(2);
    assert_eq!(one.attributes.get("action"), Some(&String::from("__change_tab")));
    assert_eq!(one.attributes.get("index"), Some(&String::from("3")));
    assert_eq!(one.attributes.get("tabs-id"), Some(&String::from("strip")));
    assert_eq!(one.order, 3);
    let two = mp.extract_element(3);
    assert_eq!(two.attributes.get("action"), Some(&String::from("mine")));
    assert_eq!(two.attributes.get("index"), Some(&String::from("7")));
    assert_eq!(two.attributes.get("tabs-id"), Some(&String::from("x")));
    assert_eq!(two.order, 35);
    let content = mp.extract_element(5);
    assert_eq!(content.attributes.get("tabs-id"), Some(&String::from("strip")));
    assert_eq!(content.attributes.get("action"), None);
    assert_eq!(content.order, -1);
    let ids: Vec<String> = mp.indexed_elements.iter().map(|e| e.id.clone()).collect();
    assert_eq!(ids, vec!["one", "two"]);
}

#[test]
fn a_tab_right_under_the_root_gets_no_strip() {
    let events = vec![start("layout", &[("id", "root")]), start("tab-item", &[("id", "t")])];
    let mp = Parser::from_events(String::from("x"), &events, None, None);
    assert_eq!(mp.extract_element(1).attributes.get("tabs-id"), None);
    assert_eq!(mp.extract_element(1).order, 2);
}

#[test]
fn tab_order_counts_on_from_the_element_before() {
    let events = vec![
        start("tabs", &[("id", "strip"), ("index", "4")]),
        start("tab-item", &[("id", "t")]),
    ];
    let mp = Parser::from_events(String::from("x"), &events, None, None);
    assert_eq!(mp.extract_element(1).order, 42);
    let ids: Vec<String> = mp.indexed_elements.iter().map(|e| e.id.clone()).collect();
    assert_eq!(ids, vec!["strip", "t"]);
}

#[test]
fn an_error_event_leaves_nothing_but_the_message() {
    let mut state = StringMap::new();
    state.insert("k".to_string(), "v".to_string());
    let events = vec![
        start("layout", &[("index", "1")]),
        MarkupEvent::Error(String::from("broken")),
        start("p", &[]),
    ];
    let mp = Parser::from_events(String::from("x"), &events, None, Some(state));
    assert!(mp.failed);
    assert_eq!(mp.error, Some(String::from("broken")));
    assert_eq!(mp.tree.len(), 0);
    assert_eq!(mp.indexed_elements.len(), 0);
    assert_eq!(mp.state.len(), 0);
}

#[test]
fn events_outside_any_element_are_passed_over() {
    let events = vec![MarkupEvent::End, MarkupEvent::Text(String::from("x")), start("a", &[])];
    let mp = Parser::from_events(String::from("x"), &events, None, None);
    assert_eq!(mp.tree.len(), 1);
    assert_eq!(mp.extract_element(0).id, "unknown_elm_3");
}

#[test]
fn state_and_renderers_are_kept() {
    let mut state = StringMap::new();
    state.insert("showDialog".to_string(), "true".to_string());
    let mut store: RendererStorage<u8> = RendererStorage::new();
    store.add_renderer("block", 1).add_renderer("block", 2).add_renderer("p", 3);
    assert!(store.has_component("block"));
    assert!(!store.has_component("button"));
    assert_eq!(store.renderer("block"), Some(&1));
    let mp = Parser::new(String::from("x"), b"<layout/>", Some(store), Some(state));
    assert_eq!(mp.state.get("showDialog"), Some(&String::from("true")));
    assert!(mp.storage.as_ref().unwrap().has_component("p"));
    assert_eq!(mp.current, -1);
    assert_eq!(mp.contexts.len(), 0);
    assert_eq!(mp.fingerprint, "<empty>");
}

#[test]
fn attributes_keep_the_last_value_of_a_name() {
    let events = vec![start("p", &[("id", "a"), ("title", "x"), ("id", "b")])];
    let mp = Parser::from_events(String::from("x"), &events, None, None);
    let node = mp.extract_element(0);
    assert_eq!(node.id, "b");
    assert_eq!(node.attributes.len(), 2);
    assert_eq!(node.attributes.key_at(0), "id");
}
