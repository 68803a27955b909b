use tui_markup_renderer::event_response::EventResponse;
use tui_markup_renderer::geometry::{Alignment, Rect};
use tui_markup_renderer::markup_element::MarkupElement;
use tui_markup_renderer::markup_parser::MarkupParser;
use tui_markup_renderer::render::{can_be_drawn, draw_button};
use tui_markup_renderer::storage::{IRendererStorage, RendererStorage};
use tui_markup_renderer::string_map::StringMap;
use tui_markup_renderer::styles::{Color, Modifier, Style, UNDERLINED};
use tui_markup_renderer::widgets::{
    BorderType, Borders, DrawAction, BORDER_ALL, BORDER_BOTTOM, BORDER_NONE,
};

type Callback = fn(StringMap, Option<MarkupElement>) -> EventResponse;
type Parser = MarkupParser<Callback, u8>;

fn parse(source: &str, state: &[(&str, &str)]) -> Parser {
    let mut map = StringMap::new();
    for (k, v) in state {
        map.insert(k.to_string(), v.to_string());
    }
    let mp = Parser::new(String::from("inline"), source.as_bytes(), None, Some(map));
    assert!(!mp.failed, "{:?}", mp.error);
    mp
}

fn rect(x: u16, y: u16, width: u16, height: u16) -> Rect {
    Rect { x, y, width, height }
}

fn element(id: &str, name: &str, dependencies: &[&str]) -> MarkupElement {
    MarkupElement {
        position: None,
        deep: 0,
        id: id.to_string(),
        name: name.to_string(),
        order: -1,
        text: None,
        attributes: StringMap::new(),
        children: vec![],
        parent_node: None,
        dependencies: dependencies.iter().map(|d| d.to_string()).collect(),
    }
}

fn blocks(actions: &[DrawAction]) -> Vec<(String, Rect)> {
    actions
        .iter()
        .filter_map(|a| match a {
            DrawAction::Block { area, block, .. } => {
                Some((block.title.clone().unwrap_or_default(), *area))
            }
            DrawAction::Paragraph { area, paragraph, .. } => {
                Some((paragraph.block.title.clone().unwrap_or_default(), *area))
            }
            _ => None,
        })
        .collect()
}

#[test]
fn render_check() {
    let mut store: RendererStorage<u8> = RendererStorage::new();
    store.add_renderer("block", 7);
    let source = r#"<block id="only" title="Hi" border="all"/>"#;
    let mut mp = Parser::new(String::from("single"), source.as_bytes(), Some(store), None);
    let actions = mp.render_ui(rect(0, 0, 15, 3)).unwrap();
    assert_eq!(actions.len(), 1);
    match &actions[0] {
        DrawAction::Custom { tag } => assert_eq!(tag, "block"),
        other => panic!("{:?}", other),
    }
}

#[test]
fn render_check2() {
    let mut mp = parse(
        r#"<layout id="root" direction="vertical">
             <container id="nav" constraint="3" title="Nav" border="all"/>
             <container id="body" constraint="7" title="Body" border="all"/>
           </layout>"#,
        &[],
    );
    let actions = mp.render_ui(rect(0, 0, 10, 10)).unwrap();
    assert_eq!(
        blocks(&actions),
        vec![
            (String::from("Nav"), rect(0, 0, 10, 3)),
            (String::from("Body"), rect(0, 3, 10, 7))
        ]
    );
    match &actions[1] {
        DrawAction::Block { clear, block, .. } => {
            assert!(*clear);
            assert_eq!(block.borders, Borders { bits: BORDER_ALL });
            assert_eq!(block.border_type, BorderType::Plain);
            assert_eq!(block.style, Style::new());
        }
        other => panic!("{:?}", other),
    }
}

#[test]
fn render_check3() {
    let mut mp = parse(
        r#"<layout id="root" direction="vertical">
             <container id="nav" constraint="4" title="Nav" border="all"/>
             <layout id="row" constraint="6">
               <container id="ats" constraint="5" title="Ats" border="all"/>
               <container id="cnt" constraint="15" title="Cnt" border="all">
                 <block id="inn" constraint="5" title="Inn" border="all"/>
                 <block id="more" constraint="8" title="More" border="all"/>
               </container>
             </layout>
           </layout>"#,
        &[],
    );
    let actions = mp.render_ui(rect(0, 0, 20, 10)).unwrap();
    assert_eq!(
        blocks(&actions),
        vec![
            (String::from("Nav"), rect(0, 0, 20, 4)),
            (String::from("Ats"), rect(1, 5, 5, 4)),
            (String::from("Cnt"), rect(6, 5, 13, 4)),
            (String::from("Inn"), rect(7, 6, 5, 2)),
            (String::from("More"), rect(12, 6, 6, 2)),
        ]
    );
}

#[test]
fn render_check4() {
    let mut mp = parse(
        r#"<layout id="root" direction="vertical">
             <container id="nav" constraint="3" title="Nav" border="all"/>
             <container id="body" constraint="7" title="Body" border="all">
               <block id="ats" constraint="5" title="Ats" border="all"/>
               <block id="cnt" constraint="13" title="Cnt" border="all"/>
             </container>
           </layout>"#,
        &[],
    );
    let actions = mp.render_ui(rect(0, 0, 20, 10)).unwrap();
    assert_eq!(
        blocks(&actions),
        vec![
            (String::from("Nav"), rect(0, 0, 20, 3)),
            (String::from("Body"), rect(0, 3, 20, 7)),
            (String::from("Ats"), rect(1, 4, 5, 5)),
            (String::from("Cnt"), rect(6, 4, 13, 5)),
        ]
    );
}

#[test]
fn render_check5() {
    let mut mp = parse(
        r#"<container id="box" title="Container" border="all">
             <p id="text" constraint="100%" align="center">Sample</p>
           </container>"#,
        &[],
    );
    let actions = mp.render_ui(rect(0, 0, 20, 10)).unwrap();
    assert_eq!(actions.len(), 2);
    match &actions[1] {
        DrawAction::Paragraph { area, target, paragraph } => {
            assert_eq!(*area, rect(1, 1, 18, 8));
            assert_eq!(*target, rect(1, 1, 18, 8));
            assert_eq!(paragraph.text, "Sample");
            assert_eq!(paragraph.alignment, Alignment::Center);
            assert!(paragraph.wrap);
            assert_eq!(paragraph.blank_lines, 0);
            assert_eq!(paragraph.text_style, None);
            assert_eq!(paragraph.block.title, Some(String::new()));
            assert_eq!(paragraph.block.borders, Borders { bits: BORDER_NONE });
        }
        other => panic!("{:?}", other),
    }
}

#[test]
fn a_pass_without_a_tree_fails() {
    let mut mp = Parser::new(String::from("bad"), b"<a></b>", None, None);
    assert_eq!(mp.render_ui(rect(0, 0, 5, 5)).unwrap_err(), "Critical error on render process.");
    let mut mp = parse("<layout/>", &[]);
    mp.root = Some(3);
    assert!(mp.render_ui(rect(0, 0, 5, 5)).is_err());
}

#[test]
fn one_drawn_dependency_is_enough() {
    let drawn = vec![String::from("a"), String::from("b")];
    assert!(can_be_drawn(&element("x", "p", &[]), &drawn));
    assert!(can_be_drawn(&element("x", "p", &[]), &vec![]));
    assert!(can_be_drawn(&element("x", "p", &["b"]), &drawn));
    assert!(can_be_drawn(&element("x", "p", &["z", "a"]), &drawn));
    assert!(!can_be_drawn(&element("x", "p", &["z", "y"]), &drawn));
    assert!(!can_be_drawn(&element("x", "p", &["a"]), &vec![]));
}

const WITH_DIALOG: &str = r#"<layout id="root" direction="vertical">
  <container id="page" constraint="100%">
    <button id="open" index="1" constraint="10" action="ask">Open</button>
  </container>
  <dialog id="dlg1" show="showQuitDialog" buttons="Yes|Cancel">
    <p id="question" constraint="100%">Sure?</p>
  </dialog>
</layout>"#;

fn painted(actions: &[DrawAction]) -> usize {
    actions.iter().filter(|a| !matches!(a, DrawAction::Nothing)).count()
}

#[test]
fn a_dialog_comes_and_goes_with_its_flag() {
    let mut mp = parse(WITH_DIALOG, &[]);
    let frame = rect(0, 0, 100, 50);
    let before: Vec<String> = mp.indexed_elements.iter().map(|e| e.id.clone()).collect();
    assert_eq!(before, vec!["open"]);
    let actions = mp.render_ui(frame).unwrap();
    assert_eq!(painted(&actions), 2);
    assert_eq!(mp.contexts.len(), 0);

    mp.state.insert("showQuitDialog".to_string(), "true".to_string());
    let actions = mp.render_ui(frame).unwrap();
    assert_eq!(painted(&actions), 6);
    match &actions[2] {
        DrawAction::Block { block, area, clear } => {
            assert_eq!(block.border_type, BorderType::Double);
            assert_eq!(block.borders, Borders { bits: BORDER_ALL });
            assert_eq!(*area, rect(35, 16, 29, 15));
            assert!(*clear);
        }
        other => panic!("{:?}", other),
    }
    match &actions[4] {
        DrawAction::Paragraph { paragraph, area, target } => {
            assert_eq!(paragraph.text, "Yes");
            assert_eq!(paragraph.alignment, Alignment::Center);
            assert_eq!(paragraph.block.border_type, BorderType::Rounded);
            assert_eq!(paragraph.block.title, None);
            assert_eq!(target.height, 3);
            assert_eq!(area.y, target.y);
        }
        other => panic!("{:?}", other),
    }
    let items = mp.tree.process_node(frame, 0, &None, None, None);
    for placed in items.iter().skip(3) {
        assert!(placed.1.dependencies.contains(&String::from("dlg1")));
    }
    let inside: Vec<String> = mp.indexed_elements.iter().map(|e| e.id.clone()).collect();
    assert_eq!(inside, vec!["dlg1_btn_Yes", "dlg1_btn_Cancel"]);
    assert_eq!(mp.contexts.len(), 1);
    assert_eq!(mp.contexts[0].0, "dlg1");

    mp.go_next();
    mp.render_ui(frame).unwrap();
    assert_eq!(mp.contexts.len(), 1);
    assert_eq!(mp.current, 0);

    mp.state.insert("showQuitDialog".to_string(), "false".to_string());
    let actions = mp.render_ui(frame).unwrap();
    assert_eq!(painted(&actions), 2);
    let after: Vec<String> = mp.indexed_elements.iter().map(|e| e.id.clone()).collect();
    assert_eq!(after, before);
    assert_eq!(mp.contexts.len(), 0);
    assert_eq!(mp.current, -1);
}

const WITH_TABS: &str = r#"<tabs id="strip">
  <tabs-header id="head">
    <tab-item id="one">One</tab-item>
    <tab-item id="two"/>
  </tabs-header>
  <tabs-body id="body">
    <tab-content id="c1" for="one" border="all">
      <p id="first_text" constraint="100%">first</p>
    </tab-content>
    <tab-content id="c2" for="two">
      <p id="second_text" constraint="100%">second</p>
    </tab-content>
  </tabs-body>
</tabs>"#;

fn texts(actions: &[DrawAction]) -> Vec<String> {
    actions
        .iter()
        .filter_map(|a| match a {
            DrawAction::Paragraph { paragraph, .. } => Some(paragraph.text.clone()),
            _ => None,
        })
        .collect()
}

#[test]
fn the_first_tab_is_selected_where_none_is() {
    let mut mp = parse(WITH_TABS, &[]);
    let actions = mp.render_ui(rect(0, 0, 40, 20)).unwrap();
    assert_eq!(mp.state.get("strip:index"), Some(&String::from("one")));
    assert_eq!(texts(&actions), vec!["One", "Tab", "first"]);
    match &actions[1] {
        DrawAction::Block { clear, block, area } => {
            assert!(!*clear);
            assert_eq!(block.borders, Borders { bits: BORDER_BOTTOM });
            assert_eq!(block.border_type, BorderType::Rounded);
            assert_eq!(*area, rect(0, 0, 40, 3));
        }
        other => panic!("{:?}", other),
    }
    match &actions[2] {
        DrawAction::Paragraph { paragraph, .. } => {
            assert_eq!(paragraph.block.borders, Borders { bits: 0x16 });
        }
        other => panic!("{:?}", other),
    }
}

#[test]
fn only_the_content_of_the_selected_tab_is_drawn() {
    let mut mp = parse(WITH_TABS, &[("strip:index", "two")]);
    let actions = mp.render_ui(rect(0, 0, 40, 20)).unwrap();
    assert_eq!(texts(&actions), vec!["One", "Tab", "second"]);
    assert_eq!(mp.state.get("strip:index"), Some(&String::from("two")));
    let mut mp = parse(WITH_TABS, &[("strip:index", "none")]);
    let actions = mp.render_ui(rect(0, 0, 40, 20)).unwrap();
    assert_eq!(texts(&actions), vec!["One", "Tab"]);
}

const STYLED: &str = r#"<layout id="root">
  <styles>
    p { fg: white; }
    #myid { fg: blue; }
    p:focus { bg: green; }
    layout { bg: black; }
  </styles>
  <container id="box" constraint="100%">
    <p id="plain" constraint="50%" styles="bg:red;" index="1">a</p>
    <p id="myid" constraint="50%" styles="bg:red;" index="2">b</p>
  </container>
</layout>"#;

fn paragraph_styles(actions: &[DrawAction]) -> Vec<Style> {
    actions
        .iter()
        .filter_map(|a| match a {
            DrawAction::Paragraph { paragraph, .. } => Some(paragraph.style),
            _ => None,
        })
        .collect()
}

#[test]
fn styles_cascade() {
    let mut mp = parse(STYLED, &[]);
    let actions = mp.render_ui(rect(0, 0, 40, 10)).unwrap();
    let styles = paragraph_styles(&actions);
    assert_eq!(styles[0].bg, Some(Color::Red));
    assert_eq!(styles[0].fg, Some(Color::White));
    assert_eq!(styles[1].bg, Some(Color::Red));
    assert_eq!(styles[1].fg, Some(Color::Blue));
    let plain = mp.extract_element(3);
    let cascade = mp.tree.get_element_styles(&mp.global_styles, &plain, false, false);
    assert_eq!(cascade, Style::new().bg(Color::Black).fg(Color::White));
    let container = mp.extract_element(2);
    let cascade = mp.tree.get_element_styles(&mp.global_styles, &container, false, false);
    assert_eq!(cascade, Style::new().bg(Color::Black));
}

#[test]
fn the_focused_element_takes_its_focus_rule() {
    let mut mp = parse(STYLED, &[]);
    mp.go_next();
    let plain = mp.extract_element(3);
    let (done, action) = mp.draw_element(rect(0, 0, 10, 3), &plain);
    assert!(done);
    match action {
        DrawAction::Paragraph { paragraph, .. } => {
            assert_eq!(paragraph.style.fg, None);
            assert_eq!(paragraph.style.bg, Some(Color::Green));
        }
        other => panic!("{:?}", other),
    }
    assert_eq!(mp.focused(), "plain");
}

#[test]
fn buttons_are_cut_to_three_rows() {
    let mut mp = parse(r#"<button id="b" styles="fg:red">Go</button>"#, &[]);
    let node = mp.extract_element(0);
    let (done, action) = mp.draw_element(rect(2, 2, 10, 8), &node);
    assert!(done);
    match action {
        DrawAction::Paragraph { area, target, paragraph } => {
            assert_eq!(area, rect(2, 2, 10, 8));
            assert_eq!(target, rect(2, 2, 10, 3));
            assert_eq!(paragraph.blank_lines, 0);
            assert_eq!(paragraph.text_style, Some(Style::new().fg(Color::Red)));
        }
        other => panic!("{:?}", other),
    }
    let focused = draw_button(&node, 8, true, false, Style::new());
    assert_eq!(focused.blank_lines, 3);
    assert_eq!(
        focused.text_style,
        Some(Style::new().add_modifier(Modifier { bits: UNDERLINED }))
    );
    assert_eq!(draw_button(&node, 1, false, false, Style::new()).blank_lines, 0);
    assert_eq!(draw_button(&node, 0, false, false, Style::new()).blank_lines, 0);
}

#[test]
fn an_unknown_tag_is_cleared_ground() {
    let mut mp = parse(r#"<section id="s"/>"#, &[]);
    let actions = mp.render_ui(rect(0, 0, 10, 5)).unwrap();
    match &actions[0] {
        DrawAction::Block { clear, area, block } => {
            assert!(*clear);
            assert_eq!(*area, rect(0, 0, 10, 5));
            assert_eq!(block.borders, Borders { bits: BORDER_NONE });
            assert_eq!(block.title, None);
        }
        other => panic!("{:?}", other),
    }
}
