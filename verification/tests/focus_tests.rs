use tui_markup_renderer::event_response::EventResponse;
use tui_markup_renderer::geometry::Rect;
use tui_markup_renderer::markup_element::MarkupElement;
use tui_markup_renderer::markup_parser::MarkupParser;
use tui_markup_renderer::string_map::StringMap;

type Callback = fn(StringMap, Option<MarkupElement>) -> EventResponse;
type Parser = MarkupParser<Callback, u8>;

const THREE: &str = r#"<layout id="root">
  <button id="a" index="1"/>
  <button id="b" index="2"/>
  <button id="c" index="3"/>
  <dialog id="dlg" show="open" buttons="Yes|No">
    <p id="inside" index="5"/>
    <p id="plain"/>
  </dialog>
</layout>"#;

fn parse(source: &str) -> Parser {
    let mp = Parser::new(String::from("inline"), source.as_bytes(), None, None);
    assert!(!mp.failed, "{:?}", mp.error);
    mp
}

fn focus_ids(mp: &Parser) -> Vec<String> {
    mp.indexed_elements.iter().map(|e| e.id.clone()).collect()
}

#[test]
fn advancing_through_three_elements() {
    let mut mp = parse(
        r#"<layout><p id="a" index="1"/><p id="b" index="2"/><p id="c" index="3"/></layout>"#,
    );
    let mut seen = vec![];
    for _ in 0..8 {
        seen.push(mp.go_next());
    }
    assert_eq!(seen, vec![0, 1, 2, -1, 0, 1, 2, -1]);
}

#[test]
fn retreating_through_three_elements() {
    let mut mp = parse(
        r#"<layout><p id="a" index="1"/><p id="b" index="2"/><p id="c" index="3"/></layout>"#,
    );
    let mut seen = vec![];
    for _ in 0..5 {
        seen.push(mp.go_prev());
    }
    assert_eq!(seen, vec![2, 1, 0, -1, 2]);
    assert_eq!(mp.go_next(), -1);
}

#[test]
fn focus_without_elements_stays_nowhere() {
    let mut mp = parse("<layout/>");
    assert_eq!(mp.go_next(), -1);
    assert_eq!(mp.go_prev(), -1);
    let mut mp = parse(r#"<layout><p index="1"/></layout>"#);
    assert_eq!(mp.go_next(), 0);
    assert_eq!(mp.go_next(), -1);
}

#[test]
fn entering_a_scope_narrows_the_focus_order() {
    let mut mp = parse(THREE);
    assert_eq!(focus_ids(&mp), vec!["a", "b", "c", "inside"]);
    mp.go_next();
    let dialog = mp.extract_element(4);
    mp.add_context(&dialog);
    assert_eq!(focus_ids(&mp), vec!["inside", "dlg_btn_Yes", "dlg_btn_No"]);
    assert_eq!(mp.current, -1);
    assert_eq!(mp.contexts.len(), 1);
    assert_eq!(mp.contexts[0].0, "dlg");
    assert_eq!(mp.contexts[0].1.len(), 4);
    assert_eq!(mp.fingerprint, "<>");
    assert_eq!(mp.indexed_elements[0].text, None);
    assert_eq!(mp.indexed_elements[1].parent_node, Some(4));
    mp.go_next();
    mp.add_context(&dialog);
    assert_eq!(mp.contexts.len(), 1);
    assert_eq!(mp.current, 0);
}

#[test]
fn leaving_a_scope_brings_the_focus_order_back() {
    let mut mp = parse(THREE);
    let dialog = mp.extract_element(4);
    let other = mp.extract_element(1);
    mp.add_context(&dialog);
    mp.go_next();
    mp.remove_context(&other);
    assert_eq!(mp.contexts.len(), 1);
    assert_eq!(mp.current, 0);
    mp.remove_context(&dialog);
    assert_eq!(focus_ids(&mp), vec!["a", "b", "c", "inside"]);
    assert_eq!(mp.contexts.len(), 0);
    assert_eq!(mp.current, -1);
    mp.go_next();
    mp.remove_context(&dialog);
    assert_eq!(mp.current, 0);
    assert_eq!(mp.fingerprint, "<>");
}

#[test]
fn scopes_nest() {
    let mut mp = parse(THREE);
    let dialog = mp.extract_element(4);
    let button = mp.extract_element(1);
    mp.add_context(&dialog);
    mp.add_context(&button);
    assert_eq!(mp.contexts.len(), 2);
    assert_eq!(focus_ids(&mp), Vec::<String>::new());
    mp.remove_context(&dialog);
    assert_eq!(mp.contexts.len(), 2);
    mp.remove_context(&button);
    assert_eq!(focus_ids(&mp), vec!["inside", "dlg_btn_Yes", "dlg_btn_No"]);
    mp.remove_context(&dialog);
    assert_eq!(focus_ids(&mp), vec!["a", "b", "c", "inside"]);
}

#[test]
fn the_members_of_a_scope() {
    let mp = parse(THREE);
    let root = mp.extract_element(0);
    let members: Vec<String> = mp.tree.members_of(&root).iter().map(|e| e.id.clone()).collect();
    assert_eq!(members, vec!["a", "b", "c"]);
    let frame = Rect { x: 0, y: 0, width: 90, height: 40 };
    let items = mp.tree.process_node(frame, 0, &None, None, None);
    let dialog = items.iter().find(|p| p.1.id == "dlg").unwrap();
    let members: Vec<String> =
        mp.tree.members_of(&dialog.1).iter().map(|e| e.id.clone()).collect();
    assert_eq!(members, vec!["inside", "dlg_btn_Yes", "dlg_btn_No"]);
}
