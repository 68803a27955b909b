use tui_markup_renderer::actions::{change_tab, ActionsStorage, IActionsStorage, CHANGE_TAB};
use tui_markup_renderer::event_response::EventResponse;
use tui_markup_renderer::geometry::Rect;
use tui_markup_renderer::input::Key;
use tui_markup_renderer::markup_element::MarkupElement;
use tui_markup_renderer::markup_parser::{Event, MarkupParser};
use tui_markup_renderer::string_map::StringMap;

type Callback = fn(StringMap, Option<MarkupElement>) -> EventResponse;
type Parser = MarkupParser<Callback, u8>;

const SAMPLE: &str = r#"<layout id="root">
  <button id="a" index="1" action="open"/>
  <button id="b" index="2" action="quit"/>
  <button id="c" index="3" action="missing"/>
  <button id="d" index="4"/>
</layout>"#;

fn parse(source: &str) -> Parser {
    let mp = Parser::new(String::from("inline"), source.as_bytes(), None, None);
    assert!(!mp.failed, "{:?}", mp.error);
    mp
}

fn open(state: StringMap, node: Option<MarkupElement>) -> EventResponse {
    let mut state = state;
    state.insert("opened_by".to_string(), node.unwrap().id);
    EventResponse::STATE(state)
}

fn quit(_state: StringMap, _node: Option<MarkupElement>) -> EventResponse {
    EventResponse::QUIT
}

fn noop(_state: StringMap, _node: Option<MarkupElement>) -> EventResponse {
    EventResponse::NOOP
}

#[test]
fn fingerprint_of_a_session() {
    let mut mp = parse(SAMPLE);
    assert_eq!(mp.get_fingerprint(), "-1:0:a~b~c~d:");
    mp.go_next();
    mp.state.insert("k".to_string(), "v".to_string());
    mp.state.insert("open".to_string(), "true".to_string());
    assert_eq!(mp.get_fingerprint(), "0:0:a~b~c~d:-k_v-open_true");
    let button = mp.extract_element(1);
    mp.add_context(&button);
    assert_eq!(mp.get_fingerprint(), "-1:1::-k_v-open_true");
}

#[test]
fn drawing_is_due_when_the_fingerprint_differs() {
    let mut mp = parse(SAMPLE);
    assert!(mp.needs_render());
    mp.update_fingerprint();
    assert!(!mp.needs_render());
    assert_eq!(mp.fingerprint, "-1:0:a~b~c~d:");
    mp.go_next();
    assert!(mp.needs_render());
    mp.update_fingerprint();
    assert!(!mp.needs_render());
    mp.state.insert("k".to_string(), "v".to_string());
    assert!(mp.needs_render());
    mp.update_fingerprint();
    let button = mp.extract_element(1);
    mp.remove_context(&button);
    assert!(mp.needs_render());
}

#[test]
fn tab_keys_move_the_focus() {
    let mut mp = parse(SAMPLE);
    assert!(!mp.key_pressed(Key::Tab));
    assert_eq!(mp.current, 0);
    assert!(!mp.key_pressed(Key::Tab));
    assert_eq!(mp.current, 1);
    assert!(!mp.key_pressed(Key::BackTab));
    assert_eq!(mp.current, 0);
    assert!(!mp.key_pressed(Key::Other));
    assert_eq!(mp.current, 0);
}

#[test]
fn enter_runs_the_action_of_the_focused_element() {
    let mut mp = parse(SAMPLE);
    mp.add_action("open", open as Callback).add_action("quit", quit as Callback);
    assert!(!mp.key_pressed(Key::Enter));
    assert_eq!(mp.state.len(), 0);
    mp.key_pressed(Key::Tab);
    assert!(!mp.key_pressed(Key::Enter));
    assert_eq!(mp.state.get("opened_by"), Some(&String::from("a")));
    assert_eq!(mp.current, 0);
    mp.key_pressed(Key::Tab);
    assert!(mp.key_pressed(Key::Enter));
    mp.key_pressed(Key::Tab);
    assert!(!mp.key_pressed(Key::Enter));
    mp.key_pressed(Key::Tab);
    assert!(!mp.key_pressed(Key::Enter));
    assert_eq!(mp.state.len(), 1);
}

#[test]
fn the_first_registration_of_an_action_counts() {
    let mut mp = parse(SAMPLE);
    mp.add_action("open", noop as Callback).add_action("open", open as Callback);
    mp.key_pressed(Key::Tab);
    mp.key_pressed(Key::Enter);
    assert_eq!(mp.state.len(), 0);
    let mut actions: ActionsStorage<Callback> = ActionsStorage::new();
    assert!(!actions.has_action("x".to_string()));
    actions
        .add_action("x".to_string(), quit as Callback)
        .add_action("x".to_string(), noop as Callback);
    assert!(actions.has_action("x".to_string()));
    assert!(matches!(
        actions.execute("x".to_string(), StringMap::new(), None),
        Some(EventResponse::QUIT)
    ));
    assert!(actions.execute("y".to_string(), StringMap::new(), None).is_none());
}

#[test]
fn responses_are_applied() {
    let mut mp = parse(SAMPLE);
    mp.go_next();
    let mut state = StringMap::new();
    state.insert("k".to_string(), "v".to_string());
    assert!(!mp.apply_response(EventResponse::STATE(state.clone())));
    assert_eq!(mp.state.get("k"), Some(&String::from("v")));
    assert_eq!(mp.current, 0);
    assert!(!mp.apply_response(EventResponse::NOOP));
    assert_eq!(mp.state.len(), 1);
    assert!(!mp.apply_response(EventResponse::CLEANFOCUS(StringMap::new())));
    assert_eq!(mp.state.len(), 0);
    assert_eq!(mp.current, -1);
    mp.go_next();
    assert!(mp.apply_response(EventResponse::QUIT));
    assert_eq!(mp.current, 0);
}

#[test]
fn choosing_a_tab_selects_it_and_clears_the_focus() {
    let source = r#"<tabs id="strip">
      <tabs-header id="head"><tab-item id="one"/><tab-item id="two"/></tabs-header>
      <tabs-body id="body"/>
    </tabs>"#;
    let mut mp = parse(source);
    mp.add_action("__change_tab", quit as Callback);
    mp.render_ui(Rect { x: 0, y: 0, width: 40, height: 10 }).unwrap();
    assert_eq!(mp.state.get("strip:index"), Some(&String::from("one")));
    let ids: Vec<String> = mp.indexed_elements.iter().map(|e| e.id.clone()).collect();
    assert_eq!(ids, vec!["one", "two"]);
    mp.key_pressed(Key::Tab);
    mp.key_pressed(Key::Tab);
    assert!(!mp.key_pressed(Key::Enter));
    assert_eq!(mp.state.get("strip:index"), Some(&String::from("two")));
    assert_eq!(mp.current, -1);
}

#[test]
fn the_tab_action_on_its_own() {
    let mut state = StringMap::new();
    state.insert("other".to_string(), "1".to_string());
    match change_tab(state.clone(), None) {
        EventResponse::CLEANFOCUS(s) => assert_eq!(s.len(), 1),
        other => panic!("{:?}", other),
    }
    let mut node = MarkupElement {
        position: None,
        deep: 0,
        id: String::from("t"),
        name: String::from("tab-item"),
        order: -1,
        text: None,
        attributes: StringMap::new(),
        children: vec![],
        parent_node: None,
        dependencies: vec![],
    };
    match change_tab(state.clone(), Some(node.clone())) {
        EventResponse::CLEANFOCUS(s) => assert_eq!(s.len(), 1),
        other => panic!("{:?}", other),
    }
    node.attributes.insert("tabs-id".to_string(), "strip".to_string());
    match change_tab(state, Some(node)) {
        EventResponse::CLEANFOCUS(s) => {
            assert_eq!(s.get("strip:index"), Some(&String::from("t")));
            assert_eq!(s.len(), 2);
        }
        other => panic!("{:?}", other),
    }
}

#[test]
fn the_handler_of_the_caller_comes_after_the_key() {
    let mut mp = parse(SAMPLE);
    mp.add_action("open", open as Callback);
    mp.key_pressed(Key::Tab);
    let handler = |pressed: char, state: StringMap| -> EventResponse {
        if pressed == 'q' {
            return EventResponse::QUIT;
        }
        let mut next = state.clone();
        let seen = state.get("opened_by").cloned().unwrap_or_default();
        next.insert("handler_saw".to_string(), seen);
        EventResponse::CLEANFOCUS(next)
    };
    assert!(!mp.on_key(Key::Enter, 'x', &handler));
    assert_eq!(mp.state.get("handler_saw"), Some(&String::from("a")));
    assert_eq!(mp.current, -1);
    assert!(mp.on_key(Key::Tab, 'q', &handler));
    assert_eq!(mp.current, 0);
    mp.add_action("quit", quit as Callback);
    mp.key_pressed(Key::Tab);
    assert!(mp.on_key(Key::Enter, 'x', &handler));
    assert_eq!(mp.current, -1);
}

#[test]
fn events_are_input_or_tick() {
    let events: Vec<Event<char>> = vec![Event::Input('a'), Event::Tick];
    assert!(matches!(events[0], Event::Input('a')));
    assert!(matches!(events[1], Event::Tick));
}

fn tab(id: &str, strip: Option<&str>) -> MarkupElement {
    let mut attributes = StringMap::new();
    if let Some(strip) = strip {
        attributes.insert("tabs-id".to_string(), strip.to_string());
    }
    MarkupElement {
        position: None,
        deep: 0,
        id: String::from(id),
        name: String::from("tab-item"),
        order: -1,
        text: None,
        attributes,
        children: vec![],
        parent_node: None,
        dependencies: vec![],
    }
}

#[test]
fn a_new_registry_holds_the_tab_action() {
    assert_eq!(CHANGE_TAB, "__change_tab");
    let actions: ActionsStorage<Callback> = ActionsStorage::new();
    assert!(actions.has_action(String::from("__change_tab")));
    assert!(actions.contains("__change_tab"));
    assert!(!actions.has_action(String::from("change_tab")));
    assert!(!actions.has_action(String::new()));
    let by_default: ActionsStorage<Callback> = ActionsStorage::default();
    assert!(by_default.has_action(String::from("__change_tab")));
}

#[test]
fn a_registry_runs_the_tab_action() {
    let actions: ActionsStorage<Callback> = ActionsStorage::new();
    let mut state = StringMap::new();
    state.insert("other".to_string(), "1".to_string());
    match actions.execute(String::from("__change_tab"), state.clone(), Some(tab("n", Some("T")))) {
        Some(EventResponse::CLEANFOCUS(s)) => {
            assert_eq!(s.get("T:index"), Some(&String::from("n")));
            assert_eq!(s.get("other"), Some(&String::from("1")));
            assert_eq!(s.len(), 2);
        }
        other => panic!("{:?}", other),
    }
    match actions.execute(String::from("__change_tab"), state.clone(), Some(tab("n", None))) {
        Some(EventResponse::CLEANFOCUS(s)) => {
            assert_eq!(s.len(), 1);
            assert_eq!(s.get("other"), Some(&String::from("1")));
        }
        other => panic!("{:?}", other),
    }
    match actions.call("__change_tab", state.clone(), None) {
        Some(EventResponse::CLEANFOCUS(s)) => {
            assert_eq!(s.len(), 1);
            assert_eq!(s.get("other"), Some(&String::from("1")));
        }
        other => panic!("{:?}", other),
    }
    assert!(actions.execute(String::from("absent"), state, None).is_none());
}

#[test]
fn the_name_of_the_tab_action_cannot_be_taken() {
    let mut actions: ActionsStorage<Callback> = ActionsStorage::new();
    actions.add_action(String::from("__change_tab"), quit as Callback);
    actions.register(String::from("__change_tab"), noop as Callback);
    match actions.execute(String::from("__change_tab"), StringMap::new(), Some(tab("n", Some("T")))) {
        Some(EventResponse::CLEANFOCUS(s)) => {
            assert_eq!(s.get("T:index"), Some(&String::from("n")));
        }
        other => panic!("{:?}", other),
    }
    actions.add_action(String::from("leave"), quit as Callback);
    assert!(matches!(
        actions.execute(String::from("leave"), StringMap::new(), None),
        Some(EventResponse::QUIT)
    ));
}

#[test]
fn a_new_interface_holds_the_tab_action() {
    let mp = parse(SAMPLE);
    assert!(mp.actions.has_action(String::from("__change_tab")));
    let broken = Parser::new(String::from("inline"), "<a><b></a>".as_bytes(), None, None);
    assert!(broken.failed);
    assert!(broken.actions.has_action(String::from("__change_tab")));
    let mut state = StringMap::new();
    state.insert("k".to_string(), "v".to_string());
    match mp.actions.execute(String::from("__change_tab"), state, Some(tab("n", Some("T")))) {
        Some(EventResponse::CLEANFOCUS(s)) => {
            assert_eq!(s.get("T:index"), Some(&String::from("n")));
            assert_eq!(s.get("k"), Some(&String::from("v")));
        }
        other => panic!("{:?}", other),
    }
}
