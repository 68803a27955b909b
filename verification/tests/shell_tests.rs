use tui_markup_renderer::event_response::EventResponse;
use tui_markup_renderer::geometry::Rect;
use tui_markup_renderer::input::Key;
use tui_markup_renderer::markup_element::MarkupElement;
use tui_markup_renderer::markup_parser::MarkupParser;
use tui_markup_renderer::string_map::StringMap;
use tui_markup_renderer::widgets::DrawAction;

type Callback = fn(StringMap, Option<MarkupElement>) -> EventResponse;
type Parser = MarkupParser<Callback, u8>;

const SHELL: &str = r#"<layout id="root" direction="vertical">
  <styles>
    button:focus { bg: gray; fg: white; }
    #footer { fg: cyan; }
  </styles>
  <container id="nav_container" constraint="5">
    <p id="toolbar" title="Actions" border="all">
      Shell
    </p>
  </container>
  <container id="body_container" constraint="10min">
    <block id="body_block" border="none">
      <layout id="content_info" direction="horizontal">
        <container id="ats_container" constraint="20%" title=" Side " border="all">
          <layout id="vert_info" direction="vertical">
            <block id="ats_block" constraint="3">
              <button id="btn_hello" action="do_something" index="1" focus_styles="fg:white;bg:gray"> Action </button>
            </block>
          </layout>
        </container>
        <container id="cnt_container" constraint="20min">
          <block id="cnt_block" title="Cnt" border="all">
            <tabs id="tabs-cmp" constraint="100%" border="all">
              <tabs-header id="t-header" title="Actions">
                <tab-item id="tab1"> Tab 1 </tab-item>
                <tab-item id="tab2"> Tab 2 </tab-item>
              </tabs-header>
              <tabs-body id="t-body" linked-to="tabs1">
                <tab-content id="ctt-1" for="tab1">
                  <p id="prg-1">
                    Content 1
                  </p>
                </tab-content>
                <tab-content id="ctt-2" for="tab2">
                  <p id="prg-2">
                    Content 2
                  </p>
                </tab-content>
              </tabs-body>
            </tabs>
          </block>
        </container>
      </layout>
    </block>
  </container>
  <container id="footer_container" constraint="5">
    <p id="footer" border="all">
      Footer
    </p>
  </container>
  <dialog id="dlg1" show="showQuitDialog" buttons="Yes|Cancel">
    <layout direction="vertical">
      <container constraint="3">
        <p align="center" styles="weight:bold">
          Close Application
        </p>
      </container>
      <container>
        <p align="center">
          Do you want to close the application?
        </p>
      </container>
    </layout>
  </dialog>
  <dialog id="dlg2" show="showMessageDialog" buttons="Okay" action="on_close_dialog">
    <layout direction="vertical">
      <container constraint="3">
        <p align="center" styles="weight:bold">
          Message!
        </p>
      </container>
    </layout>
  </dialog>
</layout>"#;

fn set(state: StringMap, key: &str, value: &str) -> EventResponse {
    let mut state = state;
    state.insert(key.to_string(), value.to_string());
    EventResponse::STATE(state)
}

fn show_message(state: StringMap, _node: Option<MarkupElement>) -> EventResponse {
    set(state, "showMessageDialog", "true")
}

fn close_message(state: StringMap, _node: Option<MarkupElement>) -> EventResponse {
    set(state, "showMessageDialog", "false")
}

fn quit(_state: StringMap, _node: Option<MarkupElement>) -> EventResponse {
    EventResponse::QUIT
}

fn texts(actions: &[DrawAction]) -> Vec<String> {
    actions
        .iter()
        .filter_map(|a| match a {
            DrawAction::Paragraph { paragraph, .. } => Some(paragraph.text.clone()),
            _ => None,
        })
        .collect()
}

fn focus_ids(mp: &Parser) -> Vec<String> {
    mp.indexed_elements.iter().map(|e| e.id.clone()).collect()
}

fn frame() -> Rect {
    Rect { x: 0, y: 0, width: 120, height: 40 }
}

fn render(mp: &mut Parser) -> Vec<String> {
    let drawn = if mp.needs_render() {
        let actions = mp.render_ui(frame()).unwrap();
        mp.update_fingerprint();
        texts(&actions)
    } else {
        vec![]
    };
    drawn
}

#[test]
fn a_shell_runs_through_a_session() {
    let mut mp = Parser::new(String::from("main.xml"), SHELL.as_bytes(), None, None);
    assert!(!mp.failed, "{:?}", mp.error);
    mp.add_action("do_something", show_message as Callback)
        .add_action("on_close_dialog", close_message as Callback)
        .add_action("on_dlg1_btn_Yes", quit as Callback);
    assert_eq!(focus_ids(&mp), vec!["btn_hello", "tab1", "tab2"]);

    let first = render(&mut mp);
    assert_eq!(first, vec!["Shell", "Action", "Tab 1", "Tab 2", "Content 1", "Footer"]);
    assert_eq!(mp.state.get("tabs-cmp:index"), Some(&String::from("tab1")));
    assert!(!mp.needs_render());
    assert!(render(&mut mp).is_empty());

    assert!(!mp.key_pressed(Key::Tab));
    assert_eq!(mp.focused(), "btn_hello");
    assert!(!mp.key_pressed(Key::Enter));
    assert_eq!(mp.state.get("showMessageDialog"), Some(&String::from("true")));
    let with_message = render(&mut mp);
    assert_eq!(
        with_message,
        vec!["Shell", "Action", "Tab 1", "Tab 2", "Content 1", "Footer", "Message!", "Okay"]
    );
    assert_eq!(focus_ids(&mp), vec!["dlg2_btn_Okay"]);
    assert_eq!(mp.current, -1);

    assert!(!mp.key_pressed(Key::Tab));
    assert_eq!(mp.focused(), "dlg2_btn_Okay");
    assert!(!mp.key_pressed(Key::Enter));
    assert_eq!(mp.state.get("showMessageDialog"), Some(&String::from("false")));
    let without = render(&mut mp);
    assert_eq!(without, first);
    assert_eq!(focus_ids(&mp), vec!["btn_hello", "tab1", "tab2"]);

    mp.key_pressed(Key::Tab);
    mp.key_pressed(Key::Tab);
    mp.key_pressed(Key::Tab);
    assert_eq!(mp.focused(), "tab2");
    assert!(!mp.key_pressed(Key::Enter));
    assert_eq!(mp.state.get("tabs-cmp:index"), Some(&String::from("tab2")));
    assert_eq!(mp.current, -1);
    let second_tab = render(&mut mp);
    assert_eq!(second_tab, vec!["Shell", "Action", "Tab 1", "Tab 2", "Content 2", "Footer"]);

    let handler = |pressed: char, state: StringMap| -> EventResponse {
        if pressed == 'q' {
            set(state, "showQuitDialog", "true")
        } else {
            EventResponse::NOOP
        }
    };
    assert!(!mp.on_key(Key::Other, 'q', &handler));
    let asking = render(&mut mp);
    assert!(asking.contains(&String::from("Close Application")));
    assert!(asking.contains(&String::from("Yes")));
    assert_eq!(focus_ids(&mp), vec!["dlg1_btn_Yes", "dlg1_btn_Cancel"]);
    assert!(!mp.on_key(Key::Tab, 'x', &handler));
    assert!(mp.on_key(Key::Enter, 'x', &handler));
}

#[test]
fn a_shell_fits_small_and_large_frames() {
    let sizes = [(0u16, 0u16), (1, 1), (3, 2), (20, 10), (80, 24), (300, 100), (655, 99)];
    for (width, height) in sizes {
        let mut mp = Parser::new(String::from("main.xml"), SHELL.as_bytes(), None, None);
        mp.state.insert("showQuitDialog".to_string(), "true".to_string());
        let area = Rect { x: 0, y: 0, width, height };
        assert!(mp.render_ui(area).is_ok());
        let again = mp.tree.process_node(area, 0, &None, None, None);
        let once_more = mp.tree.process_node(area, 0, &None, None, None);
        assert_eq!(again.len(), once_more.len());
        for (a, b) in again.iter().zip(once_more.iter()) {
            assert_eq!(a.0, b.0);
            assert_eq!(a.1.id, b.1.id);
        }
    }
}
