use tui_markup_renderer::event_response::EventResponse;
use tui_markup_renderer::geometry::{
    can_split, clip, inner, split, Direction, Rect, SizeConstraint,
};
use tui_markup_renderer::markup_element::MarkupElement;
use tui_markup_renderer::markup_parser::MarkupParser;
use tui_markup_renderer::string_map::StringMap;

type Callback = fn(StringMap, Option<MarkupElement>) -> EventResponse;
type Parser = MarkupParser<Callback, u8>;

fn parse(source: &str) -> Parser {
    let mp = Parser::new(String::from("inline"), source.as_bytes(), None, None);
    assert!(!mp.failed, "{:?}", mp.error);
    mp
}

fn layout(mp: &Parser, frame: Rect) -> Vec<(Rect, MarkupElement)> {
    mp.tree.process_node(frame, 0, &None, None, None)
}

fn ids(items: &[(Rect, MarkupElement)]) -> Vec<String> {
    items.iter().map(|p| p.1.id.clone()).collect()
}

fn rect(x: u16, y: u16, width: u16, height: u16) -> Rect {
    Rect { x, y, width, height }
}

#[test]
fn two_children_in_a_vertical_layout() {
    let mp = parse(
        r#"<layout id="root" direction="vertical">
             <container id="top" constraint="5"/>
             <container id="rest" constraint="10min"/>
           </layout>"#,
    );
    let items = layout(&mp, rect(0, 0, 10, 20));
    assert_eq!(ids(&items), vec!["top", "rest"]);
    assert_eq!(items[0].0, rect(0, 0, 10, 5));
    assert!(items[1].0.height >= 10);
    assert_eq!(items[1].0, rect(0, 5, 10, 15));
}

#[test]
fn layout_passes_repeat_themselves() {
    let mp = parse(
        r#"<layout id="root" direction="vertical">
             <container id="nav" constraint="3" border="all">
               <p id="a" constraint="50%"/>
               <p id="b"/>
             </container>
             <layout id="inner">
               <block id="left" constraint="30%"/>
               <block id="right" constraint="70%"/>
             </layout>
           </layout>"#,
    );
    let first = layout(&mp, rect(0, 0, 40, 12));
    let second = layout(&mp, rect(0, 0, 40, 12));
    assert_eq!(first.len(), second.len());
    for (a, b) in first.iter().zip(second.iter()) {
        assert_eq!(a.0, b.0);
        assert_eq!(a.1.id, b.1.id);
        assert_eq!(a.1.dependencies, b.1.dependencies);
    }
    assert_eq!(ids(&first), vec!["nav", "a", "b", "left", "right"]);
}

#[test]
fn the_default_axis_of_a_layout_is_horizontal() {
    let mp = parse(
        r#"<layout id="root">
             <block id="a" constraint="4"/>
             <block id="b" constraint="6"/>
           </layout>"#,
    );
    let items = layout(&mp, rect(0, 0, 10, 3));
    assert_eq!(items[0].0, rect(0, 0, 4, 3));
    assert_eq!(items[1].0, rect(4, 0, 6, 3));
}

#[test]
fn containers_show_themselves_then_structures_then_widgets() {
    let mp = parse(
        r#"<container id="box" border="all">
             <p id="first" constraint="5"/>
             <block id="second" constraint="5"/>
             <button id="third" constraint="5"/>
             <block id="fourth" constraint="5"/>
           </container>"#,
    );
    let items = layout(&mp, rect(0, 0, 22, 6));
    assert_eq!(ids(&items), vec!["box", "second", "fourth", "first", "third"]);
    assert_eq!(items[0].0, rect(0, 0, 22, 6));
    assert_eq!(items[3].0, rect(1, 1, 5, 4));
    assert_eq!(items[1].0, rect(6, 1, 5, 4));
    assert_eq!(items[4].0, rect(11, 1, 5, 4));
    assert_eq!(items[2].0, rect(16, 1, 5, 4));
}

#[test]
fn a_container_without_border_has_no_margin() {
    let mp = parse(r#"<block id="box" border="none"><p id="only" constraint="100%"/></block>"#);
    let items = layout(&mp, rect(2, 3, 8, 4));
    assert_eq!(ids(&items), vec!["box", "only"]);
    assert_eq!(items[1].0, rect(2, 3, 8, 4));
}

#[test]
fn the_style_sheet_shows_nothing() {
    let mp = parse(r#"<layout id="root"><styles>p{fg:red;}</styles></layout>"#);
    let items = layout(&mp, rect(0, 0, 10, 10));
    assert_eq!(items.len(), 0);
    assert_eq!(mp.tree.process_node(rect(0, 0, 10, 10), 1, &None, None, None).len(), 0);
}

#[test]
fn a_dialog_is_an_overlay_with_buttons() {
    let mp = parse(
        r#"<layout id="root" direction="vertical">
             <container id="page" constraint="100%"/>
             <dialog id="dlg1" show="showQuitDialog" buttons="Yes|Cancel">
               <p id="question">Sure?</p>
             </dialog>
           </layout>"#,
    );
    let items = layout(&mp, rect(0, 0, 100, 50));
    assert_eq!(ids(&items), vec!["page", "dlg1", "question", "dlg1_btn_Yes", "dlg1_btn_Cancel"]);
    let dialog = &items[1];
    assert_eq!(dialog.0, rect(35, 16, 29, 15));
    assert!(dialog.1.dependencies.is_empty());
    assert_eq!(items[2].1.dependencies, vec!["dlg1"]);
    let yes = &items[3].1;
    assert_eq!(yes.name, "button");
    assert_eq!(yes.text, Some(String::from("Yes")));
    assert_eq!(yes.order, 0);
    assert_eq!(yes.deep, dialog.1.deep + 1);
    assert_eq!(yes.parent_node, dialog.1.position);
    assert_eq!(yes.dependencies, vec!["dlg1"]);
    assert_eq!(yes.attributes.get("id"), Some(&String::from("dlg1_btn_Yes")));
    assert_eq!(yes.attributes.get("action"), Some(&String::from("on_dlg1_btn_Yes")));
    assert_eq!(yes.attributes.get("index"), Some(&String::from("0")));
    let cancel = &items[4].1;
    assert_eq!(cancel.order, 1);
    assert_eq!(cancel.attributes.get("index"), Some(&String::from("1")));
    assert_eq!(items[3].0.y, items[4].0.y);
    assert!(items[3].0.x < items[4].0.x);
    assert!(items[3].0.y > items[2].0.y);
}

#[test]
fn a_dialog_with_an_action_gives_it_to_every_button() {
    let mp = parse(r#"<dialog id="d" action="close" buttons="Ok"/>"#);
    let items = layout(&mp, rect(0, 0, 90, 30));
    assert_eq!(ids(&items), vec!["d", "d_btn_Ok"]);
    assert_eq!(items[1].1.attributes.get("action"), Some(&String::from("close")));
    let mp = parse(r#"<dialog id="d"/>"#);
    let items = layout(&mp, rect(0, 0, 90, 30));
    assert_eq!(ids(&items), vec!["d", "d_btn_"]);
    assert_eq!(items[1].1.text, Some(String::new()));
}

#[test]
fn a_tab_strip_shows_its_tabs_and_its_body() {
    let mp = parse(
        r#"<tabs id="strip">
             <tabs-header id="head">
               <tab-item id="one">One</tab-item>
               <tab-item id="two">Two</tab-item>
             </tabs-header>
             <tabs-body id="body">
               <tab-content id="c1" for="one"><p id="first_text">first</p></tab-content>
               <tab-content id="c2" for="two"/>
             </tabs-body>
           </tabs>"#,
    );
    let items = layout(&mp, rect(0, 0, 40, 20));
    assert_eq!(
        ids(&items),
        vec!["strip", "line_unk", "one", "two", "body", "c1", "first_text", "c2"]
    );
    assert_eq!(items[0].0, rect(0, 0, 40, 20));
    assert_eq!(items[1].0, rect(0, 0, 40, 3));
    assert_eq!(items[1].1.name, "tabs-borders");
    assert_eq!(items[2].0, rect(1, 0, 9, 2));
    assert_eq!(items[3].0, rect(10, 0, 9, 2));
    let one = &items[2].1;
    assert_eq!(one.name, "tab-item");
    assert_eq!(one.order, 10);
    assert_eq!(items[3].1.order, 11);
    assert_eq!(one.text, Some(String::from("One")));
    assert_eq!(one.parent_node, Some(0));
    assert_eq!(one.deep, 3);
    assert_eq!(one.position, None);
    assert!(one.children.is_empty());
    assert_eq!(one.attributes.get("tabs-id"), Some(&String::from("strip")));
    assert_eq!(items[4].0, rect(1, 4, 38, 15));
    assert!(items[4].1.dependencies.is_empty());
    assert_eq!(items[5].1.dependencies, Vec::<String>::new());
    assert_eq!(items[6].1.dependencies, vec!["c1"]);
}

#[test]
fn the_content_of_a_tab_lies_under_its_gutter() {
    let mp = parse(
        r#"<tab-content id="c" for="t"><block id="inside" constraint="100%"/></tab-content>"#,
    );
    let items = layout(&mp, rect(0, 0, 20, 20));
    assert_eq!(ids(&items), vec!["c", "inside"]);
    assert_eq!(items[0].0, rect(0, 2, 20, 18));
    assert_eq!(items[1].0, rect(0, 2, 20, 18));
    assert_eq!(items[1].1.dependencies, vec!["c"]);
}

#[test]
fn dependencies_add_up_on_the_way_out() {
    let mp = parse(
        r#"<tab-content id="outer" for="t">
             <dialog id="inner" buttons="Ok"><p id="leaf"/></dialog>
           </tab-content>"#,
    );
    let items = layout(&mp, rect(0, 0, 90, 40));
    assert_eq!(ids(&items), vec!["outer", "inner", "leaf", "inner_btn_Ok"]);
    assert_eq!(items[1].1.dependencies, vec!["outer"]);
    assert_eq!(items[2].1.dependencies, vec!["inner", "outer"]);
    assert_eq!(items[3].1.dependencies, vec!["inner", "outer"]);
}

#[test]
fn an_unknown_tag_passes_its_place_on() {
    let mp = parse(r#"<section id="s"><block id="b" constraint="100%"/></section>"#);
    let items = layout(&mp, rect(3, 4, 10, 6));
    assert_eq!(ids(&items), vec!["s", "b"]);
    assert_eq!(items[0].0, rect(3, 4, 10, 6));
    assert_eq!(items[1].0, rect(3, 4, 10, 6));
    let found = mp.tree.process_other(rect(3, 4, 10, 6), 0, &None, None, Some(1));
    assert_eq!(found.unwrap()[0].0, rect(4, 5, 8, 4));
}

#[test]
fn what_the_solver_cannot_take_shows_nothing() {
    let mp = parse(
        r#"<layout id="root" direction="vertical">
             <block id="good" constraint="2"/>
             <layout id="bad"><block id="lost" constraint="1:0"/></layout>
           </layout>"#,
    );
    let items = layout(&mp, rect(0, 0, 10, 10));
    assert_eq!(ids(&items), vec!["good"]);
    let wide = rect(0, 0, 1000, 10);
    let rules = vec![SizeConstraint::Percentage(100)];
    assert!(!can_split(Direction::Horizontal, 0, &rules, wide));
    assert!(can_split(Direction::Vertical, 0, &rules, wide));
    assert!(split(Direction::Horizontal, 0, &rules, wide).is_none());
    assert!(!can_split(Direction::Horizontal, 40000, &rules, rect(0, 0, 10, 10)));
    assert!(!can_split(Direction::Horizontal, 1, &rules, rect(65535, 0, 10, 10)));
    assert!(can_split(Direction::Horizontal, 1, &rules, rect(65535, 0, 1, 10)));
    let one = vec![SizeConstraint::Length(1)];
    assert!(split(Direction::Horizontal, 0, &one, rect(0, 65535, 10, 10)).is_none());
    assert!(split(Direction::Vertical, 0, &one, rect(65535, 0, 10, 10)).is_none());
    assert!(split(Direction::Vertical, 0, &one, rect(65526, 65526, 10, 10)).is_none());
    assert_eq!(
        split(Direction::Vertical, 0, &one, rect(65525, 65525, 10, 10)),
        Some(vec![rect(65525, 65525, 10, 10)])
    );
    assert_eq!(split(Direction::Vertical, 0, &vec![], rect(65535, 65535, 10, 10)), Some(vec![]));
}

#[test]
fn the_solver_gives_one_part_per_rule() {
    let rules = vec![
        SizeConstraint::Length(2),
        SizeConstraint::Percentage(50),
        SizeConstraint::Ratio(1, 4),
        SizeConstraint::Min(1),
        SizeConstraint::Max(3),
    ];
    let parts = split(Direction::Vertical, 1, &rules, rect(0, 0, 20, 22)).unwrap();
    assert_eq!(parts.len(), 5);
    assert_eq!(parts[0], rect(1, 1, 18, 2));
    assert_eq!(parts[1], rect(1, 3, 18, 10));
    assert_eq!(split(Direction::Vertical, 0, &vec![], rect(0, 0, 5, 5)).unwrap().len(), 0);
}

#[test]
fn constraints_of_the_children() {
    let mp = parse(
        r#"<layout id="root"><p constraint="20%"/><p constraint="3:4"/><p/></layout>"#,
    );
    assert_eq!(
        mp.tree.get_constraints(0),
        vec![
            SizeConstraint::Percentage(20),
            SizeConstraint::Ratio(3, 4),
            SizeConstraint::Length(1)
        ]
    );
}

#[test]
fn rectangles_are_cut_to_their_frame() {
    let outer = rect(10, 10, 20, 5);
    assert_eq!(clip(rect(12, 11, 5, 2), outer), rect(12, 11, 5, 2));
    assert_eq!(clip(outer, outer), outer);
    assert_eq!(clip(rect(0, 0, 15, 12), outer), rect(10, 10, 15, 5));
    assert_eq!(clip(rect(25, 14, 10, 10), outer), rect(25, 14, 5, 1));
    assert_eq!(clip(rect(40, 40, 3, 3), outer), rect(30, 15, 0, 0));
    assert_eq!(
        clip(rect(65535, 65535, 65535, 65535), rect(65000, 65000, 600, 600)),
        rect(65535, 65535, 65, 65)
    );
    assert_eq!(inner(rect(2, 3, 10, 6), 1), rect(3, 4, 8, 4));
    assert_eq!(inner(rect(2, 3, 10, 1), 1), rect(0, 0, 0, 0));
    assert_eq!(inner(rect(2, 3, 10, 6), 0), rect(2, 3, 10, 6));
}

#[test]
fn the_parts_of_a_split_lie_within_the_area() {
    let area = rect(3, 2, 31, 17);
    let rules = vec![
        SizeConstraint::Percentage(40),
        SizeConstraint::Min(50),
        SizeConstraint::Length(90),
        SizeConstraint::Ratio(5, 2),
    ];
    for direction in [Direction::Horizontal, Direction::Vertical] {
        for margin in [0u16, 1, 3, 9] {
            let parts = split(direction, margin, &rules, area).unwrap();
            let within = inner(area, margin);
            assert_eq!(parts.len(), 4);
            let last = parts[3];
            match direction {
                Direction::Horizontal => assert_eq!(last.x + last.width, within.x + within.width),
                Direction::Vertical => assert_eq!(last.y + last.height, within.y + within.height),
            }
            for part in parts {
                assert!(part.x >= within.x && part.y >= within.y);
                assert!(part.x + part.width <= within.x + within.width);
                assert!(part.y + part.height <= within.y + within.height);
            }
        }
    }
}

#[test]
fn the_shape_of_a_layout_is_the_same_in_every_modest_frame() {
    let mp = parse(
        r#"<layout id="root" direction="vertical">
             <container id="nav" constraint="3" border="all">
               <p id="a" constraint="50%"/>
               <p id="b"/>
             </container>
             <tabs id="strip">
               <tabs-header id="head"><tab-item id="one"/><tab-item id="two"/></tabs-header>
               <tabs-body id="body"><tab-content id="first"><p id="text"/></tab-content></tabs-body>
             </tabs>
             <dialog id="ask" buttons="Yes|No"><p id="question"/></dialog>
           </layout>"#,
    );
    let small = layout(&mp, rect(0, 0, 40, 12));
    let large = layout(&mp, rect(3, 5, 200, 60));
    assert!(!small.is_empty());
    assert_eq!(small.len(), large.len());
    for (one, other) in small.iter().zip(large.iter()) {
        assert_eq!(one.1.id, other.1.id);
        assert_eq!(one.1.name, other.1.name);
        assert_eq!(one.1.order, other.1.order);
        assert_eq!(one.1.dependencies, other.1.dependencies);
    }
    assert!(ids(&small).contains(&String::from("ask_btn_Yes")));
    assert!(ids(&small).contains(&String::from("question")));
}
