use tui_markup_renderer::event_response::EventResponse;
use tui_markup_renderer::markup_element::MarkupElement;
use tui_markup_renderer::markup_parser::MarkupParser;
use tui_markup_renderer::project::{eq_ignoring_case, project_type_from_str, ProjectType};
use tui_markup_renderer::string_map::StringMap;
use tui_markup_renderer::text::{
    joined, contains_char, ends_with, integer_to_string, natural_to_string, remove_char,
    remove_text, str_eq,
};

type Callback = fn(StringMap, Option<MarkupElement>) -> EventResponse;
type Parser = MarkupParser<Callback, u8>;

#[test]
fn elements_are_written_as_markup() {
    let mp = Parser::new(
        String::from("inline"),
        b"<a id=\"x\" title=\"T\"><B/>text</a>",
        None,
        None,
    );
    assert_eq!(mp.tree.to_markup_at(1), "\t<b>\n\n\t</b>\n");
    assert_eq!(
        mp.tree.to_markup_at(0),
        "<a id=\"x\" title=\"T\">\n\t<b>\n\n\t</b>\n\n</a>\n"
    );
    let mut root = mp.extract_element(0);
    assert_eq!(mp.tree.to_markup(&root), mp.tree.to_markup_at(0));
    root.children.push(7);
    root.deep = 2;
    assert_eq!(
        mp.tree.to_markup(&root),
        "\t\t<a id=\"x\" title=\"T\">\n\t<b>\n\n\t</b>\n\n\t\t</a>\n"
    );
}

#[test]
fn project_types_by_name() {
    assert_eq!(project_type_from_str("shell"), ProjectType::SHELL);
    assert_eq!(project_type_from_str("SHELL"), ProjectType::SHELL);
    assert_eq!(project_type_from_str("simple"), ProjectType::SIMPLE);
    assert_eq!(project_type_from_str("Simple"), ProjectType::SIMPLE);
    assert_eq!(project_type_from_str("other"), ProjectType::SIMPLE);
    assert_eq!(project_type_from_str("shells"), ProjectType::SIMPLE);
    assert!(eq_ignoring_case("aZ[", "Az["));
    assert!(!eq_ignoring_case("a", "\u{c1}"));
    assert!(!eq_ignoring_case("@", "`"));
}

#[test]
fn maps_keep_the_order_of_their_keys() {
    let mut map = StringMap::new();
    assert!(!map.contains_key("a"));
    map.insert("a".to_string(), "1".to_string());
    map.insert("b".to_string(), "2".to_string());
    map.insert("a".to_string(), "3".to_string());
    assert_eq!(map.len(), 2);
    assert_eq!(map.key_at(0), "a");
    assert_eq!(map.value_at(0), "3");
    assert_eq!(map.key_at(1), "b");
    assert_eq!(map.get("a"), Some(&String::from("3")));
    assert_eq!(map.get("c"), None);
    assert_eq!(map.get_or_empty("c"), "");
    assert!(map.contains_key("b"));
    let copy = map.clone();
    map.insert("b".to_string(), "9".to_string());
    assert_eq!(copy.get("b"), Some(&String::from("2")));
    let pairs = vec![
        ("x".to_string(), "1".to_string()),
        ("y".to_string(), "2".to_string()),
        ("x".to_string(), "3".to_string()),
    ];
    let built = StringMap::from_pairs(&pairs);
    assert_eq!(built.len(), 2);
    assert_eq!(built.value_at(0), "3");
}

#[test]
fn text_helpers() {
    assert!(str_eq("abc", "abc"));
    assert!(!str_eq("abc", "abd"));
    assert!(ends_with("10min", "min"));
    assert!(!ends_with("in", "min"));
    assert!(ends_with("x", ""));
    assert!(contains_char("a:b", ':'));
    assert!(!contains_char("", ':'));
    assert_eq!(remove_char("a b  c", ' '), "abc");
    assert_eq!(remove_text("aminbminmi", "min"), "abmi");
    assert_eq!(remove_text("mmiminn", "min"), "mmin");
    assert_eq!(remove_text("abc", ""), "abc");
    assert_eq!(joined("ab", "cd"), "abcd");
    assert_eq!(natural_to_string(0), "0");
    assert_eq!(natural_to_string(1230), "1230");
    assert_eq!(natural_to_string(u64::MAX), "18446744073709551615");
    assert_eq!(integer_to_string(-42), "-42");
    assert_eq!(integer_to_string(7), "7");
}
