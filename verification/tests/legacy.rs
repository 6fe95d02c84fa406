use tdo_core::error::storage_error;
use tdo_core::error::ErrorKind;
use tdo_core::legacy::legacy_container;
use tdo_core::legacy::legacy_list;
use tdo_core::legacy::legacy_todo;
use tdo_core::legacy::load_decoded;
use tdo_core::legacy::update_json;
use tdo_core::legacy::Tdo01;
use tdo_core::list::TodoList;
use tdo_core::tdo::Tdo;
use tdo_core::todo::Todo;
use tdo_core::tree::fraction_runs_short;

fn unable() -> ErrorKind {
    ErrorKind::StorageError(storage_error::ErrorKind::UnableToConvert)
}

fn corrupted() -> ErrorKind {
    ErrorKind::StorageError(storage_error::ErrorKind::FileCorrupted)
}

#[test]
fn raw_tree_with_one_entry_migrates() {
    let tdo = update_json(None, r#"{"work": {"5": ["Fix bug", false]}}"#).unwrap();
    assert_eq!(tdo.lists.len(), 1);
    assert_eq!(tdo.lists[0].name, "work");
    assert_eq!(tdo.lists[0].list.len(), 1);
    assert_eq!(tdo.lists[0].list[0].id, 5);
    assert_eq!(tdo.lists[0].list[0].name, "Fix bug");
    assert!(!tdo.lists[0].list[0].done);
    assert!(tdo.lists[0].list[0].github.is_none());
    assert_eq!(tdo.get_gh_token(), None);
    assert_eq!(tdo.version, "0.2.0");
}

#[test]
fn raw_tree_with_a_key_that_is_no_number_is_refused() {
    let r = update_json(None, r#"{"work": {"abc": ["x", false]}}"#);
    assert_eq!(r.err(), Some(unable()));
}

#[test]
fn raw_tree_keeps_lists_and_entries_in_order() {
    let text = r#"{
        "default": {"0": ["Zero", true], "3": ["Three", false]},
        "Home": {},
        "work": {"2": ["Two", false], "1": ["One", true], "10": ["Ten", false]}
    }"#;
    let tdo = update_json(None, text).unwrap();
    let names: Vec<&str> = tdo.lists.iter().map(|l| l.name.as_str()).collect();
    assert_eq!(names, vec!["default", "Home", "work"]);
    assert_eq!(tdo.lists[0].list.len(), 2);
    assert_eq!(tdo.lists[0].list[0].id, 0);
    assert_eq!(tdo.lists[0].list[0].name, "Zero");
    assert!(tdo.lists[0].list[0].done);
    assert_eq!(tdo.lists[0].list[1].id, 3);
    assert!(!tdo.lists[0].list[1].done);
    assert!(tdo.lists[1].list.is_empty());
    let work: Vec<(u32, &str, bool)> =
        tdo.lists[2].list.iter().map(|t| (t.id, t.name.as_str(), t.done)).collect();
    assert_eq!(work, vec![(2, "Two", false), (1, "One", true), (10, "Ten", false)]);
}

#[test]
fn text_that_is_no_json_is_corrupted() {
    assert_eq!(update_json(None, "").err(), Some(corrupted()));
    assert_eq!(update_json(None, "{").err(), Some(corrupted()));
    assert_eq!(update_json(None, r#"{"work": {"5": ["Fix bug", false]}"#).err(), Some(corrupted()));
    assert_eq!(update_json(None, "not json").err(), Some(corrupted()));
}

#[test]
fn entries_of_another_shape_are_refused() {
    let cases = [
        r#"{"work": {"5": [false, "Fix bug"]}}"#,
        r#"{"work": {"5": ["Fix bug"]}}"#,
        r#"{"work": {"5": [false]}}"#,
        r#"{"work": {"5": []}}"#,
        r#"{"work": {"5": "Fix bug"}}"#,
        r#"{"work": {"5": {"title": "Fix bug", "done": false}}}"#,
        r#"{"work": {"5": ["Fix bug", 0]}}"#,
        r#"{"work": {"5": ["Fix bug", null]}}"#,
        r#"{"work": {"5": [7, false]}}"#,
        r#"{"work": {"5": [null, false]}}"#,
        r#"{"work": {"5": ["Fix bug", "false"]}}"#,
        r#"{"ok": {"1": ["a", true]}, "work": {"5": ["Fix bug"]}}"#,
    ];
    for text in cases {
        assert_eq!(update_json(None, text).err(), Some(unable()), "{}", text);
    }
}

#[test]
fn keys_are_read_as_decimal_u32() {
    let good = [
        (r#"{"l": {"0": ["t", false]}}"#, 0u32),
        (r#"{"l": {"007": ["t", false]}}"#, 7),
        (r#"{"l": {"+15": ["t", false]}}"#, 15),
        (r#"{"l": {"4294967295": ["t", false]}}"#, 4294967295),
        (r#"{"l": {"00000000004294967295": ["t", false]}}"#, 4294967295),
    ];
    for (text, id) in good {
        let tdo = update_json(None, text).unwrap();
        assert_eq!(tdo.lists[0].list[0].id, id, "{}", text);
    }
    let bad = [
        r#"{"l": {"": ["t", false]}}"#,
        r#"{"l": {"+": ["t", false]}}"#,
        r#"{"l": {"-1": ["t", false]}}"#,
        r#"{"l": {"-0": ["t", false]}}"#,
        r#"{"l": {"++1": ["t", false]}}"#,
        r#"{"l": {" 1": ["t", false]}}"#,
        r#"{"l": {"1 ": ["t", false]}}"#,
        r#"{"l": {"1_0": ["t", false]}}"#,
        r#"{"l": {"1.0": ["t", false]}}"#,
        r#"{"l": {"0x10": ["t", false]}}"#,
        r#"{"l": {"4294967296": ["t", false]}}"#,
        r#"{"l": {"99999999999999999999": ["t", false]}}"#,
        r#"{"l": {"１": ["t", false]}}"#,
    ];
    for text in bad {
        assert_eq!(update_json(None, text).err(), Some(unable()), "{}", text);
    }
}

#[test]
fn an_array_of_more_than_two_members_is_refused() {
    let cases = [
        r#"{"work": {"5": ["x", "Fix bug", false]}}"#,
        r#"{"l": {"1": ["ignored", 3, "Title", true]}}"#,
        r#"{"l": {"1": [null, "Title", true]}}"#,
        r#"{"l": {"1": ["Title", true, null]}}"#,
        r#"{"l": {"1": ["Title", true, "Title", true]}}"#,
    ];
    for text in cases {
        assert_eq!(update_json(None, text).err(), Some(unable()), "{}", text);
    }
}

#[test]
fn a_document_that_is_no_object_is_refused() {
    for text in ["[]", "[1, 2]", "5", "\"text\"", "null", "true", r#"[{"1": ["t", false]}]"#] {
        assert_eq!(update_json(None, text).err(), Some(unable()), "{}", text);
    }
}

#[test]
fn an_empty_document_gives_no_lists() {
    let tdo = update_json(None, "{}").unwrap();
    assert!(tdo.lists.is_empty());
    assert_eq!(tdo.version, "0.2.0");
    let tdo = update_json(None, " \n{ }\n").unwrap();
    assert!(tdo.lists.is_empty());
}

#[test]
fn a_list_that_is_no_object_is_refused() {
    let cases = [
        r#"{"a": []}"#,
        r#"{"a": 3}"#,
        r#"{"a": "x"}"#,
        r#"{"a": null}"#,
        r#"{"a": false}"#,
        r#"{"a": ["t", false]}"#,
        r#"{"ok": {"1": ["t", false]}, "a": []}"#,
    ];
    for text in cases {
        assert_eq!(update_json(None, text).err(), Some(unable()), "{}", text);
    }
    let tdo = update_json(None, r#"{"a": {}, "b": {}}"#).unwrap();
    assert_eq!(tdo.lists.len(), 2);
    assert!(tdo.lists.iter().all(|l| l.list.is_empty()));
}

#[test]
fn a_text_with_too_long_a_fraction_is_corrupted() {
    let zeros = "0".repeat(32769);
    let fraction = format!("0.{}", zeros);
    assert_eq!(update_json(None, &fraction).err(), Some(corrupted()));
    let inside = format!(r#"{{"l": {{"1": ["t", false]}}, "n": 0.{}}}"#, zeros);
    assert_eq!(update_json(None, &inside).err(), Some(corrupted()));
    let member = format!(r#"{{"l": {{"1": ["t", 12.{}]}}}}"#, "7".repeat(40000));
    assert_eq!(update_json(None, &member).err(), Some(corrupted()));
    let behind_a_string = format!(r#"{{"l\\": {{"1": ["t\"", 1.{}]}}}}"#, zeros);
    assert_eq!(update_json(None, &behind_a_string).err(), Some(corrupted()));
    assert_eq!(load_decoded(None, None, &fraction).err(), Some(corrupted()));
}

#[test]
fn the_longest_fraction_that_is_taken_is_read() {
    let zeros = "0".repeat(32768);
    let fraction = format!("0.{}", zeros);
    assert_eq!(update_json(None, &fraction).err(), Some(unable()));
    let member = format!(r#"{{"l": {{"1": ["t", 0.{}]}}}}"#, zeros);
    assert_eq!(update_json(None, &member).err(), Some(unable()));
}

#[test]
fn digits_inside_a_string_are_not_counted() {
    let sevens = "7".repeat(32769);
    let text = format!(r#"{{"work": {{"1": ["{}", false]}}}}"#, sevens);
    let tdo = update_json(None, &text).unwrap();
    assert_eq!(tdo.lists[0].name, "work");
    assert_eq!(tdo.lists[0].list[0].id, 1);
    assert_eq!(tdo.lists[0].list[0].name, sevens);

    let text = format!(r#"{{"work": {{"abc": ["{}", false]}}}}"#, sevens);
    assert_eq!(update_json(None, &text).err(), Some(unable()));

    let dotted = format!("1.{}", "0".repeat(40000));
    let text = format!(r#"{{"work": {{"2": ["{}", true]}}}}"#, dotted);
    let tdo = update_json(None, &text).unwrap();
    assert_eq!(tdo.lists[0].list[0].name, dotted);

    let text = format!(r#"{{"v.{}": {{"3": ["a \" b.{}", true]}}}}"#, sevens, sevens);
    let tdo = update_json(None, &text).unwrap();
    assert_eq!(tdo.lists[0].name, format!("v.{}", sevens));
    assert_eq!(tdo.lists[0].list[0].name, format!("a \" b.{}", sevens));

    let text = format!(r#"{{"l": {{"{}": ["t", true]}}}}"#, sevens);
    assert_eq!(update_json(None, &text).err(), Some(unable()));
}

#[test]
fn digits_that_follow_no_point_are_left_to_the_parser() {
    let nines = "9".repeat(30000);
    assert_eq!(update_json(None, &nines).err(), Some(unable()));
    let text = format!(r#"{{"l": {{"1": ["t", {}]}}}}"#, nines);
    assert_eq!(update_json(None, &text).err(), Some(unable()));
    let text = format!(r#"{{"l": {{"1": ["t", 1e{}]}}}}"#, "9".repeat(40000));
    assert_eq!(update_json(None, &text).err(), Some(unable()));
    let text = format!(r#"{{"l": {{"1": ["t", 1e-{}]}}}}"#, "9".repeat(40000));
    assert_eq!(update_json(None, &text).err(), Some(unable()));
    let refused = "9".repeat(40000);
    assert_eq!(update_json(None, &refused).err(), Some(corrupted()));
}

#[test]
fn fractions_are_measured_outside_strings_only() {
    let long = "5".repeat(32769);
    let most = "5".repeat(32768);
    assert!(fraction_runs_short(""));
    assert!(fraction_runs_short("no digit at all"));
    assert!(fraction_runs_short(&long));
    assert!(fraction_runs_short(&format!("1.{}", most)));
    assert!(!fraction_runs_short(&format!("1.{}", long)));
    assert!(!fraction_runs_short(&format!(".{}", long)));
    assert!(fraction_runs_short(&format!("1.{}e{}", most, long)));
    assert!(fraction_runs_short(&format!("1.{} {}", most, most)));
    assert!(fraction_runs_short(&format!("1.{}.{}", most, most)));
    assert!(fraction_runs_short(&format!("\"1.{}\"", long)));
    assert!(!fraction_runs_short(&format!("\"a\" 1.{}", long)));
    assert!(fraction_runs_short(&format!("\"a\\\" 1.{}\"", long)));
    assert!(!fraction_runs_short(&format!("\"a\\\\\" 1.{}", long)));
    assert!(fraction_runs_short(&format!("\"a\\\\\\\" 1.{}", long)));
    assert!(fraction_runs_short(&format!("1. {}", long)));
}

#[test]
fn previous_layout_is_taken_before_the_text_is_read() {
    let mut list = TodoList::new("test");
    list.add(Todo::new(0, "First Entry", None));
    let old = Tdo01 { lists: vec![TodoList::default(), list], version: "0.1.3".to_string() };
    let tdo = update_json(Some(old), "this is not read").unwrap();
    assert_eq!(tdo.lists.len(), 2);
    assert_eq!(tdo.lists[0].name, "default");
    assert_eq!(tdo.lists[1].name, "test");
    assert_eq!(tdo.lists[1].list[0].name, "First Entry");
    assert_eq!(tdo.get_gh_token(), None);
    assert_eq!(tdo.version, "0.2.0");
}

#[test]
fn into_tdo_keeps_the_lists() {
    let mut list = TodoList::new("kept");
    list.add(Todo::new(4, "Four", None));
    list.done_id(4).unwrap();
    let tdo = Tdo01 { lists: vec![list], version: "0.1.0".to_string() }.into_tdo();
    assert_eq!(tdo.lists.len(), 1);
    assert_eq!(tdo.lists[0].name, "kept");
    assert_eq!(tdo.lists[0].list[0].id, 4);
    assert!(tdo.lists[0].list[0].done);
    assert_eq!(tdo.access_token, None);
    assert_eq!(tdo.version, "0.2.0");
}

#[test]
fn todays_layout_is_taken_first() {
    let mut current = Tdo::new();
    current.set_gh_token("token");
    current.add_todo(None, Todo::new(1, "One", None)).unwrap();
    let old = Tdo01 { lists: vec![], version: "0.1.0".to_string() };
    let tdo = load_decoded(Some(current), Some(old), "{").unwrap();
    assert_eq!(tdo.lists.len(), 1);
    assert_eq!(tdo.lists[0].list[0].id, 1);
    assert_eq!(tdo.get_gh_token(), Some("token".to_string()));

    let old = Tdo01 { lists: vec![TodoList::new("old")], version: "0.1.0".to_string() };
    let tdo = load_decoded(None, Some(old), "{").unwrap();
    assert_eq!(tdo.lists[0].name, "old");

    let tdo = load_decoded(None, None, r#"{"raw": {"1": ["One", true]}}"#).unwrap();
    assert_eq!(tdo.lists[0].name, "raw");
    assert!(tdo.lists[0].list[0].done);

    assert_eq!(load_decoded(None, None, "{").err(), Some(corrupted()));
    assert_eq!(load_decoded(None, None, r#"{"raw": {"x": ["One", true]}}"#).err(), Some(unable()));
}

#[test]
fn legacy_todo_needs_key_flag_and_title() {
    let todo = legacy_todo("5", Some(false), Some("Fix bug")).unwrap();
    assert_eq!(todo.id, 5);
    assert_eq!(todo.name, "Fix bug");
    assert!(!todo.done);
    assert!(todo.github.is_none());
    let todo = legacy_todo("+6", Some(true), Some("")).unwrap();
    assert_eq!(todo.id, 6);
    assert_eq!(todo.name, "");
    assert!(todo.done);
    assert_eq!(legacy_todo("abc", Some(false), Some("x")).err(), Some(unable()));
    assert_eq!(legacy_todo("5", None, Some("x")).err(), Some(unable()));
    assert_eq!(legacy_todo("5", Some(true), None).err(), Some(unable()));
    assert_eq!(legacy_todo("", None, None).err(), Some(unable()));
}

#[test]
fn legacy_list_reads_the_entries_of_an_object() {
    let tree = json::parse(r#"{"2": ["Two", false], "1": ["One", true]}"#).unwrap();
    let list = legacy_list("Named", &tree).unwrap();
    assert_eq!(list.name, "Named");
    assert_eq!(list.list.len(), 2);
    assert_eq!(list.list[0].id, 2);
    assert_eq!(list.list[0].name, "Two");
    assert!(!list.list[0].done);
    assert_eq!(list.list[1].id, 1);
    assert_eq!(list.list[1].name, "One");
    assert!(list.list[1].done);
    assert_eq!(tree["2"].len(), 2);

    let tree = json::parse(r#"{"2": ["Two", false], "x": ["One", true]}"#).unwrap();
    assert_eq!(legacy_list("Named", &tree).err(), Some(unable()));
    let tree = json::parse(r#"["Two", false]"#).unwrap();
    assert_eq!(legacy_list("Named", &tree).err(), Some(unable()));
    let tree = json::parse(r#"{"2": ["x", "Two", false]}"#).unwrap();
    assert_eq!(legacy_list("Named", &tree).err(), Some(unable()));
    let tree = json::parse("{}").unwrap();
    assert!(legacy_list("Named", &tree).unwrap().list.is_empty());
}

#[test]
fn legacy_container_reads_a_tree() {
    let tree = json::parse(r#"{"a": {"1": ["One", false]}, "b": {"2": ["Two", true]}}"#).unwrap();
    let tdo = legacy_container(&tree).unwrap();
    assert_eq!(tdo.lists.len(), 2);
    assert_eq!(tdo.lists[0].name, "a");
    assert_eq!(tdo.lists[1].name, "b");
    assert_eq!(tdo.lists[1].list[0].id, 2);
    assert!(tdo.lists[1].list[0].done);
    let tree = json::parse(r#"{"a": {"1": ["One", false]}, "b": {"2": [true, "Two"]}}"#).unwrap();
    assert_eq!(legacy_container(&tree).err(), Some(unable()));
    let tree = json::parse(r#"[{"1": ["One", false]}]"#).unwrap();
    assert_eq!(legacy_container(&tree).err(), Some(unable()));
    let tree = json::parse(r#"{"a": [["One", false]]}"#).unwrap();
    assert_eq!(legacy_container(&tree).err(), Some(unable()));
}

#[test]
fn a_migrated_container_is_worked_on_like_any_other() {
    let mut tdo = update_json(None, r#"{"default": {"1": ["One", true], "2": ["Two", false]}}"#)
        .unwrap();
    assert_eq!(tdo.get_highest_id(), 2);
    tdo.add_list(TodoList::new("next")).unwrap();
    tdo.move_todo(2, "next").unwrap();
    tdo.clean_lists();
    assert!(tdo.lists[0].list.is_empty());
    assert_eq!(tdo.lists[1].list[0].id, 2);
}
