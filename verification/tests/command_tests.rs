use todo_app::command::{parse_menu_choice, parse_u32, MenuChoice};
use todo_app::store::ToDo;

#[test]
fn menu_lines_dispatch_to_their_entries() {
    assert_eq!(parse_menu_choice("1"), MenuChoice::AddTask);
    assert_eq!(parse_menu_choice("2"), MenuChoice::ListTasks);
    assert_eq!(parse_menu_choice("3"), MenuChoice::CompleteTask);
    assert_eq!(parse_menu_choice("4"), MenuChoice::Exit);
}

#[test]
fn other_menu_lines_are_unknown() {
    assert_eq!(parse_menu_choice(""), MenuChoice::Unknown);
    assert_eq!(parse_menu_choice("5"), MenuChoice::Unknown);
    assert_eq!(parse_menu_choice("0"), MenuChoice::Unknown);
    assert_eq!(parse_menu_choice("10"), MenuChoice::Unknown);
    assert_eq!(parse_menu_choice("exit"), MenuChoice::Unknown);
    assert_eq!(parse_menu_choice(" 1"), MenuChoice::Unknown);
}

#[test]
fn parse_u32_accepts_plain_digits() {
    assert_eq!(parse_u32("0"), Some(0));
    assert_eq!(parse_u32("1"), Some(1));
    assert_eq!(parse_u32("42"), Some(42));
    assert_eq!(parse_u32("007"), Some(7));
    assert_eq!(parse_u32("4294967295"), Some(u32::MAX));
}

#[test]
fn parse_u32_accepts_a_leading_plus_sign() {
    assert_eq!(parse_u32("+5"), Some(5));
    assert_eq!(parse_u32("+0"), Some(0));
}

#[test]
fn parse_u32_rejects_non_numeric_text() {
    assert_eq!(parse_u32(""), None);
    assert_eq!(parse_u32("abc"), None);
    assert_eq!(parse_u32("1a"), None);
    assert_eq!(parse_u32("a1"), None);
    assert_eq!(parse_u32("-1"), None);
    assert_eq!(parse_u32("+"), None);
    assert_eq!(parse_u32("++1"), None);
    assert_eq!(parse_u32(" 5"), None);
    assert_eq!(parse_u32("5 "), None);
    assert_eq!(parse_u32("1.5"), None);
}

#[test]
fn parse_u32_rejects_values_that_overflow() {
    assert_eq!(parse_u32("4294967296"), None);
    assert_eq!(parse_u32("99999999999999999999"), None);
}

#[test]
fn parse_u32_matches_the_standard_parser() {
    let cases = [
        "", "0", "1", "42", "007", "4294967295", "4294967296", "+5", "+", "abc", "1a", "-1",
        " 5", "99999999999999999999",
    ];
    for case in cases {
        assert_eq!(parse_u32(case), case.parse::<u32>().ok(), "input {:?}", case);
    }
}

#[test]
fn invalid_id_text_leaves_the_store_unchanged() {
    let mut store = ToDo::new();
    store.add_task(String::from("task A"));
    let before = store.list_tasks();
    assert_eq!(parse_menu_choice("3"), MenuChoice::CompleteTask);
    let parsed = parse_u32("abc");
    assert_eq!(parsed, None);
    if let Some(id) = parsed {
        store.complete_task(id);
    }
    assert_eq!(store.list_tasks(), before);
}
