use select_save::device::{contains_text, is_controller_name, is_event_node};

#[test]
fn controller_names_in_any_case() {
    assert!(is_controller_name("Xbox Wireless Controller"));
    assert!(is_controller_name("USB GAMEPAD"));
    assert!(!is_controller_name("AT Translated Set 2 keyboard"));
}

#[test]
fn event_nodes() {
    assert!(is_event_node("event3"));
    assert!(is_event_node("event"));
    assert!(!is_event_node("mouse0"));
    assert!(!is_event_node("even"));
}

#[test]
fn text_search() {
    assert!(contains_text("abcabd", "abd"));
    assert!(contains_text("abc", ""));
    assert!(!contains_text("ab", "abc"));
    assert!(!contains_text("abcabc", "abd"));
}
