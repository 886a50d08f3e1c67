use select_save::internal::{full_extension, remove_full_extension};

#[test]
fn remove_full_extension_strips_after_first_dot() {
    let mut p = "save.state.auto".to_string();
    remove_full_extension(&mut p);
    assert_eq!(p, "save");
    let mut p = "save".to_string();
    remove_full_extension(&mut p);
    assert_eq!(p, "save");
    let mut p = "dir.x/a.b".to_string();
    remove_full_extension(&mut p);
    assert_eq!(p, "dir.x/a");
    let mut p = "dir/.hidden".to_string();
    remove_full_extension(&mut p);
    assert_eq!(p, "dir/.hidden");
}

#[test]
fn full_extension_after_first_dot_of_name() {
    assert_eq!(full_extension("x.y/a.b.c"), Some("b.c"));
    assert_eq!(full_extension("x.y/abc"), None);
    assert_eq!(full_extension("game.state"), Some("state"));
}
