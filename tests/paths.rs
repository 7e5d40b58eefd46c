use git_todos::driver::{arguments_accepted, proceed_outside_repository};
use git_todos::entry::{Keyword, Name};
use git_todos::report::relative_path;
use git_todos::text::push_decimal;

#[test]
fn relative_paths() {
    assert_eq!(relative_path("/repo", "/repo/src/a.rs").as_deref(), Some("src/a.rs"));
    assert_eq!(relative_path("/repo/", "/repo/src/a.rs").as_deref(), Some("src/a.rs"));
    assert_eq!(relative_path("C:\\repo", "C:\\repo\\src\\a.rs").as_deref(), Some("src/a.rs"));
    assert_eq!(relative_path("/repo", "/repository/a.rs"), None);
    assert_eq!(relative_path("/repo", "/other/a.rs"), None);
    assert_eq!(relative_path("", "a\\b.rs").as_deref(), Some("a/b.rs"));
    assert_eq!(relative_path("/r", "/r//a.rs").as_deref(), Some("a.rs"));
    assert_eq!(relative_path("/r/", "/r/a.rs").as_deref(), Some("a.rs"));
}

#[test]
fn case_folding() {
    assert_eq!(Keyword::new("todo-é1").0, "TODO-É1");
    assert_eq!(Name::new("BoB9É").0, "bob9é");
    assert_eq!(Keyword::new("fixMe").0, "FIXME");
    assert_eq!(Name::new("ALICE").0, "alice");
}

#[test]
fn decimal_digits() {
    let mut s = String::from("L");
    push_decimal(&mut s, 0);
    push_decimal(&mut s, 907);
    assert_eq!(s, "L0907");
}

#[test]
fn no_arguments_expected() {
    assert!(arguments_accepted(1));
    assert!(!arguments_accepted(2));
    assert!(!arguments_accepted(0));
}

#[test]
fn prompt_outside_repository() {
    assert!(!proceed_outside_repository(Some("n\n")));
    assert!(!proceed_outside_repository(Some("No \r\n")));
    assert!(!proceed_outside_repository(None));
    assert!(!proceed_outside_repository(Some("NO\u{a0}\u{2003}")));
    assert!(proceed_outside_repository(Some("y\n")));
    assert!(proceed_outside_repository(Some("\n")));
    assert!(proceed_outside_repository(Some("nope\n")));
}
