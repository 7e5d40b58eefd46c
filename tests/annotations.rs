use git_todos::entry::TodoItem;
use git_todos::index::ReportIndex;
use git_todos::matcher::{
    entry_from_match, scan_file, scan_line, scan_lines, scan_text, split_lines, Config, Matcher,
};
use git_todos::report::{paths_under_root, relative_path, render_report};

fn matcher() -> Matcher {
    Matcher::new(&Config::standard().pattern).expect("the standard pattern compiles")
}

fn lines(ls: &[&str]) -> Vec<String> {
    ls.iter().map(|l| l.to_string()).collect()
}

fn keyword(e: &TodoItem) -> &str {
    &e.keyword.0
}

fn name(e: &TodoItem) -> Option<&str> {
    e.name.as_ref().map(|n| n.0.as_str())
}

#[test]
fn two_letter_keyword_is_ignored() {
    let m = matcher();
    assert!(scan_line(&m, "// AB: not an entry", "a.rs", 1).is_none());
    assert!(scan_line(&m, "// A: not an entry", "a.rs", 1).is_none());
}

#[test]
fn three_letter_keyword_is_found() {
    let m = matcher();
    let e = scan_line(&m, "// ABC: an entry", "a.rs", 4).unwrap();
    assert_eq!(keyword(&e), "ABC");
    assert_eq!(e.line, 4);
    assert_eq!(e.message, "an entry");
}

#[test]
fn short_keyword_in_matched_text_is_rejected() {
    assert!(entry_from_match("// AB:", "x", "a.rs", 1).is_none());
    assert!(entry_from_match("// ABC:", "x", "a.rs", 1).is_some());
}

#[test]
fn keyword_case_is_folded() {
    let m = matcher();
    let lower = scan_line(&m, "// todo: fix", "a.rs", 1).unwrap();
    let upper = scan_line(&m, "// TODO: fix", "a.rs", 2).unwrap();
    assert_eq!(keyword(&lower), "TODO");
    assert_eq!(keyword(&upper), "TODO");
    let index = ReportIndex::from_entries(vec![lower, upper]);
    assert_eq!(index.buckets().len(), 1);
    assert_eq!(index.buckets()[0].keyword.0, "TODO");
    assert_eq!(index.buckets()[0].items.len(), 2);
}

#[test]
fn name_is_lower_cased() {
    let m = matcher();
    let e = scan_line(&m, "// TODO(Bob): text", "a.rs", 1).unwrap();
    assert_eq!(name(&e), Some("bob"));
    assert_eq!(e.message, "text");
}

#[test]
fn missing_name_is_absent() {
    let m = matcher();
    let e = scan_line(&m, "// TODO: text", "a.rs", 1).unwrap();
    assert_eq!(name(&e), None);
}

#[test]
fn empty_name_is_absent() {
    let m = matcher();
    let e = scan_line(&m, "// TODO(): text", "a.rs", 1).unwrap();
    assert_eq!(keyword(&e), "TODO");
    assert_eq!(name(&e), None);
    assert_eq!(e.message, "text");
}

#[test]
fn blank_name_in_matched_text_is_absent() {
    let e = entry_from_match("// TODO( ):", "m", "a.rs", 1).unwrap();
    assert_eq!(name(&e), None);
}

#[test]
fn message_is_verbatim_suffix() {
    let m = matcher();
    let e = scan_line(&m, "// FIXME(x): leading  spaces kept", "a.rs", 1).unwrap();
    assert_eq!(keyword(&e), "FIXME");
    assert_eq!(name(&e), Some("x"));
    assert_eq!(e.message, "leading  spaces kept");
}

#[test]
fn hash_comment_and_text_before_it() {
    let m = matcher();
    let e = scan_line(&m, "let x = 1; # Note(Al9): later ", "a.rs", 7).unwrap();
    assert_eq!(keyword(&e), "NOTE");
    assert_eq!(name(&e), Some("al9"));
    assert_eq!(e.message, "later ");
}

#[test]
fn colon_is_required() {
    let m = matcher();
    assert!(scan_line(&m, "// TODO fix this", "a.rs", 1).is_none());
    assert!(scan_line(&m, "TODO: no comment marker", "a.rs", 1).is_none());
}

#[test]
fn lines_are_numbered_from_one() {
    let m = matcher();
    let found = scan_lines(&m, "a.rs", &lines(&["fn main() {}", "// TODO: one", "", "# BUG(z): two"]));
    assert_eq!(found.len(), 2);
    assert_eq!(found[0].line, 2);
    assert_eq!(found[1].line, 4);
    assert_eq!(keyword(&found[1]), "BUG");
}

#[test]
fn other_extensions_are_not_scanned() {
    let m = matcher();
    let cfg = Config::standard();
    let content = lines(&["// TODO(al): looks valid"]);
    assert!(scan_file(&m, &cfg.extensions, &Some("txt".to_string()), "a.txt", &content).is_empty());
    assert!(scan_file(&m, &cfg.extensions, &None, "Makefile", &content).is_empty());
    assert_eq!(scan_file(&m, &cfg.extensions, &Some("rs".to_string()), "a.rs", &content).len(), 1);
}

#[test]
fn invalid_pattern_is_refused() {
    assert!(Matcher::new("foo(bar").is_none());
    assert!(Matcher::new("foo").is_some());
}

#[test]
fn report_holds_the_same_set_of_entries() {
    let m = matcher();
    let mut all = scan_lines(&m, "/r/a.rs", &lines(&["// TODO(al): first", "// FIXME: second", "// todo: third"]));
    all.extend(scan_lines(&m, "/r/b.rs", &lines(&["", "// HACK(Bo): fourth"])));
    let index = ReportIndex::from_entries(all);
    let mut got: Vec<(String, String, usize, Option<String>, String)> = Vec::new();
    for b in index.buckets() {
        for e in &b.items {
            assert_eq!(e.keyword.0, b.keyword.0);
            got.push((
                b.keyword.0.clone(),
                relative_path("/r", &e.file_path).unwrap(),
                e.line,
                e.name.as_ref().map(|n| n.0.clone()),
                e.message.clone(),
            ));
        }
    }
    got.sort();
    let mut want = vec![
        ("TODO".to_string(), "a.rs".to_string(), 1, Some("al".to_string()), "first".to_string()),
        ("FIXME".to_string(), "a.rs".to_string(), 2, None, "second".to_string()),
        ("TODO".to_string(), "a.rs".to_string(), 3, None, "third".to_string()),
        ("HACK".to_string(), "b.rs".to_string(), 2, Some("bo".to_string()), "fourth".to_string()),
    ];
    want.sort();
    assert_eq!(got, want);
}

#[test]
fn two_file_report() {
    let m = matcher();
    let mut all = scan_lines(&m, "/repo/a.rs", &lines(&["fn a() {}", "", "// TODO(al): first"]));
    all.extend(scan_lines(&m, "/repo/b.rs", &lines(&["// FIXME: second"])));
    let index = ReportIndex::from_entries(all);
    let text = render_report(&index, "/repo");
    let todo = "## TODO\n\n - [a.rs#L3](a.rs#L3) @al:  first\n\n";
    let fixme = "## FIXME\n\n - [b.rs#L1](b.rs#L1) :  second\n\n";
    assert!(text.starts_with("# TODOS\n\n"));
    assert!(text.contains(todo));
    assert!(text.contains(fixme));
    assert_eq!(text.len(), "# TODOS\n\n".len() + todo.len() + fixme.len());
}

#[test]
fn empty_index_renders_title_only() {
    let index = ReportIndex::new();
    assert_eq!(render_report(&index, "/repo"), "# TODOS\n\n");
}

#[test]
fn path_outside_root_is_refused() {
    let m = matcher();
    let all = scan_lines(&m, "/elsewhere/a.rs", &lines(&["// TODO: x"]));
    let index = ReportIndex::from_entries(all);
    assert!(!paths_under_root(&index, "/repo"));
    assert!(paths_under_root(&index, "/elsewhere"));
}

#[test]
fn line_numbers_render_in_decimal() {
    let m = matcher();
    let mut ls = vec![String::new(); 120];
    ls.push("// TODO: late".to_string());
    let index = ReportIndex::from_entries(scan_lines(&m, "r/x.rs", &ls));
    let text = render_report(&index, "r");
    assert_eq!(text, "# TODOS\n\n## TODO\n\n - [x.rs#L121](x.rs#L121) :  late\n\n");
}

#[test]
fn text_is_split_like_std_lines() {
    for text in ["", "a", "a\n", "a\r\nb", "a\n\nb\n", "\n", "x\r", "a\rb\r\n\r\n"] {
        let want: Vec<String> = text.lines().map(String::from).collect();
        assert_eq!(split_lines(text), want, "text {:?}", text);
    }
}

#[test]
fn file_text_is_scanned_by_line() {
    let m = matcher();
    let cfg = Config::standard();
    let text = "fn f() {}\r\n// TODO(al): first\r\n\n# FIXME: second\n";
    let found = scan_text(&m, &cfg.extensions, &Some("rs".to_string()), "a.rs", text);
    assert_eq!(found.len(), 2);
    assert_eq!((found[0].line, found[0].message.as_str()), (2, "first"));
    assert_eq!((found[1].line, found[1].message.as_str()), (4, "second"));
    assert!(scan_text(&m, &cfg.extensions, &Some("md".to_string()), "a.md", text).is_empty());
}

#[test]
fn only_ascii_spaces_before_keyword() {
    let m = matcher();
    assert!(scan_line(&m, "//\u{a0}TODO: x", "a.rs", 1).is_none());
    let e = scan_line(&m, "//\tTODO: x", "a.rs", 1).unwrap();
    assert_eq!(keyword(&e), "TODO");
}
