use sonar_triage::text::{join_space, replace_all, split_lines, trim_str};

#[test]
fn split_lines_drops_terminators_and_final_empty_line() {
    assert_eq!(split_lines("one\ntwo\n"), vec!["one", "two"]);
    assert_eq!(split_lines("one\ntwo"), vec!["one", "two"]);
    assert_eq!(split_lines("a\r\nb\r\n"), vec!["a", "b"]);
    assert_eq!(split_lines("\n"), vec![""]);
    assert!(split_lines("").is_empty());
    // a carriage return not followed by a newline stays
    assert_eq!(split_lines("a\r"), vec!["a\r"]);
}

#[test]
fn replace_all_is_left_to_right_and_non_overlapping() {
    assert_eq!(replace_all("aaaa", "aa", "b"), "bb");
    assert_eq!(replace_all("no hits here", "zz", "y"), "no hits here");
    assert_eq!(replace_all("```x```", "```", "``"), "``x``");
}

#[test]
fn trim_removes_whitespace_at_both_ends_only() {
    assert_eq!(trim_str("  a b  "), "a b");
    assert_eq!(trim_str("\t\nx\r\n"), "x");
    assert_eq!(trim_str("   "), "");
    assert_eq!(trim_str(""), "");
    assert_eq!(trim_str("\u{00A0}y\u{3000}"), "y");
}

#[test]
fn join_space_separates_consecutive_parts() {
    assert_eq!(join_space(&vec![]), "");
    assert_eq!(join_space(&vec![String::from("a")]), "a");
    assert_eq!(
        join_space(&vec![String::from("a"), String::from("b"), String::from("c")]),
        "a b c"
    );
}
