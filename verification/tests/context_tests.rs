use sonar_triage::pipeline::resolve_context;
use sonar_triage::sonarqube::{IssueRecord, SonarIssue};
use sonar_triage::text::{i32_to_string, u64_to_string};

fn issue_at_line(line: Option<i32>) -> SonarIssue {
    let record = IssueRecord {
        key: Some(String::from("ISSUE-1")),
        rule: Some(String::from("java:S1128")),
        message: Some(String::from("Remove this unused import.")),
        component: Some(String::from("proj:src/Main.java")),
        line,
    };
    SonarIssue::from_json_value(&record).expect("well-formed record")
}

const TEN_LINES: &str = "one\ntwo\nthree\nfour\nfive\nsix\nseven\neight\nnine\nten\n";

#[test]
fn window_around_line_three_covers_one_to_eight() {
    let issue = issue_at_line(Some(3));
    let ctx = issue.get_code_context(TEN_LINES);
    assert_eq!(
        ctx,
        "   1: one\n   2: two\n>> 3: three\n   4: four\n   5: five\n   6: six\n   7: seven\n   8: eight"
    );
}

#[test]
fn window_clips_at_end_of_file() {
    let issue = issue_at_line(Some(10));
    let ctx = issue.get_code_context(TEN_LINES);
    assert_eq!(
        ctx,
        "   5: five\n   6: six\n   7: seven\n   8: eight\n   9: nine\n>> 10: ten"
    );
}

#[test]
fn window_in_the_middle_is_symmetric() {
    let issue = issue_at_line(Some(7));
    let ctx = issue.get_code_context(TEN_LINES);
    assert_eq!(
        ctx,
        "   2: two\n   3: three\n   4: four\n   5: five\n   6: six\n>> 7: seven\n   8: eight\n   9: nine\n   10: ten"
    );
}

#[test]
fn zero_line_yields_invalid_placeholder() {
    let issue = issue_at_line(Some(0));
    assert_eq!(issue.get_code_context(TEN_LINES), "Numero di riga non valido: 0");
}

#[test]
fn missing_line_yields_invalid_placeholder() {
    let issue = issue_at_line(None);
    assert_eq!(issue.get_code_context(TEN_LINES), "Numero di riga non valido: 0");
}

#[test]
fn line_beyond_file_yields_invalid_placeholder() {
    let issue = issue_at_line(Some(11));
    assert_eq!(issue.get_code_context(TEN_LINES), "Numero di riga non valido: 11");
}

#[test]
fn empty_source_yields_placeholder() {
    let issue = issue_at_line(Some(1));
    assert_eq!(issue.get_code_context(""), "Nessun codice sorgente disponibile");
}

#[test]
fn carriage_returns_are_stripped_at_line_ends() {
    let issue = issue_at_line(Some(1));
    assert_eq!(issue.get_code_context("alpha\r\nbeta"), ">> 1: alpha\n   2: beta");
}

#[test]
fn failed_fetch_resolves_to_placeholder_context() {
    let issue = issue_at_line(Some(3));
    assert_eq!(resolve_context(&issue, None), "No code context available");
    assert_eq!(
        resolve_context(&issue, Some(&String::from("a\nb"))),
        "Numero di riga non valido: 3"
    );
}

#[test]
fn decimal_rendering() {
    assert_eq!(u64_to_string(0), "0");
    assert_eq!(u64_to_string(120), "120");
    assert_eq!(u64_to_string(98765), "98765");
    assert_eq!(i32_to_string(-7), "-7");
    assert_eq!(i32_to_string(2147483647), "2147483647");
    assert_eq!(i32_to_string(-2147483648), "-2147483648");
}

#[test]
fn malformed_record_is_dropped() {
    let record = IssueRecord {
        key: Some(String::from("ISSUE-2")),
        rule: Some(String::from("java:S1128")),
        message: None,
        component: Some(String::from("proj:src/Main.java")),
        line: Some(3),
    };
    assert!(SonarIssue::from_json_value(&record).is_none());
}

#[test]
fn well_formed_record_keeps_its_fields() {
    let issue = issue_at_line(Some(42));
    assert_eq!(issue.key(), "ISSUE-1");
    assert_eq!(issue.rule(), "java:S1128");
    assert_eq!(issue.message(), "Remove this unused import.");
    assert_eq!(issue.path(), "proj:src/Main.java");
    assert_eq!(issue.line(), Some(42));
}
