use sonar_triage::ollama::OllamaResponse;
use sonar_triage::sanitize::{contains_marker, sanitize};

#[test]
fn sanitize_removes_reasoning_block_and_keeps_marker() {
    let raw = "<think>The import is unused, so the finding is moot.</think>Issue looks fine. \
               *false positive* - unused import.";
    let out = sanitize(raw);
    assert_eq!(out, "Issue looks fine. *false positive* - unused import.");
    assert!(contains_marker(&out));
}

#[test]
fn sanitize_collapses_code_fences() {
    assert_eq!(sanitize("```java\nint x = 0;\n```"), "``java\nint x = 0;\n``");
}

#[test]
fn sanitize_collapses_double_asterisks() {
    assert_eq!(sanitize("**Bold claim** stands"), "*Bold claim* stands");
}

#[test]
fn sanitize_trims_surrounding_whitespace() {
    assert_eq!(sanitize("  \n  fix the cast  \t"), "fix the cast");
}

#[test]
fn sanitize_removes_several_blocks() {
    assert_eq!(sanitize("a<think>x</think>b<think>y</think>c"), "abc");
}

#[test]
fn sanitize_keeps_unterminated_block() {
    assert_eq!(sanitize("<think>never closed"), "<think>never closed");
}

#[test]
fn sanitize_nested_blocks_shortest_match() {
    // the leftmost opening tag pairs with the first closing tag, so the
    // outer closing tag survives one pass
    assert_eq!(sanitize("<think><think>inner</think></think>"), "</think>");
}

#[test]
fn sanitize_idempotent_on_ordinary_text() {
    let raw = "<think>reason</think>  Use ``equals`` instead of ``==``. **Sure.** ";
    let once = sanitize(raw);
    let twice = sanitize(&once);
    assert_eq!(twice, once);
}

#[test]
fn sanitize_collapses_backtick_and_asterisk_runs() {
    // one left-to-right replacement of three backticks by two leaves
    // three here, so the sanitizer keeps collapsing until none is left
    assert_eq!(sanitize("````"), "``");
    assert_eq!(sanitize("`````"), "``");
    assert_eq!(sanitize("****"), "*");
}

#[test]
fn sanitize_idempotent_on_adversarial_input() {
    let once = sanitize("````");
    assert_eq!(sanitize(&once), once);
    let once = sanitize("***");
    assert_eq!(sanitize(&once), once);
}

#[test]
fn sanitize_removes_reformed_blocks() {
    // removing the inner block re-forms an outer one; that one is
    // removed in turn, so no complete block survives
    assert_eq!(sanitize("<thi<think>x</think>nk>y</think>"), "");
}

#[test]
fn response_is_sanitized_raw_text() {
    let resp = OllamaResponse::new(String::from("<think>hm</think> **ok** "));
    assert_eq!(resp.response(), "*ok*");
}

#[test]
fn marker_detection_is_case_insensitive() {
    assert!(contains_marker("Conclusion: *FALSE Positive* here"));
    assert!(contains_marker("*false positive*"));
    assert!(!contains_marker("false positive without emphasis"));
    assert!(!contains_marker("*false positive by user input*: ``S1128``"));
    assert!(!contains_marker(""));
}

#[test]
fn marker_detection_tolerates_whitespace_runs() {
    assert!(contains_marker("*false  positive*"));
    assert!(contains_marker("surely a *false \t positive* here"));
    assert!(contains_marker("*false\npositive*"));
    assert!(!contains_marker("*falsepositive*"));
    assert!(!contains_marker("*false x positive*"));
}
