use sonar_triage::args::Args;
use sonar_triage::config::Config;
use sonar_triage::ollama::OllamaRequest;
use sonar_triage::pipeline::{
    discover_from_responses, plan_page_requests, plan_result_actions, process_issues, IssueEvents,
    ServerAction,
};
use sonar_triage::prompt::build_prompt;
use sonar_triage::sonarqube::{parse_issues_from_json, IssueRecord, SearchPage, SonarIssue};

fn record(key: &str, line: Option<i32>) -> IssueRecord {
    IssueRecord {
        key: Some(String::from(key)),
        rule: Some(String::from("java:S2095")),
        message: Some(String::from("Close this resource.")),
        component: Some(String::from("proj:src/Db.java")),
        line,
    }
}

fn resolved_args(rules: Vec<String>) -> Args {
    let config = Config {
        sonar_host: String::from("http://localhost:9000"),
        ollama_url: String::from("http://localhost:11434"),
        model: String::from("deepseek-r1:14b"),
        token: String::from("SECRET-REDACTED"),
    };
    let (args, _merged) = Args::new(
        None,
        None,
        String::from("proj"),
        None,
        None,
        rules,
        config,
    );
    args
}

#[test]
fn plan_requests_one_page_per_reported_total() {
    assert_eq!(plan_page_requests(2), vec![1u64, 2u64]);
    assert_eq!(plan_page_requests(5), vec![1u64, 2, 3, 4, 5]);
    assert!(plan_page_requests(0).is_empty());
}

#[test]
fn discovery_collects_pages_and_drops_malformed_records() {
    let malformed = IssueRecord {
        key: Some(String::from("ISSUE-BAD")),
        rule: Some(String::from("java:S1128")),
        message: None,
        component: Some(String::from("proj:src/Main.java")),
        line: Some(1),
    };
    let first = SearchPage { total: 2, issues: Some(vec![]) };
    let pages = vec![
        SearchPage { total: 2, issues: Some(vec![record("ISSUE-A", Some(5)), malformed]) },
        SearchPage { total: 2, issues: Some(vec![record("ISSUE-B", Some(3))]) },
    ];
    let issues = discover_from_responses(&first, &pages);
    assert_eq!(issues.len(), 2);
    assert_eq!(issues[0].key(), "ISSUE-A");
    assert_eq!(issues[1].key(), "ISSUE-B");
}

#[test]
fn zero_total_parses_the_first_response() {
    let first = SearchPage { total: 0, issues: Some(vec![record("ISSUE-C", None)]) };
    let issues = discover_from_responses(&first, &vec![]);
    assert_eq!(issues.len(), 1);
    assert_eq!(issues[0].key(), "ISSUE-C");
}

#[test]
fn page_without_issue_array_parses_to_nothing() {
    let page = SearchPage { total: 7, issues: None };
    assert!(parse_issues_from_json(&page).is_empty());
}

#[test]
fn marker_plans_tag_then_comment() {
    let issue = SonarIssue::from_json_value(&record("ISSUE-T", Some(2))).unwrap();
    let sanitized = String::from("Surely a *false positive* - suppress it.");
    let actions = plan_result_actions(&issue, &sanitized);
    assert_eq!(
        actions,
        vec![
            ServerAction::AddTag {
                issue: String::from("ISSUE-T"),
                tags: String::from("false-positive"),
            },
            ServerAction::AddComment {
                issue: String::from("ISSUE-T"),
                text: sanitized.clone(),
            },
        ]
    );
}

#[test]
fn no_marker_plans_exactly_one_comment() {
    let issue = SonarIssue::from_json_value(&record("ISSUE-U", Some(2))).unwrap();
    let sanitized = String::from("Use try-with-resources.");
    let actions = plan_result_actions(&issue, &sanitized);
    assert_eq!(
        actions,
        vec![ServerAction::AddComment {
            issue: String::from("ISSUE-U"),
            text: sanitized.clone(),
        }]
    );
}

#[test]
fn every_issue_is_attempted_despite_failures() {
    let args = resolved_args(vec![]);
    let issues: Vec<SonarIssue> = vec![
        SonarIssue::from_json_value(&record("ISSUE-1", Some(1))).unwrap(),
        SonarIssue::from_json_value(&record("ISSUE-2", Some(1))).unwrap(),
        SonarIssue::from_json_value(&record("ISSUE-3", Some(1))).unwrap(),
    ];
    let events = vec![
        IssueEvents {
            source: Some(String::from("a\nb")),
            model_reply: Some(String::from("Fix it.")),
        },
        IssueEvents { source: None, model_reply: None },
        IssueEvents {
            source: None,
            model_reply: Some(String::from("<think>x</think>*false positive* noise")),
        },
    ];
    let reports = process_issues(&args, &issues, &events);
    assert_eq!(reports.len(), 3);
    assert_eq!(reports[0].key, "ISSUE-1");
    assert!(reports[0].actions.is_some());
    // the failed model call leaves no actions for its own issue only
    assert!(reports[1].actions.is_none());
    assert_eq!(reports[1].context, "No code context available");
    let third = reports[2].actions.as_ref().unwrap();
    assert_eq!(third.len(), 2);
    assert_eq!(
        third[0],
        ServerAction::AddTag {
            issue: String::from("ISSUE-3"),
            tags: String::from("false-positive"),
        }
    );
}

#[test]
fn a_failure_elsewhere_leaves_other_reports_unchanged() {
    let args = resolved_args(vec![]);
    let issues: Vec<SonarIssue> = vec![
        SonarIssue::from_json_value(&record("ISSUE-1", Some(1))).unwrap(),
        SonarIssue::from_json_value(&record("ISSUE-2", Some(1))).unwrap(),
    ];
    let good = IssueEvents {
        source: Some(String::from("a\nb")),
        model_reply: Some(String::from("Fix it.")),
    };
    let good_again = IssueEvents {
        source: Some(String::from("a\nb")),
        model_reply: Some(String::from("Fix it.")),
    };
    let other_ok = vec![
        good,
        IssueEvents {
            source: Some(String::from("c")),
            model_reply: Some(String::from("Done.")),
        },
    ];
    let other_failed = vec![good_again, IssueEvents { source: None, model_reply: None }];
    let reports_ok = process_issues(&args, &issues, &other_ok);
    let reports_failed = process_issues(&args, &issues, &other_failed);
    assert_eq!(reports_ok[0].key, reports_failed[0].key);
    assert_eq!(reports_ok[0].context, reports_failed[0].context);
    assert_eq!(reports_ok[0].prompt, reports_failed[0].prompt);
    assert_eq!(reports_ok[0].actions, reports_failed[0].actions);
}

#[test]
fn full_scenario_strips_reasoning_and_plans_tag() {
    let args = resolved_args(vec![]);
    let issues = vec![SonarIssue::from_json_value(&record("ISSUE-S", Some(3))).unwrap()];
    let events = vec![IssueEvents {
        source: Some(String::from("a\nb\nc\nd\ne\nf\ng\nh\ni\nj\n")),
        model_reply: Some(String::from(
            "<think>The import is never used.</think>Issue looks fine. *false positive* - unused import.",
        )),
    }];
    let reports = process_issues(&args, &issues, &events);
    assert_eq!(reports.len(), 1);
    assert_eq!(
        reports[0].context,
        "   1: a\n   2: b\n>> 3: c\n   4: d\n   5: e\n   6: f\n   7: g\n   8: h"
    );
    assert!(reports[0].prompt.contains(&reports[0].context));
    let actions = reports[0].actions.as_ref().unwrap();
    assert_eq!(
        *actions,
        vec![
            ServerAction::AddTag {
                issue: String::from("ISSUE-S"),
                tags: String::from("false-positive"),
            },
            ServerAction::AddComment {
                issue: String::from("ISSUE-S"),
                text: String::from("Issue looks fine. *false positive* - unused import."),
            },
        ]
    );
}

#[test]
fn prompt_is_deterministic() {
    let args = resolved_args(vec![String::from("java:S1128"), String::from("java:S2095")]);
    let issue = SonarIssue::from_json_value(&record("ISSUE-P", Some(4))).unwrap();
    let ctx = issue.get_code_context("a\nb\nc\nd\ne\nf\ng");
    let p1 = build_prompt(&args, &issue, &ctx);
    let p2 = build_prompt(&args, &issue, &ctx);
    assert_eq!(p1, p2);
}

#[test]
fn prompt_embeds_issue_and_settings() {
    let args = resolved_args(vec![String::from("java:S1128"), String::from("java:S2095")]);
    let issue = SonarIssue::from_json_value(&record("ISSUE-P", Some(4))).unwrap();
    let prompt = build_prompt(&args, &issue, "CTX-BLOCK");
    assert!(prompt.contains("deepseek-r1:14b"));
    assert!(prompt.contains("Rule: java:S2095"));
    assert!(prompt.contains("File: proj:src/Db.java"));
    assert!(prompt.contains("Line: 4"));
    assert!(prompt.contains("Message: Close this resource."));
    assert!(prompt.contains("CTX-BLOCK"));
    assert!(prompt.contains("*false positive by user input*: ``java:S1128 java:S2095``"));
    assert!(prompt.ends_with("/nothink"));
}

#[test]
fn prompt_without_rules_has_no_user_input_clause() {
    let args = resolved_args(vec![]);
    let issue = SonarIssue::from_json_value(&record("ISSUE-P", None)).unwrap();
    let prompt = build_prompt(&args, &issue, "CTX");
    assert!(!prompt.contains("false positive by user input"));
    assert!(prompt.contains("Line: 0"));
}

#[test]
fn cli_overrides_win_over_persisted_values() {
    let config = Config {
        sonar_host: String::from("http://persisted:9000"),
        ollama_url: String::from("http://persisted:11434"),
        model: String::from("old-model"),
        token: String::from("SECRET-REDACTED"),
    };
    let (args, merged) = Args::new(
        Some(String::from("http://cli:9000")),
        None,
        String::from("proj"),
        None,
        Some(String::from("new-model")),
        vec![],
        config,
    );
    assert_eq!(args.sonar_host(), "http://cli:9000");
    assert_eq!(args.ollama_url(), "http://persisted:11434");
    assert_eq!(args.model(), "new-model");
    assert_eq!(args.token(), "SECRET-REDACTED");
    assert_eq!(args.project_key(), "proj");
    assert_eq!(merged.sonar_host, "http://cli:9000");
    assert_eq!(merged.model, "new-model");
    assert_eq!(merged.ollama_url, "http://persisted:11434");
}

#[test]
fn config_update_merges_field_by_field() {
    let mut config = Config {
        sonar_host: String::from("h0"),
        ollama_url: String::from("u0"),
        model: String::from("m0"),
        token: String::from("t0"),
    };
    config.update(Some(String::from("h1")), None, Some(String::from("t1")), None);
    assert_eq!(config.sonar_host, "h1");
    assert_eq!(config.ollama_url, "u0");
    assert_eq!(config.token, "t1");
    assert_eq!(config.model, "m0");
}

#[test]
fn ollama_request_holds_its_fields() {
    let req = OllamaRequest::new(String::from("m"), String::from("p"), false);
    assert_eq!(req.model().as_str(), "m");
    assert_eq!(req.prompt().as_str(), "p");
    assert!(!req.stream());
}
