//! The pipeline's decision logic: which page requests discovery makes,
//! how the fetched pages combine into the issue list, and what one
//! issue's processing yields — its context, its prompt and the server
//! actions that apply the sanitized response. The surrounding program
//! performs each network call and hands its outcome back as a plain
//! value; every decision between the calls is made and proved here.

use vstd::prelude::*;
use vstd::string::*;

use crate::args::{Args, ArgsV};
use crate::ollama::OllamaResponse;
use crate::prompt::{build_prompt, prompt_spec};
use crate::sanitize::{contains_marker, marker_present, sanitize_spec};
use crate::sonarqube::{
    code_context_spec, parse_issues_from_json, parse_page_spec, SearchPage, SearchPageV,
    SonarIssue, SonarIssueV,
};

verus! {

/// The page numbers discovery requests after a first response reporting
/// `total`: one request per unit of the reported total, numbered from 1.
/// (The server documents `total` as an item count, not a page count;
/// requesting that many pages over-fetches rather than under-fetches, and
/// is this client's deliberate behavior.)
pub fn plan_page_requests(total: u64) -> (r: Vec<u64>)
    requires
        total <= usize::MAX as u64,
    ensures
        r@.len() == total as int,
        forall|i: int| 0 <= i < total ==> r@[i] == i + 1,
{
    let mut out: Vec<u64> = Vec::new();
    let mut i: usize = 0;
    while (i as u64) < total
        invariant
            total <= usize::MAX as u64,
            i as u64 <= total,
            out@.len() == i as int,
            forall|k: int| 0 <= k < i ==> out@[k] == k + 1,
        decreases total - i as u64,
    {
        out.push(i as u64 + 1);
        i += 1;
    }
    out
}

/// The issues of a page sequence, in order of the pages and in order
/// within each page, malformed records dropped.
pub open spec fn discovered_issues_spec(pages: Seq<SearchPageV>) -> Seq<SonarIssueV>
    decreases pages.len(),
{
    if pages.len() == 0 {
        Seq::empty()
    } else {
        parse_page_spec(pages[0]) + discovered_issues_spec(pages.drop_first())
    }
}

/// Pagination completeness, the union half: the issues of a run are
/// exactly the concatenation, in page order, of each page's parsed
/// issues, malformed records dropped. (The request half is the contract
/// of [`plan_page_requests`]: a reported total `T` plans exactly the `T`
/// page numbers 1 through `T`.)
pub proof fn lemma_discovery_is_union(pages: Seq<SearchPageV>)
    ensures
        discovered_issues_spec(pages) == pages.map_values(
            |p: SearchPageV| parse_page_spec(p),
        ).flatten(),
    decreases pages.len(),
{
    let mapped = pages.map_values(|p: SearchPageV| parse_page_spec(p));
    if pages.len() == 0 {
        assert(mapped.len() == 0);
    } else {
        lemma_discovery_is_union(pages.drop_first());
        assert(mapped.drop_first() =~= pages.drop_first().map_values(
            |p: SearchPageV| parse_page_spec(p),
        ));
        assert(mapped.first() == parse_page_spec(pages[0]));
    }
}

/// Appending a page extends the discovered issues at the back.
pub proof fn lemma_discovered_push(pages: Seq<SearchPageV>, x: SearchPageV)
    ensures
        discovered_issues_spec(pages.push(x)) == discovered_issues_spec(pages) + parse_page_spec(
            x,
        ),
    decreases pages.len(),
{
    if pages.len() == 0 {
        assert(pages.push(x)[0] == x);
        assert(pages.push(x).drop_first() =~= Seq::<SearchPageV>::empty());
        assert(discovered_issues_spec(Seq::<SearchPageV>::empty())
            =~= Seq::<SonarIssueV>::empty());
        assert(parse_page_spec(x) + Seq::<SonarIssueV>::empty() =~= parse_page_spec(x));
        assert(Seq::<SonarIssueV>::empty() + parse_page_spec(x) =~= parse_page_spec(x));
    } else {
        assert(pages.push(x)[0] == pages[0]);
        assert(pages.push(x).drop_first() =~= pages.drop_first().push(x));
        lemma_discovered_push(pages.drop_first(), x);
        assert(parse_page_spec(pages[0]) + (discovered_issues_spec(pages.drop_first())
            + parse_page_spec(x)) =~= (parse_page_spec(pages[0]) + discovered_issues_spec(
            pages.drop_first(),
        )) + parse_page_spec(x));
    }
}

/// Collects the issues of the fetched pages, in order.
pub fn collect_issues(pages: &Vec<SearchPage>) -> (r: Vec<SonarIssue>)
    ensures
        r.deep_view() == discovered_issues_spec(pages.deep_view()),
{
    let ghost dv = pages.deep_view();
    let mut out: Vec<SonarIssue> = Vec::new();
    let mut i: usize = 0;
    proof {
        assert(dv.take(0) =~= Seq::<SearchPageV>::empty());
    }
    while i < pages.len()
        invariant
            i <= pages.len(),
            dv == pages.deep_view(),
            out.len() == discovered_issues_spec(dv.take(i as int)).len(),
            forall|k: int|
                0 <= k < out.len() ==> out@[k]@ == discovered_issues_spec(dv.take(i as int))[k],
        decreases pages.len() - i,
    {
        let mut page_issues = parse_issues_from_json(&pages[i]);
        let ghost pi = page_issues.deep_view();
        proof {
            assert(dv.take(i + 1) =~= dv.take(i as int).push(dv[i as int]));
            lemma_discovered_push(dv.take(i as int), dv[i as int]);
            assert(pages@[i as int]@ == dv[i as int]);
        }
        out.append(&mut page_issues);
        proof {
            assert forall|k: int| 0 <= k < out.len() implies out@[k]@ == discovered_issues_spec(
                dv.take(i + 1),
            )[k] by {
                if k < out.len() - pi.len() {
                } else {
                    assert(out@[k]@ == pi[k - (out.len() - pi.len())]);
                }
            }
        }
        i += 1;
    }
    proof {
        assert(dv.take(pages.len() as int) =~= dv);
        assert(out.deep_view() =~= discovered_issues_spec(dv));
    }
    out
}

/// Combines a run's responses into its issue list: a positive reported
/// total means the issues come from the follow-up pages alone; a zero
/// total means they come from the first response itself.
pub fn discover_from_responses(first: &SearchPage, pages: &Vec<SearchPage>) -> (r: Vec<SonarIssue>)
    ensures
        r.deep_view() == if first@.total > 0 {
            discovered_issues_spec(pages.deep_view())
        } else {
            parse_page_spec(first@)
        },
{
    if first.total > 0 {
        collect_issues(pages)
    } else {
        parse_issues_from_json(first)
    }
}

/// The code context used for an issue: the window of the fetched source,
/// or the placeholder when the fetch failed.
pub open spec fn resolve_context_spec(line: Option<i32>, source: Option<Seq<char>>) -> Seq<char> {
    match source {
        Some(s) => code_context_spec(line, s),
        None => "No code context available"@,
    }
}

/// Resolves an issue's code context from the outcome of the source
/// fetch, per [`resolve_context_spec`].
pub fn resolve_context(issue: &SonarIssue, source: Option<&String>) -> (r: String)
    ensures
        r@ == resolve_context_spec(
            issue@.line,
            match source {
                Some(s) => Some(s@),
                None => None,
            },
        ),
{
    match source {
        Some(s) => issue.get_code_context(s.as_str()),
        None => String::from_str("No code context available"),
    }
}

/// The abstract value of a [`ServerAction`].
pub ghost enum ServerActionV {
    AddTag { issue: Seq<char>, tags: Seq<char> },
    AddComment { issue: Seq<char>, text: Seq<char> },
}

/// One write against the quality server: tagging an issue or commenting
/// on it. The surrounding program turns each action into one POST.
#[derive(Debug, PartialEq, Eq)]
pub enum ServerAction {
    AddTag { issue: String, tags: String },
    AddComment { issue: String, text: String },
}

impl View for ServerAction {
    type V = ServerActionV;

    open spec fn view(&self) -> ServerActionV {
        match self {
            ServerAction::AddTag { issue, tags } => ServerActionV::AddTag {
                issue: issue@,
                tags: tags@,
            },
            ServerAction::AddComment { issue, text } => ServerActionV::AddComment {
                issue: issue@,
                text: text@,
            },
        }
    }
}

impl DeepView for ServerAction {
    type V = ServerActionV;

    open spec fn deep_view(&self) -> ServerActionV {
        self.view()
    }
}

/// The actions that apply a sanitized response to an issue: the tag when
/// the false-positive marker is present, then always exactly one comment
/// holding the sanitized text.
pub open spec fn result_actions_spec(key: Seq<char>, sanitized: Seq<char>) -> Seq<ServerActionV> {
    if marker_present(sanitized) {
        seq![
            ServerActionV::AddTag { issue: key, tags: "false-positive"@ },
            ServerActionV::AddComment { issue: key, text: sanitized },
        ]
    } else {
        seq![ServerActionV::AddComment { issue: key, text: sanitized }]
    }
}

/// The number of comment actions in a plan.
pub open spec fn comment_count(actions: Seq<ServerActionV>) -> int
    decreases actions.len(),
{
    if actions.len() == 0 {
        0
    } else {
        (if actions[0] is AddComment {
            1int
        } else {
            0int
        }) + comment_count(actions.drop_first())
    }
}

/// Conditional tagging: the plan for a sanitized response holds exactly
/// one comment, which carries the sanitized text to the issue's key, and
/// holds a tag action exactly when the sanitized text holds the
/// false-positive marker.
pub proof fn lemma_conditional_tagging(key: Seq<char>, sanitized: Seq<char>)
    ensures
        comment_count(result_actions_spec(key, sanitized)) == 1,
        (exists|i: int|
            0 <= i < result_actions_spec(key, sanitized).len() && result_actions_spec(
                key,
                sanitized,
            )[i] is AddTag) <==> marker_present(sanitized),
        forall|i: int|
            0 <= i < result_actions_spec(key, sanitized).len() && result_actions_spec(
                key,
                sanitized,
            )[i] is AddComment ==> result_actions_spec(key, sanitized)[i]
                == (ServerActionV::AddComment { issue: key, text: sanitized }),
{
    let acts = result_actions_spec(key, sanitized);
    if marker_present(sanitized) {
        let tail = acts.drop_first();
        assert(tail =~= seq![ServerActionV::AddComment { issue: key, text: sanitized }]);
        assert(tail[0] == (ServerActionV::AddComment { issue: key, text: sanitized }));
        assert(tail.drop_first() =~= Seq::<ServerActionV>::empty());
        assert(comment_count(tail.drop_first()) == 0);
        assert(comment_count(tail) == 1);
        assert(comment_count(acts) == 1);
        assert(acts[0] is AddTag);
    } else {
        assert(acts.drop_first() =~= Seq::<ServerActionV>::empty());
        assert(comment_count(acts.drop_first()) == 0);
        assert(comment_count(acts) == 1);
        assert(forall|i: int| 0 <= i < acts.len() ==> !(acts[i] is AddTag));
    }
}

/// Plans the server writes for one issue's sanitized response, per
/// [`result_actions_spec`].
pub fn plan_result_actions(issue: &SonarIssue, sanitized: &String) -> (r: Vec<ServerAction>)
    ensures
        r.deep_view() == result_actions_spec(issue@.key, sanitized@),
{
    let mut out: Vec<ServerAction> = Vec::new();
    if contains_marker(sanitized.as_str()) {
        out.push(
            ServerAction::AddTag { issue: issue.key(), tags: String::from_str("false-positive") },
        );
    }
    out.push(ServerAction::AddComment { issue: issue.key(), text: sanitized.clone() });
    proof {
        assert(out.deep_view() =~= result_actions_spec(issue@.key, sanitized@));
    }
    out
}

/// The abstract value of an [`IssueEvents`].
pub ghost struct IssueEventsV {
    pub source: Option<Seq<char>>,
    pub model_reply: Option<Seq<char>>,
}

/// The outcomes of one issue's outside calls: the raw source text when
/// the fetch succeeded, and the raw model reply when the generation call
/// succeeded.
#[derive(Debug)]
pub struct IssueEvents {
    pub source: Option<String>,
    pub model_reply: Option<String>,
}

impl View for IssueEvents {
    type V = IssueEventsV;

    open spec fn view(&self) -> IssueEventsV {
        IssueEventsV { source: self.source.deep_view(), model_reply: self.model_reply.deep_view() }
    }
}

impl DeepView for IssueEvents {
    type V = IssueEventsV;

    open spec fn deep_view(&self) -> IssueEventsV {
        self.view()
    }
}

/// The abstract value of an [`IssueReport`].
pub ghost struct IssueReportV {
    pub key: Seq<char>,
    pub context: Seq<char>,
    pub prompt: Seq<char>,
    pub actions: Option<Seq<ServerActionV>>,
}

/// Everything one issue's processing decided: its key, the context it was
/// judged with, the prompt sent for it, and the planned server writes —
/// `None` when the model call failed, in which case nothing is posted for
/// this issue and the run moves on.
#[derive(Debug)]
pub struct IssueReport {
    pub key: String,
    pub context: String,
    pub prompt: String,
    pub actions: Option<Vec<ServerAction>>,
}

impl View for IssueReport {
    type V = IssueReportV;

    open spec fn view(&self) -> IssueReportV {
        IssueReportV {
            key: self.key@,
            context: self.context@,
            prompt: self.prompt@,
            actions: self.actions.deep_view(),
        }
    }
}

impl DeepView for IssueReport {
    type V = IssueReportV;

    open spec fn deep_view(&self) -> IssueReportV {
        self.view()
    }
}

/// What one issue's processing yields, as a function of the settings, the
/// issue and its events alone.
pub open spec fn issue_report_spec(args: ArgsV, issue: SonarIssueV, ev: IssueEventsV) -> IssueReportV
    recommends
        args.model is Some,
{
    let context = resolve_context_spec(issue.line, ev.source);
    IssueReportV {
        key: issue.key,
        context: context,
        prompt: prompt_spec(args, issue, context),
        actions: match ev.model_reply {
            Some(raw) => Some(result_actions_spec(issue.key, sanitize_spec(raw))),
            None => None,
        },
    }
}

/// Processes one issue against the outcomes of its outside calls, per
/// [`issue_report_spec`].
pub fn process_issue(args: &Args, issue: &SonarIssue, events: &IssueEvents) -> (r: IssueReport)
    requires
        args.wf(),
    ensures
        r@ == issue_report_spec(args@, issue@, events@),
{
    let context = resolve_context(issue, events.source.as_ref());
    let prompt = build_prompt(args, issue, context.as_str());
    let actions = match &events.model_reply {
        Some(raw) => {
            let response = OllamaResponse::new(raw.clone());
            let sanitized = response.response();
            Some(plan_result_actions(issue, &sanitized))
        },
        None => None,
    };
    IssueReport { key: issue.key(), context, prompt, actions }
}

/// The reports of a whole run: one per issue, each a function of that
/// issue and its own events alone.
pub open spec fn run_reports_spec(
    args: ArgsV,
    issues: Seq<SonarIssueV>,
    events: Seq<IssueEventsV>,
) -> Seq<IssueReportV>
    recommends
        events.len() == issues.len(),
{
    Seq::new(issues.len(), |i: int| issue_report_spec(args, issues[i], events[i]))
}

/// Fault isolation: however many of the outside calls fail, every issue
/// yields a report, and the report of an issue depends only on that
/// issue's own events — changing another issue's outcomes cannot change
/// it.
pub proof fn lemma_fault_isolation(
    args: ArgsV,
    issues: Seq<SonarIssueV>,
    events1: Seq<IssueEventsV>,
    events2: Seq<IssueEventsV>,
    j: int,
)
    requires
        events1.len() == issues.len(),
        events2.len() == issues.len(),
        0 <= j < issues.len(),
        events1[j] == events2[j],
    ensures
        run_reports_spec(args, issues, events1).len() == issues.len(),
        run_reports_spec(args, issues, events2).len() == issues.len(),
        run_reports_spec(args, issues, events1)[j] == run_reports_spec(args, issues, events2)[j],
{
}

/// Processes every issue of a run, strictly in order, one report each,
/// per [`run_reports_spec`].
pub fn process_issues(args: &Args, issues: &Vec<SonarIssue>, events: &Vec<IssueEvents>) -> (r: Vec<
    IssueReport,
>)
    requires
        args.wf(),
        issues@.len() == events@.len(),
    ensures
        r.deep_view() == run_reports_spec(args@, issues.deep_view(), events.deep_view()),
{
    let mut out: Vec<IssueReport> = Vec::new();
    let mut i: usize = 0;
    while i < issues.len()
        invariant
            args.wf(),
            issues@.len() == events@.len(),
            i <= issues.len(),
            out.len() == i,
            forall|k: int|
                0 <= k < i ==> out@[k]@ == issue_report_spec(
                    args@,
                    issues.deep_view()[k],
                    events.deep_view()[k],
                ),
        decreases issues.len() - i,
    {
        let report = process_issue(args, &issues[i], &events[i]);
        out.push(report);
        i += 1;
    }
    proof {
        assert(out.deep_view() =~= run_reports_spec(args@, issues.deep_view(), events.deep_view()));
    }
    out
}

} // verus!
