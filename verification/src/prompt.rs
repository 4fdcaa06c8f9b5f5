//! Deterministic synthesis of the instruction prompt: a fixed template
//! embedding the model identifier, the issue's metadata, the code-context
//! block and, when configured, the list of rule identifiers to mark as
//! false positive on the user's authority. A pure function of its inputs.

use vstd::prelude::*;
use vstd::string::*;

use crate::args::{Args, ArgsV};
use crate::sonarqube::{line_or_zero, SonarIssue, SonarIssueV};
use crate::text::{append_i32_dec, dec_int, join_sep, join_space};

verus! {

/// The extra instruction emitted when rule identifiers are configured as
/// always false positive; empty otherwise.
pub open spec fn rules_clause_spec(rules: Seq<Seq<char>>) -> Seq<char> {
    if rules.len() == 0 {
        Seq::empty()
    } else {
        "\n                - Mark this rules exclusively as false positives, and say *false positive by user input*: ``"@
            + join_sep(rules, " "@) + "``"@
    }
}

/// The prompt through the optional rules clause: role framing, formatting
/// constraints and the output template naming the model.
pub open spec fn prompt_prefix_spec(args: ArgsV) -> Seq<char>
    recommends
        args.model is Some,
{
    "\n            You are a cybersecurity expert specialized in static analysis and SonarQube.\n            IMPORTANT: DO NOT USE MARKDOWN FORMATTING. Use SonarQube's specific formatting instead:\n            - For bold text: use a single * character between the words (e.g., *Bold text*)\n            - For code: use double backticks between the code (e.g., ``JavaClass.getCode()``)\n            - Do not use any other formatting characters like #, -, >, etc.\n            - For code blocks, use also double backticks before and after the code block.\n            \n            Provide ONLY a direct analysis and fix in the following format:\n                - Add this to the first line of the response: *"@
        + args.model->0
        + "*;\n                - Brief description of the issue;\n                - Whether it's a false positive or not;\n                - If false positive say it in bold, explain why (In Java you say to add an annotation to suppress \n                the warning); \n                - If not false positive, provide the fix;\n                - About the false positives, be conservative, don't say it's a false positive if you're not absolutely sure\n                - Keep your response concise and focused only on the technical analysis and fix. Do not include any introductory text, \n                explanations about your role, or general advice."@
        + rules_clause_spec(args.rules)
}

/// The full prompt: the prefix above followed by the fixed fix template,
/// the issue's rule, file, line and message, and the code context.
pub open spec fn prompt_spec(args: ArgsV, issue: SonarIssueV, context: Seq<char>) -> Seq<char>
    recommends
        args.model is Some,
{
    prompt_prefix_spec(args)
        + "\n\n            CODE FIX:\n            ``\n            // Your code fix here\n            ``\n\n            Issue details:\n            Rule: "@
        + issue.rule + "\n            File: "@ + issue.path + "\n            Line: "@ + dec_int(
        line_or_zero(issue.line),
    ) + "\n            Message: "@ + issue.message
        + "\n\n            Code context:\n            ``\n            "@ + context
        + "\n            ``\n            /nothink"@
}

/// Two synthesizer calls on equal inputs yield the same prompt: the
/// prompt is a function of the settings, the issue and the context alone.
pub proof fn lemma_prompt_deterministic(
    a1: ArgsV,
    a2: ArgsV,
    i1: SonarIssueV,
    i2: SonarIssueV,
    c1: Seq<char>,
    c2: Seq<char>,
)
    requires
        a1 == a2,
        i1 == i2,
        c1 == c2,
    ensures
        prompt_spec(a1, i1, c1) == prompt_spec(a2, i2, c2),
{
}

/// Renders the prompt for one issue, per [`prompt_spec`].
pub fn build_prompt(args: &Args, issue: &SonarIssue, code_context: &str) -> (r: String)
    requires
        args.wf(),
    ensures
        r@ == prompt_spec(args@, issue@, code_context@),
{
    let mut out = String::new();
    out.append(
        "\n            You are a cybersecurity expert specialized in static analysis and SonarQube.\n            IMPORTANT: DO NOT USE MARKDOWN FORMATTING. Use SonarQube's specific formatting instead:\n            - For bold text: use a single * character between the words (e.g., *Bold text*)\n            - For code: use double backticks between the code (e.g., ``JavaClass.getCode()``)\n            - Do not use any other formatting characters like #, -, >, etc.\n            - For code blocks, use also double backticks before and after the code block.\n            \n            Provide ONLY a direct analysis and fix in the following format:\n                - Add this to the first line of the response: *",
    );
    let model = args.model();
    out.append(model.as_str());
    out.append(
        "*;\n                - Brief description of the issue;\n                - Whether it's a false positive or not;\n                - If false positive say it in bold, explain why (In Java you say to add an annotation to suppress \n                the warning); \n                - If not false positive, provide the fix;\n                - About the false positives, be conservative, don't say it's a false positive if you're not absolutely sure\n                - Keep your response concise and focused only on the technical analysis and fix. Do not include any introductory text, \n                explanations about your role, or general advice.",
    );
    let rules = args.rules();
    if rules.len() > 0 {
        out.append(
            "\n                - Mark this rules exclusively as false positives, and say *false positive by user input*: ``",
        );
        let joined = join_space(&rules);
        out.append(joined.as_str());
        out.append("``");
    }
    proof {
        assert(out@ =~= prompt_prefix_spec(args@));
    }
    out.append(
        "\n\n            CODE FIX:\n            ``\n            // Your code fix here\n            ``\n\n            Issue details:\n            Rule: ",
    );
    let rule = issue.rule();
    out.append(rule.as_str());
    out.append("\n            File: ");
    let path = issue.path();
    out.append(path.as_str());
    out.append("\n            Line: ");
    let l: i32 = match issue.line() {
        Some(x) => x,
        None => 0,
    };
    append_i32_dec(&mut out, l);
    out.append("\n            Message: ");
    let message = issue.message();
    out.append(message.as_str());
    out.append("\n\n            Code context:\n            ``\n            ");
    out.append(code_context);
    out.append("\n            ``\n            /nothink");
    proof {
        assert(out@ =~= prompt_spec(args@, issue@, code_context@));
    }
    out
}

} // verus!
