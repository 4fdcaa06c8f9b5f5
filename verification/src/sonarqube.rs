//! Issues from the quality server and the code-context window around a
//! reported line. Deserializing the server's JSON into plain records and
//! fetching raw source over HTTP are the surrounding program's work; the
//! library validates records, drops malformed ones, and slices the
//! context window.

use vstd::prelude::*;
use vstd::string::*;

use crate::text::{
    append_i32_dec, append_u64_dec, dec_int, dec_nat, lemma_lines_nonempty, lines_spec,
    split_lines,
};

verus! {

/// Half-width of the context window: this many lines are taken on each
/// side of the reported line, clipped to the file.
pub const CONTEXT_HALF_WIDTH: usize = 5;

/// The abstract value of an [`IssueRecord`].
pub ghost struct IssueRecordV {
    pub key: Option<Seq<char>>,
    pub rule: Option<Seq<char>>,
    pub message: Option<Seq<char>>,
    pub component: Option<Seq<char>>,
    pub line: Option<i32>,
}

/// One issue record as it appears in a search-response page: every field
/// the server may omit is optional here. The surrounding program maps the
/// raw JSON record onto this shape.
#[derive(Debug)]
pub struct IssueRecord {
    pub key: Option<String>,
    pub rule: Option<String>,
    pub message: Option<String>,
    pub component: Option<String>,
    pub line: Option<i32>,
}

impl View for IssueRecord {
    type V = IssueRecordV;

    open spec fn view(&self) -> IssueRecordV {
        IssueRecordV {
            key: self.key.deep_view(),
            rule: self.rule.deep_view(),
            message: self.message.deep_view(),
            component: self.component.deep_view(),
            line: self.line,
        }
    }
}

impl DeepView for IssueRecord {
    type V = IssueRecordV;

    open spec fn deep_view(&self) -> IssueRecordV {
        self.view()
    }
}

/// The abstract value of a [`SonarIssue`].
pub ghost struct SonarIssueV {
    pub key: Seq<char>,
    pub rule: Seq<char>,
    pub message: Seq<char>,
    pub path: Seq<char>,
    pub line: Option<i32>,
}

/// One validated issue: key, rule identifier, message and the component
/// key of its file are always present; the line number may be absent.
#[derive(Debug)]
pub struct SonarIssue {
    key: String,
    rule: String,
    message: String,
    path: String,
    line: Option<i32>,
}

impl View for SonarIssue {
    type V = SonarIssueV;

    closed spec fn view(&self) -> SonarIssueV {
        SonarIssueV {
            key: self.key@,
            rule: self.rule@,
            message: self.message@,
            path: self.path@,
            line: self.line,
        }
    }
}

impl DeepView for SonarIssue {
    type V = SonarIssueV;

    open spec fn deep_view(&self) -> SonarIssueV {
        self.view()
    }
}

/// A record is kept when key, rule, message and component are all
/// present.
pub open spec fn record_ok(r: IssueRecordV) -> bool {
    r.key is Some && r.rule is Some && r.message is Some && r.component is Some
}

/// The issue a well-formed record validates to.
pub open spec fn issue_of_record(r: IssueRecordV) -> SonarIssueV
    recommends
        record_ok(r),
{
    SonarIssueV {
        key: r.key->0,
        rule: r.rule->0,
        message: r.message->0,
        path: r.component->0,
        line: r.line,
    }
}

impl SonarIssue {
    /// The server-assigned unique identifier.
    pub fn key(&self) -> (r: String)
        ensures
            r@ == self@.key,
    {
        self.key.clone()
    }

    /// The rule identifier.
    pub fn rule(&self) -> (r: String)
        ensures
            r@ == self@.rule,
    {
        self.rule.clone()
    }

    /// The human-readable message.
    pub fn message(&self) -> (r: String)
        ensures
            r@ == self@.message,
    {
        self.message.clone()
    }

    /// The component key of the file the issue is in.
    pub fn path(&self) -> (r: String)
        ensures
            r@ == self@.path,
    {
        self.path.clone()
    }

    /// The reported line number, when the server gave one.
    pub fn line(&self) -> (r: Option<i32>)
        ensures
            r == self@.line,
    {
        self.line
    }

    /// Validates one record: `Some` exactly when key, rule, message and
    /// component are all present, with the component becoming the path.
    pub fn from_json_value(value: &IssueRecord) -> (r: Option<SonarIssue>)
        ensures
            match r {
                Some(issue) => record_ok(value@) && issue@ == issue_of_record(value@),
                None => !record_ok(value@),
            },
    {
        let component = match &value.component {
            Some(c) => c.clone(),
            None => {
                return None;
            },
        };
        let key = match &value.key {
            Some(k) => k.clone(),
            None => {
                return None;
            },
        };
        let rule = match &value.rule {
            Some(ru) => ru.clone(),
            None => {
                return None;
            },
        };
        let message = match &value.message {
            Some(m) => m.clone(),
            None => {
                return None;
            },
        };
        Some(SonarIssue { key, rule, message, path: component, line: value.line })
    }

    /// The code context around this issue's reported line in the given
    /// raw source text, per [`code_context_spec`]. Fetching the source is
    /// the caller's work; an empty body, a missing or out-of-range line
    /// number each yield their placeholder text.
    pub fn get_code_context(&self, source: &str) -> (r: String)
        ensures
            r@ == code_context_spec(self@.line, source@),
    {
        if source.unicode_len() == 0 {
            return String::from_str("Nessun codice sorgente disponibile");
        }
        let lines = split_lines(source);
        if lines.len() == 0 {
            proof {
                lemma_lines_nonempty(source@);
            }
            return String::from_str("Il file \u{e8} vuoto");
        }
        let l: i32 = match self.line {
            Some(x) => x,
            None => 0,
        };
        let ll = lines.len();
        if l <= 0 || l as usize > ll {
            let mut msg = String::from_str("Numero di riga non valido: ");
            append_i32_dec(&mut msg, l);
            return msg;
        }
        let lu = l as usize;
        let lo = if lu - 1 >= CONTEXT_HALF_WIDTH {
            lu - 1 - CONTEXT_HALF_WIDTH
        } else {
            0
        };
        let hi = if CONTEXT_HALF_WIDTH >= ll - lu {
            ll
        } else {
            lu + CONTEXT_HALF_WIDTH
        };
        proof {
            assert(lo as int == window_lo(l as int, CONTEXT_HALF_WIDTH as int));
            assert(hi as int == window_hi(ll as int, l as int, CONTEXT_HALF_WIDTH as int));
        }
        render_window(&lines, lo, hi, lu)
    }
}

/// First 0-based index of the context window: `max(0, line - 1 - w)`.
pub open spec fn window_lo(line: int, w: int) -> int {
    if line - 1 - w >= 0 {
        line - 1 - w
    } else {
        0
    }
}

/// One-past-last 0-based index of the context window: `min(len, line + w)`.
pub open spec fn window_hi(len: int, line: int, w: int) -> int {
    if line + w <= len {
        line + w
    } else {
        len
    }
}

/// For a valid reported line the window covers exactly the 1-based line
/// numbers `max(1, line - w)` through `min(len, line + w)`, and the
/// reported line lies inside it.
pub proof fn lemma_window_bounds(len: int, line: int, w: int)
    requires
        1 <= line <= len,
        0 <= w,
    ensures
        window_lo(line, w) + 1 == if line - w >= 1 {
            line - w
        } else {
            1
        },
        window_hi(len, line, w) == if line + w <= len {
            line + w
        } else {
            len
        },
        window_lo(line, w) <= line - 1 < window_hi(len, line, w),
{
}

/// One rendered context line: a marker or blank prefix, the 1-based line
/// number, a separator and the line's text.
pub open spec fn line_entry_spec(lineno: int, marked: bool, text: Seq<char>) -> Seq<char>
    recommends
        lineno >= 1,
{
    (if marked {
        ">> "@
    } else {
        "   "@
    }) + dec_nat(lineno as nat) + ": "@ + text
}

/// The rendered window: the entries for the 0-based indices `[lo, hi)`
/// joined by newlines, with the entry whose 1-based number equals `mark`
/// carrying the marker prefix.
pub open spec fn render_window_spec(lines: Seq<Seq<char>>, lo: int, hi: int, mark: int) -> Seq<
    char,
>
    recommends
        0 <= lo <= hi <= lines.len(),
    decreases hi - lo,
{
    if lo >= hi {
        Seq::empty()
    } else if lo + 1 == hi {
        line_entry_spec(lo + 1, lo + 1 == mark, lines[lo])
    } else {
        line_entry_spec(lo + 1, lo + 1 == mark, lines[lo]) + "\n"@ + render_window_spec(
            lines,
            lo + 1,
            hi,
            mark,
        )
    }
}

/// Renders the window of `lines` with 0-based indices `[lo, hi)`, marking
/// the line whose 1-based number is `mark`.
pub fn render_window(lines: &Vec<String>, lo: usize, hi: usize, mark: usize) -> (r: String)
    requires
        lo <= hi <= lines.len(),
    ensures
        r@ == render_window_spec(lines.deep_view(), lo as int, hi as int, mark as int),
{
    let ghost dv = lines.deep_view();
    let mut out = String::new();
    let mut k: usize = lo;
    proof {
        assert(Seq::<char>::empty() + render_window_spec(dv, lo as int, hi as int, mark as int)
            =~= render_window_spec(dv, lo as int, hi as int, mark as int));
    }
    while k < hi
        invariant
            lo <= k <= hi <= lines.len(),
            dv == lines.deep_view(),
            render_window_spec(dv, lo as int, hi as int, mark as int) == out@
                + render_window_spec(dv, k as int, hi as int, mark as int),
        decreases hi - k,
    {
        let ghost out0 = out@;
        let marked = k + 1 == mark;
        if marked {
            out.append(">> ");
        } else {
            out.append("   ");
        }
        append_u64_dec(&mut out, (k + 1) as u64);
        out.append(": ");
        out.append(lines[k].as_str());
        proof {
            assert(dv[k as int] == lines@[k as int]@);
            assert(out@ =~= out0 + line_entry_spec(k + 1, k + 1 == mark, dv[k as int]));
        }
        if k + 1 < hi {
            out.append("\n");
            proof {
                assert(out@ =~= out0 + (line_entry_spec(k + 1, k + 1 == mark, dv[k as int])
                    + "\n"@));
                assert(render_window_spec(dv, k as int, hi as int, mark as int) =~= (
                line_entry_spec(k + 1, k + 1 == mark, dv[k as int]) + "\n"@) + render_window_spec(
                    dv,
                    k + 1,
                    hi as int,
                    mark as int,
                ));
            }
        } else {
            proof {
                assert(render_window_spec(dv, k as int, hi as int, mark as int) == line_entry_spec(
                    k + 1,
                    k + 1 == mark,
                    dv[k as int],
                ));
                assert(render_window_spec(dv, k + 1, hi as int, mark as int)
                    == Seq::<char>::empty());
                assert(out@ + Seq::<char>::empty() =~= out@);
            }
        }
        k += 1;
    }
    proof {
        assert(render_window_spec(dv, k as int, hi as int, mark as int) == Seq::<char>::empty());
        assert(out@ + Seq::<char>::empty() =~= out@);
    }
    out
}

/// The reported line as a number, zero when absent.
pub open spec fn line_or_zero(line: Option<i32>) -> int {
    match line {
        Some(l) => l as int,
        None => 0,
    }
}

/// The code context for a reported line in a source text: a placeholder
/// when the source is empty or the line number is missing, non-positive
/// or beyond the file, else the rendered window of `CONTEXT_HALF_WIDTH`
/// lines on each side, clipped to the file, with the reported line
/// marked.
pub open spec fn code_context_spec(line: Option<i32>, source: Seq<char>) -> Seq<char> {
    let ls = lines_spec(source);
    let l = line_or_zero(line);
    if source.len() == 0 {
        "Nessun codice sorgente disponibile"@
    } else if l <= 0 || l > ls.len() {
        "Numero di riga non valido: "@ + dec_int(l)
    } else {
        render_window_spec(
            ls,
            window_lo(l, CONTEXT_HALF_WIDTH as int),
            window_hi(ls.len() as int, l, CONTEXT_HALF_WIDTH as int),
            l,
        )
    }
}

/// The abstract value of a [`SearchPage`].
pub ghost struct SearchPageV {
    pub total: u64,
    pub issues: Option<Seq<IssueRecordV>>,
}

/// One page of a search response: the reported total and the issue
/// records, or `None` when the response held no issue array.
#[derive(Debug)]
pub struct SearchPage {
    pub total: u64,
    pub issues: Option<Vec<IssueRecord>>,
}

impl View for SearchPage {
    type V = SearchPageV;

    open spec fn view(&self) -> SearchPageV {
        SearchPageV { total: self.total, issues: self.issues.deep_view() }
    }
}

impl DeepView for SearchPage {
    type V = SearchPageV;

    open spec fn deep_view(&self) -> SearchPageV {
        self.view()
    }
}

/// The issues of a record sequence, in order, with malformed records
/// dropped.
pub open spec fn parse_records_spec(rs: Seq<IssueRecordV>) -> Seq<SonarIssueV>
    decreases rs.len(),
{
    if rs.len() == 0 {
        Seq::empty()
    } else {
        (if record_ok(rs[0]) {
            seq![issue_of_record(rs[0])]
        } else {
            Seq::empty()
        }) + parse_records_spec(rs.drop_first())
    }
}

/// Appending a record extends the parse at the back.
pub proof fn lemma_parse_records_push(rs: Seq<IssueRecordV>, x: IssueRecordV)
    ensures
        parse_records_spec(rs.push(x)) == parse_records_spec(rs) + (if record_ok(x) {
            seq![issue_of_record(x)]
        } else {
            Seq::<SonarIssueV>::empty()
        }),
    decreases rs.len(),
{
    let tail = if record_ok(x) {
        seq![issue_of_record(x)]
    } else {
        Seq::<SonarIssueV>::empty()
    };
    if rs.len() == 0 {
        assert(rs.push(x)[0] == x);
        assert(rs.push(x).drop_first() =~= Seq::<IssueRecordV>::empty());
        assert(parse_records_spec(Seq::<IssueRecordV>::empty()) =~= Seq::<SonarIssueV>::empty());
        assert(tail + Seq::<SonarIssueV>::empty() =~= tail);
        assert(Seq::<SonarIssueV>::empty() + tail =~= tail);
        assert(parse_records_spec(rs.push(x)) =~= parse_records_spec(rs) + tail);
    } else {
        assert(rs.push(x)[0] == rs[0]);
        assert(rs.push(x).drop_first() =~= rs.drop_first().push(x));
        lemma_parse_records_push(rs.drop_first(), x);
        let h = if record_ok(rs[0]) {
            seq![issue_of_record(rs[0])]
        } else {
            Seq::<SonarIssueV>::empty()
        };
        assert(h + (parse_records_spec(rs.drop_first()) + tail) =~= (h + parse_records_spec(
            rs.drop_first(),
        )) + tail);
        assert(parse_records_spec(rs.push(x)) =~= parse_records_spec(rs) + tail);
    }
}

/// The issues a search page yields: its records validated in order, or
/// nothing when the page held no issue array.
pub open spec fn parse_page_spec(p: SearchPageV) -> Seq<SonarIssueV> {
    match p.issues {
        Some(rs) => parse_records_spec(rs),
        None => Seq::empty(),
    }
}

/// Parses the issues of one search-response page, dropping every record
/// that misses a required field.
pub fn parse_issues_from_json(page: &SearchPage) -> (r: Vec<SonarIssue>)
    ensures
        r.deep_view() == parse_page_spec(page@),
{
    match &page.issues {
        None => {
            let r: Vec<SonarIssue> = Vec::new();
            proof {
                assert(r.deep_view() =~= parse_page_spec(page@));
            }
            r
        },
        Some(v) => {
            let ghost dv = v.deep_view();
            let mut out: Vec<SonarIssue> = Vec::new();
            let mut i: usize = 0;
            proof {
                assert(dv.take(0) =~= Seq::<IssueRecordV>::empty());
            }
            while i < v.len()
                invariant
                    i <= v.len(),
                    dv == v.deep_view(),
                    out.len() == parse_records_spec(dv.take(i as int)).len(),
                    forall|k: int|
                        0 <= k < out.len() ==> out@[k]@ == parse_records_spec(
                            dv.take(i as int),
                        )[k],
                decreases v.len() - i,
            {
                proof {
                    assert(dv.take(i + 1) =~= dv.take(i as int).push(dv[i as int]));
                    lemma_parse_records_push(dv.take(i as int), dv[i as int]);
                    assert(v@[i as int]@ == dv[i as int]);
                }
                match SonarIssue::from_json_value(&v[i]) {
                    Some(issue) => {
                        out.push(issue);
                    },
                    None => {
                        proof {
                            assert(parse_records_spec(dv.take(i + 1)) =~= parse_records_spec(
                                dv.take(i as int),
                            ));
                        }
                    },
                }
                i += 1;
            }
            proof {
                assert(dv.take(v.len() as int) =~= dv);
                assert(out.deep_view() =~= parse_records_spec(dv));
            }
            out
        },
    }
}

} // verus!
