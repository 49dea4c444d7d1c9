//! Reports on the type-checker behaviors that were recorded while contracts were
//! analyzed anew.
//!
//! Two behaviors are tracked:
//! - tuple unification with mismatched key sets;
//! - `fold` result types that ignore the type of the initial value.

use vstd::prelude::*;
use vstd::seq_lib::seq_to_set_is_finite;

use crate::audit::{drain, AuditLog, TypeAuditEvent};
use crate::codes::{
    compare_numbers, compare_options, duplicate_option, lemma_option_code_forks, lemma_tagged,
    lemma_text_code_forks, option_code, option_view, same_option, text_code,
};
use crate::format::{field_views, put, Json, JsonV};
use crate::ordered::{
    ascending, lemma_compare_parts, lemma_listed, lemma_push_members, lemma_sorted_distinct,
    lex_less, views, Comparison, Data, Ordered, OrderedSet,
};
use crate::output::{optional_text, optional_text_json};
use crate::text::{decimal, digits};
use crate::types::{ContractIdV, QualifiedContractIdentifier};

verus! {

/// What the audit found in one contract.
#[derive(Debug, Clone, PartialEq, Eq)]
pub enum Finding {
    /// Two tuple types with different key sets were unified.
    TupleKeyMismatch { a: String, b: String, result: String },
    /// The result type of a `fold` does not allow its initial value.
    FoldInitialType {
        initial: String,
        result: String,
        unified: Option<String>,
        line: u32,
        column: u32,
    },
    /// The stored source could not be found at the chain tip.
    MissingSource,
    /// The stored source no longer parses.
    ParseError(String),
    /// The stored source no longer type-checks.
    AnalysisError(String),
}

pub ghost enum FindingV {
    TupleKeyMismatch { a: Seq<char>, b: Seq<char>, result: Seq<char> },
    FoldInitialType {
        initial: Seq<char>,
        result: Seq<char>,
        unified: Option<Seq<char>>,
        line: u32,
        column: u32,
    },
    MissingSource,
    ParseError(Seq<char>),
    AnalysisError(Seq<char>),
}

impl View for Finding {
    type V = FindingV;

    open spec fn view(&self) -> FindingV {
        match self {
            Finding::TupleKeyMismatch { a, b, result } => FindingV::TupleKeyMismatch {
                a: a@,
                b: b@,
                result: result@,
            },
            Finding::FoldInitialType { initial, result, unified, line, column } => {
                FindingV::FoldInitialType {
                    initial: initial@,
                    result: result@,
                    unified: option_view(*unified),
                    line: *line,
                    column: *column,
                }
            },
            Finding::MissingSource => FindingV::MissingSource,
            Finding::ParseError(x) => FindingV::ParseError(x@),
            Finding::AnalysisError(x) => FindingV::AnalysisError(x@),
        }
    }
}

impl FindingV {
    /// The place of the kind among the kinds.
    pub open spec fn rank(self) -> u32 {
        match self {
            FindingV::TupleKeyMismatch { .. } => 0u32,
            FindingV::FoldInitialType { .. } => 1u32,
            FindingV::MissingSource => 2u32,
            FindingV::ParseError(..) => 3u32,
            FindingV::AnalysisError(..) => 4u32,
        }
    }

    /// What orders the values of one kind.
    pub open spec fn body(self) -> Seq<int> {
        match self {
            FindingV::TupleKeyMismatch { a, b, result } => {
                text_code(a) + (text_code(b) + text_code(result))
            },
            FindingV::FoldInitialType { initial, result, unified, line, column } => {
                text_code(initial)
                    + (
                        text_code(result)
                            + (
                                option_code::<String>(unified)
                                    + (seq![line as int] + seq![column as int])
                            )
                    )
            },
            FindingV::ParseError(x) => text_code(x),
            FindingV::AnalysisError(x) => text_code(x),
            _ => Seq::empty(),
        }
    }
}

impl Finding {
    fn rank(&self) -> (n: u32)
        ensures
            n == self@.rank(),
    {
        match self {
            Finding::TupleKeyMismatch { .. } => 0,
            Finding::FoldInitialType { .. } => 1,
            Finding::MissingSource => 2,
            Finding::ParseError(..) => 3,
            Finding::AnalysisError(..) => 4,
        }
    }
}

impl Data for Finding {
    fn duplicate(&self) -> (r: Self) {
        match self {
            Finding::TupleKeyMismatch { a, b, result } => Finding::TupleKeyMismatch {
                a: a.duplicate(),
                b: b.duplicate(),
                result: result.duplicate(),
            },
            Finding::FoldInitialType { initial, result, unified, line, column } => {
                Finding::FoldInitialType {
                    initial: initial.duplicate(),
                    result: result.duplicate(),
                    unified: duplicate_option(unified),
                    line: *line,
                    column: *column,
                }
            },
            Finding::MissingSource => Finding::MissingSource,
            Finding::ParseError(x) => Finding::ParseError(x.duplicate()),
            Finding::AnalysisError(x) => Finding::AnalysisError(x.duplicate()),
        }
    }

    fn same(&self, other: &Self) -> (b: bool) {
        match (self, other) {
            (
                Finding::TupleKeyMismatch { a: a1, b: b1, result: result1 },
                Finding::TupleKeyMismatch { a: a2, b: b2, result: result2 },
            ) => {
                a1.same(a2) && b1.same(b2) && result1.same(result2)
            },
            (
                Finding::FoldInitialType {
                    initial: initial1,
                    result: result1,
                    unified: unified1,
                    line: line1,
                    column: column1,
                },
                Finding::FoldInitialType {
                    initial: initial2,
                    result: result2,
                    unified: unified2,
                    line: line2,
                    column: column2,
                },
            ) => {
                initial1.same(initial2) && result1.same(result2) && same_option(unified1, unified2)
                    && *line1 == *line2 && *column1 == *column2
            },
            (Finding::MissingSource, Finding::MissingSource) => true,
            (Finding::ParseError(x), Finding::ParseError(y)) => x.same(y),
            (Finding::AnalysisError(x), Finding::AnalysisError(y)) => x.same(y),
            _ => false,
        }
    }
}

impl Ordered for Finding {
    open spec fn code(v: FindingV) -> Seq<int> {
        seq![v.rank() as int] + v.body()
    }

    proof fn lemma_code_forks(a: FindingV, b: FindingV) {
        lemma_tagged(a.rank() as int, b.rank() as int, a.body(), b.body());
        match (a, b) {
            (
                FindingV::TupleKeyMismatch { a: a1, b: b1, result: result1 },
                FindingV::TupleKeyMismatch { a: a2, b: b2, result: result2 },
            ) => {
                lemma_text_code_forks(a1, a2);
                lemma_text_code_forks(b1, b2);
                lemma_text_code_forks(result1, result2);
                lemma_compare_parts(
                    text_code(a1),
                    text_code(a2),
                    text_code(b1) + text_code(result1),
                    text_code(b2) + text_code(result2),
                );
                lemma_compare_parts(
                    text_code(b1),
                    text_code(b2),
                    text_code(result1),
                    text_code(result2),
                );
            },
            (
                FindingV::FoldInitialType {
                    initial: initial1,
                    result: result1,
                    unified: unified1,
                    line: line1,
                    column: column1,
                },
                FindingV::FoldInitialType {
                    initial: initial2,
                    result: result2,
                    unified: unified2,
                    line: line2,
                    column: column2,
                },
            ) => {
                lemma_text_code_forks(initial1, initial2);
                lemma_text_code_forks(result1, result2);
                lemma_option_code_forks::<String>(unified1, unified2);
                if line1 != line2 {
                    assert(seq![line1 as int][0] != seq![line2 as int][0]);
                }
                if column1 != column2 {
                    assert(seq![column1 as int][0] != seq![column2 as int][0]);
                }
                lemma_compare_parts(
                    text_code(initial1),
                    text_code(initial2),
                    text_code(result1)
                        + (
                            option_code::<String>(unified1)
                                + (seq![line1 as int] + seq![column1 as int])
                        ),
                    text_code(result2)
                        + (
                            option_code::<String>(unified2)
                                + (seq![line2 as int] + seq![column2 as int])
                        ),
                );
                lemma_compare_parts(
                    text_code(result1),
                    text_code(result2),
                    option_code::<String>(unified1) + (seq![line1 as int] + seq![column1 as int]),
                    option_code::<String>(unified2) + (seq![line2 as int] + seq![column2 as int]),
                );
                lemma_compare_parts(
                    option_code::<String>(unified1),
                    option_code::<String>(unified2),
                    seq![line1 as int] + seq![column1 as int],
                    seq![line2 as int] + seq![column2 as int],
                );
                lemma_compare_parts(
                    seq![line1 as int],
                    seq![line2 as int],
                    seq![column1 as int],
                    seq![column2 as int],
                );
            },
            (FindingV::ParseError(x), FindingV::ParseError(y)) => {
                lemma_text_code_forks(x, y);
            },
            (FindingV::AnalysisError(x), FindingV::AnalysisError(y)) => {
                lemma_text_code_forks(x, y);
            },
            _ => {},
        }
    }

    fn compare(&self, other: &Self) -> (c: Comparison) {
        let t: u32 = self.rank();
        let u: u32 = other.rank();
        proof {
            lemma_tagged(t as int, u as int, self@.body(), other@.body());
        }
        if t < u {
            Comparison::Less
        } else if u < t {
            Comparison::Greater
        } else {
            match (self, other) {
                (
                    Finding::TupleKeyMismatch { a: a1, b: b1, result: result1 },
                    Finding::TupleKeyMismatch { a: a2, b: b2, result: result2 },
                ) => {
                    proof {
                        lemma_text_code_forks(a1@, a2@);
                        lemma_text_code_forks(b1@, b2@);
                        lemma_text_code_forks(result1@, result2@);
                        lemma_compare_parts(
                            text_code(a1@),
                            text_code(a2@),
                            text_code(b1@) + text_code(result1@),
                            text_code(b2@) + text_code(result2@),
                        );
                        lemma_compare_parts(
                            text_code(b1@),
                            text_code(b2@),
                            text_code(result1@),
                            text_code(result2@),
                        );
                    }
                    match a1.compare(a2) {
                        Comparison::Equal => {},
                        c => {
                            return c;
                        },
                    }
                    match b1.compare(b2) {
                        Comparison::Equal => {},
                        c => {
                            return c;
                        },
                    }
                    result1.compare(result2)
                },
                (
                    Finding::FoldInitialType {
                        initial: initial1,
                        result: result1,
                        unified: unified1,
                        line: line1,
                        column: column1,
                    },
                    Finding::FoldInitialType {
                        initial: initial2,
                        result: result2,
                        unified: unified2,
                        line: line2,
                        column: column2,
                    },
                ) => {
                    proof {
                        lemma_text_code_forks(initial1@, initial2@);
                        lemma_text_code_forks(result1@, result2@);
                        lemma_option_code_forks::<String>(
                            option_view(*unified1),
                            option_view(*unified2),
                        );
                        if *line1 != *line2 {
                            assert(seq![*line1 as int][0] != seq![*line2 as int][0]);
                        }
                        if *column1 != *column2 {
                            assert(seq![*column1 as int][0] != seq![*column2 as int][0]);
                        }
                        lemma_compare_parts(
                            text_code(initial1@),
                            text_code(initial2@),
                            text_code(result1@)
                                + (
                                    option_code::<String>(option_view(*unified1))
                                        + (seq![*line1 as int] + seq![*column1 as int])
                                ),
                            text_code(result2@)
                                + (
                                    option_code::<String>(option_view(*unified2))
                                        + (seq![*line2 as int] + seq![*column2 as int])
                                ),
                        );
                        lemma_compare_parts(
                            text_code(result1@),
                            text_code(result2@),
                            option_code::<String>(option_view(*unified1))
                                + (seq![*line1 as int] + seq![*column1 as int]),
                            option_code::<String>(option_view(*unified2))
                                + (seq![*line2 as int] + seq![*column2 as int]),
                        );
                        lemma_compare_parts(
                            option_code::<String>(option_view(*unified1)),
                            option_code::<String>(option_view(*unified2)),
                            seq![*line1 as int] + seq![*column1 as int],
                            seq![*line2 as int] + seq![*column2 as int],
                        );
                        lemma_compare_parts(
                            seq![*line1 as int],
                            seq![*line2 as int],
                            seq![*column1 as int],
                            seq![*column2 as int],
                        );
                    }
                    match initial1.compare(initial2) {
                        Comparison::Equal => {},
                        c => {
                            return c;
                        },
                    }
                    match result1.compare(result2) {
                        Comparison::Equal => {},
                        c => {
                            return c;
                        },
                    }
                    match compare_options(unified1, unified2) {
                        Comparison::Equal => {},
                        c => {
                            return c;
                        },
                    }
                    match compare_numbers(*line1, *line2) {
                        Comparison::Equal => {},
                        c => {
                            return c;
                        },
                    }
                    compare_numbers(*column1, *column2)
                },
                (Finding::ParseError(x), Finding::ParseError(y)) => x.compare(y),
                (Finding::AnalysisError(x), Finding::AnalysisError(y)) => x.compare(y),
                _ => Comparison::Equal,
            }
        }
    }
}

/// What kind of finding it is, in a word.
pub open spec fn kind_text(f: FindingV) -> Seq<char> {
    match f {
        FindingV::TupleKeyMismatch { .. } => "tuple-key-mismatch"@,
        FindingV::FoldInitialType { .. } => "fold-initial-type"@,
        FindingV::MissingSource => "missing-source"@,
        FindingV::ParseError(_) => "parse-error"@,
        FindingV::AnalysisError(_) => "analysis-error"@,
    }
}

/// What a recorded event amounts to.
pub open spec fn finding_of(event: TypeAuditEvent) -> FindingV {
    match event {
        TypeAuditEvent::TupleSupertypeKeyMismatch { a, b, result } => FindingV::TupleKeyMismatch {
            a: a.text@,
            b: b.text@,
            result: result.text@,
        },
        TypeAuditEvent::FoldInitialTypeMismatch { initial, result, unified, span } => {
            FindingV::FoldInitialType {
                initial: initial.text@,
                result: result.text@,
                unified: match unified {
                    Some(t) => Some(t.text@),
                    None => None,
                },
                line: span.start_line,
                column: span.start_column,
            }
        },
    }
}

/// A finding as it is printed.
pub open spec fn finding_text(f: FindingV) -> Seq<char> {
    match f {
        FindingV::TupleKeyMismatch { a, b, result } => "tuple-key-mismatch: "@ + a + " vs "@ + b
            + " -> "@ + result,
        FindingV::FoldInitialType { initial, result, unified, line, column } => {
            "fold-initial-type at "@ + digits(line as nat) + ":"@ + digits(column as nat)
                + ": initial "@ + initial + ", result "@ + result + ", "@ + (match unified {
                Some(t) => "should be "@ + t,
                None => "cannot be unified"@,
            })
        },
        FindingV::MissingSource => "missing-source"@,
        FindingV::ParseError(e) => "parse-error: "@ + e,
        FindingV::AnalysisError(e) => "analysis-error: "@ + e,
    }
}

/// A finding as JSON.
pub open spec fn finding_json(f: FindingV) -> JsonV {
    let kind = ("kind"@, JsonV::Text(kind_text(f)));
    JsonV::Object(
        match f {
            FindingV::TupleKeyMismatch { a, b, result } => seq![
                kind,
                ("a"@, JsonV::Text(a)),
                ("b"@, JsonV::Text(b)),
                ("result"@, JsonV::Text(result)),
            ],
            FindingV::FoldInitialType { initial, result, unified, line, column } => seq![
                kind,
                ("initial"@, JsonV::Text(initial)),
                ("result"@, JsonV::Text(result)),
                ("unified"@, optional_text_json(unified)),
                ("line"@, JsonV::Number(line as nat)),
                ("column"@, JsonV::Number(column as nat)),
            ],
            FindingV::MissingSource => seq![kind],
            FindingV::ParseError(e) => seq![kind, ("error"@, JsonV::Text(e))],
            FindingV::AnalysisError(e) => seq![kind, ("error"@, JsonV::Text(e))],
        },
    )
}

impl Finding {
    /// What kind of finding it is, in a word.
    pub fn kind(&self) -> (s: &'static str)
        ensures
            s@ == kind_text(self@),
    {
        match self {
            Finding::TupleKeyMismatch { .. } => "tuple-key-mismatch",
            Finding::FoldInitialType { .. } => "fold-initial-type",
            Finding::MissingSource => "missing-source",
            Finding::ParseError(_) => "parse-error",
            Finding::AnalysisError(_) => "analysis-error",
        }
    }

    /// What a recorded event amounts to.
    pub fn from_event(event: &TypeAuditEvent) -> (f: Self)
        ensures
            f@ == finding_of(*event),
    {
        match event {
            TypeAuditEvent::TupleSupertypeKeyMismatch { a, b, result } => {
                Finding::TupleKeyMismatch {
                    a: a.text.duplicate(),
                    b: b.text.duplicate(),
                    result: result.text.duplicate(),
                }
            },
            TypeAuditEvent::FoldInitialTypeMismatch { initial, result, unified, span } => {
                Finding::FoldInitialType {
                    initial: initial.text.duplicate(),
                    result: result.text.duplicate(),
                    unified: match unified {
                        Some(t) => Some(t.text.duplicate()),
                        None => None,
                    },
                    line: span.start_line,
                    column: span.start_column,
                }
            },
        }
    }

    /// The finding as it is printed.
    pub fn format(&self) -> (s: String)
        ensures
            s@ == finding_text(self@),
    {
        match self {
            Finding::TupleKeyMismatch { a, b, result } => {
                let mut s = "tuple-key-mismatch: ".to_string();
                s.append(a.as_str());
                s.append(" vs ");
                s.append(b.as_str());
                s.append(" -> ");
                s.append(result.as_str());
                s
            },
            Finding::FoldInitialType { initial, result, unified, line, column } => {
                let mut s = "fold-initial-type at ".to_string();
                s.append(decimal(*line as u128).as_str());
                s.append(":");
                s.append(decimal(*column as u128).as_str());
                s.append(": initial ");
                s.append(initial.as_str());
                s.append(", result ");
                s.append(result.as_str());
                s.append(", ");
                let advice = match unified {
                    Some(t) => {
                        let mut advice = "should be ".to_string();
                        advice.append(t.as_str());
                        advice
                    },
                    None => "cannot be unified".to_string(),
                };
                s.append(advice.as_str());
                s
            },
            Finding::MissingSource => "missing-source".to_string(),
            Finding::ParseError(e) => {
                let mut s = "parse-error: ".to_string();
                s.append(e.as_str());
                s
            },
            Finding::AnalysisError(e) => {
                let mut s = "analysis-error: ".to_string();
                s.append(e.as_str());
                s
            },
        }
    }

    /// The finding as JSON.
    pub fn to_json(&self) -> (j: Json)
        ensures
            j@ == finding_json(self@),
    {
        let mut fields: Vec<(String, Json)> = Vec::new();
        put(&mut fields, "kind", Json::Text(self.kind().to_string()));
        match self {
            Finding::TupleKeyMismatch { a, b, result } => {
                put(&mut fields, "a", Json::Text(a.duplicate()));
                put(&mut fields, "b", Json::Text(b.duplicate()));
                put(&mut fields, "result", Json::Text(result.duplicate()));
            },
            Finding::FoldInitialType { initial, result, unified, line, column } => {
                put(&mut fields, "initial", Json::Text(initial.duplicate()));
                put(&mut fields, "result", Json::Text(result.duplicate()));
                put(&mut fields, "unified", optional_text(unified));
                put(&mut fields, "line", Json::Number(*line as u64));
                put(&mut fields, "column", Json::Number(*column as u64));
            },
            Finding::MissingSource => {},
            Finding::ParseError(e) => {
                put(&mut fields, "error", Json::Text(e.duplicate()));
            },
            Finding::AnalysisError(e) => {
                put(&mut fields, "error", Json::Text(e.duplicate()));
            },
        }
        assert(field_views(fields@) =~= finding_json(self@)->Object_0);
        Json::Object(fields)
    }
}

/// What the audit found in one contract.
#[derive(Debug)]
pub struct ContractReport {
    pub contract: QualifiedContractIdentifier,
    pub clarity_version: String,
    pub epoch: String,
    pub findings: OrderedSet<Finding>,
}

pub ghost struct AuditReportV {
    pub contract: ContractIdV,
    pub clarity_version: Seq<char>,
    pub epoch: Seq<char>,
    pub findings: Set<FindingV>,
}

impl View for ContractReport {
    type V = AuditReportV;

    open spec fn view(&self) -> AuditReportV {
        AuditReportV {
            contract: self.contract@,
            clarity_version: self.clarity_version@,
            epoch: self.epoch@,
            findings: self.findings@,
        }
    }
}

/// How far analyzing a contract anew came.
#[derive(Debug, PartialEq, Eq)]
pub enum Attempt {
    /// No analysis of it is stored that can be seen, or it could not be loaded.
    NotVisible,
    /// Its source is missing.
    NoSource,
    /// Its source was refused by the parser.
    ParseFailed(String),
    /// It was analyzed, and the log holds what was recorded meanwhile.
    Analyzed(Result<(), String>),
}

/// The findings that events amount to.
pub open spec fn findings_of(events: Seq<TypeAuditEvent>) -> Set<FindingV> {
    events.map_values(|e: TypeAuditEvent| finding_of(e)).to_set()
}

/// What an attempt finds; nothing where the contract is not visible.
pub open spec fn attempt_findings(attempt: Attempt, events: Seq<TypeAuditEvent>) -> Option<
    Set<FindingV>,
> {
    match attempt {
        Attempt::NotVisible => None,
        Attempt::NoSource => Some(Set::empty().insert(FindingV::MissingSource)),
        Attempt::ParseFailed(e) => Some(Set::empty().insert(FindingV::ParseError(e@))),
        Attempt::Analyzed(Ok(_)) => Some(findings_of(events)),
        Attempt::Analyzed(Err(e)) => Some(
            findings_of(events).insert(FindingV::AnalysisError(e@)),
        ),
    }
}

/// Adds the findings that events amount to.
fn add_events(findings: &mut OrderedSet<Finding>, events: &Vec<TypeAuditEvent>)
    ensures
        final(findings)@ == old(findings)@.union(findings_of(events@)),
{
    let ghost before = findings@;
    let ghost all = events@;
    let ghost f = |e: TypeAuditEvent| finding_of(e);
    let mut i: usize = 0;
    assert(findings@ =~= before.union(findings_of(all.take(0))));
    while i < events.len()
        invariant
            i <= events.len(),
            all == events@,
            f == (|e: TypeAuditEvent| finding_of(e)),
            findings@ == before.union(findings_of(all.take(i as int))),
        decreases events.len() - i,
    {
        let finding = Finding::from_event(&events[i]);
        proof {
            let done = all.take(i as int).map_values(f);
            assert(all.take(i + 1).map_values(f) =~= done.push(finding@));
            assert forall|x: FindingV| #[trigger]
                findings_of(all.take(i + 1)).contains(x) == (findings_of(
                    all.take(i as int),
                ).contains(x) || x == finding@) by {
                lemma_push_members(done, finding@, x);
            }
            assert(before.union(findings_of(all.take(i + 1))) =~= before.union(
                findings_of(all.take(i as int)),
            ).insert(finding@));
        }
        findings.insert(finding);
        i = i + 1;
    }
    assert(all.take(all.len() as int) =~= all);
}

/// Starts an attempt: what was recorded before, as while loading what the contract
/// depends on, is discarded.
pub fn start_attempt(log: &mut AuditLog)
    ensures
        final(log).events@ == Seq::<TypeAuditEvent>::empty(),
        final(log).enabled == old(log).enabled,
{
    drain(log);
}

/// A list of events holds one that amounts to a finding.
pub open spec fn holds_finding(events: Seq<TypeAuditEvent>, x: FindingV) -> bool {
    exists|i: int| 0 <= i < events.len() && finding_of(#[trigger] events[i]) == x
}

/// What an analysis finds is what was recorded since the attempt was started, and
/// the error of the analysis: where the log was empty at the start, every finding
/// comes from one of the events that were recorded after it, or is that error, and
/// each of these is found.
pub proof fn law_only_attempts_are_reported(
    started: Seq<TypeAuditEvent>,
    recorded: Seq<TypeAuditEvent>,
    result: Result<(), String>,
    x: FindingV,
)
    requires
        started == Seq::<TypeAuditEvent>::empty(),
    ensures
        attempt_findings(
            Attempt::Analyzed(result),
            started + recorded,
        ) matches Some(findings) && (findings.contains(x) <==> holds_finding(recorded, x) || (
        result matches Err(e) && x == FindingV::AnalysisError(e@))),
{
    let all = started + recorded;
    assert(all =~= recorded);
    let found = recorded.map_values(|e: TypeAuditEvent| finding_of(e));
    if found.contains(x) {
        let i = choose|i: int| 0 <= i < found.len() && found[i] == x;
        assert(finding_of(recorded[i]) == x);
    }
    if holds_finding(recorded, x) {
        let i = choose|i: int|
            0 <= i < recorded.len() && finding_of(#[trigger] recorded[i]) == x;
        assert(found[i] == x);
    }
}

/// Reports on one contract. Where the contract was analyzed, what was recorded
/// meanwhile is taken out of the log. `None` means that the contract is not
/// visible.
pub fn audit_contract(
    contract: &QualifiedContractIdentifier,
    clarity_version: &String,
    epoch: &String,
    attempt: &Attempt,
    log: &mut AuditLog,
) -> (r: Option<ContractReport>)
    ensures
        match attempt_findings(*attempt, old(log).events@) {
            None => r is None,
            Some(findings) => option_view(r) == Some(
                AuditReportV {
                    contract: contract@,
                    clarity_version: clarity_version@,
                    epoch: epoch@,
                    findings,
                },
            ),
        },
        final(log).enabled == old(log).enabled,
        final(log).events@ == (if attempt is Analyzed {
            Seq::<TypeAuditEvent>::empty()
        } else {
            old(log).events@
        }),
{
    let mut findings: OrderedSet<Finding> = OrderedSet::new();
    match attempt {
        Attempt::NotVisible => {
            return None;
        },
        Attempt::NoSource => {
            findings.insert(Finding::MissingSource);
        },
        Attempt::ParseFailed(e) => {
            findings.insert(Finding::ParseError(e.duplicate()));
        },
        Attempt::Analyzed(result) => {
            let events = drain(log);
            add_events(&mut findings, &events);
            assert(findings@ =~= findings_of(events@));
            if let Err(e) = result {
                findings.insert(Finding::AnalysisError(e.duplicate()));
            }
        },
    }
    Some(
        ContractReport {
            contract: contract.duplicate(),
            clarity_version: clarity_version.duplicate(),
            epoch: epoch.duplicate(),
            findings,
        },
    )
}

/// Files the outcome for one contract: a report with findings, or a contract that
/// is not visible. A report without findings is dropped.
pub fn file_report(
    contract: &QualifiedContractIdentifier,
    report: Option<ContractReport>,
    reports: &mut Vec<ContractReport>,
    not_at_tip: &mut Vec<QualifiedContractIdentifier>,
)
    ensures
        views(final(reports)@) == (match option_view(report) {
            Some(r) => if r.findings == Set::<FindingV>::empty() {
                views(old(reports)@)
            } else {
                views(old(reports)@).push(r)
            },
            None => views(old(reports)@),
        }),
        views(final(not_at_tip)@) == (if report is None {
            views(old(not_at_tip)@).push(contract@)
        } else {
            views(old(not_at_tip)@)
        }),
{
    match report {
        Some(report) => {
            if !report.findings.is_empty() {
                let ghost before = reports@;
                let ghost r = report@;
                reports.push(report);
                assert(views(reports@) =~= views(before).push(r));
            }
        },
        None => {
            let ghost before = not_at_tip@;
            not_at_tip.push(contract.duplicate());
            assert(views(not_at_tip@) =~= views(before).push(contract@));
        },
    }
}

/// The contracts of a list, each once, in order.
pub fn distinct_contracts(ids: &Vec<QualifiedContractIdentifier>) -> (r: Vec<
    QualifiedContractIdentifier,
>)
    ensures
        views(r@) == ascending::<QualifiedContractIdentifier>(views(ids@).to_set()),
{
    let ghost all = views(ids@);
    let mut set: OrderedSet<QualifiedContractIdentifier> = OrderedSet::new();
    let mut i: usize = 0;
    assert(set@ =~= all.take(0).to_set());
    while i < ids.len()
        invariant
            i <= ids.len(),
            all == views(ids@),
            set@ == all.take(i as int).to_set(),
        decreases ids.len() - i,
    {
        set.insert(ids[i].duplicate());
        proof {
            let id = all[i as int];
            assert(all.take(i + 1) =~= all.take(i as int).push(id));
            assert forall|x: ContractIdV| #[trigger]
                all.take(i + 1).to_set().contains(x) == all.take(i as int).to_set().insert(
                    id,
                ).contains(x) by {
                lemma_push_members(all.take(i as int), id, x);
            }
            assert(set@ =~= all.take(i + 1).to_set());
        }
        i = i + 1;
    }
    assert(all.take(all.len() as int) =~= all);
    let n = set.len();
    let ghost listed = set.in_order();
    let mut r: Vec<QualifiedContractIdentifier> = Vec::new();
    let mut k: usize = 0;
    while k < n
        invariant
            k <= n,
            n == listed.len(),
            listed == set.in_order(),
            r.len() == k,
            forall|j: int| 0 <= j < k ==> (#[trigger] r[j])@ == listed[j],
        decreases n - k,
    {
        r.push(set.get(k).duplicate());
        k = k + 1;
    }
    assert(views(r@) =~= listed);
    r
}

/// The contracts that are audited: those that are given, or all that are listed
/// where none is given.
pub fn contracts_to_audit(
    given: Vec<QualifiedContractIdentifier>,
    listed: Vec<QualifiedContractIdentifier>,
) -> (r: Vec<QualifiedContractIdentifier>)
    ensures
        views(r@) == (if given@.len() == 0 {
            views(listed@)
        } else {
            views(given@)
        }),
{
    if given.len() == 0 {
        listed
    } else {
        given
    }
}

/// The arguments of the audit.
#[derive(Debug, PartialEq, Eq)]
pub struct TypeAuditArgs {
    pub chain_tip: Option<String>,
    pub output: Option<String>,
    pub contracts: Vec<QualifiedContractIdentifier>,
}

/// A contract as it was written, and what reading it gave.
#[derive(Debug, PartialEq, Eq)]
pub struct ContractArgument {
    pub text: String,
    pub read: Result<QualifiedContractIdentifier, String>,
}

/// What is wrong with the first contract that could not be read.
pub open spec fn first_bad_contract(contracts: Seq<ContractArgument>) -> Option<Seq<char>>
    decreases contracts.len(),
{
    if contracts.len() == 0 {
        None
    } else {
        match first_bad_contract(contracts.drop_last()) {
            Some(e) => Some(e),
            None => match contracts.last().read {
                Ok(_) => None,
                Err(e) => Some(
                    "Bad contract identifier '"@ + contracts.last().text@ + "': "@ + e@,
                ),
            },
        }
    }
}

proof fn lemma_first_bad_contract(contracts: Seq<ContractArgument>, i: int)
    requires
        0 <= i <= contracts.len(),
        first_bad_contract(contracts.take(i)) is Some,
    ensures
        first_bad_contract(contracts) == first_bad_contract(contracts.take(i)),
    decreases contracts.len() - i,
{
    if i == contracts.len() {
        assert(contracts.take(i) =~= contracts);
    } else {
        assert(contracts.take(i + 1).drop_last() =~= contracts.take(i));
        lemma_first_bad_contract(contracts, i + 1);
    }
}

impl TypeAuditArgs {
    /// Reads the arguments: the chain tip and the contracts as they could be read,
    /// or what is wrong with the first that could not.
    pub fn parse(
        chain_tip: Option<Result<String, String>>,
        output: Option<String>,
        contracts: &Vec<ContractArgument>,
    ) -> (r: Result<Self, String>)
        ensures
            match (chain_tip, first_bad_contract(contracts@)) {
                (Some(Err(e)), _) => r is Err && r->Err_0@ == "Bad chain tip: "@ + e@,
                (_, Some(message)) => r is Err && r->Err_0@ == message,
                (_, None) => {
                    &&& r is Ok
                    &&& option_view(r->Ok_0.chain_tip) == (match chain_tip {
                        Some(Ok(tip)) => Some(tip@),
                        _ => None,
                    })
                    &&& r->Ok_0.output == output
                    &&& r->Ok_0.contracts@.len() == contracts@.len()
                    &&& forall|i: int|
                        0 <= i < contracts@.len() ==> (#[trigger] contracts@[i]).read is Ok
                    &&& forall|i: int|
                        0 <= i < contracts@.len() ==> (#[trigger] r->Ok_0.contracts@[i])@ == (
                        contracts@[i].read->Ok_0)@
                },
            },
    {
        let tip = match chain_tip {
            Some(Ok(tip)) => Some(tip),
            Some(Err(e)) => {
                let mut message = "Bad chain tip: ".to_string();
                message.append(e.as_str());
                return Err(message);
            },
            None => None,
        };
        let ghost all = contracts@;
        let mut ids: Vec<QualifiedContractIdentifier> = Vec::new();
        let mut i: usize = 0;
        while i < contracts.len()
            invariant
                i <= contracts.len(),
                all == contracts@,
                ids.len() == i,
                first_bad_contract(all.take(i as int)) is None,
                forall|j: int| 0 <= j < i ==> (#[trigger] all[j]).read is Ok,
                forall|j: int| 0 <= j < i ==> (#[trigger] ids@[j])@ == (all[j].read->Ok_0)@,
                !(chain_tip matches Some(Err(_))),
                option_view(tip) == (match chain_tip {
                    Some(Ok(tip)) => Some(tip@),
                    _ => None,
                }),
            decreases contracts.len() - i,
        {
            proof {
                assert(all.take(i + 1).drop_last() =~= all.take(i as int));
                assert(all.take(i + 1).last() == all[i as int]);
            }
            match &contracts[i].read {
                Ok(id) => {
                    ids.push(id.duplicate());
                },
                Err(e) => {
                    let mut message = "Bad contract identifier '".to_string();
                    message.append(contracts[i].text.as_str());
                    message.append("': ");
                    message.append(e.as_str());
                    proof {
                        lemma_first_bad_contract(all, i + 1);
                    }
                    return Err(message);
                },
            }
            i = i + 1;
        }
        assert(all.take(all.len() as int) =~= all);
        Ok(TypeAuditArgs { chain_tip: tip, output, contracts: ids })
    }
}

/// A finding tells what was recorded: the types as they are printed, each in its
/// place, and where it was.
pub proof fn law_findings_tell_what_was_recorded(event: TypeAuditEvent)
    ensures
        match (event, finding_of(event)) {
            (
                TypeAuditEvent::TupleSupertypeKeyMismatch { a, b, result },
                FindingV::TupleKeyMismatch { a: x, b: y, result: z },
            ) => x == a.text@ && y == b.text@ && z == result.text@,
            (
                TypeAuditEvent::FoldInitialTypeMismatch { initial, result, unified, span },
                FindingV::FoldInitialType { initial: x, result: y, unified: z, line, column },
            ) => {
                &&& x == initial.text@
                &&& y == result.text@
                &&& unified is None ==> z is None
                &&& unified matches Some(t) ==> z == Some(t.text@)
                &&& line == span.start_line
                &&& column == span.start_column
            },
            _ => false,
        },
{
}

/// A contract that is not visible is not reported on; one without a source, or with
/// one that the parser refuses, has that as its only finding.
pub proof fn law_attempts_that_fail_early(
    attempt: Attempt,
    events: Seq<TypeAuditEvent>,
    x: FindingV,
)
    ensures
        attempt_findings(attempt, events) is None <==> attempt is NotVisible,
        attempt is NoSource ==> (attempt_findings(attempt, events)->0.contains(x) <==> x
            == FindingV::MissingSource),
        attempt matches Attempt::ParseFailed(e) ==> (attempt_findings(attempt, events)->0.contains(
            x,
        ) <==> x == FindingV::ParseError(e@)),
{
}

/// Findings are of the same kind exactly if they are about the same behavior.
pub proof fn law_kinds_tell_findings_apart(f: FindingV, g: FindingV)
    ensures
        kind_text(f) == kind_text(g) <==> {
            ||| f is TupleKeyMismatch && g is TupleKeyMismatch
            ||| f is FoldInitialType && g is FoldInitialType
            ||| f is MissingSource && g is MissingSource
            ||| f is ParseError && g is ParseError
            ||| f is AnalysisError && g is AnalysisError
        },
{
    reveal_strlit("tuple-key-mismatch");
    reveal_strlit("fold-initial-type");
    reveal_strlit("missing-source");
    reveal_strlit("parse-error");
    reveal_strlit("analysis-error");
    assert("tuple-key-mismatch"@.len() == 18);
    assert("fold-initial-type"@.len() == 17);
    assert("missing-source"@.len() == 14);
    assert("parse-error"@.len() == 11);
    assert("analysis-error"@.len() == 14);
    assert("missing-source"@[0] == 'm' && "analysis-error"@[0] == 'a');
}

/// Contracts are refused for the first that could not be read, with its text and what
/// is wrong with it, and for none else.
pub proof fn law_first_bad_contract_counts(contracts: Seq<ContractArgument>, k: int)
    ensures
        first_bad_contract(contracts) is None <==> forall|i: int|
            0 <= i < contracts.len() ==> (#[trigger] contracts[i]).read is Ok,
        0 <= k < contracts.len() && (forall|i: int|
            0 <= i < k ==> (#[trigger] contracts[i]).read is Ok) ==> (
        contracts[k].read matches Err(e) ==> first_bad_contract(contracts) == Some(
            "Bad contract identifier '"@ + contracts[k].text@ + "': "@ + e@,
        )),
    decreases contracts.len(),
{
    if contracts.len() > 0 {
        let before = contracts.drop_last();
        let last = contracts.len() - 1;
        law_first_bad_contract_counts(before, k);
        assert(forall|i: int| 0 <= i < last ==> #[trigger] before[i] == contracts[i]);
        if first_bad_contract(before) is Some {
            let i = choose|i: int| 0 <= i < before.len() && (#[trigger] before[i]).read is Err;
            assert(contracts[i].read is Err);
        }
        if forall|i: int| 0 <= i < contracts.len() ==> (#[trigger] contracts[i]).read is Ok {
            assert(contracts[last].read is Ok);
        }
        if first_bad_contract(contracts) is None {
            assert forall|i: int| 0 <= i < contracts.len() implies (#[trigger] contracts[i]).read
                is Ok by {
                if i < last {
                    assert(before[i].read is Ok);
                }
            }
        }
    }
}

/// The contracts that are listed are those that are given, each once.
pub proof fn law_contracts_are_listed_once(ids: Seq<ContractIdV>, id: ContractIdV)
    ensures
        ({
            let list = ascending::<QualifiedContractIdentifier>(ids.to_set());
            &&& list.contains(id) <==> ids.contains(id)
            &&& list.no_duplicates()
            &&& forall|i: int, j: int|
                0 <= i < j < list.len() ==> lex_less(
                    QualifiedContractIdentifier::code(#[trigger] list[i]),
                    QualifiedContractIdentifier::code(#[trigger] list[j]),
                )
        }),
{
    let list = ascending::<QualifiedContractIdentifier>(ids.to_set());
    seq_to_set_is_finite(ids);
    lemma_listed::<QualifiedContractIdentifier>(ids.to_set());
    lemma_sorted_distinct::<QualifiedContractIdentifier>(list);
    assert(list.to_set().contains(id) == ids.to_set().contains(id));
}

} // verus!
