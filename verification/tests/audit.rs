//! The audit of types: what is recorded, what is found, and how it is reported.

use clarity_effects::audit::{
    check_fold_result, disable, drain, enable, is_enabled, record, AuditLog, Span, TypeAuditEvent,
    TypeSignature,
};
use clarity_effects::audit_report::{audit_to_json, count_kinds, format_audit};
use clarity_effects::format::Json;
use clarity_effects::ordered::OrderedSet;
use clarity_effects::type_audit::{
    audit_contract, contracts_to_audit, distinct_contracts, file_report, start_attempt, Attempt,
    ContractArgument, ContractReport, Finding, TypeAuditArgs,
};
use clarity_effects::types::{QualifiedContractIdentifier, StandardPrincipalData};

const ZERO: Span = Span {
    start_line: 0,
    start_column: 0,
    end_line: 0,
    end_column: 0,
};

fn ty(text: &str) -> TypeSignature {
    TypeSignature {
        text: text.to_string(),
        structure: format!("[{text}]"),
    }
}

fn id(issuer: &str, name: &str) -> QualifiedContractIdentifier {
    QualifiedContractIdentifier {
        issuer: StandardPrincipalData {
            version: 22,
            hash: String::new(),
            address: issuer.to_string(),
        },
        name: name.to_string(),
    }
}

fn tuple(keys: &[&str]) -> TypeSignature {
    let fields: Vec<String> = keys.iter().map(|key| format!("({key} uint)")).collect();
    ty(&format!("(tuple {})", fields.join(" ")))
}

/// Unifies tuples of unsigned integers: every key of the first has to be one of
/// the second, and keys that are missing in the first are recorded.
fn least_supertype(log: &mut AuditLog, a: &[&str], b: &[&str]) -> Result<TypeSignature, ()> {
    if a.iter().any(|key| !b.contains(key)) {
        return Err(());
    }
    if a.len() != b.len() {
        record(log, || TypeAuditEvent::TupleSupertypeKeyMismatch {
            a: tuple(a),
            b: tuple(b),
            result: tuple(a),
        });
    }
    Ok(tuple(a))
}

fn to_value(json: &Json) -> serde_json::Value {
    match json {
        Json::Null => serde_json::Value::Null,
        Json::Text(s) => serde_json::Value::from(s.as_str()),
        Json::Number(n) => serde_json::Value::from(*n),
        Json::List(list) => serde_json::Value::Array(list.iter().map(to_value).collect()),
        Json::Object(fields) => serde_json::Value::Object(
            fields
                .iter()
                .map(|(name, value)| (name.clone(), to_value(value)))
                .collect(),
        ),
    }
}

fn value(text: &str) -> serde_json::Value {
    serde_json::from_str(text).unwrap()
}

#[test]
fn hooks_record_the_two_known_behaviors() {
    let mut log = AuditLog::new();
    let narrow = ["id"];
    let wide = ["id", "extra"];

    // Nothing is recorded while disabled.
    let _ = least_supertype(&mut log, &narrow, &wide);
    assert!(drain(&mut log).is_empty());

    enable(&mut log);
    for epoch in ["Epoch20", "Epoch21"] {
        // Narrow first: accepted, and recorded.
        let result = least_supertype(&mut log, &narrow, &wide).unwrap();
        assert_eq!(result, tuple(&narrow));
        let expected = TypeAuditEvent::TupleSupertypeKeyMismatch {
            a: tuple(&narrow),
            b: tuple(&wide),
            result: tuple(&narrow),
        };
        assert!(drain(&mut log).contains(&expected), "{epoch:?}");

        // Wide first: rejected, so nothing to record.
        assert!(least_supertype(&mut log, &wide, &narrow).is_err());
        assert!(
            !drain(&mut log)
                .iter()
                .any(|e| matches!(e, TypeAuditEvent::TupleSupertypeKeyMismatch { .. })),
            "{epoch:?}"
        );

        // Same keys: nothing to record.
        least_supertype(&mut log, &wide, &wide).unwrap();
        assert!(
            !drain(&mut log)
                .iter()
                .any(|e| matches!(e, TypeAuditEvent::TupleSupertypeKeyMismatch { .. })),
            "{epoch:?}"
        );
    }

    // `(fold f l (err u2))` where `f` returns `(ok uint)`.
    let initial = ty("(response UnknownType uint)");
    let result = ty("(response uint UnknownType)");
    let unified = ty("(response uint uint)");
    check_fold_result(&mut log, &initial, &result, Some(unified.clone()), &ZERO);
    let expected = TypeAuditEvent::FoldInitialTypeMismatch {
        initial: initial.clone(),
        result: result.clone(),
        unified: Some(unified),
        span: ZERO,
    };
    assert!(drain(&mut log).contains(&expected));

    // Initial `none` folded into `(optional uint)`: already coherent.
    let initial = ty("(optional UnknownType)");
    let result = ty("(optional uint)");
    check_fold_result(&mut log, &initial, &result, Some(result.clone()), &ZERO);
    assert!(!drain(&mut log)
        .iter()
        .any(|e| matches!(e, TypeAuditEvent::FoldInitialTypeMismatch { .. })));

    // Incompatible initial value: recorded without a unified type.
    let result = ty("(list 5 uint)");
    check_fold_result(&mut log, &ty("bool"), &result, None, &ZERO);
    let expected = TypeAuditEvent::FoldInitialTypeMismatch {
        initial: ty("bool"),
        result,
        unified: None,
        span: ZERO,
    };
    assert!(drain(&mut log).contains(&expected));

    disable(&mut log);
}

#[test]
fn a_new_log_is_off_and_empty() {
    let mut log = AuditLog::new();
    assert!(!is_enabled(&log));
    assert!(drain(&mut log).is_empty());
}

#[test]
fn types_that_print_alike_are_told_apart() {
    let mut log = AuditLog::new();
    enable(&mut log);
    let result = ty("principal");
    let unified = TypeSignature {
        structure: "callable".to_string(),
        ..ty("principal")
    };
    check_fold_result(&mut log, &ty("principal"), &result, Some(unified.clone()), &ZERO);
    assert_eq!(
        drain(&mut log),
        [TypeAuditEvent::FoldInitialTypeMismatch {
            initial: ty("principal"),
            result: result.clone(),
            unified: Some(unified),
            span: ZERO,
        }]
    );
    check_fold_result(&mut log, &ty("principal"), &result, Some(result.clone()), &ZERO);
    assert!(drain(&mut log).is_empty());
}

#[test]
fn what_was_recorded_before_an_attempt_is_not_found() {
    let mut log = AuditLog::new();
    enable(&mut log);
    check_fold_result(&mut log, &ty("bool"), &ty("uint"), None, &ZERO);
    start_attempt(&mut log);
    assert!(is_enabled(&log));
    check_fold_result(&mut log, &ty("bool"), &ty("int"), None, &ZERO);
    let report = attempt(Attempt::Analyzed(Ok(())), &mut log).unwrap();
    assert_eq!(report.findings.len(), 1);
    assert_eq!(
        report.findings.get(0).format(),
        "fold-initial-type at 0:0: initial bool, result int, cannot be unified"
    );
}

#[test]
fn given_contracts_are_audited_before_listed_ones() {
    let given = vec![id("SP2", "b")];
    let listed = vec![id("SP1", "a"), id("SP2", "b")];
    assert_eq!(contracts_to_audit(given.clone(), listed.clone()), given);
    assert_eq!(contracts_to_audit(Vec::new(), listed.clone()), listed);
}

#[test]
fn disabling_discards_what_was_recorded() {
    let mut log = AuditLog::new();
    enable(&mut log);
    assert!(is_enabled(&log));
    check_fold_result(&mut log, &ty("bool"), &ty("uint"), None, &ZERO);
    assert_eq!(log.events.len(), 1);
    disable(&mut log);
    assert!(!is_enabled(&log));
    assert!(drain(&mut log).is_empty());
}

#[test]
fn nothing_is_evaluated_while_recording_is_off() {
    let mut log = AuditLog::new();
    record(&mut log, || panic!("evaluated"));
    check_fold_result(&mut log, &ty("bool"), &ty("uint"), None, &ZERO);
    assert!(log.events.is_empty());
}

fn sample_findings() -> Vec<(Finding, &'static str, &'static str, &'static str)> {
    vec![
        (
            Finding::TupleKeyMismatch {
                a: "A".to_string(),
                b: "B".to_string(),
                result: "R".to_string(),
            },
            "tuple-key-mismatch",
            "tuple-key-mismatch: A vs B -> R",
            r#"{"kind":"tuple-key-mismatch","a":"A","b":"B","result":"R"}"#,
        ),
        (
            Finding::FoldInitialType {
                initial: "I".to_string(),
                result: "R".to_string(),
                unified: Some("U".to_string()),
                line: 3,
                column: 14,
            },
            "fold-initial-type",
            "fold-initial-type at 3:14: initial I, result R, should be U",
            r#"{"kind":"fold-initial-type","initial":"I","result":"R","unified":"U",
                "line":3,"column":14}"#,
        ),
        (
            Finding::FoldInitialType {
                initial: "I".to_string(),
                result: "R".to_string(),
                unified: None,
                line: 0,
                column: 4294967295,
            },
            "fold-initial-type",
            "fold-initial-type at 0:4294967295: initial I, result R, cannot be unified",
            r#"{"kind":"fold-initial-type","initial":"I","result":"R","unified":null,
                "line":0,"column":4294967295}"#,
        ),
        (
            Finding::MissingSource,
            "missing-source",
            "missing-source",
            r#"{"kind":"missing-source"}"#,
        ),
        (
            Finding::ParseError("oops".to_string()),
            "parse-error",
            "parse-error: oops",
            r#"{"kind":"parse-error","error":"oops"}"#,
        ),
        (
            Finding::AnalysisError("bad".to_string()),
            "analysis-error",
            "analysis-error: bad",
            r#"{"kind":"analysis-error","error":"bad"}"#,
        ),
    ]
}

#[test]
fn findings_are_named_and_written() {
    for (finding, kind, text, json) in sample_findings() {
        assert_eq!(finding.kind(), kind);
        assert_eq!(finding.format(), text);
        assert_eq!(to_value(&finding.to_json()), value(json));
    }
}

#[test]
fn findings_are_ordered_by_kind_and_content() {
    let mut set = OrderedSet::new();
    for (finding, _, _, _) in sample_findings().into_iter().rev() {
        set.insert(finding);
    }
    let kinds: Vec<&str> = (0..set.len()).map(|i| set.get(i).kind()).collect();
    assert_eq!(
        kinds,
        [
            "tuple-key-mismatch",
            "fold-initial-type",
            "fold-initial-type",
            "missing-source",
            "parse-error",
            "analysis-error"
        ]
    );
    assert!(matches!(
        set.get(1),
        Finding::FoldInitialType { unified: None, .. }
    ));
}

#[test]
fn events_become_findings() {
    let span = Span {
        start_line: 7,
        start_column: 9,
        end_line: 8,
        end_column: 1,
    };
    let event = TypeAuditEvent::FoldInitialTypeMismatch {
        initial: ty("I"),
        result: ty("R"),
        unified: Some(ty("U")),
        span,
    };
    assert_eq!(
        Finding::from_event(&event),
        Finding::FoldInitialType {
            initial: "I".to_string(),
            result: "R".to_string(),
            unified: Some("U".to_string()),
            line: 7,
            column: 9,
        }
    );
    let event = TypeAuditEvent::TupleSupertypeKeyMismatch {
        a: ty("A"),
        b: ty("B"),
        result: ty("R"),
    };
    assert_eq!(
        Finding::from_event(&event),
        Finding::TupleKeyMismatch {
            a: "A".to_string(),
            b: "B".to_string(),
            result: "R".to_string(),
        }
    );
}

fn attempt(attempt: Attempt, log: &mut AuditLog) -> Option<ContractReport> {
    audit_contract(
        &id("SP1", "c"),
        &"Clarity 2".to_string(),
        &"Epoch21".to_string(),
        &attempt,
        log,
    )
}

#[test]
fn each_attempt_is_reported() {
    let mut log = AuditLog::new();
    enable(&mut log);
    assert!(attempt(Attempt::NotVisible, &mut log).is_none());

    let report = attempt(Attempt::NoSource, &mut log).unwrap();
    assert_eq!(report.findings.len(), 1);
    assert!(report.findings.contains(&Finding::MissingSource));

    let report = attempt(Attempt::ParseFailed("p".to_string()), &mut log).unwrap();
    assert_eq!(report.findings.len(), 1);
    assert!(report.findings.contains(&Finding::ParseError("p".to_string())));

    let report = attempt(Attempt::Analyzed(Ok(())), &mut log).unwrap();
    assert!(report.findings.is_empty());

    // The same event twice is one finding; the failure is another.
    for _ in 0..2 {
        check_fold_result(&mut log, &ty("bool"), &ty("uint"), None, &ZERO);
    }
    let report = attempt(Attempt::Analyzed(Err("a".to_string())), &mut log).unwrap();
    assert_eq!(report.findings.len(), 2);
    assert!(report
        .findings
        .contains(&Finding::AnalysisError("a".to_string())));
    assert_eq!(report.clarity_version, "Clarity 2");
    assert_eq!(report.epoch, "Epoch21");
    assert!(log.events.is_empty());
    assert!(log.enabled);
}

#[test]
fn reports_without_findings_are_dropped() {
    let mut log = AuditLog::new();
    let mut reports = Vec::new();
    let mut not_at_tip = Vec::new();
    let contract = id("SP1", "c");
    for outcome in [Attempt::Analyzed(Ok(())), Attempt::NotVisible, Attempt::NoSource] {
        let report = attempt(outcome, &mut log);
        file_report(&contract, report, &mut reports, &mut not_at_tip);
    }
    assert_eq!(reports.len(), 1);
    assert_eq!(not_at_tip, [contract]);
}

#[test]
fn contracts_are_listed_once_and_in_order() {
    let ids = vec![id("SP2", "a"), id("SP1", "z"), id("SP2", "a"), id("SP1", "b")];
    assert_eq!(
        distinct_contracts(&ids),
        [id("SP1", "b"), id("SP1", "z"), id("SP2", "a")]
    );
}

#[test]
fn audit_arguments_are_checked_in_turn() {
    let good = |name: &str| ContractArgument {
        text: format!("SP1.{name}"),
        read: Ok(id("SP1", name)),
    };
    let bad = |text: &str| ContractArgument {
        text: text.to_string(),
        read: Err("no dot".to_string()),
    };
    let args = TypeAuditArgs::parse(
        Some(Ok("00ff".to_string())),
        Some("out.json".to_string()),
        &vec![good("b"), good("a"), good("b")],
    )
    .unwrap();
    assert_eq!(args.chain_tip, Some("00ff".to_string()));
    assert_eq!(args.output, Some("out.json".to_string()));
    assert_eq!(args.contracts, [id("SP1", "b"), id("SP1", "a"), id("SP1", "b")]);

    let refused = TypeAuditArgs::parse(Some(Err("odd".to_string())), None, &vec![bad("x")]);
    assert_eq!(refused, Err("Bad chain tip: odd".to_string()));
    let refused = TypeAuditArgs::parse(None, None, &vec![good("a"), bad("x"), bad("y")]);
    assert_eq!(
        refused,
        Err("Bad contract identifier 'x': no dot".to_string())
    );
    let empty = TypeAuditArgs::parse(None, None, &Vec::new()).unwrap();
    assert_eq!(empty.chain_tip, None);
    assert!(empty.contracts.is_empty());
}

fn report(name: &str, findings: Vec<Finding>) -> ContractReport {
    let mut set = OrderedSet::new();
    for finding in findings {
        set.insert(finding);
    }
    ContractReport {
        contract: id("SP1", name),
        clarity_version: "Clarity 1".to_string(),
        epoch: "Epoch20".to_string(),
        findings: set,
    }
}

fn sample_reports() -> Vec<ContractReport> {
    vec![
        report(
            "one",
            vec![
                Finding::ParseError("x".to_string()),
                Finding::ParseError("y".to_string()),
            ],
        ),
        report(
            "two",
            vec![Finding::MissingSource, Finding::ParseError("x".to_string())],
        ),
    ]
}

#[test]
fn kinds_are_counted_by_contract() {
    let counts = count_kinds(&sample_reports());
    assert_eq!(counts.len(), 2);
    let parse = counts.get(&"parse-error".to_string()).unwrap();
    assert_eq!(parse.len(), 2);
    let missing = counts.get(&"missing-source".to_string()).unwrap();
    assert_eq!(missing.len(), 1);
    assert!(missing.contains(&id("SP1", "two")));
    assert!(counts.get(&"analysis-error".to_string()).is_none());
}

#[test]
fn an_audit_is_written_for_people() {
    let text = format_audit("ab12", 5, &vec![id("SP9", "gone")], &sample_reports());
    assert_eq!(
        text,
        "Chain tip: ab12\n\
         Contracts found in the side store: 5\n\
         Contracts not visible from the chain tip: 1\n\
         Contracts audited: 4\n\
         Contracts with findings: 2\n\
         \x20 missing-source: 1 contract(s)\n\
         \x20 parse-error: 2 contract(s)\n\
         \n\
         SP1.one (Clarity 1, Epoch20):\n\
         \x20 parse-error: x\n\
         \x20 parse-error: y\n\
         \n\
         SP1.two (Clarity 1, Epoch20):\n\
         \x20 missing-source\n\
         \x20 parse-error: x\n"
    );
    // More contracts may be out of sight than were found.
    let text = format_audit("t", 0, &vec![id("SP9", "gone")], &Vec::new());
    assert!(text.contains("\nContracts audited: 0\n"));
}

#[test]
fn an_audit_is_written_as_json() {
    let json = audit_to_json("ab12", 5, &vec![id("SP9", "gone")], &sample_reports());
    assert_eq!(
        to_value(&json),
        value(
            r#"{
              "chain_tip": "ab12",
              "contracts_found": 5,
              "contracts_not_at_tip": ["SP9.gone"],
              "summary": {
                "missing-source": ["SP1.two"],
                "parse-error": ["SP1.one", "SP1.two"]
              },
              "contracts": [
                {"contract": "SP1.one", "clarity_version": "Clarity 1", "epoch": "Epoch20",
                 "findings": [{"kind": "parse-error", "error": "x"},
                              {"kind": "parse-error", "error": "y"}]},
                {"contract": "SP1.two", "clarity_version": "Clarity 1", "epoch": "Epoch20",
                 "findings": [{"kind": "missing-source"},
                              {"kind": "parse-error", "error": "x"}]}
              ]
            }"#
        )
    );
}
