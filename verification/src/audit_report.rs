//! The report on an audit of many contracts.

use vstd::prelude::*;

use crate::format::{
    contract_text, field_views, format_contract, json_views, lemma_json_push, put, Json, JsonV,
};
use crate::ordered::{ascending, views, Data, OrderedMap, OrderedSet};
use crate::text::{decimal, digits};
use crate::type_audit::{
    finding_json, finding_text, kind_text, AuditReportV, ContractReport, Finding, FindingV,
};
use crate::types::{ContractIdV, QualifiedContractIdentifier};

verus! {

/// Which contracts have findings of a kind, by kind.
pub type KindCounts = OrderedMap<String, OrderedSet<QualifiedContractIdentifier>>;

pub type KindCountsV = Map<Seq<char>, Set<ContractIdV>>;

/// A contract has a finding of a kind.
pub open spec fn finds(report: AuditReportV, kind: Seq<char>) -> bool {
    exists|f: FindingV| #[trigger] report.findings.contains(f) && kind_text(f) == kind
}

/// Which contracts have findings of a kind.
pub open spec fn contracts_with(reports: Seq<AuditReportV>, kind: Seq<char>) -> Set<ContractIdV> {
    Set::new(
        |id: ContractIdV|
            exists|i: int|
                0 <= i < reports.len() && finds(#[trigger] reports[i], kind)
                    && reports[i].contract == id,
    )
}

/// Which contracts have findings of a kind, for each kind that is found.
pub open spec fn counts_of(reports: Seq<AuditReportV>) -> KindCountsV {
    Map::new(
        |kind: Seq<char>|
            exists|i: int| 0 <= i < reports.len() && finds(#[trigger] reports[i], kind),
        |kind: Seq<char>| contracts_with(reports, kind),
    )
}

/// The counts with one more contract for a kind.
pub open spec fn counts_with(
    counts: KindCountsV,
    kind: Seq<char>,
    id: ContractIdV,
) -> KindCountsV {
    counts.insert(
        kind,
        if counts.contains_key(kind) {
            counts[kind].insert(id)
        } else {
            Set::empty().insert(id)
        },
    )
}

/// The counts after some findings of a contract.
pub open spec fn counts_after(
    counts: KindCountsV,
    findings: Seq<FindingV>,
    id: ContractIdV,
) -> KindCountsV
    decreases findings.len(),
{
    if findings.len() == 0 {
        counts
    } else {
        counts_with(
            counts_after(counts, findings.drop_last(), id),
            kind_text(findings.last()),
            id,
        )
    }
}

/// Some of the findings are of a kind.
pub open spec fn kind_among(findings: Seq<FindingV>, kind: Seq<char>) -> bool {
    exists|i: int| 0 <= i < findings.len() && kind_text(#[trigger] findings[i]) == kind
}

proof fn lemma_counts_after(
    counts: KindCountsV,
    findings: Seq<FindingV>,
    id: ContractIdV,
    kind: Seq<char>,
)
    ensures
        ({
            let after = counts_after(counts, findings, id);
            &&& after.contains_key(kind) <==> counts.contains_key(kind) || kind_among(
                findings,
                kind,
            )
            &&& after.contains_key(kind) ==> after[kind] == (if kind_among(findings, kind) {
                (if counts.contains_key(kind) {
                    counts[kind]
                } else {
                    Set::empty()
                }).insert(id)
            } else {
                counts[kind]
            })
        }),
    decreases findings.len(),
{
    if findings.len() > 0 {
        let rest = findings.drop_last();
        let last = findings.last();
        lemma_counts_after(counts, rest, id, kind);
        if kind_among(rest, kind) {
            let i = choose|i: int| 0 <= i < rest.len() && kind_text(#[trigger] rest[i]) == kind;
            assert(kind_text(findings[i]) == kind);
        }
        if kind_text(last) == kind {
            assert(kind_text(findings[findings.len() - 1]) == kind);
        }
        if kind_among(findings, kind) && kind_text(last) != kind {
            let i = choose|i: int|
                0 <= i < findings.len() && kind_text(#[trigger] findings[i]) == kind;
            assert(kind_text(rest[i]) == kind);
        }
        let base = if counts.contains_key(kind) {
            counts[kind]
        } else {
            Set::empty()
        };
        assert(base.insert(id).insert(id) =~= base.insert(id));
    }
}

/// Counting one more report.
proof fn lemma_counts_next(reports: Seq<AuditReportV>, i: int, findings: Seq<FindingV>)
    requires
        0 <= i < reports.len(),
        findings.to_set() == reports[i].findings,
    ensures
        counts_of(reports.take(i + 1)) == counts_after(
            counts_of(reports.take(i)),
            findings,
            reports[i].contract,
        ),
{
    let before = reports.take(i);
    let after = reports.take(i + 1);
    let r = reports[i];
    let counted = counts_after(counts_of(before), findings, r.contract);
    let goal = counts_of(after);
    assert forall|k: int| 0 <= k < i implies #[trigger] after[k] == before[k] by {}
    assert(after[i] == r);
    assert forall|kind: Seq<char>| goal.contains_key(kind) == #[trigger] counted.contains_key(
        kind,
    ) && (goal.contains_key(kind) ==> goal[kind] == counted[kind]) by {
        lemma_counts_after(counts_of(before), findings, r.contract, kind);
        assert(kind_among(findings, kind) == finds(r, kind)) by {
            if kind_among(findings, kind) {
                let k = choose|k: int|
                    0 <= k < findings.len() && kind_text(#[trigger] findings[k]) == kind;
                assert(findings.to_set().contains(findings[k]));
            }
            if finds(r, kind) {
                let f = choose|f: FindingV| #[trigger]
                    r.findings.contains(f) && kind_text(f) == kind;
                assert(findings.to_set().contains(f));
                let k = choose|k: int| 0 <= k < findings.len() && findings[k] == f;
                assert(kind_text(findings[k]) == kind);
            }
        }
        if goal.contains_key(kind) {
            let k = choose|k: int| 0 <= k < after.len() && finds(#[trigger] after[k], kind);
            if k < i {
                assert(finds(before[k], kind));
            }
        }
        if counts_of(before).contains_key(kind) {
            let k = choose|k: int| 0 <= k < before.len() && finds(#[trigger] before[k], kind);
            assert(finds(after[k], kind));
        }
        if finds(r, kind) {
            assert(finds(after[i], kind));
        }
        if goal.contains_key(kind) {
            assert forall|id: ContractIdV| goal[kind].contains(id) == counted[kind].contains(
                id,
            ) by {
                if goal[kind].contains(id) {
                    let k = choose|k: int|
                        0 <= k < after.len() && finds(#[trigger] after[k], kind)
                            && after[k].contract == id;
                    if k < i {
                        assert(finds(before[k], kind) && before[k].contract == id);
                        assert(contracts_with(before, kind).contains(id));
                    }
                }
                if contracts_with(before, kind).contains(id) {
                    let k = choose|k: int|
                        0 <= k < before.len() && finds(#[trigger] before[k], kind)
                            && before[k].contract == id;
                    assert(finds(after[k], kind) && after[k].contract == id);
                }
                if finds(r, kind) && id == r.contract {
                    assert(finds(after[i], kind) && after[i].contract == id);
                }
            }
            assert(goal[kind] =~= counted[kind]);
        }
    }
    assert(goal =~= counted);
}

/// Counts the findings of a contract.
fn count_findings(counts: &mut KindCounts, report: &ContractReport)
    ensures
        final(counts)@ == counts_after(
            old(counts)@,
            ascending::<Finding>(report@.findings),
            report@.contract,
        ),
        ascending::<Finding>(report@.findings).to_set() == report@.findings,
{
    let n = report.findings.len();
    let ghost all = report.findings.in_order();
    let ghost before = counts@;
    let mut i: usize = 0;
    assert(counts@ =~= counts_after(before, all.take(0), report@.contract));
    while i < n
        invariant
            i <= n,
            n == all.len(),
            all == report.findings.in_order(),
            counts@ == counts_after(before, all.take(i as int), report@.contract),
        decreases n - i,
    {
        let kind = report.findings.get(i).kind().to_string();
        let mut contracts: OrderedSet<QualifiedContractIdentifier> = match counts.get(&kind) {
            Some(contracts) => contracts.duplicate(),
            None => OrderedSet::new(),
        };
        contracts.insert(report.contract.duplicate());
        counts.insert(kind, contracts);
        proof {
            assert(all.take(i + 1).drop_last() =~= all.take(i as int));
            assert(all.take(i + 1).last() == all[i as int]);
        }
        i = i + 1;
    }
    assert(all.take(n as int) =~= all);
}

/// Tells for each kind of finding which contracts have it.
pub fn count_kinds(reports: &Vec<ContractReport>) -> (counts: KindCounts)
    ensures
        counts@ == counts_of(views(reports@)),
{
    let ghost all = views(reports@);
    let mut counts: KindCounts = OrderedMap::new();
    let mut i: usize = 0;
    assert(counts@ =~= counts_of(all.take(0)));
    while i < reports.len()
        invariant
            i <= reports.len(),
            all == views(reports@),
            counts@ == counts_of(all.take(i as int)),
        decreases reports.len() - i,
    {
        count_findings(&mut counts, &reports[i]);
        proof {
            assert(all[i as int] == reports[i as int]@);
            lemma_counts_next(
                all,
                i as int,
                ascending::<Finding>(all[i as int].findings),
            );
        }
        i = i + 1;
    }
    assert(all.take(all.len() as int) =~= all);
    counts
}

/// One line for each kind of finding.
pub open spec fn count_lines(kinds: Seq<Seq<char>>, counts: KindCountsV) -> Seq<char>
    decreases kinds.len(),
{
    if kinds.len() == 0 {
        ""@
    } else {
        count_lines(kinds.drop_last(), counts) + "  "@ + kinds.last() + ": "@ + digits(
            counts[kinds.last()].len(),
        ) + " contract(s)\n"@
    }
}

/// The line for a finding.
pub open spec fn finding_line(f: FindingV) -> Seq<char> {
    "  "@ + finding_text(f) + "\n"@
}

/// One line for each finding.
pub open spec fn finding_lines(findings: Seq<FindingV>) -> Seq<char>
    decreases findings.len(),
{
    if findings.len() == 0 {
        ""@
    } else {
        finding_lines(findings.drop_last()) + finding_line(findings.last())
    }
}

/// What is printed of one contract.
pub open spec fn contract_report_text(r: AuditReportV) -> Seq<char> {
    "\n"@ + contract_text(r.contract) + " ("@ + r.clarity_version + ", "@ + r.epoch + "):\n"@
        + finding_lines(ascending::<Finding>(r.findings))
}

/// What is printed of contracts, one after another.
pub open spec fn contract_reports_text(reports: Seq<AuditReportV>) -> Seq<char>
    decreases reports.len(),
{
    if reports.len() == 0 {
        ""@
    } else {
        contract_reports_text(reports.drop_last()) + contract_report_text(reports.last())
    }
}

/// How many contracts were audited.
pub open spec fn audited(scanned: nat, not_at_tip: nat) -> nat {
    if scanned >= not_at_tip {
        (scanned - not_at_tip) as nat
    } else {
        0
    }
}

/// What is printed of an audit.
pub open spec fn audit_text(
    chain_tip: Seq<char>,
    scanned: nat,
    not_at_tip: nat,
    reports: Seq<AuditReportV>,
) -> Seq<char> {
    "Chain tip: "@ + chain_tip + "\nContracts found in the side store: "@ + digits(scanned)
        + "\nContracts not visible from the chain tip: "@ + digits(not_at_tip)
        + "\nContracts audited: "@ + digits(audited(scanned, not_at_tip))
        + "\nContracts with findings: "@ + digits(reports.len()) + "\n"@ + count_lines(
        ascending::<String>(counts_of(reports).dom()),
        counts_of(reports),
    ) + contract_reports_text(reports)
}

fn format_counts(counts: &KindCounts) -> (s: String)
    ensures
        s@ == count_lines(ascending::<String>(counts@.dom()), counts@),
{
    let n = counts.len();
    let ghost kinds = counts.keys_in_order();
    let mut s = "".to_string();
    let mut i: usize = 0;
    while i < n
        invariant
            i <= n,
            n == kinds.len(),
            kinds == counts.keys_in_order(),
            s@ == count_lines(kinds.take(i as int), counts@),
        decreases n - i,
    {
        s.append("  ");
        s.append(counts.key(i).as_str());
        s.append(": ");
        s.append(decimal(counts.value(i).len() as u128).as_str());
        s.append(" contract(s)\n");
        assert(kinds.take(i + 1).drop_last() =~= kinds.take(i as int));
        i = i + 1;
    }
    assert(kinds.take(n as int) =~= kinds);
    s
}

fn format_finding_line(finding: &Finding) -> (s: String)
    ensures
        s@ == finding_line(finding@),
{
    let mut s = "  ".to_string();
    s.append(finding.format().as_str());
    s.append("\n");
    s
}

fn format_contract_report(report: &ContractReport) -> (s: String)
    ensures
        s@ == contract_report_text(report@),
{
    let mut s = "\n".to_string();
    s.append(format_contract(&report.contract).as_str());
    s.append(" (");
    s.append(report.clarity_version.as_str());
    s.append(", ");
    s.append(report.epoch.as_str());
    s.append("):\n");
    let ghost heading = s@;
    let n = report.findings.len();
    let ghost all = report.findings.in_order();
    let mut i: usize = 0;
    proof {
        reveal_strlit("");
        assert(s@ =~= heading + finding_lines(all.take(0)));
    }
    while i < n
        invariant
            i <= n,
            n == all.len(),
            all == report.findings.in_order(),
            s@ == heading + finding_lines(all.take(i as int)),
        decreases n - i,
    {
        s.append(format_finding_line(report.findings.get(i)).as_str());
        proof {
            assert(all.take(i + 1).drop_last() =~= all.take(i as int));
            assert(s@ =~= heading + finding_lines(all.take(i + 1)));
        }
        i = i + 1;
    }
    assert(all.take(n as int) =~= all);
    s
}

/// Writes the report on an audit for people.
pub fn format_audit(
    chain_tip: &str,
    scanned: usize,
    not_at_tip: &Vec<QualifiedContractIdentifier>,
    reports: &Vec<ContractReport>,
) -> (s: String)
    ensures
        s@ == audit_text(
            chain_tip@,
            scanned as nat,
            not_at_tip@.len(),
            views(reports@),
        ),
{
    let counts = count_kinds(reports);
    let audited_count: usize = if scanned >= not_at_tip.len() {
        scanned - not_at_tip.len()
    } else {
        0
    };
    let mut s = "Chain tip: ".to_string();
    s.append(chain_tip);
    s.append("\nContracts found in the side store: ");
    s.append(decimal(scanned as u128).as_str());
    s.append("\nContracts not visible from the chain tip: ");
    s.append(decimal(not_at_tip.len() as u128).as_str());
    s.append("\nContracts audited: ");
    s.append(decimal(audited_count as u128).as_str());
    s.append("\nContracts with findings: ");
    s.append(decimal(reports.len() as u128).as_str());
    s.append("\n");
    s.append(format_counts(&counts).as_str());
    let ghost heading = s@;
    let ghost all = views(reports@);
    let mut i: usize = 0;
    proof {
        reveal_strlit("");
        assert(s@ =~= heading + contract_reports_text(all.take(0)));
    }
    while i < reports.len()
        invariant
            i <= reports.len(),
            all == views(reports@),
            s@ == heading + contract_reports_text(all.take(i as int)),
        decreases reports.len() - i,
    {
        s.append(format_contract_report(&reports[i]).as_str());
        proof {
            assert(all.take(i + 1).drop_last() =~= all.take(i as int));
            assert(all.take(i + 1).last() == reports[i as int]@);
            assert(s@ =~= heading + contract_reports_text(all.take(i + 1)));
        }
        i = i + 1;
    }
    assert(all.take(all.len() as int) =~= all);
    s
}

/// Contracts as JSON.
pub open spec fn contracts_json(ids: Seq<ContractIdV>) -> JsonV {
    JsonV::List(ids.map_values(|id: ContractIdV| JsonV::Text(contract_text(id))))
}

/// The contracts of each kind of finding, as the fields of an object.
pub open spec fn summary_fields(kinds: Seq<Seq<char>>, counts: KindCountsV) -> Seq<
    (Seq<char>, JsonV),
> {
    kinds.map_values(
        |kind: Seq<char>|
            (
                kind,
                contracts_json(ascending::<QualifiedContractIdentifier>(counts[kind])),
            ),
    )
}

/// The report on one contract as JSON.
pub open spec fn contract_report_json(r: AuditReportV) -> JsonV {
    JsonV::Object(
        seq![
            ("contract"@, JsonV::Text(contract_text(r.contract))),
            ("clarity_version"@, JsonV::Text(r.clarity_version)),
            ("epoch"@, JsonV::Text(r.epoch)),
            (
                "findings"@,
                JsonV::List(
                    ascending::<Finding>(r.findings).map_values(|f: FindingV| finding_json(f)),
                ),
            ),
        ],
    )
}

/// The report on an audit as JSON.
pub open spec fn audit_json(
    chain_tip: Seq<char>,
    scanned: nat,
    not_at_tip: Seq<ContractIdV>,
    reports: Seq<AuditReportV>,
) -> JsonV {
    JsonV::Object(
        seq![
            ("chain_tip"@, JsonV::Text(chain_tip)),
            ("contracts_found"@, JsonV::Number(scanned)),
            ("contracts_not_at_tip"@, contracts_json(not_at_tip)),
            (
                "summary"@,
                JsonV::Object(
                    summary_fields(
                        ascending::<String>(counts_of(reports).dom()),
                        counts_of(reports),
                    ),
                ),
            ),
            (
                "contracts"@,
                JsonV::List(
                    reports.map_values(|r: AuditReportV| contract_report_json(r)),
                ),
            ),
        ],
    )
}

fn contracts_to_json(ids: &Vec<QualifiedContractIdentifier>) -> (j: Json)
    ensures
        j@ == contracts_json(views(ids@)),
{
    let ghost all = views(ids@);
    let ghost f = |id: ContractIdV| JsonV::Text(contract_text(id));
    let mut list: Vec<Json> = Vec::new();
    let mut i: usize = 0;
    assert(json_views(list@) =~= all.take(0).map_values(f));
    while i < ids.len()
        invariant
            i <= ids.len(),
            all == views(ids@),
            f == (|id: ContractIdV| JsonV::Text(contract_text(id))),
            json_views(list@) == all.take(i as int).map_values(f),
        decreases ids.len() - i,
    {
        let entry = Json::Text(format_contract(&ids[i]));
        proof {
            lemma_json_push(list@, entry);
            assert(all.take(i + 1).map_values(f) =~= all.take(i as int).map_values(f).push(
                f(all[i as int]),
            ));
        }
        list.push(entry);
        i = i + 1;
    }
    assert(all.take(all.len() as int) =~= all);
    Json::List(list)
}

fn contract_set_to_json(ids: &OrderedSet<QualifiedContractIdentifier>) -> (j: Json)
    ensures
        j@ == contracts_json(ascending::<QualifiedContractIdentifier>(ids@)),
{
    let n = ids.len();
    let ghost all = ids.in_order();
    let ghost f = |id: ContractIdV| JsonV::Text(contract_text(id));
    let mut list: Vec<Json> = Vec::new();
    let mut i: usize = 0;
    assert(json_views(list@) =~= all.take(0).map_values(f));
    while i < n
        invariant
            i <= n,
            n == all.len(),
            all == ids.in_order(),
            f == (|id: ContractIdV| JsonV::Text(contract_text(id))),
            json_views(list@) == all.take(i as int).map_values(f),
        decreases n - i,
    {
        let entry = Json::Text(format_contract(ids.get(i)));
        proof {
            lemma_json_push(list@, entry);
            assert(all.take(i + 1).map_values(f) =~= all.take(i as int).map_values(f).push(
                f(all[i as int]),
            ));
        }
        list.push(entry);
        i = i + 1;
    }
    assert(all.take(n as int) =~= all);
    Json::List(list)
}

fn summary_to_fields(counts: &KindCounts) -> (r: Vec<(String, Json)>)
    ensures
        field_views(r@) == summary_fields(ascending::<String>(counts@.dom()), counts@),
{
    let n = counts.len();
    let ghost kinds = counts.keys_in_order();
    let mut r: Vec<(String, Json)> = Vec::new();
    let mut i: usize = 0;
    assert(field_views(r@) =~= summary_fields(kinds.take(0), counts@));
    while i < n
        invariant
            i <= n,
            n == kinds.len(),
            kinds == counts.keys_in_order(),
            field_views(r@) == summary_fields(kinds.take(i as int), counts@),
        decreases n - i,
    {
        put(&mut r, counts.key(i).as_str(), contract_set_to_json(counts.value(i)));
        proof {
            let kind = kinds[i as int];
            assert(summary_fields(kinds.take(i + 1), counts@) =~= summary_fields(
                kinds.take(i as int),
                counts@,
            ).push(
                (kind, contracts_json(ascending::<QualifiedContractIdentifier>(counts@[kind]))),
            ));
        }
        i = i + 1;
    }
    assert(kinds.take(n as int) =~= kinds);
    r
}

fn findings_to_json(findings: &OrderedSet<Finding>) -> (j: Json)
    ensures
        j@ == JsonV::List(
            ascending::<Finding>(findings@).map_values(|f: FindingV| finding_json(f)),
        ),
{
    let n = findings.len();
    let ghost all = findings.in_order();
    let ghost f = |f: FindingV| finding_json(f);
    let mut list: Vec<Json> = Vec::new();
    let mut i: usize = 0;
    assert(json_views(list@) =~= all.take(0).map_values(f));
    while i < n
        invariant
            i <= n,
            n == all.len(),
            all == findings.in_order(),
            f == (|f: FindingV| finding_json(f)),
            json_views(list@) == all.take(i as int).map_values(f),
        decreases n - i,
    {
        let entry = findings.get(i).to_json();
        proof {
            lemma_json_push(list@, entry);
            assert(all.take(i + 1).map_values(f) =~= all.take(i as int).map_values(f).push(
                f(all[i as int]),
            ));
        }
        list.push(entry);
        i = i + 1;
    }
    assert(all.take(n as int) =~= all);
    Json::List(list)
}

fn contract_report_to_json(report: &ContractReport) -> (j: Json)
    ensures
        j@ == contract_report_json(report@),
{
    let mut fields: Vec<(String, Json)> = Vec::new();
    put(&mut fields, "contract", Json::Text(format_contract(&report.contract)));
    put(&mut fields, "clarity_version", Json::Text(report.clarity_version.duplicate()));
    put(&mut fields, "epoch", Json::Text(report.epoch.duplicate()));
    put(&mut fields, "findings", findings_to_json(&report.findings));
    assert(field_views(fields@) =~= contract_report_json(report@)->Object_0);
    Json::Object(fields)
}

fn contract_reports_to_json(reports: &Vec<ContractReport>) -> (j: Json)
    ensures
        j@ == JsonV::List(
            views(reports@).map_values(|r: AuditReportV| contract_report_json(r)),
        ),
{
    let ghost all = views(reports@);
    let ghost f = |r: AuditReportV| contract_report_json(r);
    let mut list: Vec<Json> = Vec::new();
    let mut i: usize = 0;
    assert(json_views(list@) =~= all.take(0).map_values(f));
    while i < reports.len()
        invariant
            i <= reports.len(),
            all == views(reports@),
            f == (|r: AuditReportV| contract_report_json(r)),
            json_views(list@) == all.take(i as int).map_values(f),
        decreases reports.len() - i,
    {
        let entry = contract_report_to_json(&reports[i]);
        proof {
            lemma_json_push(list@, entry);
            assert(all.take(i + 1).map_values(f) =~= all.take(i as int).map_values(f).push(
                f(all[i as int]),
            ));
        }
        list.push(entry);
        i = i + 1;
    }
    assert(all.take(all.len() as int) =~= all);
    Json::List(list)
}

/// The report on an audit as JSON.
pub fn audit_to_json(
    chain_tip: &str,
    scanned: usize,
    not_at_tip: &Vec<QualifiedContractIdentifier>,
    reports: &Vec<ContractReport>,
) -> (j: Json)
    ensures
        j@ == audit_json(
            chain_tip@,
            scanned as nat,
            views(not_at_tip@),
            views(reports@),
        ),
{
    let counts = count_kinds(reports);
    let mut fields: Vec<(String, Json)> = Vec::new();
    put(&mut fields, "chain_tip", Json::Text(chain_tip.to_string()));
    put(&mut fields, "contracts_found", Json::Number(scanned as u64));
    put(&mut fields, "contracts_not_at_tip", contracts_to_json(not_at_tip));
    put(&mut fields, "summary", Json::Object(summary_to_fields(&counts)));
    put(&mut fields, "contracts", contract_reports_to_json(reports));
    assert(field_views(fields@) =~= audit_json(
        chain_tip@,
        scanned as nat,
        views(not_at_tip@),
        views(reports@),
    )->Object_0);
    Json::Object(fields)
}

/// A kind is counted exactly for the contracts that have a finding of it, and no
/// kind is counted that is not found.
pub proof fn law_kinds_are_counted(
    reports: Seq<AuditReportV>,
    kind: Seq<char>,
    id: ContractIdV,
)
    ensures
        counts_of(reports).contains_key(kind) && counts_of(reports)[kind].contains(id) <==> exists|
            i: int,
        |
            0 <= i < reports.len() && finds(#[trigger] reports[i], kind) && reports[i].contract
                == id,
{
    if exists|i: int|
        0 <= i < reports.len() && finds(#[trigger] reports[i], kind) && reports[i].contract == id {
        let i = choose|i: int|
            0 <= i < reports.len() && finds(#[trigger] reports[i], kind) && reports[i].contract
                == id;
        assert(counts_of(reports).contains_key(kind));
    }
}

/// A contract counts for a kind exactly if one of its findings is of that kind; a kind
/// without findings is not counted. As many contracts are audited as were found and
/// can be seen.
pub proof fn law_contracts_count_by_their_findings(
    reports: Seq<AuditReportV>,
    kind: Seq<char>,
    id: ContractIdV,
    scanned: nat,
    not_at_tip: nat,
)
    ensures
        counts_of(reports).contains_key(kind) && counts_of(reports)[kind].contains(id) <==> exists|
            i: int,
            f: FindingV,
        |
            0 <= i < reports.len() && reports[i].contract == id && #[trigger]
            reports[i].findings.contains(f) && kind_text(f) == kind,
        counts_of(reports).contains_key(kind) ==> exists|c: ContractIdV|
            counts_of(reports)[kind].contains(c),
        not_at_tip <= scanned ==> audited(scanned, not_at_tip) + not_at_tip == scanned,
{
    if counts_of(reports).contains_key(kind) {
        let i = choose|i: int| 0 <= i < reports.len() && finds(#[trigger] reports[i], kind);
        assert(counts_of(reports)[kind].contains(reports[i].contract));
    }
    if exists|i: int, f: FindingV|
        0 <= i < reports.len() && reports[i].contract == id && #[trigger]
        reports[i].findings.contains(f) && kind_text(f) == kind {
        let (i, f) = choose|i: int, f: FindingV|
            0 <= i < reports.len() && reports[i].contract == id && #[trigger]
            reports[i].findings.contains(f) && kind_text(f) == kind;
        assert(finds(reports[i], kind));
    }
    if counts_of(reports).contains_key(kind) && counts_of(reports)[kind].contains(id) {
        let i = choose|i: int|
            0 <= i < reports.len() && finds(#[trigger] reports[i], kind) && reports[i].contract
                == id;
        let f = choose|f: FindingV| #[trigger]
            reports[i].findings.contains(f) && kind_text(f) == kind;
        assert(reports[i].findings.contains(f));
    }
}

} // verus!
