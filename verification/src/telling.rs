//! What the printed and the JSON reports tell.

use vstd::prelude::*;

use crate::audit_report::{
    audit_json, audit_text, contract_report_json, contract_report_text, contract_reports_text,
    count_lines, counts_of, finding_line, finding_lines, finds, KindCountsV,
};
use crate::blocks::{failure_line, failure_lines, summary_text};
use crate::effects::{EffectsV, FunctionsV, Purity};
use crate::format::{
    asset_text, call_json, calls_json, chain_read_text, contract_ref_text, contract_text,
    effects_json, location_json, principal_ref_text, principal_text, purity_text, section_text,
    target_json, target_line, target_lines, target_text, targets_json, JsonV,
};
use crate::graph::EdgeV;
use crate::ordered::{ascending, lemma_listed};
use crate::output::{
    call_line, call_lines, calls_section_text, contract_effects_json, contract_effects_text,
    edge_json, edge_line, edge_lines, function_text, functions_text, graph_text, note_text,
    report_fields, report_json, report_text, tx_effects_text, txid_line, version_text,
};
use crate::syntax::ClarityVersion;
use crate::text::digits;
use crate::tx_report::ReportV;
use crate::type_audit::{finding_json, finding_text, kind_text, AuditReportV, Finding, FindingV};
use crate::types::{
    AssetV, CallV, ClarityName, ContractCall, ContractIdV, ContractRefV, EffectTarget, LocationV,
    NameV, PrincipalRefV, PrincipalV, TargetV,
};

verus! {

/// A text is part of another.
pub open spec fn is_part(part: Seq<char>, whole: Seq<char>) -> bool {
    exists|before: Seq<char>, after: Seq<char>| whole == #[trigger] (before + part + after)
}

/// What is part of a text is part of a longer one.
proof fn lemma_part_of_longer(part: Seq<char>, middle: Seq<char>, a: Seq<char>, b: Seq<char>)
    requires
        is_part(part, middle),
    ensures
        is_part(part, a + middle + b),
        is_part(part, a + middle),
        is_part(part, middle + b),
{
    let (before, after) = choose|before: Seq<char>, after: Seq<char>|
        middle == #[trigger] (before + part + after);
    assert(a + middle + b =~= (a + before) + part + (after + b));
    assert(a + middle =~= (a + before) + part + after);
    assert(middle + b =~= before + part + (after + b));
}

proof fn lemma_part_of_itself(s: Seq<char>)
    ensures
        is_part(s, s),
{
    assert(s =~= Seq::<char>::empty() + s + Seq::<char>::empty());
}

/// A contract is told by its issuer's address and its name, an account by its
/// address, an argument by its number from zero on, and the well-known principals by
/// their names.
pub proof fn law_references_are_told(
    id: ContractIdV,
    p: PrincipalV,
    r: ContractRefV,
    q: PrincipalRefV,
)
    ensures
        contract_text(id) == id.issuer.address + "."@ + id.name,
        p matches PrincipalV::Standard(account) ==> principal_text(p) == account.address,
        p matches PrincipalV::Contract(c) ==> principal_text(p) == c.issuer.address + "."@ + c.name,
        r is Any ==> contract_ref_text(r) == "<any>"@,
        r matches ContractRefV::Literal(c) ==> contract_ref_text(r) == c.issuer.address + "."@
            + c.name,
        r matches ContractRefV::Argument(k) ==> contract_ref_text(r) == "$arg["@ + digits(k as nat)
            + "]"@,
        q is Any ==> principal_ref_text(q) == "<any>"@,
        q matches PrincipalRefV::Literal(x) ==> principal_ref_text(q) == principal_text(x),
        q matches PrincipalRefV::Argument(k) ==> principal_ref_text(q) == "$arg["@ + digits(
            k as nat,
        ) + "]"@,
        q is TxSender ==> principal_ref_text(q) == "tx-sender"@,
        q is ContractCaller ==> principal_ref_text(q) == "contract-caller"@,
        q is CurrentContract ==> principal_ref_text(q) == "current-contract"@,
{
}

/// A target is told by its kind, by what it is a part of, and by whom it belongs to.
pub proof fn law_targets_are_told(t: TargetV)
    ensures
        match t {
            TargetV::Contract(access) => {
                let start = "contract "@ + contract_ref_text(access.contract) + " ("@;
                &&& access.location is None ==> target_text(t) == start + "any"@ + ")"@
                &&& access.location matches Some(LocationV::DataMap(m)) ==> target_text(t) == start
                    + ("map "@ + m) + ")"@
                &&& access.location matches Some(LocationV::DataVar(v)) ==> target_text(t) == start
                    + ("var "@ + v) + ")"@
            },
            TargetV::AssetOwnership(access) => {
                let end = principal_ref_text(access.principal);
                &&& access.asset is Stx ==> target_text(t) == "asset "@ + "stx"@ + " principal "@
                    + end
                &&& access.asset matches AssetV::Token { contract, name, kind } ==> {
                    let token = contract_text(contract) + "."@ + name + " ("@;
                    &&& kind is Fungible ==> target_text(t) == "asset "@ + (token + "ft"@ + ")"@)
                        + " principal "@ + end
                    &&& kind is NonFungible ==> target_text(t) == "asset "@ + (token + "nft"@
                        + ")"@) + " principal "@ + end
                }
            },
            TargetV::AccountNonce(access) => target_text(t) == "account-nonce "@
                + principal_ref_text(access.principal),
            TargetV::ChainState(read) => {
                &&& read is BlockInfo ==> target_text(t) == "chain-state "@ + "block-info"@
                &&& read is StacksBlockInfo ==> target_text(t) == "chain-state "@
                    + "stacks-block-info"@
                &&& read is BurnBlockInfo ==> target_text(t) == "chain-state "@
                    + "burn-block-info"@
                &&& read is TenureInfo ==> target_text(t) == "chain-state "@ + "tenure-info"@
            },
        },
        purity_text(Purity::Pure) == "Pure"@,
        purity_text(Purity::Impure) == "Impure"@,
{
}

proof fn lemma_target_lines(targets: Seq<TargetV>, t: TargetV)
    requires
        targets.contains(t),
    ensures
        is_part("    - "@ + target_text(t) + "\n"@, target_lines(targets)),
    decreases targets.len(),
{
    let rest = targets.drop_last();
    let last = targets.last();
    let line = "    - "@ + target_text(t) + "\n"@;
    let k = choose|k: int| 0 <= k < targets.len() && targets[k] == t;
    if k < rest.len() {
        assert(rest[k] == t);
        lemma_target_lines(rest, t);
        lemma_part_of_longer(
            line,
            target_lines(rest),
            Seq::empty(),
            target_line(last),
        );
    } else {
        lemma_part_of_itself(line);
        lemma_part_of_longer(line, line, target_lines(rest), Seq::empty());
    }
}

/// Every target of a section has a line of its own in it; a section without targets is
/// left out.
pub proof fn law_sections_tell_their_targets(label: Seq<char>, targets: Set<TargetV>, t: TargetV)
    requires
        targets.finite(),
    ensures
        targets == Set::<TargetV>::empty() ==> section_text(label, targets) == ""@,
        targets.contains(t) ==> is_part(
            "    - "@ + target_text(t) + "\n"@,
            section_text(label, targets),
        ) && is_part("  "@ + label + ":\n"@, section_text(label, targets)),
{
    if targets.contains(t) {
        let line = "    - "@ + target_text(t) + "\n"@;
        let heading = "  "@ + label + ":\n"@;
        let list = ascending::<EffectTarget>(targets);
        lemma_listed::<EffectTarget>(targets);
        assert(list.to_set().contains(t));
        assert(list.contains(t));
        lemma_target_lines(list, t);
        lemma_part_of_longer(line, target_lines(list), heading, Seq::empty());
        lemma_part_of_itself(heading);
        lemma_part_of_longer(heading, heading, Seq::empty(), target_lines(list));
    }
}

/// What is printed of a function tells its name and its purity, and has the section of
/// its reads and that of its writes.
pub proof fn law_functions_are_told(name: NameV, fx: EffectsV)
    ensures
        ({
            let text = function_text(name, fx);
            &&& is_part("\nFunction "@ + name + " ("@ + purity_text(fx.purity) + ")\n"@, text)
            &&& is_part(section_text("reads"@, fx.reads), text)
            &&& is_part(section_text("writes"@, fx.writes), text)
            &&& is_part(calls_section_text(fx.contract_calls), text)
        }),
{
    let heading = "\nFunction "@ + name + " ("@ + purity_text(fx.purity) + ")\n"@;
    let reads = section_text("reads"@, fx.reads);
    let writes = section_text("writes"@, fx.writes);
    let calls = calls_section_text(fx.contract_calls);
    let none = Seq::<char>::empty();
    let text = function_text(name, fx);
    assert(text =~= heading + reads + writes + calls);
    assert(text =~= none + heading + (reads + writes + calls));
    assert(text =~= heading + reads + (writes + calls));
    assert(text =~= (heading + reads) + writes + calls);
    assert(text =~= (heading + reads + writes) + calls + none);
}

proof fn lemma_functions_text(names: Seq<NameV>, functions: FunctionsV, f: NameV)
    requires
        names.contains(f),
    ensures
        is_part(function_text(f, functions[f]), functions_text(names, functions)),
    decreases names.len(),
{
    let rest = names.drop_last();
    let last = names.last();
    let text = function_text(f, functions[f]);
    let k = choose|k: int| 0 <= k < names.len() && names[k] == f;
    if k < rest.len() {
        assert(rest[k] == f);
        lemma_functions_text(rest, functions, f);
        lemma_part_of_longer(
            text,
            functions_text(rest, functions),
            Seq::empty(),
            function_text(last, functions[last]),
        );
    } else {
        lemma_part_of_itself(text);
        lemma_part_of_longer(text, text, functions_text(rest, functions), Seq::empty());
    }
}

/// What is printed of a contract tells of every function of it.
pub proof fn law_contracts_are_told(
    contract: ContractIdV,
    version: ClarityVersion,
    functions: FunctionsV,
    f: NameV,
)
    requires
        functions.dom().finite(),
        functions.contains_key(f),
    ensures
        is_part(
            function_text(f, functions[f]),
            contract_effects_text(contract, version, functions),
        ),
        is_part(
            "Contract: "@ + contract_text(contract) + "\n"@,
            contract_effects_text(contract, version, functions),
        ),
{
    let names = ascending::<ClarityName>(functions.dom());
    lemma_listed::<ClarityName>(functions.dom());
    assert(names.to_set().contains(f));
    lemma_functions_text(names, functions, f);
    let text = contract_effects_text(contract, version, functions);
    let all = functions_text(names, functions);
    let heading = text.take(text.len() - all.len());
    assert(text =~= heading + all);
    lemma_part_of_longer(function_text(f, functions[f]), all, heading, Seq::empty());
    reveal_strlit("\nClarity version: ");
    reveal_strlit("\n");
    let first = "Contract: "@ + contract_text(contract) + "\n"@;
    let rest = text.skip(first.len() as int);
    assert(text =~= Seq::<char>::empty() + first + rest);
}

proof fn lemma_edge_lines(edges: Seq<EdgeV>, e: EdgeV)
    requires
        edges.contains(e),
    ensures
        is_part(edge_line(e), edge_lines(edges)),
    decreases edges.len(),
{
    let rest = edges.drop_last();
    let k = choose|k: int| 0 <= k < edges.len() && edges[k] == e;
    if k < rest.len() {
        assert(rest[k] == e);
        lemma_edge_lines(rest, e);
        lemma_part_of_longer(
            edge_line(e),
            edge_lines(rest),
            Seq::empty(),
            edge_line(edges.last()),
        );
    } else {
        lemma_part_of_itself(edge_line(e));
        lemma_part_of_longer(edge_line(e), edge_line(e), edge_lines(rest), Seq::empty());
    }
}

/// Texts that are joined are parts of the whole.
proof fn lemma_joined(a: Seq<char>, b: Seq<char>, c: Seq<char>, d: Seq<char>, e: Seq<char>)
    ensures
        is_part(a, a + b + c + d + e),
        is_part(b, a + b + c + d + e),
        is_part(c, a + b + c + d + e),
        is_part(d, a + b + c + d + e),
        is_part(e, a + b + c + d + e),
{
    let none = Seq::<char>::empty();
    let whole = a + b + c + d + e;
    assert(whole =~= none + a + (b + c + d + e));
    assert(whole =~= a + b + (c + d + e));
    assert(whole =~= (a + b) + c + (d + e));
    assert(whole =~= (a + b + c) + d + e);
    assert(whole =~= (a + b + c + d) + e + none);
}

/// What is printed of a transaction, in its five parts.
proof fn lemma_report_parts(report: ReportV, block: Option<Seq<char>>, show_graph: bool)
    ensures
        ({
            let text = report_text(report, block, show_graph);
            &&& is_part(txid_line(report.txid, block), text)
            &&& is_part("Type: "@ + report.label + "\n"@, text)
            &&& is_part(note_text(report.note), text)
            &&& is_part(tx_effects_text(report), text)
            &&& is_part(graph_text(report.call_graph, show_graph), text)
        }),
{
    let first = txid_line(report.txid, block);
    let label = "Type: "@ + report.label + "\n"@;
    let note = note_text(report.note);
    let effects = tx_effects_text(report);
    let graph = graph_text(report.call_graph, show_graph);
    lemma_joined(first, label, note, effects, graph);
    assert(report_text(report, block, show_graph) =~= first + label + note + effects + graph);
}

proof fn lemma_part_of_part(part: Seq<char>, middle: Seq<char>, whole: Seq<char>)
    requires
        is_part(part, middle),
        is_part(middle, whole),
    ensures
        is_part(part, whole),
{
    let (a, b) = choose|a: Seq<char>, b: Seq<char>| whole == #[trigger] (a + middle + b);
    lemma_part_of_longer(part, middle, a, b);
}

/// What is printed of a transaction tells its identifier, the block that it is in if
/// that is known, what it is, and the note if there is one.
pub proof fn law_transactions_are_told(report: ReportV, block: Option<Seq<char>>, show_graph: bool)
    ensures
        ({
            let text = report_text(report, block, show_graph);
            &&& block is None ==> is_part("Txid: "@ + report.txid + "\n"@, text)
            &&& block matches Some(b) ==> is_part(
                "Txid: "@ + report.txid + " (block "@ + b + ")\n"@,
                text,
            )
            &&& is_part("Type: "@ + report.label + "\n"@, text)
            &&& report.note matches Some(note) ==> is_part("Note: "@ + note + "\n"@, text)
        }),
{
    lemma_report_parts(report, block, show_graph);
}

/// What is printed of a transaction with effects tells its reads and its writes, and
/// how many calls are left if any are.
pub proof fn law_effects_of_transactions_are_told(
    report: ReportV,
    block: Option<Seq<char>>,
    show_graph: bool,
)
    ensures
        report.effects matches Some(fx) ==> {
            let text = report_text(report, block, show_graph);
            &&& is_part(section_text("reads"@, fx.reads), text)
            &&& is_part(section_text("writes"@, fx.writes), text)
            &&& report.unresolved_contract_calls > 0 ==> is_part(
                "  unresolved contract calls: "@ + digits(report.unresolved_contract_calls)
                    + "\n"@,
                text,
            )
        },
{
    lemma_report_parts(report, block, show_graph);
    if let Some(fx) = report.effects {
        let text = report_text(report, block, show_graph);
        let none = Seq::<char>::empty();
        let reads = section_text("reads"@, fx.reads);
        let writes = section_text("writes"@, fx.writes);
        let effects = tx_effects_text(report);
        let count = if report.unresolved_contract_calls > 0 {
            "  unresolved contract calls: "@ + digits(report.unresolved_contract_calls) + "\n"@
        } else {
            ""@
        };
        lemma_joined(none, none, reads, writes, count);
        assert(effects =~= none + none + reads + writes + count);
        lemma_part_of_part(reads, effects, text);
        lemma_part_of_part(writes, effects, text);
        lemma_part_of_part(count, effects, text);
    }
}

/// The call graph of a transaction is printed only where it is asked for, and then each
/// of its calls has a line, from the function that calls to what it calls.
pub proof fn law_call_graphs_are_told(
    report: ReportV,
    block: Option<Seq<char>>,
    e: EdgeV,
)
    ensures
        report.call_graph.contains(e) ==> is_part(
            "    - "@ + contract_text(e.from_contract) + "."@ + e.from_function + " -> "@
                + contract_ref_text(e.to_contract) + "."@ + e.to_function + "\n"@,
            report_text(report, block, true),
        ),
        report_text(report, block, false) == report_text(
            ReportV { call_graph: Seq::empty(), ..report },
            block,
            true,
        ),
{
    lemma_report_parts(report, block, true);
    if report.call_graph.contains(e) {
        let lines = edge_lines(report.call_graph);
        let graph = graph_text(report.call_graph, true);
        lemma_edge_lines(report.call_graph, e);
        lemma_part_of_longer(
            edge_line(e),
            lines,
            "  call-graph (might-call):\n"@,
            Seq::empty(),
        );
        lemma_part_of_part(edge_line(e), graph, report_text(report, block, true));
    }
}

/// A JSON object has a field.
pub open spec fn has_field(j: JsonV, name: Seq<char>, value: JsonV) -> bool {
    j matches JsonV::Object(fields) && fields.contains((name, value))
}

/// A JSON list has an element for every one of some things, in their order.
pub open spec fn lists<A>(j: JsonV, items: Seq<A>, f: spec_fn(A) -> JsonV) -> bool {
    j matches JsonV::List(list) && list.len() == items.len() && forall|k: int|
        0 <= k < list.len() ==> #[trigger] list[k] == f(items[k])
}

proof fn lemma_fields(fields: Seq<(Seq<char>, JsonV)>)
    ensures
        forall|k: int| 0 <= k < fields.len() ==> fields.contains(#[trigger] fields[k]),
{
}

/// Effects as JSON tell the purity, each read, each write and each call.
pub proof fn law_effects_are_told_as_json(fx: EffectsV)
    ensures
        ({
            let j = effects_json(fx);
            &&& has_field(j, "purity"@, JsonV::Text(purity_text(fx.purity)))
            &&& has_field(j, "reads"@, targets_json(fx.reads))
            &&& has_field(j, "writes"@, targets_json(fx.writes))
            &&& has_field(j, "contract_calls"@, calls_json(fx.contract_calls))
            &&& lists(
                targets_json(fx.reads),
                ascending::<EffectTarget>(fx.reads),
                |t: TargetV| target_json(t),
            )
            &&& lists(
                targets_json(fx.writes),
                ascending::<EffectTarget>(fx.writes),
                |t: TargetV| target_json(t),
            )
            &&& lists(
                calls_json(fx.contract_calls),
                ascending::<ContractCall>(fx.contract_calls),
                |c: CallV| call_json(c),
            )
        }),
{
    let fields = effects_json(fx)->Object_0;
    assert(fields[0].0 == "purity"@ && fields[1].0 == "reads"@);
    assert(fields[2].0 == "writes"@ && fields[3].0 == "contract_calls"@);
    lemma_fields(fields);
}

/// A target as JSON tells its kind, what it is a part of, and whom it belongs to; a
/// call tells what it calls, and an edge of a call graph also from where.
pub proof fn law_targets_and_calls_are_told_as_json(t: TargetV, c: CallV, e: EdgeV)
    ensures
        match t {
            TargetV::Contract(access) => exists|j: JsonV| #[trigger]
                has_field(target_json(t), "Contract"@, j) && has_field(
                    j,
                    "contract"@,
                    JsonV::Text(contract_ref_text(access.contract)),
                ) && has_field(j, "location"@, location_json(access.location)),
            TargetV::AssetOwnership(access) => exists|j: JsonV| #[trigger]
                has_field(target_json(t), "AssetOwnership"@, j) && has_field(
                    j,
                    "asset"@,
                    JsonV::Text(asset_text(access.asset)),
                ) && has_field(
                    j,
                    "principal"@,
                    JsonV::Text(principal_ref_text(access.principal)),
                ),
            TargetV::AccountNonce(access) => exists|j: JsonV| #[trigger]
                has_field(target_json(t), "AccountNonce"@, j) && has_field(
                    j,
                    "principal"@,
                    JsonV::Text(principal_ref_text(access.principal)),
                ),
            TargetV::ChainState(read) => has_field(
                target_json(t),
                "ChainState"@,
                JsonV::Text(chain_read_text(read)),
            ),
        },
        has_field(call_json(c), "contract"@, JsonV::Text(contract_ref_text(c.contract))),
        has_field(call_json(c), "function"@, JsonV::Text(c.function)),
        has_field(edge_json(e), "from_contract"@, JsonV::Text(contract_text(e.from_contract))),
        has_field(edge_json(e), "from_function"@, JsonV::Text(e.from_function)),
        has_field(edge_json(e), "to_contract"@, JsonV::Text(contract_ref_text(e.to_contract))),
        has_field(edge_json(e), "to_function"@, JsonV::Text(e.to_function)),
        has_field(edge_json(e), "certainty"@, JsonV::Text(e.certainty)),
{
    let outer = target_json(t)->Object_0;
    lemma_fields(outer);
    assert(outer.contains(outer[0]));
    if outer[0].1 is Object {
        let inner = outer[0].1->Object_0;
        lemma_fields(inner);
        assert(inner.contains(inner[0]));
        if inner.len() > 1 {
            assert(inner.contains(inner[1]));
        }
    }
    assert(has_field(target_json(t), outer[0].0, outer[0].1));
    let calls = call_json(c)->Object_0;
    assert(calls.contains(calls[0]) && calls.contains(calls[1]));
    let edges = edge_json(e)->Object_0;
    assert(edges.contains(edges[0]) && edges.contains(edges[1]) && edges.contains(edges[2]));
    assert(edges.contains(edges[3]) && edges.contains(edges[4]));
}

/// A report as JSON tells its transaction and the block that it is in if that is known,
/// what it is, the effects or the note, what is left, and the call.
#[verifier::spinoff_prover]
#[verifier::rlimit(40)]
pub proof fn law_transactions_are_told_as_json(report: ReportV, block: Option<Seq<char>>)
    ensures
        ({
            let j = report_json(report, block);
            &&& has_field(j, "txid"@, JsonV::Text(report.txid))
            &&& block matches Some(b) ==> has_field(j, "index_block_hash"@, JsonV::Text(b))
            &&& has_field(j, "label"@, JsonV::Text(report.label))
            &&& report.effects matches Some(fx) ==> has_field(j, "effects"@, effects_json(fx))
            &&& report.effects is None ==> has_field(j, "effects"@, JsonV::Null)
            &&& has_field(
                j,
                "unresolved_contract_calls"@,
                JsonV::Number(report.unresolved_contract_calls),
            )
            &&& report.note matches Some(note) ==> has_field(j, "note"@, JsonV::Text(note))
            &&& report.note is None ==> has_field(j, "note"@, JsonV::Null)
            &&& report.call_contract matches Some(c) ==> has_field(
                j,
                "call_contract"@,
                JsonV::Text(c),
            )
            &&& report.call_function matches Some(f) ==> has_field(
                j,
                "call_function"@,
                JsonV::Text(f),
            )
            &&& exists|graph: JsonV| #[trigger]
                has_field(j, "call_graph"@, graph) && lists(
                    graph,
                    report.call_graph,
                    |e: EdgeV| edge_json(e),
                )
            &&& report.call_args matches Some(args) ==> exists|list: JsonV| #[trigger]
                has_field(j, "call_args"@, list) && lists(
                    list,
                    args,
                    |arg: Seq<char>| JsonV::Text(arg),
                )
        }),
{
    let fields = report_json(report, block)->Object_0;
    let rest = report_fields(report);
    let n = fields.len() - rest.len();
    assert(forall|k: int| 0 <= k < rest.len() ==> fields[n + k] == #[trigger] rest[k]);
    assert(fields.contains(fields[0]));
    if block is Some {
        assert(fields.contains(fields[1]));
    }
    assert(rest.len() == 8);
    assert forall|k: int| 0 <= k < 8 implies fields.contains(#[trigger] rest[k]) by {
        assert(fields[n + k] == rest[k]);
    }
    assert(fields.contains(rest[0]) && fields.contains(rest[1]) && fields.contains(rest[2]));
    assert(fields.contains(rest[3]) && fields.contains(rest[4]) && fields.contains(rest[5]));
    assert(fields.contains(rest[6]) && fields.contains(rest[7]));
    let j = report_json(report, block);
    assert(has_field(j, "call_graph"@, rest[4].1));
    assert(has_field(j, "call_args"@, rest[7].1));
}

/// The effects of a contract as JSON tell the contract and its version, the effects of
/// each function, and the calls that each function makes itself.
pub proof fn law_contracts_are_told_as_json(
    contract: ContractIdV,
    version: ClarityVersion,
    functions: FunctionsV,
    raw: FunctionsV,
    f: NameV,
)
    requires
        functions.dom().finite(),
        raw.dom().finite(),
    ensures
        ({
            let j = contract_effects_json(contract, version, functions, raw);
            &&& has_field(j, "contract"@, JsonV::Text(contract_text(contract)))
            &&& functions.contains_key(f) ==> exists|effects: JsonV| #[trigger]
                has_field(j, "effects"@, effects) && has_field(
                    effects,
                    f,
                    effects_json(functions[f]),
                )
            &&& raw.contains_key(f) ==> exists|calls: JsonV| #[trigger]
                has_field(j, "calls"@, calls) && has_field(
                    calls,
                    f,
                    calls_json(raw[f].contract_calls),
                )
        }),
{
    let j = contract_effects_json(contract, version, functions, raw);
    let fields = j->Object_0;
    assert(fields.contains(fields[0]) && fields.contains(fields[2]) && fields.contains(fields[3]));
    if functions.contains_key(f) {
        let names = ascending::<ClarityName>(functions.dom());
        lemma_listed::<ClarityName>(functions.dom());
        assert(names.to_set().contains(f));
        let k = choose|k: int| 0 <= k < names.len() && names[k] == f;
        let inner = fields[2].1->Object_0;
        assert(inner[k] == (f, effects_json(functions[f])));
        assert(has_field(fields[2].1, f, effects_json(functions[f])));
        assert(has_field(j, "effects"@, fields[2].1));
    }
    if raw.contains_key(f) {
        let names = ascending::<ClarityName>(raw.dom());
        lemma_listed::<ClarityName>(raw.dom());
        assert(names.to_set().contains(f));
        let k = choose|k: int| 0 <= k < names.len() && names[k] == f;
        let inner = fields[3].1->Object_0;
        assert(inner[k] == (f, calls_json(raw[f].contract_calls)));
        assert(has_field(fields[3].1, f, calls_json(raw[f].contract_calls)));
        assert(has_field(j, "calls"@, fields[3].1));
    }
}

proof fn lemma_finding_lines(findings: Seq<FindingV>, f: FindingV)
    requires
        findings.contains(f),
    ensures
        is_part("  "@ + finding_text(f) + "\n"@, finding_lines(findings)),
    decreases findings.len(),
{
    let rest = findings.drop_last();
    let line = "  "@ + finding_text(f) + "\n"@;
    let k = choose|k: int| 0 <= k < findings.len() && findings[k] == f;
    if k < rest.len() {
        assert(rest[k] == f);
        lemma_finding_lines(rest, f);
        lemma_part_of_longer(
            line,
            finding_lines(rest),
            Seq::empty(),
            finding_line(findings.last()),
        );
    } else {
        lemma_part_of_itself(line);
        lemma_part_of_longer(line, line, finding_lines(rest), Seq::empty());
    }
}

proof fn lemma_contract_reports(reports: Seq<AuditReportV>, i: int)
    requires
        0 <= i < reports.len(),
    ensures
        is_part(contract_report_text(reports[i]), contract_reports_text(reports)),
    decreases reports.len(),
{
    let rest = reports.drop_last();
    let text = contract_report_text(reports[i]);
    if i < rest.len() {
        lemma_contract_reports(rest, i);
        lemma_part_of_longer(
            text,
            contract_reports_text(rest),
            Seq::empty(),
            contract_report_text(reports.last()),
        );
    } else {
        lemma_part_of_itself(text);
        lemma_part_of_longer(text, text, contract_reports_text(rest), Seq::empty());
    }
}

proof fn lemma_count_lines(kinds: Seq<Seq<char>>, counts: KindCountsV, kind: Seq<char>)
    requires
        kinds.contains(kind),
    ensures
        is_part(
            "  "@ + kind + ": "@ + digits(counts[kind].len()) + " contract(s)\n"@,
            count_lines(kinds, counts),
        ),
    decreases kinds.len(),
{
    let rest = kinds.drop_last();
    let last = kinds.last();
    let line = "  "@ + kind + ": "@ + digits(counts[kind].len()) + " contract(s)\n"@;
    let last_line = "  "@ + last + ": "@ + digits(counts[last].len()) + " contract(s)\n"@;
    assert(count_lines(kinds, counts) =~= count_lines(rest, counts) + last_line);
    let k = choose|k: int| 0 <= k < kinds.len() && kinds[k] == kind;
    if k < rest.len() {
        assert(rest[k] == kind);
        lemma_count_lines(rest, counts, kind);
        lemma_part_of_longer(line, count_lines(rest, counts), Seq::empty(), last_line);
    } else {
        lemma_part_of_itself(line);
        lemma_part_of_longer(line, line, count_lines(rest, counts), Seq::empty());
    }
}

/// What is printed of an audit tells of every contract with findings: which it is, its
/// version and its epoch, and each finding; and of every kind that was found, in how
/// many contracts it was.
#[verifier::spinoff_prover]
#[verifier::rlimit(40)]
pub proof fn law_audits_are_told(
    chain_tip: Seq<char>,
    scanned: nat,
    not_at_tip: nat,
    reports: Seq<AuditReportV>,
    i: int,
    f: FindingV,
)
    requires
        0 <= i < reports.len(),
        reports[i].findings.finite(),
        reports[i].findings.contains(f),
        counts_of(reports).dom().finite(),
    ensures
        ({
            let text = audit_text(chain_tip, scanned, not_at_tip, reports);
            let kind = kind_text(f);
            &&& is_part(
                "\n"@ + contract_text(reports[i].contract) + " ("@ + reports[i].clarity_version
                    + ", "@ + reports[i].epoch + "):\n"@,
                text,
            )
            &&& is_part("  "@ + finding_text(f) + "\n"@, text)
            &&& is_part(
                "  "@ + kind + ": "@ + digits(counts_of(reports)[kind].len()) + " contract(s)\n"@,
                text,
            )
        }),
{
    let text = audit_text(chain_tip, scanned, not_at_tip, reports);
    let r = reports[i];
    let all = contract_reports_text(reports);
    let counts = counts_of(reports);
    let kinds = ascending::<String>(counts.dom());
    let lines = count_lines(kinds, counts);
    let heading = text.take(text.len() - all.len() - lines.len());
    assert(text =~= heading + lines + all);
    let none = Seq::<char>::empty();
    lemma_joined(none, none, heading, lines, all);
    assert(text =~= none + none + heading + lines + all);
    let list = ascending::<Finding>(r.findings);
    lemma_listed::<Finding>(r.findings);
    assert(list.to_set().contains(f));
    lemma_finding_lines(list, f);
    let line = "  "@ + finding_text(f) + "\n"@;
    let first = "\n"@ + contract_text(r.contract) + " ("@ + r.clarity_version + ", "@ + r.epoch
        + "):\n"@;
    let found = finding_lines(list);
    let own = contract_report_text(r);
    lemma_joined(none, none, none, first, found);
    assert(own =~= none + none + none + first + found);
    lemma_part_of_part(line, found, own);
    lemma_contract_reports(reports, i);
    lemma_part_of_part(line, own, all);
    lemma_part_of_part(first, own, all);
    lemma_part_of_part(line, all, text);
    lemma_part_of_part(first, all, text);
    let kind = kind_text(f);
    assert(finds(reports[i], kind));
    assert(counts.contains_key(kind));
    lemma_listed::<String>(counts.dom());
    assert(kinds.to_set().contains(kind));
    lemma_count_lines(kinds, counts, kind);
    lemma_part_of_part(
        "  "@ + kind + ": "@ + digits(counts[kind].len()) + " contract(s)\n"@,
        lines,
        text,
    );
}

/// A finding as JSON tells its kind and everything that it holds.
pub proof fn law_findings_are_told_as_json(f: FindingV)
    ensures
        has_field(finding_json(f), "kind"@, JsonV::Text(kind_text(f))),
        match f {
            FindingV::TupleKeyMismatch { a, b, result } => {
                &&& has_field(finding_json(f), "a"@, JsonV::Text(a))
                &&& has_field(finding_json(f), "b"@, JsonV::Text(b))
                &&& has_field(finding_json(f), "result"@, JsonV::Text(result))
            },
            FindingV::FoldInitialType { initial, result, unified, line, column } => {
                &&& has_field(finding_json(f), "initial"@, JsonV::Text(initial))
                &&& has_field(finding_json(f), "result"@, JsonV::Text(result))
                &&& unified matches Some(t) ==> has_field(
                    finding_json(f),
                    "unified"@,
                    JsonV::Text(t),
                )
                &&& unified is None ==> has_field(finding_json(f), "unified"@, JsonV::Null)
                &&& has_field(finding_json(f), "line"@, JsonV::Number(line as nat))
                &&& has_field(finding_json(f), "column"@, JsonV::Number(column as nat))
            },
            FindingV::MissingSource => true,
            FindingV::ParseError(e) => has_field(finding_json(f), "error"@, JsonV::Text(e)),
            FindingV::AnalysisError(e) => has_field(finding_json(f), "error"@, JsonV::Text(e)),
        },
{
    let fields = finding_json(f)->Object_0;
    assert(fields.contains(fields[0]));
    assert(fields.len() > 1 ==> fields.contains(fields[1]));
    assert(fields.len() > 2 ==> fields.contains(fields[2]));
    assert(fields.len() > 3 ==> fields.contains(fields[3]));
    assert(fields.len() > 4 ==> fields.contains(fields[4]));
    assert(fields.len() > 5 ==> fields.contains(fields[5]));
}

/// An audit as JSON tells the chain tip, how many contracts there are and which cannot
/// be seen, and of each contract with findings which it is, its version, its epoch and
/// each finding.
pub proof fn law_audits_are_told_as_json(
    chain_tip: Seq<char>,
    scanned: nat,
    not_at_tip: Seq<ContractIdV>,
    reports: Seq<AuditReportV>,
    r: AuditReportV,
)
    ensures
        ({
            let j = audit_json(chain_tip, scanned, not_at_tip, reports);
            &&& has_field(j, "chain_tip"@, JsonV::Text(chain_tip))
            &&& has_field(j, "contracts_found"@, JsonV::Number(scanned))
            &&& exists|list: JsonV| #[trigger]
                has_field(j, "contracts_not_at_tip"@, list) && lists(
                    list,
                    not_at_tip,
                    |id: ContractIdV| JsonV::Text(contract_text(id)),
                )
            &&& exists|list: JsonV| #[trigger]
                has_field(j, "contracts"@, list) && lists(
                    list,
                    reports,
                    |report: AuditReportV| contract_report_json(report),
                )
        }),
        has_field(
            contract_report_json(r),
            "contract"@,
            JsonV::Text(contract_text(r.contract)),
        ),
        has_field(contract_report_json(r), "clarity_version"@, JsonV::Text(r.clarity_version)),
        has_field(contract_report_json(r), "epoch"@, JsonV::Text(r.epoch)),
        exists|list: JsonV| #[trigger]
            has_field(contract_report_json(r), "findings"@, list) && lists(
                list,
                ascending::<Finding>(r.findings),
                |f: FindingV| finding_json(f),
            ),
{
    let j = audit_json(chain_tip, scanned, not_at_tip, reports);
    let fields = j->Object_0;
    assert(fields.contains(fields[0]) && fields.contains(fields[1]) && fields.contains(fields[2]));
    assert(fields.contains(fields[4]));
    assert(has_field(j, "contracts_not_at_tip"@, fields[2].1));
    assert(has_field(j, "contracts"@, fields[4].1));
    let own = contract_report_json(r);
    let inner = own->Object_0;
    assert(inner.contains(inner[0]) && inner.contains(inner[1]) && inner.contains(inner[2]));
    assert(inner.contains(inner[3]));
    assert(has_field(own, "findings"@, inner[3].1));
}

proof fn lemma_failure_lines(errors: Seq<(String, String)>, i: int)
    requires
        0 <= i < errors.len(),
    ensures
        is_part(
            "  Block "@ + errors[i].0@ + ": "@ + errors[i].1@ + "\n"@,
            failure_lines(errors),
        ),
    decreases errors.len(),
{
    let rest = errors.drop_last();
    let line = "  Block "@ + errors[i].0@ + ": "@ + errors[i].1@ + "\n"@;
    if i < rest.len() {
        lemma_failure_lines(rest, i);
        lemma_part_of_longer(
            line,
            failure_lines(rest),
            Seq::empty(),
            failure_line(errors.last()),
        );
    } else {
        lemma_part_of_itself(line);
        lemma_part_of_longer(line, line, failure_lines(rest), Seq::empty());
    }
}

/// What is printed of a run over blocks tells each block that failed and why, and that
/// all is well only where none did.
pub proof fn law_runs_are_told(errors: Seq<(String, String)>, total: nat, seconds: nat, i: int)
    ensures
        0 <= i < errors.len() ==> is_part(
            "  Block "@ + errors[i].0@ + ": "@ + errors[i].1@ + "\n"@,
            summary_text(errors, total, seconds),
        ) && is_part(
            "\nValidation completed with "@ + digits(errors.len()) + " error(s) found in "@
                + digits(seconds) + "s:\n"@,
            summary_text(errors, total, seconds),
        ),
        errors.len() == 0 ==> summary_text(errors, total, seconds) == "\nFinished validating "@
            + digits(total) + " blocks in "@ + digits(seconds) + "s\n"@,
{
    if 0 <= i < errors.len() {
        let line = "  Block "@ + errors[i].0@ + ": "@ + errors[i].1@ + "\n"@;
        let heading = "\nValidation completed with "@ + digits(errors.len())
            + " error(s) found in "@ + digits(seconds) + "s:\n"@;
        lemma_failure_lines(errors, i);
        lemma_part_of_longer(line, failure_lines(errors), heading, Seq::empty());
        lemma_part_of_itself(heading);
        lemma_part_of_longer(heading, heading, Seq::empty(), failure_lines(errors));
    }
}

/// Versions of the language are told apart.
pub proof fn law_versions_are_told_apart(a: ClarityVersion, b: ClarityVersion)
    ensures
        version_text(a) == version_text(b) <==> a == b,
        version_text(ClarityVersion::Clarity1) == "Clarity1"@,
        version_text(ClarityVersion::Clarity2) == "Clarity2"@,
        version_text(ClarityVersion::Clarity3) == "Clarity3"@,
        version_text(ClarityVersion::Clarity4) == "Clarity4"@,
{
    reveal_strlit("Clarity1");
    reveal_strlit("Clarity2");
    reveal_strlit("Clarity3");
    reveal_strlit("Clarity4");
    assert("Clarity1"@[7] == '1' && "Clarity2"@[7] == '2');
    assert("Clarity3"@[7] == '3' && "Clarity4"@[7] == '4');
}

proof fn lemma_call_lines(calls: Seq<CallV>, c: CallV)
    requires
        calls.contains(c),
    ensures
        is_part(
            "    - "@ + contract_ref_text(c.contract) + "."@ + c.function + "\n"@,
            call_lines(calls),
        ),
    decreases calls.len(),
{
    let rest = calls.drop_last();
    let line = "    - "@ + contract_ref_text(c.contract) + "."@ + c.function + "\n"@;
    let k = choose|k: int| 0 <= k < calls.len() && calls[k] == c;
    if k < rest.len() {
        assert(rest[k] == c);
        lemma_call_lines(rest, c);
        lemma_part_of_longer(line, call_lines(rest), Seq::empty(), call_line(calls.last()));
    } else {
        lemma_part_of_itself(line);
        lemma_part_of_longer(line, line, call_lines(rest), Seq::empty());
    }
}

/// Every call that is left has a line of its own; where none is left the section is left
/// out.
pub proof fn law_calls_are_told(calls: Set<CallV>, c: CallV)
    requires
        calls.finite(),
    ensures
        calls == Set::<CallV>::empty() ==> calls_section_text(calls) == ""@,
        calls.contains(c) ==> is_part(
            "    - "@ + contract_ref_text(c.contract) + "."@ + c.function + "\n"@,
            calls_section_text(calls),
        ),
{
    if calls.contains(c) {
        let list = ascending::<ContractCall>(calls);
        lemma_listed::<ContractCall>(calls);
        assert(list.to_set().contains(c));
        lemma_call_lines(list, c);
        lemma_part_of_longer(
            "    - "@ + contract_ref_text(c.contract) + "."@ + c.function + "\n"@,
            call_lines(list),
            "  contract-calls:\n"@,
            Seq::empty(),
        );
    }
}

/// A place in the storage of a contract is told as JSON by its kind and its name, and
/// the whole of it by nothing.
pub proof fn law_locations_are_told_as_json(name: NameV)
    ensures
        has_field(
            location_json(Some(LocationV::DataMap(name))),
            "DataMap"@,
            JsonV::Text(name),
        ),
        has_field(
            location_json(Some(LocationV::DataVar(name))),
            "DataVar"@,
            JsonV::Text(name),
        ),
        location_json(None) == JsonV::Null,
{
    let map = location_json(Some(LocationV::DataMap(name)))->Object_0;
    let var = location_json(Some(LocationV::DataVar(name)))->Object_0;
    assert(map.contains(map[0]) && var.contains(var[0]));
}

} // verus!
