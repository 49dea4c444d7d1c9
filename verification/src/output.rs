//! What is printed of contracts and transactions.

use vstd::prelude::*;

use crate::codes::option_view;
use crate::effects::{EffectsV, FunctionEffects, Functions, FunctionsV};
use crate::format::{
    calls_json, contract_calls_to_json, contract_ref_text, contract_text, effects_json,
    effects_section, field_views, format_contract, format_contract_reference, format_purity,
    function_effects_to_json, json_views, lemma_json_push, purity_text, put, section_text, Json,
    JsonV,
};
use crate::graph::{CallGraphEdge, EdgeV};
use crate::ordered::{ascending, views, Data, OrderedSet};
use crate::syntax::ClarityVersion;
use crate::text::{decimal, digits};
use crate::tx_report::{ReportV, TxEffectsReport};
use crate::types::{
    CallV, ClarityName, ContractCall, ContractIdV, NameV, QualifiedContractIdentifier,
};

verus! {

/// The name of a version of the language.
pub open spec fn version_text(version: ClarityVersion) -> Seq<char> {
    match version {
        ClarityVersion::Clarity1 => "Clarity1"@,
        ClarityVersion::Clarity2 => "Clarity2"@,
        ClarityVersion::Clarity3 => "Clarity3"@,
        ClarityVersion::Clarity4 => "Clarity4"@,
    }
}

/// The name of a version of the language.
pub fn format_clarity_version(version: ClarityVersion) -> (s: &'static str)
    ensures
        s@ == version_text(version),
{
    match version {
        ClarityVersion::Clarity1 => "Clarity1",
        ClarityVersion::Clarity2 => "Clarity2",
        ClarityVersion::Clarity3 => "Clarity3",
        ClarityVersion::Clarity4 => "Clarity4",
    }
}

/// The line for a call.
pub open spec fn call_line(call: CallV) -> Seq<char> {
    "    - "@ + contract_ref_text(call.contract) + "."@ + call.function + "\n"@
}

/// One line for each call.
pub open spec fn call_lines(calls: Seq<CallV>) -> Seq<char>
    decreases calls.len(),
{
    if calls.len() == 0 {
        ""@
    } else {
        call_lines(calls.drop_last()) + call_line(calls.last())
    }
}

/// The section on the calls of a function; nothing where there is no call.
pub open spec fn calls_section_text(calls: Set<CallV>) -> Seq<char> {
    if calls == Set::<CallV>::empty() {
        ""@
    } else {
        "  contract-calls:\n"@ + call_lines(ascending::<ContractCall>(calls))
    }
}

/// What is printed of a function.
pub open spec fn function_text(name: NameV, fx: EffectsV) -> Seq<char> {
    "\nFunction "@ + name + " ("@ + purity_text(fx.purity) + ")\n"@ + section_text(
        "reads"@,
        fx.reads,
    ) + section_text("writes"@, fx.writes) + calls_section_text(fx.contract_calls)
}

/// What is printed of functions, one after another.
pub open spec fn functions_text(names: Seq<NameV>, functions: FunctionsV) -> Seq<char>
    decreases names.len(),
{
    if names.len() == 0 {
        ""@
    } else {
        functions_text(names.drop_last(), functions) + function_text(
            names.last(),
            functions[names.last()],
        )
    }
}

/// What is printed of the effects of a contract.
pub open spec fn contract_effects_text(
    contract: ContractIdV,
    version: ClarityVersion,
    functions: FunctionsV,
) -> Seq<char> {
    "Contract: "@ + contract_text(contract) + "\nClarity version: "@ + version_text(version)
        + "\n"@ + functions_text(ascending::<ClarityName>(functions.dom()), functions)
}

fn format_call_line(call: &ContractCall) -> (s: String)
    ensures
        s@ == call_line(call@),
{
    let mut s = "    - ".to_string();
    s.append(format_contract_reference(&call.contract).as_str());
    s.append(".");
    s.append(call.function.as_str());
    s.append("\n");
    s
}

/// Writes the section on the calls of a function.
fn calls_section(calls: &OrderedSet<ContractCall>) -> (s: String)
    ensures
        s@ == calls_section_text(calls@),
{
    if calls.is_empty() {
        return "".to_string();
    }
    let mut s = "  contract-calls:\n".to_string();
    let ghost heading = s@;
    let n = calls.len();
    let ghost all = calls.in_order();
    let mut i: usize = 0;
    proof {
        reveal_strlit("");
        assert(s@ =~= heading + call_lines(all.take(0)));
    }
    while i < n
        invariant
            i <= n,
            n == all.len(),
            all == calls.in_order(),
            s@ == heading + call_lines(all.take(i as int)),
        decreases n - i,
    {
        s.append(format_call_line(calls.get(i)).as_str());
        proof {
            assert(all.take(i + 1).drop_last() =~= all.take(i as int));
            assert(s@ =~= heading + call_lines(all.take(i + 1)));
        }
        i = i + 1;
    }
    assert(all.take(n as int) =~= all);
    s
}

fn format_function(name: &ClarityName, effects: &FunctionEffects) -> (s: String)
    ensures
        s@ == function_text(name@, effects@),
{
    let mut s = "\nFunction ".to_string();
    s.append(name.as_str());
    s.append(" (");
    s.append(format_purity(effects.purity));
    s.append(")\n");
    s.append(effects_section("reads", &effects.reads).as_str());
    s.append(effects_section("writes", &effects.writes).as_str());
    s.append(calls_section(&effects.contract_calls).as_str());
    s
}

/// Writes the effects of a contract for people.
pub fn format_contract_effects(
    contract_id: &QualifiedContractIdentifier,
    clarity_version: ClarityVersion,
    functions: &Functions,
) -> (s: String)
    ensures
        s@ == contract_effects_text(contract_id@, clarity_version, functions@),
{
    let mut s = "Contract: ".to_string();
    s.append(format_contract(contract_id).as_str());
    s.append("\nClarity version: ");
    s.append(format_clarity_version(clarity_version));
    s.append("\n");
    let ghost heading = s@;
    let n = functions.len();
    let ghost names = functions.keys_in_order();
    let mut i: usize = 0;
    proof {
        reveal_strlit("");
        assert(s@ =~= heading + functions_text(names.take(0), functions@));
    }
    while i < n
        invariant
            i <= n,
            n == names.len(),
            names == functions.keys_in_order(),
            s@ == heading + functions_text(names.take(i as int), functions@),
        decreases n - i,
    {
        s.append(format_function(functions.key(i), functions.value(i)).as_str());
        proof {
            assert(names.take(i + 1).drop_last() =~= names.take(i as int));
            assert(s@ =~= heading + functions_text(names.take(i + 1), functions@));
        }
        i = i + 1;
    }
    assert(names.take(n as int) =~= names);
    s
}

/// The effects of functions as the fields of an object.
pub open spec fn effects_fields(names: Seq<NameV>, functions: FunctionsV) -> Seq<
    (Seq<char>, JsonV),
> {
    names.map_values(|name: NameV| (name, effects_json(functions[name])))
}

/// The calls of functions as the fields of an object.
pub open spec fn calls_fields(names: Seq<NameV>, functions: FunctionsV) -> Seq<
    (Seq<char>, JsonV),
> {
    names.map_values(|name: NameV| (name, calls_json(functions[name].contract_calls)))
}

/// The effects of a contract as JSON, with the calls as they were before any of
/// them was replaced by its effects.
pub open spec fn contract_effects_json(
    contract: ContractIdV,
    version: ClarityVersion,
    functions: FunctionsV,
    raw: FunctionsV,
) -> JsonV {
    JsonV::Object(
        seq![
            ("contract"@, JsonV::Text(contract_text(contract))),
            ("clarity_version"@, JsonV::Text(version_text(version))),
            (
                "effects"@,
                JsonV::Object(
                    effects_fields(ascending::<ClarityName>(functions.dom()), functions),
                ),
            ),
            (
                "calls"@,
                JsonV::Object(calls_fields(ascending::<ClarityName>(raw.dom()), raw)),
            ),
        ],
    )
}

fn effects_to_fields(functions: &Functions) -> (r: Vec<(String, Json)>)
    ensures
        field_views(r@) == effects_fields(
            ascending::<ClarityName>(functions@.dom()),
            functions@,
        ),
{
    let n = functions.len();
    let ghost names = functions.keys_in_order();
    let mut r: Vec<(String, Json)> = Vec::new();
    let mut i: usize = 0;
    assert(field_views(r@) =~= effects_fields(names.take(0), functions@));
    while i < n
        invariant
            i <= n,
            n == names.len(),
            names == functions.keys_in_order(),
            field_views(r@) == effects_fields(names.take(i as int), functions@),
        decreases n - i,
    {
        put(&mut r, functions.key(i).as_str(), function_effects_to_json(functions.value(i)));
        proof {
            assert(effects_fields(names.take(i + 1), functions@) =~= effects_fields(
                names.take(i as int),
                functions@,
            ).push((names[i as int], effects_json(functions@[names[i as int]]))));
        }
        i = i + 1;
    }
    assert(names.take(n as int) =~= names);
    r
}

fn calls_to_fields(functions: &Functions) -> (r: Vec<(String, Json)>)
    ensures
        field_views(r@) == calls_fields(ascending::<ClarityName>(functions@.dom()), functions@),
{
    let n = functions.len();
    let ghost names = functions.keys_in_order();
    let mut r: Vec<(String, Json)> = Vec::new();
    let mut i: usize = 0;
    assert(field_views(r@) =~= calls_fields(names.take(0), functions@));
    while i < n
        invariant
            i <= n,
            n == names.len(),
            names == functions.keys_in_order(),
            field_views(r@) == calls_fields(names.take(i as int), functions@),
        decreases n - i,
    {
        put(
            &mut r,
            functions.key(i).as_str(),
            contract_calls_to_json(&functions.value(i).contract_calls),
        );
        proof {
            assert(calls_fields(names.take(i + 1), functions@) =~= calls_fields(
                names.take(i as int),
                functions@,
            ).push((names[i as int], calls_json(functions@[names[i as int]].contract_calls))));
        }
        i = i + 1;
    }
    assert(names.take(n as int) =~= names);
    r
}

/// The effects of a contract as JSON.
pub fn contract_effects_to_json(
    contract_id: &QualifiedContractIdentifier,
    clarity_version: ClarityVersion,
    functions: &Functions,
    raw: &Functions,
) -> (j: Json)
    ensures
        j@ == contract_effects_json(contract_id@, clarity_version, functions@, raw@),
{
    let mut fields: Vec<(String, Json)> = Vec::new();
    put(&mut fields, "contract", Json::Text(format_contract(contract_id)));
    put(
        &mut fields,
        "clarity_version",
        Json::Text(format_clarity_version(clarity_version).to_string()),
    );
    put(&mut fields, "effects", Json::Object(effects_to_fields(functions)));
    put(&mut fields, "calls", Json::Object(calls_to_fields(raw)));
    assert(JsonV::Object(field_views(fields@)) == contract_effects_json(
        contract_id@,
        clarity_version,
        functions@,
        raw@,
    )) by {
        assert(field_views(fields@) =~= seq![
            ("contract"@, JsonV::Text(contract_text(contract_id@))),
            ("clarity_version"@, JsonV::Text(version_text(clarity_version))),
            (
                "effects"@,
                JsonV::Object(
                    effects_fields(ascending::<ClarityName>(functions@.dom()), functions@),
                ),
            ),
            (
                "calls"@,
                JsonV::Object(calls_fields(ascending::<ClarityName>(raw@.dom()), raw@)),
            ),
        ]);
    }
    Json::Object(fields)
}

/// The line for an edge of a call graph.
pub open spec fn edge_line(e: EdgeV) -> Seq<char> {
    "    - "@ + contract_text(e.from_contract) + "."@ + e.from_function + " -> "@
        + contract_ref_text(e.to_contract) + "."@ + e.to_function + "\n"@
}

/// One line for each edge of a call graph.
pub open spec fn edge_lines(edges: Seq<EdgeV>) -> Seq<char>
    decreases edges.len(),
{
    if edges.len() == 0 {
        ""@
    } else {
        edge_lines(edges.drop_last()) + edge_line(edges.last())
    }
}

/// The line that names a transaction, and the block it is in if that is known.
pub open spec fn txid_line(txid: Seq<char>, block: Option<Seq<char>>) -> Seq<char> {
    match block {
        None => "Txid: "@ + txid + "\n"@,
        Some(block) => "Txid: "@ + txid + " (block "@ + block + ")\n"@,
    }
}

/// What is printed of a note.
pub open spec fn note_text(note: Option<Seq<char>>) -> Seq<char> {
    match note {
        Some(note) => "Note: "@ + note + "\n"@,
        None => ""@,
    }
}

/// What is printed of the effects of a transaction.
pub open spec fn tx_effects_text(report: ReportV) -> Seq<char> {
    match report.effects {
        Some(fx) => section_text("reads"@, fx.reads) + section_text("writes"@, fx.writes) + (
        if report.unresolved_contract_calls > 0 {
            "  unresolved contract calls: "@ + digits(report.unresolved_contract_calls) + "\n"@
        } else {
            ""@
        }),
        None => ""@,
    }
}

/// What is printed of a call graph.
pub open spec fn graph_text(edges: Seq<EdgeV>, show: bool) -> Seq<char> {
    if show && edges.len() > 0 {
        "  call-graph (might-call):\n"@ + edge_lines(edges)
    } else {
        ""@
    }
}

/// What is printed of a report on a transaction.
pub open spec fn report_text(report: ReportV, block: Option<Seq<char>>, show_graph: bool) -> Seq<
    char,
> {
    txid_line(report.txid, block) + "Type: "@ + report.label + "\n"@ + note_text(report.note)
        + tx_effects_text(report) + graph_text(report.call_graph, show_graph)
}

fn txid_heading(txid: &String, block: Option<&str>) -> (s: String)
    ensures
        s@ == txid_line(
            txid@,
            match block {
                Some(block) => Some(block@),
                None => None,
            },
        ),
{
    let mut s = "Txid: ".to_string();
    s.append(txid.as_str());
    if let Some(block) = block {
        s.append(" (block ");
        s.append(block);
        s.append(")\n");
    } else {
        s.append("\n");
    }
    s
}

fn tx_effects(report: &TxEffectsReport) -> (s: String)
    ensures
        s@ == tx_effects_text(report@),
{
    match &report.effects {
        Some(effects) => {
            let mut s = effects_section("reads", &effects.reads);
            s.append(effects_section("writes", &effects.writes).as_str());
            let mut unresolved = "".to_string();
            if report.unresolved_contract_calls > 0 {
                unresolved = "  unresolved contract calls: ".to_string();
                unresolved.append(decimal(report.unresolved_contract_calls as u128).as_str());
                unresolved.append("\n");
            }
            s.append(unresolved.as_str());
            s
        },
        None => "".to_string(),
    }
}

fn format_edge_line(edge: &CallGraphEdge) -> (s: String)
    ensures
        s@ == edge_line(edge@),
{
    let mut s = "    - ".to_string();
    s.append(format_contract(&edge.from_contract).as_str());
    s.append(".");
    s.append(edge.from_function.as_str());
    s.append(" -> ");
    s.append(format_contract_reference(&edge.to_contract).as_str());
    s.append(".");
    s.append(edge.to_function.as_str());
    s.append("\n");
    s
}

fn graph_section(edges: &Vec<CallGraphEdge>, show: bool) -> (s: String)
    ensures
        s@ == graph_text(views(edges@), show),
{
    if !show || edges.len() == 0 {
        return "".to_string();
    }
    let mut s = "  call-graph (might-call):\n".to_string();
    let ghost heading = s@;
    let ghost all = views(edges@);
    let mut i: usize = 0;
    proof {
        reveal_strlit("");
        assert(s@ =~= heading + edge_lines(all.take(0)));
    }
    while i < edges.len()
        invariant
            i <= edges.len(),
            all == views(edges@),
            s@ == heading + edge_lines(all.take(i as int)),
        decreases edges.len() - i,
    {
        let edge = &edges[i];
        s.append(format_edge_line(edge).as_str());
        proof {
            assert(all.take(i + 1).drop_last() =~= all.take(i as int));
            assert(all.take(i + 1).last() == edge@);
            assert(s@ =~= heading + edge_lines(all.take(i + 1)));
        }
        i = i + 1;
    }
    assert(all.take(all.len() as int) =~= all);
    s
}

fn format_report(report: &TxEffectsReport, block: Option<&str>, show_graph: bool) -> (s: String)
    ensures
        s@ == report_text(
            report@,
            match block {
                Some(block) => Some(block@),
                None => None,
            },
            show_graph,
        ),
{
    let mut s = txid_heading(&report.txid, block);
    s.append("Type: ");
    s.append(report.label.as_str());
    s.append("\n");
    let mut note_line = "".to_string();
    if let Some(note) = &report.note {
        note_line = "Note: ".to_string();
        note_line.append(note.as_str());
        note_line.append("\n");
    }
    s.append(note_line.as_str());
    s.append(tx_effects(report).as_str());
    s.append(graph_section(&report.call_graph, show_graph).as_str());
    s
}

/// Writes a report on a transaction for people.
pub fn format_tx_effects_report(report: &TxEffectsReport, show_graph: bool) -> (s: String)
    ensures
        s@ == report_text(report@, None, show_graph),
{
    format_report(report, None, show_graph)
}

/// Writes a report on a transaction of a block for people.
pub fn format_txid_effects_report(
    report: &TxEffectsReport,
    index_block_hash: &str,
    show_graph: bool,
) -> (s: String)
    ensures
        s@ == report_text(report@, Some(index_block_hash@), show_graph),
{
    format_report(report, Some(index_block_hash), show_graph)
}

/// An edge of a call graph as JSON.
pub open spec fn edge_json(e: EdgeV) -> JsonV {
    JsonV::Object(
        seq![
            ("from_contract"@, JsonV::Text(contract_text(e.from_contract))),
            ("from_function"@, JsonV::Text(e.from_function)),
            ("to_contract"@, JsonV::Text(contract_ref_text(e.to_contract))),
            ("to_function"@, JsonV::Text(e.to_function)),
            ("certainty"@, JsonV::Text(e.certainty)),
        ],
    )
}

/// A text, or nothing, as JSON.
pub open spec fn optional_text_json(s: Option<Seq<char>>) -> JsonV {
    match s {
        Some(s) => JsonV::Text(s),
        None => JsonV::Null,
    }
}

/// Texts, or nothing, as JSON.
pub open spec fn optional_texts_json(s: Option<Seq<Seq<char>>>) -> JsonV {
    match s {
        Some(s) => JsonV::List(s.map_values(|t: Seq<char>| JsonV::Text(t))),
        None => JsonV::Null,
    }
}

/// The fields of a report that follow those that name the transaction.
pub open spec fn report_fields(report: ReportV) -> Seq<(Seq<char>, JsonV)> {
    seq![
        ("label"@, JsonV::Text(report.label)),
        (
            "effects"@,
            match report.effects {
                Some(fx) => effects_json(fx),
                None => JsonV::Null,
            },
        ),
        ("unresolved_contract_calls"@, JsonV::Number(report.unresolved_contract_calls)),
        ("note"@, optional_text_json(report.note)),
        ("call_graph"@, JsonV::List(report.call_graph.map_values(|e: EdgeV| edge_json(e)))),
        ("call_contract"@, optional_text_json(report.call_contract)),
        ("call_function"@, optional_text_json(report.call_function)),
        ("call_args"@, optional_texts_json(report.call_args)),
    ]
}

/// A report on a transaction as JSON, with the block it is in if that is known.
pub open spec fn report_json(report: ReportV, block: Option<Seq<char>>) -> JsonV {
    let txid = ("txid"@, JsonV::Text(report.txid));
    JsonV::Object(
        match block {
            None => seq![txid] + report_fields(report),
            Some(block) => seq![txid, ("index_block_hash"@, JsonV::Text(block))] + report_fields(
                report,
            ),
        },
    )
}

fn edge_to_json(edge: &CallGraphEdge) -> (j: Json)
    ensures
        j@ == edge_json(edge@),
{
    let mut fields: Vec<(String, Json)> = Vec::new();
    put(&mut fields, "from_contract", Json::Text(format_contract(&edge.from_contract)));
    put(&mut fields, "from_function", Json::Text(edge.from_function.duplicate()));
    put(&mut fields, "to_contract", Json::Text(format_contract_reference(&edge.to_contract)));
    put(&mut fields, "to_function", Json::Text(edge.to_function.duplicate()));
    put(&mut fields, "certainty", Json::Text(edge.certainty.to_string()));
    assert(JsonV::Object(field_views(fields@)) == edge_json(edge@)) by {
        assert(field_views(fields@) =~= seq![
            ("from_contract"@, JsonV::Text(contract_text(edge@.from_contract))),
            ("from_function"@, JsonV::Text(edge@.from_function)),
            ("to_contract"@, JsonV::Text(contract_ref_text(edge@.to_contract))),
            ("to_function"@, JsonV::Text(edge@.to_function)),
            ("certainty"@, JsonV::Text(edge@.certainty)),
        ]);
    }
    Json::Object(fields)
}

fn edges_to_json(edges: &Vec<CallGraphEdge>) -> (j: Json)
    ensures
        j@ == JsonV::List(views(edges@).map_values(|e: EdgeV| edge_json(e))),
{
    let ghost all = views(edges@);
    let ghost f = |e: EdgeV| edge_json(e);
    let mut list: Vec<Json> = Vec::new();
    let mut i: usize = 0;
    assert(json_views(list@) =~= all.take(0).map_values(f));
    while i < edges.len()
        invariant
            i <= edges.len(),
            all == views(edges@),
            f == (|e: EdgeV| edge_json(e)),
            json_views(list@) == all.take(i as int).map_values(f),
        decreases edges.len() - i,
    {
        let entry = edge_to_json(&edges[i]);
        proof {
            lemma_json_push(list@, entry);
            assert(all.take(i + 1).map_values(f) =~= all.take(i as int).map_values(f).push(
                f(all[i as int]),
            ));
        }
        list.push(entry);
        i = i + 1;
    }
    assert(all.take(all.len() as int) =~= all);
    Json::List(list)
}

/// A text, or nothing, as JSON.
pub fn optional_text(s: &Option<String>) -> (j: Json)
    ensures
        j@ == optional_text_json(option_view(*s)),
{
    match s {
        Some(s) => Json::Text(s.duplicate()),
        None => Json::Null,
    }
}

/// Texts as JSON.
pub fn texts_to_json(v: &Vec<String>) -> (j: Json)
    ensures
        j@ == JsonV::List(views(v@).map_values(|t: Seq<char>| JsonV::Text(t))),
{
    let ghost all = views(v@);
    let ghost f = |t: Seq<char>| JsonV::Text(t);
    let mut list: Vec<Json> = Vec::new();
    let mut i: usize = 0;
    assert(json_views(list@) =~= all.take(0).map_values(f));
    while i < v.len()
        invariant
            i <= v.len(),
            all == views(v@),
            f == (|t: Seq<char>| JsonV::Text(t)),
            json_views(list@) == all.take(i as int).map_values(f),
        decreases v.len() - i,
    {
        let entry = Json::Text(v[i].duplicate());
        proof {
            lemma_json_push(list@, entry);
            assert(all.take(i + 1).map_values(f) =~= all.take(i as int).map_values(f).push(
                f(all[i as int]),
            ));
        }
        list.push(entry);
        i = i + 1;
    }
    assert(all.take(all.len() as int) =~= all);
    Json::List(list)
}

fn report_to_json(report: &TxEffectsReport, block: Option<&str>) -> (j: Json)
    ensures
        j@ == report_json(
            report@,
            match block {
                Some(block) => Some(block@),
                None => None,
            },
        ),
{
    let ghost shown: Option<Seq<char>> = match block {
        Some(block) => Some(block@),
        None => None,
    };
    let mut fields: Vec<(String, Json)> = Vec::new();
    put(&mut fields, "txid", Json::Text(report.txid.duplicate()));
    if let Some(block) = block {
        put(&mut fields, "index_block_hash", Json::Text(block.to_string()));
    }
    let ghost start = field_views(fields@);
    put(&mut fields, "label", Json::Text(report.label.duplicate()));
    put(
        &mut fields,
        "effects",
        match &report.effects {
            Some(effects) => function_effects_to_json(effects),
            None => Json::Null,
        },
    );
    put(
        &mut fields,
        "unresolved_contract_calls",
        Json::Number(report.unresolved_contract_calls as u64),
    );
    put(&mut fields, "note", optional_text(&report.note));
    put(&mut fields, "call_graph", edges_to_json(&report.call_graph));
    put(&mut fields, "call_contract", optional_text(&report.call_contract));
    put(&mut fields, "call_function", optional_text(&report.call_function));
    put(
        &mut fields,
        "call_args",
        match &report.call_args {
            Some(args) => texts_to_json(args),
            None => Json::Null,
        },
    );
    proof {
        assert(field_views(fields@) =~= start + report_fields(report@));
        match shown {
            None => {
                assert(start =~= seq![("txid"@, JsonV::Text(report@.txid))]);
            },
            Some(block) => {
                assert(start =~= seq![
                    ("txid"@, JsonV::Text(report@.txid)),
                    ("index_block_hash"@, JsonV::Text(block)),
                ]);
            },
        }
    }
    Json::Object(fields)
}

/// A report on a transaction as JSON.
pub fn tx_effects_report_to_json(report: &TxEffectsReport) -> (j: Json)
    ensures
        j@ == report_json(report@, None),
{
    report_to_json(report, None)
}

/// A report on a transaction of a block as JSON.
pub fn txid_effects_report_to_json(report: &TxEffectsReport, index_block_hash: &str) -> (j: Json)
    ensures
        j@ == report_json(report@, Some(index_block_hash@)),
{
    report_to_json(report, Some(index_block_hash))
}

} // verus!
