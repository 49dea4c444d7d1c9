//! What a transaction does, and the report on it.

use vstd::prelude::*;

use crate::analyzer::EffectsAnalyzer;
use crate::codes::option_view;
use crate::contracts::{
    collect_contract_effects_recursive, finite_store, load_contract_effects, loaded, reached,
    resolve_contract_calls_across_contracts, resolved_across, ContractStore, LoadStop, LookupV,
    StopV, StoreV,
};
use crate::deployment::{deploy_effects, first_invalid};
use crate::effects::{
    contract_args, Contracts, ContractsV, EffectsV, FunctionEffects, Functions, FunctionsV,
};
use crate::following::{accesses, law_calls_across_contracts_are_followed, leads_to_access};
use crate::format::{contract_text, format_contract, format_principal, principal_text};
use crate::graph::{build_contract_call_graph, searched, CallGraphEdge, EdgeV};
use crate::ordered::{views, Data, OrderedMap};
use crate::syntax::{ContractAnalysis, StaticCheckError};
use crate::transaction::{
    apply_tx_prereqs, balance, coinbase_effects, coinbase_paid, contract_argument,
    contract_deploy_identifier, contract_with_args, deployed_contract, effects_in_tx,
    effects_with_args, extract_contract_arg, extract_principal_arg, impure,
    law_principals_are_resolved, nonce, origin_of, origin_principal, payer_of, principal_args,
    principal_argument, principal_in_tx, principal_of, principal_with_args,
    resolve_contract_reference, resolve_principal_effects, resolve_well_known_principals, retarget,
    stx_transfer_effects, tenure_change_effects, transfer_effects, with_prereqs, CallArgument, StacksTransaction, TransactionContractCall, TransactionPayload,
};
use crate::types::{
    ChainReadV, ClarityName, ContractIdV, FunctionRefV, NameV, PrincipalData, PrincipalRefV,
    PrincipalV, QualifiedContractIdentifier, TargetV,
};

verus! {

/// What a transaction does, as far as it can be told.
#[derive(Debug)]
pub struct TxEffectsReport {
    pub txid: String,
    pub label: String,
    pub effects: Option<FunctionEffects>,
    pub unresolved_contract_calls: usize,
    /// Why the effects are missing.
    pub note: Option<String>,
    pub call_graph: Vec<CallGraphEdge>,
    pub call_contract: Option<String>,
    pub call_function: Option<String>,
    pub call_args: Option<Vec<String>>,
}

#[verifier::ext_equal]
pub ghost struct ReportV {
    pub txid: Seq<char>,
    pub label: Seq<char>,
    pub effects: Option<EffectsV>,
    pub unresolved_contract_calls: nat,
    pub note: Option<Seq<char>>,
    pub call_graph: Seq<EdgeV>,
    pub call_contract: Option<Seq<char>>,
    pub call_function: Option<Seq<char>>,
    pub call_args: Option<Seq<Seq<char>>>,
}

/// The texts of a list.
pub open spec fn texts(v: Option<Vec<String>>) -> Option<Seq<Seq<char>>> {
    match v {
        Some(v) => Some(views(v@)),
        None => None,
    }
}

impl View for TxEffectsReport {
    type V = ReportV;

    open spec fn view(&self) -> ReportV {
        ReportV {
            txid: self.txid@,
            label: self.label@,
            effects: option_view(self.effects),
            unresolved_contract_calls: self.unresolved_contract_calls as nat,
            note: option_view(self.note),
            call_graph: views(self.call_graph@),
            call_contract: option_view(self.call_contract),
            call_function: option_view(self.call_function),
            call_args: texts(self.call_args),
        }
    }
}

/// What parsing and analyzing a contract that is about to be deployed gave.
#[derive(Debug)]
pub enum DeployOutcome {
    /// It has not been done yet.
    Pending,
    ParseFailed(String),
    AnalysisFailed(String),
    Analyzed(ContractAnalysis),
}

/// What has to be done before a transaction can be reported on.
#[derive(Debug, Clone, PartialEq, Eq)]
pub enum TxStop {
    /// This contract has to be read.
    Unread(QualifiedContractIdentifier),
    /// The deployed contract has to be analyzed under this identifier.
    Unanalyzed(QualifiedContractIdentifier),
    /// Nothing helps: replacing calls by their effects came to no end.
    Unsettled,
}

pub ghost enum TxStopV {
    Unread(ContractIdV),
    Unanalyzed(ContractIdV),
    Unsettled,
}

impl View for TxStop {
    type V = TxStopV;

    open spec fn view(&self) -> TxStopV {
        match self {
            TxStop::Unread(id) => TxStopV::Unread(id@),
            TxStop::Unanalyzed(id) => TxStopV::Unanalyzed(id@),
            TxStop::Unsettled => TxStopV::Unsettled,
        }
    }
}

/// A transaction in a few words.
pub open spec fn label_of(tx: StacksTransaction) -> Seq<char> {
    match tx.payload {
        TransactionPayload::ContractCall(call) => "contract-call "@ + contract_text(call.contract@)
            + "."@ + call.function_name@,
        TransactionPayload::SmartContract(contract, _) => "deploy "@ + contract.name@,
        TransactionPayload::TokenTransfer { recipient } => "stx-transfer "@ + principal_text(
            recipient@,
        ),
        _ => tx.payload_name@,
    }
}

/// A transaction in a few words.
pub fn tx_label(tx: &StacksTransaction) -> (s: String)
    ensures
        s@ == label_of(*tx),
{
    match &tx.payload {
        TransactionPayload::ContractCall(call) => {
            let mut s = "contract-call ".to_string();
            s.append(format_contract(&call.contract).as_str());
            s.append(".");
            s.append(call.function_name.as_str());
            s
        },
        TransactionPayload::SmartContract(contract, _) => {
            let mut s = "deploy ".to_string();
            s.append(contract.name.as_str());
            s
        },
        TransactionPayload::TokenTransfer { recipient } => {
            let mut s = "stx-transfer ".to_string();
            s.append(format_principal(recipient).as_str());
            s
        },
        _ => tx.payload_name.duplicate(),
    }
}

/// The contract, the function and the arguments of a call, as they are reported.
pub ghost struct CalledV {
    pub contract: Option<Seq<char>>,
    pub function: Option<Seq<char>>,
    pub args: Option<Seq<Seq<char>>>,
}

/// What is reported of the call of a transaction, if it is one.
pub open spec fn called_by(tx: StacksTransaction) -> CalledV {
    match tx.payload {
        TransactionPayload::ContractCall(call) => CalledV {
            contract: Some(contract_text(call.contract@)),
            function: Some(call.function_name@),
            args: Some(
                Seq::new(call.function_args@.len(), |i: int| call.function_args@[i].text@),
            ),
        },
        _ => CalledV { contract: None, function: None, args: None },
    }
}

/// A report without effects, and the reason for that.
pub open spec fn noted(tx: StacksTransaction, note: Seq<char>, graph: Seq<EdgeV>) -> ReportV {
    ReportV {
        txid: tx.txid@,
        label: label_of(tx),
        effects: None,
        unresolved_contract_calls: 0,
        note: Some(note),
        call_graph: graph,
        call_contract: called_by(tx).contract,
        call_function: called_by(tx).function,
        call_args: called_by(tx).args,
    }
}

/// A report on effects, to which those are added that every transaction has.
pub open spec fn done(tx: StacksTransaction, fx: EffectsV, graph: Seq<EdgeV>) -> ReportV {
    ReportV {
        txid: tx.txid@,
        label: label_of(tx),
        effects: Some(with_prereqs(fx, tx)),
        unresolved_contract_calls: fx.contract_calls.len(),
        note: None,
        call_graph: graph,
        call_contract: called_by(tx).contract,
        call_function: called_by(tx).function,
        call_args: called_by(tx).args,
    }
}

/// The contracts that arguments name.
pub open spec fn contracts_passed(call: TransactionContractCall) -> Seq<Option<ContractIdV>> {
    Seq::new(
        call.function_args@.len(),
        |i: int| contract_argument(call.function_args@[i].value),
    )
}

/// The principals that arguments are.
pub open spec fn principals_passed(call: TransactionContractCall) -> Seq<Option<PrincipalV>> {
    Seq::new(
        call.function_args@.len(),
        |i: int| principal_argument(call.function_args@[i].value),
    )
}

/// The contracts that calls lead to; none where one of them could not be read.
pub open spec fn reached_or_none(
    root: ContractIdV,
    functions: FunctionsV,
    store: StoreV,
) -> Result<ContractsV, StopV> {
    match reached(root, functions, store) {
        Ok(contracts) => Ok(contracts),
        Err(StopV::Failed(_)) => Ok(Map::empty()),
        Err(stop) => Err(stop),
    }
}

/// The call graph of a function, if it is asked for.
pub open spec fn graph_if(
    wanted: bool,
    root: ContractIdV,
    function: NameV,
    contracts: ContractsV,
) -> Seq<EdgeV> {
    if wanted {
        searched(contracts, seq![FunctionRefV { contract: root, function }], Set::empty())
    } else {
        Seq::empty()
    }
}

/// An edge with the contract in place of a reference to an argument.
pub open spec fn edge_with_args(e: EdgeV, args: Seq<Option<ContractIdV>>) -> EdgeV {
    EdgeV { to_contract: contract_with_args(e.to_contract, args), ..e }
}

/// Edges with the contracts in place of references to arguments.
pub open spec fn edges_with_args(
    edges: Seq<EdgeV>,
    args: Seq<Option<ContractIdV>>,
) -> Seq<EdgeV> {
    edges.map_values(|e: EdgeV| edge_with_args(e, args))
}

/// Where reading contracts stopped, as a stop of the report.
pub open spec fn tx_stop(stop: StopV) -> TxStopV {
    match stop {
        StopV::Unread(id) => TxStopV::Unread(id),
        _ => TxStopV::Unsettled,
    }
}

/// The report on a call of a contract.
pub open spec fn call_report(
    tx: StacksTransaction,
    call: TransactionContractCall,
    include_graph: bool,
    store: StoreV,
) -> Result<ReportV, TxStopV> {
    let id = call.contract@;
    let args = contracts_passed(call);
    match loaded(id, Map::empty(), store) {
        Err(StopV::Failed(message)) => Ok(noted(tx, message, Seq::empty())),
        Err(stop) => Err(tx_stop(stop)),
        Ok(None) => Ok(noted(tx, "missing contract source"@, Seq::empty())),
        Ok(Some(loaded_contracts)) => {
            let functions = loaded_contracts[id];
            if !functions.contains_key(call.function_name@) {
                Ok(noted(tx, "missing function analysis"@, Seq::empty()))
            } else {
                match reached_or_none(id, functions, store) {
                    Err(stop) => Err(tx_stop(stop)),
                    Ok(contracts) => {
                        let graph = edges_with_args(
                            graph_if(include_graph, id, call.function_name@, contracts),
                            args,
                        );
                        match resolved_across(
                            functions[call.function_name@],
                            args,
                            contracts,
                            store,
                        ) {
                            Err(StopV::Failed(message)) => Ok(noted(tx, message, graph)),
                            Err(stop) => Err(tx_stop(stop)),
                            Ok((fx, _)) => Ok(
                                done(
                                    tx,
                                    effects_in_tx(
                                        effects_with_args(fx, principals_passed(call)),
                                        origin_of(tx),
                                        id,
                                    ),
                                    graph,
                                ),
                            ),
                        }
                    },
                }
            }
        },
    }
}

/// The report on the deployment of a contract, once its effects are known.
pub open spec fn deployed_report(
    tx: StacksTransaction,
    id: ContractIdV,
    fx: EffectsV,
    include_graph: bool,
    store: StoreV,
) -> Result<ReportV, TxStopV> {
    match reached_or_none(id, Map::empty().insert("deploy"@, fx), store) {
        Err(stop) => Err(tx_stop(stop)),
        Ok(contracts) => {
            let graph = graph_if(include_graph, id, "deploy"@, contracts);
            match resolved_across(fx, Seq::empty(), contracts, store) {
                Err(StopV::Failed(message)) => Ok(noted(tx, message, graph)),
                Err(stop) => Err(tx_stop(stop)),
                Ok((resolved, _)) => Ok(
                    done(tx, effects_in_tx(resolved, origin_of(tx), id), graph),
                ),
            }
        },
    }
}

/// The report on the deployment of a contract.
pub open spec fn deploy_report(
    tx: StacksTransaction,
    id: ContractIdV,
    outcome: DeployOutcome,
    include_graph: bool,
    store: StoreV,
) -> Result<ReportV, TxStopV> {
    match outcome {
        DeployOutcome::Pending => Err(TxStopV::Unanalyzed(id)),
        DeployOutcome::ParseFailed(message) => Ok(
            noted(tx, "Failed to parse contract: "@ + message@, Seq::empty()),
        ),
        DeployOutcome::AnalysisFailed(message) => Ok(
            noted(tx, "Failed to analyze contract: "@ + message@, Seq::empty()),
        ),
        DeployOutcome::Analyzed(analysis) => match first_invalid(analysis.expressions@) {
            Some(message) => Ok(
                noted(tx, "Failed to analyze deploy effects: "@ + message, Seq::empty()),
            ),
            None => deployed_report(tx, id, deploy_effects(analysis), include_graph, store),
        },
    }
}

/// The report on a transaction.
pub open spec fn tx_report(
    tx: StacksTransaction,
    outcome: DeployOutcome,
    include_graph: bool,
    store: StoreV,
) -> Result<ReportV, TxStopV> {
    match tx.payload {
        TransactionPayload::ContractCall(call) => call_report(tx, call, include_graph, store),
        TransactionPayload::SmartContract(contract, _) => match deployed_contract(tx, contract) {
            Some(id) => deploy_report(tx, id, outcome, include_graph, store),
            None => Ok(noted(tx, "missing origin principal"@, Seq::empty())),
        },
        TransactionPayload::TokenTransfer { recipient } => Ok(
            done(tx, transfer_effects(tx, recipient@), Seq::empty()),
        ),
        TransactionPayload::Coinbase { recipient } => Ok(
            done(tx, coinbase_paid(tx, option_view(recipient)), Seq::empty()),
        ),
        TransactionPayload::TenureChange => Ok(
            done(
                tx,
                impure().writing(TargetV::ChainState(ChainReadV::TenureInfo)),
                Seq::empty(),
            ),
        ),
        TransactionPayload::Other => Ok(noted(tx, "unsupported payload"@, Seq::empty())),
    }
}

/// What a result of a report holds.
pub open spec fn report_view(r: Result<TxEffectsReport, TxStop>) -> Result<ReportV, TxStopV> {
    match r {
        Ok(report) => Ok(report@),
        Err(stop) => Err(stop@),
    }
}

/// The texts of the arguments of a call.
fn argument_texts(args: &Vec<CallArgument>) -> (r: Vec<String>)
    ensures
        views(r@) == Seq::new(args@.len(), |i: int| args@[i].text@),
{
    let mut r: Vec<String> = Vec::new();
    let mut i: usize = 0;
    while i < args.len()
        invariant
            i <= args.len(),
            r.len() == i,
            forall|j: int| 0 <= j < i ==> (#[trigger] r[j])@ == args@[j].text@,
        decreases args.len() - i,
    {
        r.push(args[i].text.duplicate());
        i = i + 1;
    }
    assert(views(r@) =~= Seq::new(args@.len(), |i: int| args@[i].text@));
    r
}

/// A report without effects, and the reason for that.
fn noted_report(tx: &StacksTransaction, note: String, call_graph: Vec<CallGraphEdge>) -> (r:
    TxEffectsReport)
    ensures
        r@ == noted(*tx, note@, views(call_graph@)),
{
    let (call_contract, call_function, call_args) = called(tx);
    TxEffectsReport {
        txid: tx.txid.duplicate(),
        label: tx_label(tx),
        effects: None,
        unresolved_contract_calls: 0,
        note: Some(note),
        call_graph,
        call_contract,
        call_function,
        call_args,
    }
}

/// What is reported of the call of a transaction, if it is one.
fn called(tx: &StacksTransaction) -> (r: (Option<String>, Option<String>, Option<Vec<String>>))
    ensures
        option_view(r.0) == called_by(*tx).contract,
        option_view(r.1) == called_by(*tx).function,
        texts(r.2) == called_by(*tx).args,
{
    match &tx.payload {
        TransactionPayload::ContractCall(call) => (
            Some(format_contract(&call.contract)),
            Some(call.function_name.duplicate()),
            Some(argument_texts(&call.function_args)),
        ),
        _ => (None, None, None),
    }
}

/// A report on effects, to which those are added that every transaction has.
fn done_report(
    tx: &StacksTransaction,
    effects: FunctionEffects,
    call_graph: Vec<CallGraphEdge>,
) -> (r: TxEffectsReport)
    ensures
        r@ == done(*tx, effects@, views(call_graph@)),
{
    let mut effects = effects;
    apply_tx_prereqs(&mut effects, tx);
    let unresolved_contract_calls = effects.contract_calls.len();
    let (call_contract, call_function, call_args) = called(tx);
    TxEffectsReport {
        txid: tx.txid.duplicate(),
        label: tx_label(tx),
        effects: Some(effects),
        unresolved_contract_calls,
        note: None,
        call_graph,
        call_contract,
        call_function,
        call_args,
    }
}

/// The contracts that calls lead to; none where one of them could not be read.
fn collect_or_none(
    root: &QualifiedContractIdentifier,
    functions: &Functions,
    store: &ContractStore,
) -> (r: Result<Contracts, TxStop>)
    ensures
        match reached_or_none(root@, functions@, store@) {
            Ok(contracts) => r is Ok && r->Ok_0@ == contracts,
            Err(stop) => r is Err && r->Err_0@ == tx_stop(stop),
        },
{
    match collect_contract_effects_recursive(root, functions, store) {
        Ok(contracts) => Ok(contracts),
        Err(LoadStop::Failed(_)) => Ok(OrderedMap::new()),
        Err(LoadStop::Unread(id)) => Err(TxStop::Unread(id)),
        Err(LoadStop::Unsettled) => Err(TxStop::Unsettled),
    }
}

/// The call graph of a function, if it is asked for.
fn graph_if_wanted(
    wanted: bool,
    root: &QualifiedContractIdentifier,
    function: &ClarityName,
    contracts: &Contracts,
) -> (r: Vec<CallGraphEdge>)
    ensures
        views(r@) == graph_if(wanted, root@, function@, contracts@),
{
    if wanted {
        build_contract_call_graph(root, function, contracts)
    } else {
        let none: Vec<CallGraphEdge> = Vec::new();
        assert(views(none@) =~= Seq::<EdgeV>::empty());
        none
    }
}

/// Puts the contracts in place of references to arguments.
fn fill_in_arguments(
    edges: &Vec<CallGraphEdge>,
    arg_contracts: &Vec<Option<QualifiedContractIdentifier>>,
) -> (r: Vec<CallGraphEdge>)
    ensures
        views(r@) == edges_with_args(views(edges@), contract_args(arg_contracts@)),
{
    let ghost args = contract_args(arg_contracts@);
    let mut r: Vec<CallGraphEdge> = Vec::new();
    let mut i: usize = 0;
    while i < edges.len()
        invariant
            i <= edges.len(),
            r.len() == i,
            args == contract_args(arg_contracts@),
            forall|j: int| 0 <= j < i ==> (#[trigger] r[j])@ == edge_with_args(edges[j]@, args),
        decreases edges.len() - i,
    {
        let edge = &edges[i];
        r.push(
            CallGraphEdge {
                from_contract: edge.from_contract.duplicate(),
                from_function: edge.from_function.duplicate(),
                to_contract: resolve_contract_reference(
                    &edge.to_contract,
                    arg_contracts.as_slice(),
                ),
                to_function: edge.to_function.duplicate(),
                certainty: edge.certainty,
            },
        );
        i = i + 1;
    }
    assert(views(r@) =~= edges_with_args(views(edges@), args));
    r
}

/// The contracts that the arguments of a call name.
fn contract_arguments(call: &TransactionContractCall) -> (r: Vec<
    Option<QualifiedContractIdentifier>,
>)
    ensures
        contract_args(r@) == contracts_passed(*call),
{
    let mut r: Vec<Option<QualifiedContractIdentifier>> = Vec::new();
    let mut i: usize = 0;
    while i < call.function_args.len()
        invariant
            i <= call.function_args.len(),
            r.len() == i,
            forall|j: int|
                0 <= j < i ==> option_view(#[trigger] r[j]) == contract_argument(
                    call.function_args@[j].value,
                ),
        decreases call.function_args.len() - i,
    {
        r.push(extract_contract_arg(&call.function_args[i].value));
        i = i + 1;
    }
    assert(contract_args(r@) =~= contracts_passed(*call));
    r
}

/// The principals that the arguments of a call are.
fn principal_arguments(call: &TransactionContractCall) -> (r: Vec<Option<PrincipalData>>)
    ensures
        principal_args(r@) == principals_passed(*call),
{
    let mut r: Vec<Option<PrincipalData>> = Vec::new();
    let mut i: usize = 0;
    while i < call.function_args.len()
        invariant
            i <= call.function_args.len(),
            r.len() == i,
            forall|j: int|
                0 <= j < i ==> option_view(#[trigger] r[j]) == principal_argument(
                    call.function_args@[j].value,
                ),
        decreases call.function_args.len() - i,
    {
        r.push(extract_principal_arg(&call.function_args[i].value));
        i = i + 1;
    }
    assert(principal_args(r@) =~= principals_passed(*call));
    r
}

/// Fills in the well-known principals of a transaction.
fn fill_in_principals(
    effects: &FunctionEffects,
    tx: &StacksTransaction,
    contract: &QualifiedContractIdentifier,
) -> (r: FunctionEffects)
    ensures
        r@ == effects_in_tx(effects@, origin_of(*tx), contract@),
{
    match origin_principal(tx) {
        Some(sender) => resolve_well_known_principals(effects, &sender, contract),
        None => effects.duplicate(),
    }
}

fn no_edges() -> (r: Vec<CallGraphEdge>)
    ensures
        views(r@) == Seq::<EdgeV>::empty(),
{
    let none: Vec<CallGraphEdge> = Vec::new();
    assert(views(none@) =~= Seq::<EdgeV>::empty());
    none
}

/// Reports on a call of a contract.
fn analyze_call(
    tx: &StacksTransaction,
    call: &TransactionContractCall,
    include_graph: bool,
    store: &ContractStore,
) -> (r: Result<TxEffectsReport, TxStop>)
    ensures
        tx.payload == TransactionPayload::ContractCall(*call) ==> report_view(r) == call_report(
            *tx,
            *call,
            include_graph,
            store@,
        ),
{
    let contract_id = &call.contract;
    let mut contract_effects: Contracts = OrderedMap::new();
    match load_contract_effects(store, contract_id, &mut contract_effects) {
        Err(LoadStop::Failed(message)) => {
            return Ok(noted_report(tx, message, no_edges()));
        },
        Err(LoadStop::Unread(id)) => {
            return Err(TxStop::Unread(id));
        },
        Err(LoadStop::Unsettled) => {
            return Err(TxStop::Unsettled);
        },
        Ok(None) => {
            return Ok(noted_report(tx, "missing contract source".to_string(), no_edges()));
        },
        Ok(Some(_)) => {},
    }
    let functions = match contract_effects.get(contract_id) {
        Some(functions) => functions,
        None => {
            return Ok(noted_report(tx, "missing contract source".to_string(), no_edges()));
        },
    };
    let root_effects = match functions.get(&call.function_name) {
        Some(effects) => effects,
        None => {
            return Ok(noted_report(tx, "missing function analysis".to_string(), no_edges()));
        },
    };
    let arg_contracts = contract_arguments(call);
    let arg_principals = principal_arguments(call);
    let mut contracts = match collect_or_none(contract_id, functions, store) {
        Ok(contracts) => contracts,
        Err(stop) => {
            return Err(stop);
        },
    };
    let edges = graph_if_wanted(include_graph, contract_id, &call.function_name, &contracts);
    let call_graph = fill_in_arguments(&edges, &arg_contracts);
    match resolve_contract_calls_across_contracts(
        root_effects,
        arg_contracts.as_slice(),
        &mut contracts,
        store,
    ) {
        Err(LoadStop::Failed(message)) => Ok(noted_report(tx, message, call_graph)),
        Err(LoadStop::Unread(id)) => Err(TxStop::Unread(id)),
        Err(LoadStop::Unsettled) => Err(TxStop::Unsettled),
        Ok(resolved) => {
            let resolved = resolve_principal_effects(&resolved, arg_principals.as_slice());
            let resolved = fill_in_principals(&resolved, tx, contract_id);
            Ok(done_report(tx, resolved, call_graph))
        },
    }
}

/// Reports on the deployment of a contract, once its effects are known.
fn analyze_deployed(
    tx: &StacksTransaction,
    contract_id: &QualifiedContractIdentifier,
    deployed: FunctionEffects,
    include_graph: bool,
    store: &ContractStore,
) -> (r: Result<TxEffectsReport, TxStop>)
    ensures
        report_view(r) == deployed_report(*tx, contract_id@, deployed@, include_graph, store@),
{
    let deploy_name: ClarityName = "deploy".to_string();
    let mut root_effects: Functions = OrderedMap::new();
    root_effects.insert(deploy_name.duplicate(), deployed.duplicate());
    let mut contracts = match collect_or_none(contract_id, &root_effects, store) {
        Ok(contracts) => contracts,
        Err(stop) => {
            return Err(stop);
        },
    };
    let call_graph = graph_if_wanted(include_graph, contract_id, &deploy_name, &contracts);
    let no_args: [Option<QualifiedContractIdentifier>; 0] = [];
    assert(contract_args(no_args@) =~= Seq::empty());
    match resolve_contract_calls_across_contracts(&deployed, &no_args, &mut contracts, store) {
        Err(LoadStop::Failed(message)) => Ok(noted_report(tx, message, call_graph)),
        Err(LoadStop::Unread(id)) => Err(TxStop::Unread(id)),
        Err(LoadStop::Unsettled) => Err(TxStop::Unsettled),
        Ok(resolved) => {
            let resolved = fill_in_principals(&resolved, tx, contract_id);
            Ok(done_report(tx, resolved, call_graph))
        },
    }
}

/// Reports on the deployment of a contract.
fn analyze_deploy(
    tx: &StacksTransaction,
    contract_id: &QualifiedContractIdentifier,
    outcome: &DeployOutcome,
    include_graph: bool,
    store: &ContractStore,
) -> (r: Result<TxEffectsReport, TxStop>)
    ensures
        report_view(r) == deploy_report(*tx, contract_id@, *outcome, include_graph, store@),
{
    match outcome {
        DeployOutcome::Pending => Err(TxStop::Unanalyzed(contract_id.duplicate())),
        DeployOutcome::ParseFailed(message) => {
            let mut note = "Failed to parse contract: ".to_string();
            note.append(message.as_str());
            Ok(noted_report(tx, note, no_edges()))
        },
        DeployOutcome::AnalysisFailed(message) => {
            let mut note = "Failed to analyze contract: ".to_string();
            note.append(message.as_str());
            Ok(noted_report(tx, note, no_edges()))
        },
        DeployOutcome::Analyzed(analysis) => {
            match EffectsAnalyzer::compute_deploy_effects(analysis) {
                Ok(effects) => analyze_deployed(tx, contract_id, effects, include_graph, store),
                Err(error) => {
                    let mut note = "Failed to analyze deploy effects: ".to_string();
                    if let StaticCheckError::InvalidDefinition(message) = &error {
                        note.append(message.as_str());
                    }
                    Ok(noted_report(tx, note, no_edges()))
                },
            }
        },
    }
}

/// Reports on a transaction.
///
/// The effects of contracts come from the store, and a contract that is deployed
/// comes analyzed. Where either is still missing, the report is not made, and
/// what is missing is named.
pub fn analyze_tx_effects(
    tx: &StacksTransaction,
    outcome: &DeployOutcome,
    include_graph: bool,
    store: &ContractStore,
) -> (r: Result<TxEffectsReport, TxStop>)
    ensures
        report_view(r) == tx_report(*tx, *outcome, include_graph, store@),
{
    match &tx.payload {
        TransactionPayload::ContractCall(call) => analyze_call(tx, call, include_graph, store),
        TransactionPayload::SmartContract(contract, _) => {
            match contract_deploy_identifier(tx, contract) {
                Some(contract_id) => analyze_deploy(
                    tx,
                    &contract_id,
                    outcome,
                    include_graph,
                    store,
                ),
                None => Ok(
                    noted_report(tx, "missing origin principal".to_string(), no_edges()),
                ),
            }
        },
        TransactionPayload::TokenTransfer { recipient } => Ok(
            done_report(tx, stx_transfer_effects(tx, recipient), no_edges()),
        ),
        TransactionPayload::Coinbase { recipient } => Ok(
            done_report(tx, coinbase_effects(tx, recipient), no_edges()),
        ),
        TransactionPayload::TenureChange => Ok(
            done_report(tx, tenure_change_effects(), no_edges()),
        ),
        TransactionPayload::Other => Ok(
            noted_report(tx, "unsupported payload".to_string(), no_edges()),
        ),
    }
}

/// A report has either effects or a note on why there are none.
pub proof fn law_effects_or_note(
    tx: StacksTransaction,
    outcome: DeployOutcome,
    include_graph: bool,
    store: StoreV,
)
    ensures
        tx_report(tx, outcome, include_graph, store) matches Ok(report) ==> (report.effects is Some
            <==> report.note is None),
{
}

/// Whatever effects are reported, those that every transaction has are among
/// them: the nonce of the origin and the balance of the payer are read and
/// written.
pub proof fn law_reported_prereqs(
    tx: StacksTransaction,
    outcome: DeployOutcome,
    include_graph: bool,
    store: StoreV,
)
    ensures
        tx_report(tx, outcome, include_graph, store) matches Ok(report) ==> (
        report.effects matches Some(fx) ==> {
            &&& fx.reads.contains(nonce(origin_of(tx)))
            &&& fx.writes.contains(nonce(origin_of(tx)))
            &&& fx.reads.contains(balance(payer_of(tx)))
            &&& fx.writes.contains(balance(payer_of(tx)))
        }),
{
}

/// The number of unresolved calls that is reported is that of the calls that are
/// left in the effects.
pub proof fn law_unresolved_calls_are_counted(
    tx: StacksTransaction,
    outcome: DeployOutcome,
    include_graph: bool,
    store: StoreV,
)
    ensures
        tx_report(tx, outcome, include_graph, store) matches Ok(report) ==> (
        report.effects matches Some(fx) ==> report.unresolved_contract_calls
            == fx.contract_calls.len()),
{
}

/// A report without a call graph is the same in all else as one with it.
pub proof fn law_graph_changes_nothing_else(
    tx: StacksTransaction,
    outcome: DeployOutcome,
    store: StoreV,
)
    ensures
        match (tx_report(tx, outcome, true, store), tx_report(tx, outcome, false, store)) {
            (Ok(with_graph), Ok(without)) => without == (ReportV {
                call_graph: Seq::empty(),
                ..with_graph
            }),
            (Err(a), Err(b)) => a == b,
            _ => false,
        },
{
    if let TransactionPayload::ContractCall(call) = tx.payload {
        assert(edges_with_args(Seq::empty(), contracts_passed(call)) =~= Seq::empty());
    }
}

/// The effects that are reported of a call are attributed to literal principals
/// or to anyone: none refers to an argument or to a well-known name.
pub proof fn law_calls_are_attributed(
    tx: StacksTransaction,
    call: TransactionContractCall,
    include_graph: bool,
    store: StoreV,
    t: TargetV,
)
    ensures
        call_report(tx, call, include_graph, store) matches Ok(report) ==> (
        report.effects matches Some(fx) ==> (fx.reads.contains(t) || fx.writes.contains(t)
            ==> match principal_of(t) {
            Some(p) => p is Literal || p is Any,
            None => true,
        })),
{
    if let Ok(report) = call_report(tx, call, include_graph, store) {
        if let Some(fx) = report.effects {
            let functions = loaded(call.contract@, Map::empty(), store)->Ok_0->0[call.contract@];
            let contracts = reached_or_none(call.contract@, functions, store)->Ok_0;
            let resolved = resolved_across(
                functions[call.function_name@],
                contracts_passed(call),
                contracts,
                store,
            )->Ok_0.0;
            law_principals_are_resolved(
                resolved,
                principals_passed(call),
                origin_of(tx),
                call.contract@,
                t,
            );
        }
    }
}

/// A target of a called function as it is reported: with the arguments of the
/// transaction, its sender and the called contract in place of references to them.
pub open spec fn reported_target(
    t: TargetV,
    tx: StacksTransaction,
    call: TransactionContractCall,
) -> TargetV {
    let args = principals_passed(call);
    let with_args = retarget(t, |p: PrincipalRefV| principal_with_args(p, args));
    retarget(with_args, |p: PrincipalRefV| principal_in_tx(p, origin_of(tx), call.contract@))
}

/// Nothing is missed in a report on a call: it has every read and write that
/// literal calls lead to from the called function, through all contracts that
/// exist, attributed as the transaction determines.
pub proof fn law_reported_calls_are_followed(
    tx: StacksTransaction,
    call: TransactionContractCall,
    include_graph: bool,
    store: StoreV,
    contracts: ContractsV,
    writing: bool,
    t: TargetV,
    depth: nat,
)
    requires
        finite_store(store),
        store.contains_key(call.contract@),
        store[call.contract@] matches LookupV::Found(functions) && functions.contains_key(
            call.function_name@,
        ) && reached(call.contract@, functions, store) == Ok::<ContractsV, StopV>(contracts)
            && leads_to_access(
            contracts,
            functions[call.function_name@],
            writing,
            t,
            depth,
        ),
    ensures
        call_report(tx, call, include_graph, store) matches Ok(report) ==> (
        report.effects matches Some(fx) ==> accesses(fx, writing).contains(
            reported_target(t, tx, call),
        )),
{
    let functions = store[call.contract@]->Found_0;
    let fx = functions[call.function_name@];
    law_calls_across_contracts_are_followed(
        fx,
        contracts_passed(call),
        contracts,
        store,
        writing,
        t,
        depth,
    );
    if let Ok((resolved, _)) = resolved_across(fx, contracts_passed(call), contracts, store) {
        let args = principals_passed(call);
        let f = |p: PrincipalRefV| principal_with_args(p, args);
        let g = |p: PrincipalRefV| principal_in_tx(p, origin_of(tx), call.contract@);
        let with_args = effects_with_args(resolved, args);
        assert(accesses(resolved, writing).contains(t));
        assert(accesses(with_args, writing).contains(retarget(t, f)));
        let shown = effects_in_tx(with_args, origin_of(tx), call.contract@);
        assert(accesses(shown, writing).contains(retarget(retarget(t, f), g)));
    }
}

/// Nothing is missed in a report on a deployment: it has every read and write that
/// literal calls lead to from the expressions that are evaluated, through all
/// contracts that exist, attributed as the transaction determines.
pub proof fn law_reported_deployments_are_followed(
    tx: StacksTransaction,
    id: ContractIdV,
    deployed: EffectsV,
    include_graph: bool,
    store: StoreV,
    contracts: ContractsV,
    writing: bool,
    t: TargetV,
    depth: nat,
)
    requires
        finite_store(store),
        reached(id, Map::empty().insert("deploy"@, deployed), store) == Ok::<ContractsV, StopV>(
            contracts,
        ),
        leads_to_access(contracts, deployed, writing, t, depth),
    ensures
        deployed_report(tx, id, deployed, include_graph, store) matches Ok(report) ==> (
        report.effects matches Some(fx) ==> accesses(fx, writing).contains(
            retarget(t, |p: PrincipalRefV| principal_in_tx(p, origin_of(tx), id)),
        )),
{
    law_calls_across_contracts_are_followed(
        deployed,
        Seq::empty(),
        contracts,
        store,
        writing,
        t,
        depth,
    );
    if let Ok((resolved, _)) = resolved_across(deployed, Seq::empty(), contracts, store) {
        let g = |p: PrincipalRefV| principal_in_tx(p, origin_of(tx), id);
        assert(accesses(resolved, writing).contains(t));
        let shown = effects_in_tx(resolved, origin_of(tx), id);
        assert(accesses(shown, writing).contains(retarget(t, g)));
    }
}

} // verus!
