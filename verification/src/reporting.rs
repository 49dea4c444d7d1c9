//! What is reported of a transaction, payload by payload.

use vstd::prelude::*;

use crate::codes::option_view;
use crate::contracts::{loaded, reached, resolved_across, LookupV, StopV, StoreV};
use crate::deployment::{deploy_effects, first_invalid};
use crate::effects::{ContractsV, EffectsV, FunctionsV, Purity};
use crate::format::{contract_text, principal_text};
use crate::graph::{edge_is_call, edge_of, finite_calls, law_call_graph, searched, EdgeV};
use crate::syntax::Value;
use crate::transaction::{
    coinbase_paid, contract_with_args, deployed_contract, effects_in_tx, effects_with_args,
    origin_of, principal_in_tx, principal_with_args, retarget, retargeted, transfer_effects,
    with_prereqs, StacksTransaction, TransactionContractCall, TransactionPayload,
    TransactionSmartContract, TransactionSpendingCondition,
};
use crate::tx_report::{
    contracts_passed, edges_with_args, label_of, principals_passed, reached_or_none,
    tx_report, DeployOutcome, ReportV, TxStopV,
};
use crate::types::{
    AssetV, CallV, ChainReadV, ContractIdV, ContractRefV, FunctionRefV, OwnershipAccessV,
    PrincipalData, PrincipalRefV, PrincipalV, TargetV,
};

verus! {

/// A principal is the account that a spending condition stands for in the network
/// of a transaction.
pub open spec fn is_account(
    p: PrincipalV,
    condition: TransactionSpendingCondition,
    mainnet: bool,
) -> bool {
    p matches PrincipalV::Standard(address) && {
        &&& mainnet ==> address == condition.address_mainnet@
        &&& !mainnet ==> address == condition.address_testnet@
    }
}

/// A target is the nonce of the account of a spending condition.
pub open spec fn is_nonce_of(
    t: TargetV,
    condition: TransactionSpendingCondition,
    mainnet: bool,
) -> bool {
    t matches TargetV::AccountNonce(access) && (access.principal matches PrincipalRefV::Literal(p)
        && is_account(p, condition, mainnet))
}

/// A target is what the account of a spending condition owns of the native token.
pub open spec fn is_balance_of(
    t: TargetV,
    condition: TransactionSpendingCondition,
    mainnet: bool,
) -> bool {
    t matches TargetV::AssetOwnership(access) && access.asset == AssetV::Stx && (
    access.principal matches PrincipalRefV::Literal(p) && is_account(p, condition, mainnet))
}

/// What every transaction reads and writes: the nonce of its origin, the nonce of its
/// sponsor if it has one, and the balance of who pays for it.
pub open spec fn is_prereq(t: TargetV, tx: StacksTransaction) -> bool {
    ||| is_nonce_of(t, tx.origin, tx.mainnet)
    ||| is_balance_of(t, tx.payer, tx.mainnet)
    ||| tx.sponsor matches Some(sponsor) && is_nonce_of(t, sponsor, tx.mainnet)
}

/// A target is the balance of a principal.
pub open spec fn is_stx_of(t: TargetV, p: PrincipalV) -> bool {
    t == TargetV::AssetOwnership(
        OwnershipAccessV { asset: AssetV::Stx, principal: PrincipalRefV::Literal(p) },
    )
}

/// With its prerequisites a transaction reads and writes exactly what it does without
/// them, and the prerequisites.
pub proof fn law_prereqs_are_added(fx: EffectsV, tx: StacksTransaction, t: TargetV)
    ensures
        with_prereqs(fx, tx).reads.contains(t) <==> fx.reads.contains(t) || is_prereq(t, tx),
        with_prereqs(fx, tx).writes.contains(t) <==> fx.writes.contains(t) || is_prereq(t, tx),
        with_prereqs(fx, tx).contract_calls == fx.contract_calls,
        with_prereqs(fx, tx).purity == fx.purity,
{
}

/// A transaction comes from the account of its origin, and what it deploys belongs to
/// that account, under the name that it gives.
pub proof fn law_origins_are_accounts(tx: StacksTransaction, contract: TransactionSmartContract)
    ensures
        is_account(origin_of(tx), tx.origin, tx.mainnet),
        deployed_contract(tx, contract) matches Some(id) && is_account(
            PrincipalV::Standard(id.issuer),
            tx.origin,
            tx.mainnet,
        ) && id.name == contract.name@,
{
}

/// A transfer reads and writes the balances of the origin and of the recipient, a
/// coinbase that of its recipient, or of the origin where it names none, and nothing
/// else; and they are not pure.
pub proof fn law_payments_touch_balances(
    tx: StacksTransaction,
    recipient: PrincipalV,
    t: TargetV,
)
    ensures
        ({
            let fx = transfer_effects(tx, recipient);
            let here = is_balance_of(t, tx.origin, tx.mainnet) || is_stx_of(t, recipient);
            &&& fx.reads.contains(t) <==> here
            &&& fx.writes.contains(t) <==> here
            &&& fx.contract_calls == Set::<CallV>::empty()
            &&& fx.purity == Purity::Impure
        }),
        ({
            let fx = coinbase_paid(tx, Some(recipient));
            &&& fx.reads.contains(t) <==> is_stx_of(t, recipient)
            &&& fx.writes.contains(t) <==> is_stx_of(t, recipient)
            &&& fx.contract_calls == Set::<CallV>::empty()
            &&& fx.purity == Purity::Impure
        }),
        ({
            let fx = coinbase_paid(tx, None);
            &&& fx.reads.contains(t) <==> is_balance_of(t, tx.origin, tx.mainnet)
            &&& fx.writes.contains(t) <==> is_balance_of(t, tx.origin, tx.mainnet)
            &&& fx.contract_calls == Set::<CallV>::empty()
            &&& fx.purity == Purity::Impure
        }),
{
}

/// The report is about the transaction, and says what it calls: the contract, the
/// function and the arguments in their order, where it is a call, and else nothing.
pub open spec fn is_about(report: ReportV, tx: StacksTransaction) -> bool {
    &&& report.txid == tx.txid@
    &&& match tx.payload {
        TransactionPayload::ContractCall(call) => {
            &&& report.call_contract == Some(contract_text(call.contract@))
            &&& report.call_function == Some(call.function_name@)
            &&& report.call_args matches Some(args) && args.len() == call.function_args@.len()
                && forall|k: int|
                0 <= k < args.len() ==> #[trigger] args[k] == call.function_args@[k].text@
        },
        _ => report.call_contract is None && report.call_function is None && report.call_args
            is None,
    }
}

/// Every report is about its transaction, and counts the calls that are left.
pub proof fn law_reports_are_about_their_transactions(
    tx: StacksTransaction,
    outcome: DeployOutcome,
    include_graph: bool,
    store: StoreV,
)
    ensures
        tx_report(tx, outcome, include_graph, store) matches Ok(report) ==> {
            &&& is_about(report, tx)
            &&& report.effects matches Some(fx) ==> report.unresolved_contract_calls
                == fx.contract_calls.len()
            &&& report.effects is None ==> report.unresolved_contract_calls == 0
            &&& report.effects is None <==> report.note is Some
            &&& !include_graph ==> report.call_graph.len() == 0
        },
{
    if let TransactionPayload::ContractCall(call) = tx.payload {
        assert(edges_with_args(Seq::empty(), contracts_passed(call)) =~= Seq::empty());
    }
}

/// A transfer, a coinbase and a change of tenure are always reported, with what they
/// read and write and the prerequisites, and nothing else; a payload of another kind
/// is always noted as unsupported.
pub proof fn law_simple_payloads_are_reported(
    tx: StacksTransaction,
    outcome: DeployOutcome,
    include_graph: bool,
    store: StoreV,
    t: TargetV,
)
    ensures
        ({
            let report = tx_report(tx, outcome, include_graph, store);
            let writes_tenure = TargetV::ChainState(ChainReadV::TenureInfo);
            match tx.payload {
                TransactionPayload::TokenTransfer { recipient } => report matches Ok(r) && (
                r.effects matches Some(fx) && {
                    let here = is_balance_of(t, tx.origin, tx.mainnet) || is_stx_of(
                        t,
                        recipient@,
                    ) || is_prereq(t, tx);
                    &&& fx.reads.contains(t) <==> here
                    &&& fx.writes.contains(t) <==> here
                    &&& fx.purity == Purity::Impure
                    &&& r.call_graph.len() == 0
                }),
                TransactionPayload::Coinbase { recipient } => report matches Ok(r) && (
                r.effects matches Some(fx) && {
                    let paid = match recipient {
                        Some(p) => is_stx_of(t, p@),
                        None => is_balance_of(t, tx.origin, tx.mainnet),
                    };
                    &&& fx.reads.contains(t) <==> paid || is_prereq(t, tx)
                    &&& fx.writes.contains(t) <==> paid || is_prereq(t, tx)
                    &&& fx.purity == Purity::Impure
                    &&& r.call_graph.len() == 0
                }),
                TransactionPayload::TenureChange => report matches Ok(r) && (
                r.effects matches Some(fx) && {
                    &&& fx.reads.contains(t) <==> is_prereq(t, tx)
                    &&& fx.writes.contains(t) <==> t == writes_tenure || is_prereq(t, tx)
                    &&& fx.purity == Purity::Impure
                    &&& r.call_graph.len() == 0
                }),
                TransactionPayload::Other => report matches Ok(r) && r.effects is None && r.note
                    == Some("unsupported payload"@),
                _ => true,
            }
        }),
{
    match tx.payload {
        TransactionPayload::TokenTransfer { recipient } => {
            law_payments_touch_balances(tx, recipient@, t);
            law_prereqs_are_added(transfer_effects(tx, recipient@), tx, t);
        },
        TransactionPayload::Coinbase { recipient } => {
            let p = option_view(recipient);
            if p is Some {
                law_payments_touch_balances(tx, p->0, t);
            } else {
                law_payments_touch_balances(tx, origin_of(tx), t);
            }
            law_prereqs_are_added(coinbase_paid(tx, p), tx, t);
        },
        _ => {},
    }
}

/// Whom a principal of a function is in a transaction. Where the transaction passes
/// arguments, an argument is the principal that it passes in its place, or may be
/// anyone where it passes none there. The sender and the caller are the origin; the
/// contract itself is the one that is called or deployed; all others are who they are.
pub open spec fn is_in_tx(
    inside: PrincipalRefV,
    outside: PrincipalRefV,
    args: Option<Seq<Option<PrincipalV>>>,
    sender: PrincipalV,
    contract: ContractIdV,
) -> bool {
    match inside {
        PrincipalRefV::Argument(k) => match args {
            Some(args) => {
                &&& k < args.len() && args[k as int] is Some ==> outside == PrincipalRefV::Literal(
                    args[k as int]->0,
                )
                &&& !(k < args.len() && args[k as int] is Some) ==> outside == PrincipalRefV::Any
            },
            None => outside == inside,
        },
        PrincipalRefV::TxSender | PrincipalRefV::ContractCaller => outside
            == PrincipalRefV::Literal(sender),
        PrincipalRefV::CurrentContract => outside == PrincipalRefV::Literal(
            PrincipalV::Contract(contract),
        ),
        PrincipalRefV::Literal(p) => outside == PrincipalRefV::Literal(p),
        PrincipalRefV::Any => outside == PrincipalRefV::Any,
    }
}

/// What a target of a function is in a transaction: the same, of the principal
/// that the one inside is.
pub open spec fn target_is_in_tx(
    inside: TargetV,
    outside: TargetV,
    args: Option<Seq<Option<PrincipalV>>>,
    sender: PrincipalV,
    contract: ContractIdV,
) -> bool {
    match (inside, outside) {
        (TargetV::AssetOwnership(a), TargetV::AssetOwnership(b)) => a.asset == b.asset && is_in_tx(
            a.principal,
            b.principal,
            args,
            sender,
            contract,
        ),
        (TargetV::AccountNonce(a), TargetV::AccountNonce(b)) => is_in_tx(
            a.principal,
            b.principal,
            args,
            sender,
            contract,
        ),
        (TargetV::Contract(a), TargetV::Contract(b)) => a == b,
        (TargetV::ChainState(a), TargetV::ChainState(b)) => a == b,
        _ => false,
    }
}

/// The principals of a transaction are filled in: its arguments first, if it passes
/// any.
pub open spec fn filled_in(
    fx: EffectsV,
    args: Option<Seq<Option<PrincipalV>>>,
    sender: PrincipalV,
    contract: ContractIdV,
) -> EffectsV {
    match args {
        Some(args) => effects_in_tx(effects_with_args(fx, args), sender, contract),
        None => effects_in_tx(fx, sender, contract),
    }
}

proof fn lemma_target_in_tx(
    inside: TargetV,
    outside: TargetV,
    args: Option<Seq<Option<PrincipalV>>>,
    sender: PrincipalV,
    contract: ContractIdV,
)
    ensures
        ({
            let g = |p: PrincipalRefV| principal_in_tx(p, sender, contract);
            target_is_in_tx(inside, outside, args, sender, contract) <==> match args {
                Some(args) => {
                    let f = |p: PrincipalRefV| principal_with_args(p, args);
                    outside == retarget(retarget(inside, f), g)
                },
                None => outside == retarget(inside, g),
            }
        }),
{
}

/// One of some targets is this one in a transaction.
pub open spec fn one_is_in_tx(
    targets: Set<TargetV>,
    u: TargetV,
    args: Option<Seq<Option<PrincipalV>>>,
    sender: PrincipalV,
    contract: ContractIdV,
) -> bool {
    exists|t: TargetV| #[trigger]
        target_is_in_tx(t, u, args, sender, contract) && targets.contains(t)
}

proof fn lemma_one_in_tx(
    targets: Set<TargetV>,
    u: TargetV,
    args: Option<Seq<Option<PrincipalV>>>,
    sender: PrincipalV,
    contract: ContractIdV,
)
    ensures
        ({
            let g = |p: PrincipalRefV| principal_in_tx(p, sender, contract);
            let after = match args {
                Some(args) => retargeted(
                    retargeted(targets, |p: PrincipalRefV| principal_with_args(p, args)),
                    g,
                ),
                None => retargeted(targets, g),
            };
            after.contains(u) <==> one_is_in_tx(targets, u, args, sender, contract)
        }),
{
    let g = |p: PrincipalRefV| principal_in_tx(p, sender, contract);
    match args {
        Some(passed) => {
            let f = |p: PrincipalRefV| principal_with_args(p, passed);
            let mid = retargeted(targets, f);
            let after = retargeted(mid, g);
            if after.contains(u) {
                let v = choose|v: TargetV| mid.contains(v) && u == retarget(v, g);
                let t = choose|t: TargetV| targets.contains(t) && v == retarget(t, f);
                lemma_target_in_tx(t, u, args, sender, contract);
            }
            if one_is_in_tx(targets, u, args, sender, contract) {
                let t = choose|t: TargetV| #[trigger]
                    target_is_in_tx(t, u, args, sender, contract) && targets.contains(t);
                lemma_target_in_tx(t, u, args, sender, contract);
                assert(mid.contains(retarget(t, f)));
                assert(after.contains(u));
            }
        },
        None => {
            let after = retargeted(targets, g);
            if after.contains(u) {
                let t = choose|t: TargetV| targets.contains(t) && u == retarget(t, g);
                lemma_target_in_tx(t, u, args, sender, contract);
            }
            if one_is_in_tx(targets, u, args, sender, contract) {
                let t = choose|t: TargetV| #[trigger]
                    target_is_in_tx(t, u, args, sender, contract) && targets.contains(t);
                lemma_target_in_tx(t, u, args, sender, contract);
                assert(after.contains(u));
            }
        },
    }
}

/// Once a transaction fills in its arguments and its principals, exactly that is read
/// and written that was before, of the principals that those before are in the
/// transaction. Calls and purity stay.
pub proof fn law_transactions_fill_in_principals(
    fx: EffectsV,
    args: Option<Seq<Option<PrincipalV>>>,
    sender: PrincipalV,
    contract: ContractIdV,
    u: TargetV,
)
    ensures
        ({
            let after = filled_in(fx, args, sender, contract);
            &&& after.reads.contains(u) <==> one_is_in_tx(fx.reads, u, args, sender, contract)
            &&& after.writes.contains(u) <==> one_is_in_tx(fx.writes, u, args, sender, contract)
            &&& after.contract_calls == fx.contract_calls
            &&& after.purity == fx.purity
        }),
{
    lemma_one_in_tx(fx.reads, u, args, sender, contract);
    lemma_one_in_tx(fx.writes, u, args, sender, contract);
}

/// The arguments of a call are passed in their places: a contract where the value is
/// one, or one for a trait; a principal where the value is one.
pub proof fn law_arguments_are_passed_in_place(call: TransactionContractCall, k: int)
    requires
        0 <= k < call.function_args@.len(),
    ensures
        contracts_passed(call).len() == call.function_args@.len(),
        principals_passed(call).len() == call.function_args@.len(),
        contracts_passed(call)[k] == (match call.function_args@[k].value {
            Value::Principal(PrincipalData::Contract(id)) => Some(id@),
            Value::CallableContract(id) => Some(id@),
            _ => None,
        }),
        principals_passed(call)[k] == (match call.function_args@[k].value {
            Value::Principal(p) => Some(p@),
            _ => None,
        }),
{
}

/// A contract that is passed takes the place of the argument that stands for it; where
/// none is passed it may be any, and a contract that is named stays.
pub proof fn law_passed_contracts_are_filled_in(
    r: ContractRefV,
    args: Seq<Option<ContractIdV>>,
)
    ensures
        match r {
            ContractRefV::Argument(k) => {
                &&& k < args.len() && args[k as int] is Some ==> contract_with_args(r, args)
                    == ContractRefV::Literal(args[k as int]->0)
                &&& !(k < args.len() && args[k as int] is Some) ==> contract_with_args(r, args)
                    == ContractRefV::Any
            },
            _ => contract_with_args(r, args) == r,
        },
{
}

/// An edge of a call graph goes from the function that calls to what it calls, and a
/// transaction fills in only which contract that is.
pub proof fn law_edges_follow_calls(
    from: FunctionRefV,
    call: CallV,
    edges: Seq<EdgeV>,
    args: Seq<Option<ContractIdV>>,
    k: int,
)
    ensures
        edge_of(from, call).from_contract == from.contract,
        edge_of(from, call).from_function == from.function,
        edge_of(from, call).to_contract == call.contract,
        edge_of(from, call).to_function == call.function,
        edge_of(from, call).certainty == "might"@,
        edges_with_args(edges, args).len() == edges.len(),
        0 <= k < edges.len() ==> {
            let e = edges_with_args(edges, args)[k];
            &&& e.from_contract == edges[k].from_contract
            &&& e.from_function == edges[k].from_function
            &&& e.to_function == edges[k].to_function
            &&& e.certainty == edges[k].certainty
            &&& e.to_contract == contract_with_args(edges[k].to_contract, args)
        },
{
}

/// Loading a contract gives its functions where it is known or was read, and tells
/// where it is missing, could not be read, or has not been read yet.
pub proof fn law_contracts_are_loaded(id: ContractIdV, contracts: ContractsV, store: StoreV)
    ensures
        contracts.contains_key(id) ==> loaded(id, contracts, store) == Ok::<
            Option<ContractsV>,
            StopV,
        >(Some(contracts)),
        !contracts.contains_key(id) ==> {
            &&& !store.contains_key(id) ==> loaded(id, contracts, store) == Err::<
                Option<ContractsV>,
                StopV,
            >(StopV::Unread(id))
            &&& store.contains_key(id) ==> match store[id] {
                LookupV::Found(functions) => loaded(id, contracts, store) == Ok::<
                    Option<ContractsV>,
                    StopV,
                >(Some(contracts.insert(id, functions))),
                LookupV::Absent => loaded(id, contracts, store) == Ok::<Option<ContractsV>, StopV>(
                    None,
                ),
                LookupV::Failed(message) => loaded(id, contracts, store) == Err::<
                    Option<ContractsV>,
                    StopV,
                >(StopV::Failed(message)),
            }
        },
{
}

/// A call of a contract that is missing or could not be read, or of a function that it
/// does not have, is noted as such, without effects; one of a contract that has not
/// been read is put off.
pub proof fn law_failed_calls_are_noted(
    tx: StacksTransaction,
    call: TransactionContractCall,
    outcome: DeployOutcome,
    include_graph: bool,
    store: StoreV,
)
    requires
        tx.payload == TransactionPayload::ContractCall(call),
    ensures
        ({
            let id = call.contract@;
            let report = tx_report(tx, outcome, include_graph, store);
            &&& !store.contains_key(id) ==> report == Err::<ReportV, TxStopV>(TxStopV::Unread(id))
            &&& store.contains_key(id) ==> match store[id] {
                LookupV::Absent => report matches Ok(r) && r.effects is None && r.note == Some(
                    "missing contract source"@,
                ),
                LookupV::Failed(message) => report matches Ok(r) && r.effects is None && r.note
                    == Some(message),
                LookupV::Found(functions) => !functions.contains_key(call.function_name@) ==> (
                report matches Ok(r) && r.effects is None && r.note == Some(
                    "missing function analysis"@,
                )),
            }
        }),
{
}

/// A call of a function that is there is reported, with exactly what is left of the
/// effects of the function once calls are followed, seen in the transaction, and the
/// prerequisites. Where the contracts that are called cannot be read, none of them is
/// followed.
pub proof fn law_calls_are_reported(
    tx: StacksTransaction,
    call: TransactionContractCall,
    outcome: DeployOutcome,
    include_graph: bool,
    store: StoreV,
    functions: FunctionsV,
    contracts: ContractsV,
    resolved: (EffectsV, ContractsV),
    t: TargetV,
)
    requires
        tx.payload == TransactionPayload::ContractCall(call),
        store.contains_key(call.contract@),
        store[call.contract@] == LookupV::Found(functions),
        functions.contains_key(call.function_name@),
        reached_or_none(call.contract@, functions, store) == Ok::<ContractsV, StopV>(contracts),
        resolved_across(
            functions[call.function_name@],
            contracts_passed(call),
            contracts,
            store,
        ) == Ok::<(EffectsV, ContractsV), StopV>(resolved),
    ensures
        tx_report(tx, outcome, include_graph, store) matches Ok(r) && r.note is None && (
        r.effects matches Some(fx) && {
            let args = Some(principals_passed(call));
            let id = call.contract@;
            &&& fx.reads.contains(t) <==> one_is_in_tx(
                resolved.0.reads,
                t,
                args,
                origin_of(tx),
                id,
            ) || is_prereq(t, tx)
            &&& fx.writes.contains(t) <==> one_is_in_tx(
                resolved.0.writes,
                t,
                args,
                origin_of(tx),
                id,
            ) || is_prereq(t, tx)
            &&& fx.contract_calls == resolved.0.contract_calls
            &&& fx.purity == resolved.0.purity
        }),
{
    let args = Some(principals_passed(call));
    let id = call.contract@;
    law_transactions_fill_in_principals(resolved.0, args, origin_of(tx), id, t);
    law_prereqs_are_added(filled_in(resolved.0, args, origin_of(tx), id), tx, t);
    assert(loaded(id, Map::empty(), store) == Ok::<Option<ContractsV>, StopV>(
        Some(Map::empty().insert(id, functions)),
    ));
    assert(Map::<ContractIdV, FunctionsV>::empty().insert(id, functions)[id] == functions);
}

/// A deployment that was not analyzed yet is put off; one that cannot be parsed or
/// analyzed is noted as such, without effects; and one that was analyzed is reported
/// with what is left of the effects of deploying it once calls are followed, seen in
/// the transaction, and the prerequisites.
pub proof fn law_deployments_are_reported(
    tx: StacksTransaction,
    id: ContractIdV,
    outcome: DeployOutcome,
    include_graph: bool,
    store: StoreV,
    t: TargetV,
)
    requires
        tx.payload matches TransactionPayload::SmartContract(contract, _) && deployed_contract(
            tx,
            contract,
        ) == Some(id),
    ensures
        ({
            let report = tx_report(tx, outcome, include_graph, store);
            match outcome {
                DeployOutcome::Pending => report == Err::<ReportV, TxStopV>(
                    TxStopV::Unanalyzed(id),
                ),
                DeployOutcome::ParseFailed(message) => report matches Ok(r) && r.effects is None
                    && r.note == Some("Failed to parse contract: "@ + message@),
                DeployOutcome::AnalysisFailed(message) => report matches Ok(r) && r.effects is None
                    && r.note == Some("Failed to analyze contract: "@ + message@),
                DeployOutcome::Analyzed(analysis) => {
                    &&& first_invalid(analysis.expressions@) matches Some(message) ==> (
                    report matches Ok(r) && r.effects is None && r.note == Some(
                        "Failed to analyze deploy effects: "@ + message,
                    ))
                    &&& first_invalid(analysis.expressions@) is None ==> {
                        let deployed = deploy_effects(analysis);
                        let root = Map::empty().insert("deploy"@, deployed);
                        reached_or_none(id, root, store) matches Ok(contracts) ==> (
                        resolved_across(
                            deployed,
                            Seq::empty(),
                            contracts,
                            store,
                        ) matches Ok((resolved, _)) ==> (report matches Ok(r) && r.note is None && (
                        r.effects matches Some(fx) && {
                            &&& fx.reads.contains(t) <==> one_is_in_tx(
                                resolved.reads,
                                t,
                                None,
                                origin_of(tx),
                                id,
                            ) || is_prereq(t, tx)
                            &&& fx.writes.contains(t) <==> one_is_in_tx(
                                resolved.writes,
                                t,
                                None,
                                origin_of(tx),
                                id,
                            ) || is_prereq(t, tx)
                            &&& fx.contract_calls == resolved.contract_calls
                        })))
                    }
                },
            }
        }),
{
    if let DeployOutcome::Analyzed(analysis) = outcome {
        let deployed = deploy_effects(analysis);
        let root = Map::empty().insert("deploy"@, deployed);
        if let Ok(contracts) = reached_or_none(id, root, store) {
            if let Ok((resolved, _)) = resolved_across(
                deployed,
                Seq::empty(),
                contracts,
                store,
            ) {
                law_transactions_fill_in_principals(resolved, None, origin_of(tx), id, t);
                law_prereqs_are_added(
                    filled_in(resolved, None, origin_of(tx), id),
                    tx,
                    t,
                );
            }
        }
    }
}

/// Contracts that calls lead to are at hand where all of them were read; where one
/// could not be read none is at hand; and one that has not been read is asked for.
pub proof fn law_unreadable_contracts_are_left_out(
    root: ContractIdV,
    functions: FunctionsV,
    store: StoreV,
)
    ensures
        match reached(root, functions, store) {
            Ok(contracts) => reached_or_none(root, functions, store) == Ok::<ContractsV, StopV>(
                contracts,
            ),
            Err(StopV::Failed(_)) => reached_or_none(root, functions, store) == Ok::<
                ContractsV,
                StopV,
            >(Map::empty()),
            Err(StopV::Unread(id)) => reached_or_none(root, functions, store) == Err::<
                ContractsV,
                StopV,
            >(StopV::Unread(id)),
            Err(StopV::Unsettled) => reached_or_none(root, functions, store) is Err,
        },
{
}

/// Where following the calls of a call stops, the report says why: a contract that has
/// not been read is asked for, and one that could not be read is noted, without
/// effects.
pub proof fn law_stopped_calls_are_told(
    tx: StacksTransaction,
    call: TransactionContractCall,
    outcome: DeployOutcome,
    include_graph: bool,
    store: StoreV,
    functions: FunctionsV,
)
    requires
        tx.payload == TransactionPayload::ContractCall(call),
        store.contains_key(call.contract@),
        store[call.contract@] == LookupV::Found(functions),
        functions.contains_key(call.function_name@),
    ensures
        ({
            let id = call.contract@;
            let report = tx_report(tx, outcome, include_graph, store);
            match reached_or_none(id, functions, store) {
                Err(StopV::Unread(other)) => report == Err::<ReportV, TxStopV>(
                    TxStopV::Unread(other),
                ),
                Err(_) => report is Err,
                Ok(contracts) => match resolved_across(
                    functions[call.function_name@],
                    contracts_passed(call),
                    contracts,
                    store,
                ) {
                    Err(StopV::Unread(other)) => report == Err::<ReportV, TxStopV>(
                        TxStopV::Unread(other),
                    ),
                    Err(StopV::Failed(message)) => report matches Ok(r) && r.effects is None
                        && r.note == Some(message),
                    Err(StopV::Unsettled) => report == Err::<ReportV, TxStopV>(
                        TxStopV::Unsettled,
                    ),
                    Ok(_) => report is Ok,
                },
            }
        }),
{
    let id = call.contract@;
    assert(Map::<ContractIdV, FunctionsV>::empty().insert(id, functions)[id] == functions);
}

/// The call graph of a call, where it is asked for, has exactly the calls that lead on
/// from the called function through the contracts at hand, with the contracts filled
/// in that the transaction passes.
pub proof fn law_reported_graphs_follow_calls(
    tx: StacksTransaction,
    call: TransactionContractCall,
    outcome: DeployOutcome,
    store: StoreV,
    functions: FunctionsV,
    contracts: ContractsV,
    e: EdgeV,
)
    requires
        tx.payload == TransactionPayload::ContractCall(call),
        store.contains_key(call.contract@),
        store[call.contract@] == LookupV::Found(functions),
        functions.contains_key(call.function_name@),
        reached_or_none(call.contract@, functions, store) == Ok::<ContractsV, StopV>(contracts),
        finite_calls(contracts),
    ensures
        tx_report(tx, outcome, true, store) matches Ok(r) ==> (r.call_graph.contains(e) <==> exists|
            before: EdgeV,
        | #[trigger]
            edge_is_call(
                contracts,
                FunctionRefV { contract: call.contract@, function: call.function_name@ },
                before,
            ) && e == (EdgeV {
                to_contract: contract_with_args(before.to_contract, contracts_passed(call)),
                ..before
            })),
{
    let id = call.contract@;
    let root = FunctionRefV { contract: id, function: call.function_name@ };
    let args = contracts_passed(call);
    let edges = searched(contracts, seq![root], Set::empty());
    assert(Map::<ContractIdV, FunctionsV>::empty().insert(id, functions)[id] == functions);
    if let Ok(r) = tx_report(tx, outcome, true, store) {
        let shown = edges_with_args(edges, args);
        assert(r.call_graph == shown);
        if shown.contains(e) {
            let k = choose|k: int| 0 <= k < shown.len() && shown[k] == e;
            assert(edges.contains(edges[k]));
            law_call_graph(contracts, root, edges[k]);
        }
        assert forall|before: EdgeV| #[trigger]
            edge_is_call(contracts, root, before) && e == (EdgeV {
                to_contract: contract_with_args(before.to_contract, args),
                ..before
            }) implies shown.contains(e) by {
            law_call_graph(contracts, root, before);
            let k = choose|k: int| 0 <= k < edges.len() && edges[k] == before;
            assert(shown[k] == e);
        }
    }
}

/// A report is labelled with what its transaction does: the contract and the function
/// that it calls, the contract that it deploys, whom it pays, or what its payload is
/// called.
pub proof fn law_labels_tell_payloads(tx: StacksTransaction)
    ensures
        match tx.payload {
            TransactionPayload::ContractCall(call) => label_of(tx) == "contract-call "@
                + contract_text(call.contract@) + "."@ + call.function_name@,
            TransactionPayload::SmartContract(contract, _) => label_of(tx) == "deploy "@
                + contract.name@,
            TransactionPayload::TokenTransfer { recipient } => label_of(tx) == "stx-transfer "@
                + principal_text(recipient@),
            _ => label_of(tx) == tx.payload_name@,
        },
{
}

/// Every report has the label of its transaction.
pub proof fn law_reports_are_labelled(
    tx: StacksTransaction,
    outcome: DeployOutcome,
    include_graph: bool,
    store: StoreV,
)
    ensures
        tx_report(tx, outcome, include_graph, store) matches Ok(report) ==> report.label
            == label_of(tx),
{
}

} // verus!
