//! Reports on transactions.

use clarity_effects::contracts::{
    load_contract_effects, resolve_contract_calls_across_contracts,
    resolve_contract_effects_transitively, ContractStore, LoadStop, Lookup,
};
use clarity_effects::effects::{Contracts, FunctionEffects, Functions, Purity};
use clarity_effects::graph::{build_contract_call_graph, CallGraphEdge};
use clarity_effects::ordered::OrderedMap;
use clarity_effects::syntax::{
    ClarityVersion, ContractAnalysis, DefineFunctionsParsed, NativeFunctions, SymbolicExpression,
    TopLevel, Value,
};
use clarity_effects::transaction::{
    apply_tx_prereqs, coinbase_effects, contract_deploy_identifier, extract_contract_arg,
    extract_principal_arg, origin_principal, payer_principal, resolve_contract_reference,
    resolve_principal_effects, resolve_principal_reference, resolve_well_known_principals,
    sponsor_principal, stx_transfer_effects, tenure_change_effects, CallArgument,
    StacksTransaction, TransactionContractCall, TransactionPayload, TransactionSmartContract,
    TransactionSpendingCondition,
};
use clarity_effects::tx_report::{
    analyze_tx_effects, tx_label, DeployOutcome, TxEffectsReport, TxStop,
};
use clarity_effects::types::{
    AccountNonceAccess, AssetId, AssetOwnershipAccess, ChainStateRead, ContractCall,
    ContractReference, ContractStorageAccess, EffectTarget, PrincipalData, PrincipalReference,
    QualifiedContractIdentifier, StandardPrincipalData, StorageLocation,
};

fn standard(address: &str) -> StandardPrincipalData {
    StandardPrincipalData {
        version: 22,
        hash: String::new(),
        address: address.to_string(),
    }
}

fn id(name: &str) -> QualifiedContractIdentifier {
    QualifiedContractIdentifier {
        issuer: standard("SP1"),
        name: name.to_string(),
    }
}

fn account(address: &str) -> PrincipalData {
    PrincipalData::Standard(standard(address))
}

fn literal(address: &str) -> PrincipalReference {
    PrincipalReference::Literal(account(address))
}

fn contract_literal(name: &str) -> PrincipalReference {
    PrincipalReference::Literal(PrincipalData::Contract(id(name)))
}

fn stx(principal: PrincipalReference) -> EffectTarget {
    EffectTarget::AssetOwnership(AssetOwnershipAccess {
        asset: AssetId::Stx,
        principal,
    })
}

fn nonce(principal: PrincipalReference) -> EffectTarget {
    EffectTarget::AccountNonce(AccountNonceAccess { principal })
}

fn condition(address: &str) -> TransactionSpendingCondition {
    TransactionSpendingCondition {
        address_mainnet: standard(&format!("SP-{address}")),
        address_testnet: standard(&format!("ST-{address}")),
    }
}

fn tx(payload: TransactionPayload) -> StacksTransaction {
    StacksTransaction {
        txid: "t0".to_string(),
        mainnet: true,
        origin: condition("origin"),
        payer: condition("origin"),
        sponsor: None,
        payload,
        payload_name: "Payload".to_string(),
    }
}

fn sponsored(payload: TransactionPayload) -> StacksTransaction {
    StacksTransaction {
        mainnet: false,
        payer: condition("sponsor"),
        sponsor: Some(condition("sponsor")),
        ..tx(payload)
    }
}

fn edge(from: (&str, &str), to: ContractReference, function: &str) -> CallGraphEdge {
    CallGraphEdge {
        from_contract: id(from.0),
        from_function: from.1.to_string(),
        to_contract: to,
        to_function: function.to_string(),
        certainty: "might",
    }
}

fn call_of(contract: ContractReference, function: &str) -> ContractCall {
    ContractCall {
        contract,
        function: function.to_string(),
        arg_principals: Vec::new(),
        caller: Some(id("a")),
    }
}

fn calling(calls: Vec<ContractCall>) -> FunctionEffects {
    let mut effects = FunctionEffects::default();
    for call in calls {
        effects.contract_calls.insert(call);
    }
    effects
}

fn functions(entries: Vec<(&str, FunctionEffects)>) -> Functions {
    let mut functions = OrderedMap::new();
    for (name, effects) in entries {
        functions.insert(name.to_string(), effects);
    }
    functions
}

fn report(
    tx: &StacksTransaction,
    graph: bool,
    store: &ContractStore,
) -> Result<TxEffectsReport, TxStop> {
    analyze_tx_effects(tx, &DeployOutcome::Pending, graph, store)
}

#[test]
fn principals_of_a_transaction_depend_on_the_network() {
    let mut tx = tx(TransactionPayload::Other);
    assert_eq!(origin_principal(&tx), Some(account("SP-origin")));
    assert_eq!(payer_principal(&tx), Some(account("SP-origin")));
    assert_eq!(sponsor_principal(&tx), None);
    tx.mainnet = false;
    tx.sponsor = Some(condition("s"));
    assert_eq!(origin_principal(&tx), Some(account("ST-origin")));
    assert_eq!(sponsor_principal(&tx), Some(account("ST-s")));
    let contract = TransactionSmartContract {
        name: "c".to_string(),
        code_body: "".to_string(),
    };
    assert_eq!(
        contract_deploy_identifier(&tx, &contract),
        Some(QualifiedContractIdentifier {
            issuer: standard("ST-origin"),
            name: "c".to_string(),
        })
    );
}

#[test]
fn prerequisites_are_added() {
    let mut effects = FunctionEffects::default();
    apply_tx_prereqs(&mut effects, &sponsored(TransactionPayload::Other));
    assert_eq!(effects.reads, effects.writes);
    assert_eq!(effects.reads.len(), 3);
    assert!(effects.reads.contains(&nonce(literal("ST-origin"))));
    assert!(effects.reads.contains(&nonce(literal("ST-sponsor"))));
    assert!(effects.reads.contains(&stx(literal("ST-sponsor"))));
    assert_eq!(effects.purity, Purity::Pure);

    let mut effects = FunctionEffects::default();
    apply_tx_prereqs(&mut effects, &tx(TransactionPayload::Other));
    assert_eq!(effects.reads.len(), 2);
    assert!(effects.reads.contains(&nonce(literal("SP-origin"))));
    assert!(effects.reads.contains(&stx(literal("SP-origin"))));
}

#[test]
fn simple_payloads_have_simple_effects() {
    let origin = tx(TransactionPayload::Other);
    let transfer = stx_transfer_effects(&origin, &account("SP-to"));
    assert_eq!(transfer.purity, Purity::Impure);
    assert_eq!(transfer.reads, transfer.writes);
    assert_eq!(transfer.reads.len(), 2);
    assert!(transfer.writes.contains(&stx(literal("SP-origin"))));
    assert!(transfer.writes.contains(&stx(literal("SP-to"))));

    let coinbase = coinbase_effects(&origin, &None);
    assert_eq!(coinbase.reads, coinbase.writes);
    assert_eq!(coinbase.writes.len(), 1);
    assert!(coinbase.writes.contains(&stx(literal("SP-origin"))));
    let coinbase = coinbase_effects(&origin, &Some(account("SP-to")));
    assert_eq!(coinbase.writes.len(), 1);
    assert!(coinbase.writes.contains(&stx(literal("SP-to"))));

    let tenure = tenure_change_effects();
    assert!(tenure.reads.is_empty());
    assert_eq!(tenure.writes.len(), 1);
    assert!(tenure
        .writes
        .contains(&EffectTarget::ChainState(ChainStateRead::TenureInfo)));
}

#[test]
fn arguments_are_extracted_and_resolved() {
    let contract = Value::Principal(PrincipalData::Contract(id("c")));
    let callable = Value::CallableContract(id("d"));
    let standard = Value::Principal(account("SP9"));
    assert_eq!(extract_contract_arg(&contract), Some(id("c")));
    assert_eq!(extract_contract_arg(&callable), Some(id("d")));
    assert_eq!(extract_contract_arg(&standard), None);
    assert_eq!(extract_contract_arg(&Value::Other), None);
    assert_eq!(
        extract_principal_arg(&contract),
        Some(PrincipalData::Contract(id("c")))
    );
    assert_eq!(extract_principal_arg(&callable), None);
    assert_eq!(extract_principal_arg(&standard), Some(account("SP9")));

    let args = vec![None, Some(account("SP9"))];
    let resolve = |reference: PrincipalReference| resolve_principal_reference(&reference, &args);
    assert_eq!(resolve(PrincipalReference::Argument(0)), PrincipalReference::Any);
    assert_eq!(resolve(PrincipalReference::Argument(1)), literal("SP9"));
    assert_eq!(resolve(PrincipalReference::Argument(2)), PrincipalReference::Any);
    assert_eq!(
        resolve(PrincipalReference::TxSender),
        PrincipalReference::TxSender
    );

    let args = vec![Some(id("c")), None];
    let resolve = |reference: ContractReference| resolve_contract_reference(&reference, &args);
    assert_eq!(
        resolve(ContractReference::Argument(0)),
        ContractReference::Literal(id("c"))
    );
    assert_eq!(resolve(ContractReference::Argument(1)), ContractReference::Any);
    assert_eq!(resolve(ContractReference::Argument(9)), ContractReference::Any);
    assert_eq!(
        resolve(ContractReference::Literal(id("d"))),
        ContractReference::Literal(id("d"))
    );
}

#[test]
fn effects_are_resolved_to_literal_principals() {
    let mut effects = FunctionEffects::default();
    effects.reads.insert(stx(PrincipalReference::Argument(0)));
    effects.reads.insert(stx(literal("SP9")));
    effects.writes.insert(nonce(PrincipalReference::Argument(1)));
    effects.writes.insert(stx(PrincipalReference::TxSender));
    effects.writes.insert(stx(PrincipalReference::CurrentContract));
    let resolved = resolve_principal_effects(&effects, &[Some(account("SP9"))]);
    // Two accesses that become the same are one.
    assert_eq!(resolved.reads.len(), 1);
    assert!(resolved.reads.contains(&stx(literal("SP9"))));
    assert!(resolved.writes.contains(&nonce(PrincipalReference::Any)));

    let resolved = resolve_well_known_principals(&resolved, &account("SP0"), &id("c"));
    assert!(resolved.writes.contains(&stx(literal("SP0"))));
    assert!(resolved.writes.contains(&stx(contract_literal("c"))));
    assert_eq!(resolved.writes.len(), 3);
}

#[test]
fn transactions_are_labelled() {
    let call = TransactionPayload::ContractCall(TransactionContractCall {
        contract: id("c"),
        function_name: "f".to_string(),
        function_args: Vec::new(),
    });
    assert_eq!(tx_label(&tx(call)), "contract-call SP1.c.f");
    let deploy = TransactionPayload::SmartContract(
        TransactionSmartContract {
            name: "c".to_string(),
            code_body: "".to_string(),
        },
        None,
    );
    assert_eq!(tx_label(&tx(deploy)), "deploy c");
    let transfer = TransactionPayload::TokenTransfer {
        recipient: PrincipalData::Contract(id("c")),
    };
    assert_eq!(tx_label(&tx(transfer)), "stx-transfer SP1.c");
    assert_eq!(tx_label(&tx(TransactionPayload::TenureChange)), "Payload");
    let coinbase = TransactionPayload::Coinbase { recipient: None };
    assert_eq!(tx_label(&tx(coinbase)), "Payload");
}

#[test]
fn simple_transactions_are_reported() {
    let store: ContractStore = OrderedMap::new();
    let transfer = tx(TransactionPayload::TokenTransfer {
        recipient: account("SP-to"),
    });
    let done = report(&transfer, true, &store).unwrap();
    let effects = done.effects.unwrap();
    assert_eq!(effects.reads.len(), 3);
    assert!(effects.writes.contains(&nonce(literal("SP-origin"))));
    assert_eq!(done.note, None);
    assert_eq!(done.unresolved_contract_calls, 0);
    assert!(done.call_graph.is_empty());
    assert_eq!(done.call_contract, None);
    assert_eq!(done.txid, "t0");
    assert_eq!(done.label, "stx-transfer SP-to");

    let tenure = report(&tx(TransactionPayload::TenureChange), true, &store).unwrap();
    let effects = tenure.effects.unwrap();
    assert_eq!(effects.writes.len(), 3);
    assert_eq!(effects.reads.len(), 2);

    let coinbase = tx(TransactionPayload::Coinbase { recipient: None });
    assert!(report(&coinbase, false, &store).unwrap().effects.is_some());

    let other = report(&tx(TransactionPayload::Other), true, &store).unwrap();
    assert_eq!(other.effects, None);
    assert_eq!(other.note, Some("unsupported payload".to_string()));
}

fn contract_call(args: Vec<Value>) -> StacksTransaction {
    tx(TransactionPayload::ContractCall(TransactionContractCall {
        contract: id("a"),
        function_name: "f".to_string(),
        function_args: args
            .into_iter()
            .enumerate()
            .map(|(i, value)| CallArgument {
                value,
                text: format!("arg{i}"),
            })
            .collect(),
    }))
}

#[test]
fn calls_are_reported() {
    // `f` moves the sender's coins to its second argument, and calls `g` of the
    // contract that is its first.
    let mut f = calling(vec![ContractCall {
        contract: ContractReference::Argument(0),
        function: "g".to_string(),
        arg_principals: vec![PrincipalReference::Argument(1)],
        caller: Some(id("a")),
    }]);
    f.writes.insert(stx(PrincipalReference::TxSender));
    f.writes.insert(stx(PrincipalReference::Argument(1)));
    let mut g = FunctionEffects::default();
    g.reads.insert(stx(PrincipalReference::ContractCaller));
    g.reads.insert(stx(PrincipalReference::CurrentContract));
    g.writes.insert(nonce(PrincipalReference::Argument(0)));

    let call = contract_call(vec![
        Value::CallableContract(id("b")),
        Value::Principal(account("SP-to")),
    ]);
    let mut store: ContractStore = OrderedMap::new();
    assert_eq!(
        report(&call, true, &store).unwrap_err(),
        TxStop::Unread(id("a"))
    );
    store.insert(id("a"), Lookup::Found(functions(vec![("f", f)])));
    let unknown = report(&call, true, &store).unwrap();
    // Nobody calls `b` by name, so it is not read.
    assert_eq!(unknown.unresolved_contract_calls, 1);
    assert_eq!(
        unknown.call_graph,
        [edge(("a", "f"), ContractReference::Literal(id("b")), "g")]
    );
    assert_eq!(unknown.call_contract, Some("SP1.a".to_string()));
    assert_eq!(unknown.call_function, Some("f".to_string()));
    assert_eq!(
        unknown.call_args,
        Some(vec!["arg0".to_string(), "arg1".to_string()])
    );
    let effects = unknown.effects.unwrap();
    assert!(effects.writes.contains(&stx(literal("SP-origin"))));
    assert!(effects.writes.contains(&stx(literal("SP-to"))));

    // Another function of `a` calls `b` by name, so that it is read.
    let Some(Lookup::Found(known)) = store.get(&id("a")) else {
        panic!("the contract was inserted");
    };
    let mut known = known.clone();
    known.insert(
        "other".to_string(),
        calling(vec![call_of(ContractReference::Literal(id("b")), "g")]),
    );
    store.insert(id("a"), Lookup::Found(known));
    assert_eq!(
        report(&call, true, &store).unwrap_err(),
        TxStop::Unread(id("b"))
    );
    store.insert(id("b"), Lookup::Found(functions(vec![("g", g)])));
    let known = report(&call, false, &store).unwrap();
    assert_eq!(known.unresolved_contract_calls, 0);
    assert!(known.call_graph.is_empty());
    let effects = known.effects.unwrap();
    assert!(effects.reads.contains(&stx(contract_literal("a"))));
    assert!(effects.reads.contains(&stx(contract_literal("b"))));
    assert!(effects.writes.contains(&nonce(literal("SP-to"))));
    assert!(effects.contract_calls.is_empty());
}

#[test]
fn calls_without_effects_are_explained() {
    let call = contract_call(Vec::new());
    let mut store: ContractStore = OrderedMap::new();
    store.insert(id("a"), Lookup::Absent);
    let note = |store: &ContractStore| {
        let done = report(&call, true, store).unwrap();
        assert_eq!(done.effects, None);
        assert_eq!(done.call_function, Some("f".to_string()));
        done.note.unwrap()
    };
    assert_eq!(note(&store), "missing contract source");
    store.insert(id("a"), Lookup::Failed("broken".to_string()));
    assert_eq!(note(&store), "broken");
    store.insert(
        id("a"),
        Lookup::Found(functions(vec![("h", FunctionEffects::default())])),
    );
    assert_eq!(note(&store), "missing function analysis");
    // The called contract is known, but one that it calls is broken.
    store.insert(
        id("a"),
        Lookup::Found(functions(vec![(
            "f",
            calling(vec![call_of(ContractReference::Literal(id("b")), "g")]),
        )])),
    );
    store.insert(id("b"), Lookup::Failed("broken b".to_string()));
    assert_eq!(note(&store), "broken b");
}

fn deploy() -> StacksTransaction {
    tx(TransactionPayload::SmartContract(
        TransactionSmartContract {
            name: "new".to_string(),
            code_body: "(var-set counter u1)".to_string(),
        },
        Some(ClarityVersion::Clarity3),
    ))
}

fn deployed_id() -> QualifiedContractIdentifier {
    QualifiedContractIdentifier {
        issuer: standard("SP-origin"),
        name: "new".to_string(),
    }
}

#[test]
fn deployments_are_reported() {
    let mut store: ContractStore = OrderedMap::new();
    let tx = deploy();
    let pending = analyze_tx_effects(&tx, &DeployOutcome::Pending, false, &store);
    assert_eq!(pending.unwrap_err(), TxStop::Unanalyzed(deployed_id()));

    let failed = DeployOutcome::ParseFailed("p".to_string());
    let done = analyze_tx_effects(&tx, &failed, false, &store).unwrap();
    assert_eq!(done.note, Some("Failed to parse contract: p".to_string()));
    let failed = DeployOutcome::AnalysisFailed("a".to_string());
    let done = analyze_tx_effects(&tx, &failed, false, &store).unwrap();
    assert_eq!(done.note, Some("Failed to analyze contract: a".to_string()));

    let mut natives = OrderedMap::new();
    natives.insert("contract-call?".to_string(), NativeFunctions::ContractCall);
    let atom = |name: &str| SymbolicExpression::Atom(name.to_string());
    let analysis = |expressions: Vec<TopLevel>| ContractAnalysis {
        contract_identifier: deployed_id(),
        clarity_version: ClarityVersion::Clarity3,
        natives: natives.clone(),
        expressions,
        function_effects: OrderedMap::new(),
    };
    let broken = DeployOutcome::Analyzed(analysis(vec![TopLevel::Invalid("bad".to_string())]));
    let done = analyze_tx_effects(&tx, &broken, false, &store).unwrap();
    assert_eq!(
        done.note,
        Some("Failed to analyze deploy effects: bad".to_string())
    );

    let good = DeployOutcome::Analyzed(analysis(vec![
        TopLevel::Definition(DefineFunctionsParsed::DataMap {
            name: "m".to_string(),
        }),
        TopLevel::Expression(SymbolicExpression::List(vec![
            atom("contract-call?"),
            SymbolicExpression::LiteralValue(Value::Principal(PrincipalData::Contract(id("b")))),
            atom("g"),
        ])),
    ]));
    assert_eq!(
        analyze_tx_effects(&tx, &good, true, &store).unwrap_err(),
        TxStop::Unread(id("b"))
    );
    store.insert(id("b"), Lookup::Absent);
    let done = analyze_tx_effects(&tx, &good, true, &store).unwrap();
    assert_eq!(done.label, "deploy new");
    assert_eq!(done.call_graph.len(), 1);
    assert_eq!(done.call_graph[0].from_contract, deployed_id());
    assert_eq!(done.call_graph[0].from_function, "deploy");
    assert_eq!(done.unresolved_contract_calls, 1);
    let effects = done.effects.unwrap();
    assert!(effects
        .writes
        .contains(&EffectTarget::Contract(ContractStorageAccess {
            contract: ContractReference::Literal(deployed_id()),
            location: Some(StorageLocation::DataMap("m".to_string())),
        })));

    let mut g = FunctionEffects::default();
    g.writes.insert(stx(PrincipalReference::TxSender));
    g.writes.insert(stx(PrincipalReference::CurrentContract));
    store.insert(id("b"), Lookup::Found(functions(vec![("g", g)])));
    let done = analyze_tx_effects(&tx, &good, true, &store).unwrap();
    assert_eq!(done.unresolved_contract_calls, 0);
    let effects = done.effects.unwrap();
    assert!(effects.writes.contains(&stx(literal("SP-origin"))));
    assert!(effects.writes.contains(&stx(contract_literal("b"))));
}

#[test]
fn the_call_graph_follows_literal_calls() {
    let to = |name: &str| ContractReference::Literal(id(name));
    let mut contracts: Contracts = OrderedMap::new();
    contracts.insert(
        id("a"),
        functions(vec![(
            "f",
            calling(vec![
                call_of(to("b"), "g"),
                call_of(ContractReference::Any, "x"),
                call_of(to("c"), "h"),
            ]),
        )]),
    );
    contracts.insert(
        id("b"),
        functions(vec![("g", calling(vec![call_of(to("a"), "f")]))]),
    );
    let edges = build_contract_call_graph(&id("a"), &"f".to_string(), &contracts);
    assert_eq!(
        edges,
        [
            edge(("a", "f"), ContractReference::Any, "x"),
            edge(("a", "f"), to("b"), "g"),
            edge(("a", "f"), to("c"), "h"),
            edge(("b", "g"), to("a"), "f"),
        ]
    );
    assert!(build_contract_call_graph(&id("a"), &"none".to_string(), &contracts).is_empty());
}

#[test]
fn contracts_are_loaded_once() {
    let mut store: ContractStore = OrderedMap::new();
    let mut contracts: Contracts = OrderedMap::new();
    assert_eq!(
        load_contract_effects(&store, &id("a"), &mut contracts),
        Err(LoadStop::Unread(id("a")))
    );
    store.insert(id("a"), Lookup::Absent);
    assert_eq!(
        load_contract_effects(&store, &id("a"), &mut contracts),
        Ok(None)
    );
    store.insert(id("a"), Lookup::Found(OrderedMap::new()));
    assert_eq!(
        load_contract_effects(&store, &id("a"), &mut contracts),
        Ok(Some(()))
    );
    // What is at hand is not looked up again.
    store.insert(id("a"), Lookup::Failed("broken".to_string()));
    assert_eq!(
        load_contract_effects(&store, &id("a"), &mut contracts),
        Ok(Some(()))
    );
    assert_eq!(contracts.len(), 1);
}

#[test]
fn replacing_calls_comes_to_rest() {
    let to = |name: &str| ContractReference::Literal(id(name));
    let target = EffectTarget::ChainState(ChainStateRead::BlockInfo);
    let mut deep = FunctionEffects::default();
    deep.reads.insert(target.clone());
    let mut contracts: Contracts = OrderedMap::new();
    for (name, next) in [("a", "b"), ("b", "c"), ("c", "d")] {
        contracts.insert(
            id(name),
            functions(vec![("f", calling(vec![call_of(to(next), "f")]))]),
        );
    }
    contracts.insert(id("d"), functions(vec![("f", deep)]));
    assert!(resolve_contract_effects_transitively(&mut contracts));
    for name in ["a", "b", "c", "d"] {
        let effects = contracts.get(&id(name)).unwrap().get(&"f".to_string()).unwrap();
        assert!(effects.reads.contains(&target));
        assert!(effects.contract_calls.is_empty());
    }
    let settled = contracts.clone();
    assert!(resolve_contract_effects_transitively(&mut contracts));
    assert_eq!(contracts, settled);
}

#[test]
fn contracts_named_by_passed_arguments_are_read() {
    // `f` hands its argument on, and so names `c` only once it is called.
    let mut effects = calling(vec![ContractCall {
        contract: ContractReference::Literal(id("b")),
        function: "g".to_string(),
        arg_principals: vec![contract_literal("c")],
        caller: Some(id("a")),
    }]);
    effects.purity = Purity::Impure;
    let g = calling(vec![call_of(ContractReference::Argument(0), "h")]);
    let mut h = FunctionEffects::default();
    let target = EffectTarget::ChainState(ChainStateRead::BlockInfo);
    h.writes.insert(target.clone());

    let mut store: ContractStore = OrderedMap::new();
    store.insert(id("b"), Lookup::Found(functions(vec![("g", g)])));
    let mut contracts: Contracts = OrderedMap::new();
    let stop = resolve_contract_calls_across_contracts(&effects, &[], &mut contracts, &store);
    assert_eq!(stop.unwrap_err(), LoadStop::Unread(id("c")));
    assert!(contracts.is_empty());
    store.insert(id("c"), Lookup::Found(functions(vec![("h", h)])));
    let resolved =
        resolve_contract_calls_across_contracts(&effects, &[], &mut contracts, &store).unwrap();
    assert!(resolved.writes.contains(&target));
    assert!(resolved.contract_calls.is_empty());
    assert_eq!(contracts.len(), 2);
    assert_eq!(resolved.purity, Purity::Impure);
}

#[test]
fn calls_inside_called_functions_are_rewritten() {
    let mut caller = FunctionEffects::default();
    caller.contract_calls.insert(ContractCall {
        contract: ContractReference::Literal(id("b")),
        function: "g".to_string(),
        arg_principals: vec![
            PrincipalReference::Argument(4),
            PrincipalReference::TxSender,
            contract_literal("d"),
        ],
        caller: Some(id("a")),
    });
    let inner = |contract: ContractReference| ContractCall {
        contract,
        function: "h".to_string(),
        arg_principals: vec![
            PrincipalReference::Argument(0),
            PrincipalReference::Argument(7),
            PrincipalReference::ContractCaller,
            PrincipalReference::CurrentContract,
        ],
        caller: Some(id("b")),
    };
    let g = calling(vec![
        inner(ContractReference::Argument(0)),
        inner(ContractReference::Argument(1)),
        inner(ContractReference::Argument(2)),
    ]);
    let mut contracts: Contracts = OrderedMap::new();
    contracts.insert(id("b"), functions(vec![("g", g)]));
    let resolved = caller.resolve_contract_calls(&[], &contracts);
    let outer = |contract: ContractReference| ContractCall {
        contract,
        function: "h".to_string(),
        arg_principals: vec![
            PrincipalReference::Argument(4),
            PrincipalReference::Any,
            contract_literal("a"),
            contract_literal("b"),
        ],
        caller: Some(id("b")),
    };
    assert_eq!(resolved.contract_calls.len(), 3);
    for contract in [
        ContractReference::Argument(4),
        ContractReference::Any,
        ContractReference::Literal(id("d")),
    ] {
        assert!(resolved.contract_calls.contains(&outer(contract)));
    }
    assert_eq!(resolved.purity, Purity::Pure);
}
