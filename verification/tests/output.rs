//! How effects are written, for people and as JSON.

use clarity_effects::effects::{FunctionEffects, Functions, Purity};
use clarity_effects::format::{
    effect_target_to_json, effects_section, format_asset_id, format_chain_read,
    format_contract_reference, format_effect_target, format_principal_reference, format_purity,
    function_effects_to_json, Json,
};
use clarity_effects::graph::CallGraphEdge;
use clarity_effects::ordered::{OrderedMap, OrderedSet};
use clarity_effects::output::{
    contract_effects_to_json, format_clarity_version, format_contract_effects,
    format_tx_effects_report, format_txid_effects_report, tx_effects_report_to_json,
    txid_effects_report_to_json,
};
use clarity_effects::syntax::ClarityVersion;
use clarity_effects::text::{decimal, parse_u64};
use clarity_effects::tx_report::TxEffectsReport;
use clarity_effects::types::{
    AccountNonceAccess, AssetId, AssetOwnershipAccess, ChainStateRead, ContractCall,
    ContractReference, ContractStorageAccess, EffectTarget, PrincipalData, PrincipalReference,
    QualifiedContractIdentifier, StandardPrincipalData, StorageLocation, TokenKind,
};

const DEPLOYER: &str = "ST1F7QA2MDF17S807EPA36TSS8AMEFY4KA9TVGWXT";

fn account(address: &str) -> StandardPrincipalData {
    StandardPrincipalData {
        version: 22,
        hash: String::new(),
        address: address.to_string(),
    }
}

fn id(name: &str) -> QualifiedContractIdentifier {
    QualifiedContractIdentifier {
        issuer: account(DEPLOYER),
        name: name.to_string(),
    }
}

fn storage(contract: &str, location: Option<StorageLocation>) -> EffectTarget {
    EffectTarget::Contract(ContractStorageAccess {
        contract: ContractReference::Literal(id(contract)),
        location,
    })
}

fn map(name: &str) -> EffectTarget {
    storage(
        "sbtc-registry",
        Some(StorageLocation::DataMap(name.to_string())),
    )
}

fn var(name: &str) -> EffectTarget {
    storage(
        "sbtc-registry",
        Some(StorageLocation::DataVar(name.to_string())),
    )
}

fn set(targets: Vec<EffectTarget>) -> OrderedSet<EffectTarget> {
    let mut set = OrderedSet::new();
    for target in targets {
        set.insert(target);
    }
    set
}

fn stx(principal: PrincipalReference) -> EffectTarget {
    EffectTarget::AssetOwnership(AssetOwnershipAccess {
        asset: AssetId::Stx,
        principal,
    })
}

fn to_value(json: &Json) -> serde_json::Value {
    match json {
        Json::Null => serde_json::Value::Null,
        Json::Text(s) => serde_json::Value::from(s.as_str()),
        Json::Number(n) => serde_json::Value::from(*n),
        Json::List(list) => serde_json::Value::Array(list.iter().map(to_value).collect()),
        Json::Object(fields) => serde_json::Value::Object(
            fields
                .iter()
                .map(|(name, value)| (name.clone(), to_value(value)))
                .collect(),
        ),
    }
}

fn value(text: &str) -> serde_json::Value {
    serde_json::from_str(text).unwrap()
}

#[test]
fn references_are_written() {
    assert_eq!(format_contract_reference(&ContractReference::Any), "<any>");
    assert_eq!(
        format_contract_reference(&ContractReference::Argument(12)),
        "$arg[12]"
    );
    assert_eq!(
        format_contract_reference(&ContractReference::Literal(id("c"))),
        format!("{DEPLOYER}.c")
    );
    for (reference, text) in [
        (PrincipalReference::Any, "<any>"),
        (PrincipalReference::Argument(0), "$arg[0]"),
        (
            PrincipalReference::Literal(PrincipalData::Standard(account("SP1"))),
            "SP1",
        ),
        (PrincipalReference::TxSender, "tx-sender"),
        (PrincipalReference::ContractCaller, "contract-caller"),
        (PrincipalReference::CurrentContract, "current-contract"),
    ] {
        assert_eq!(format_principal_reference(&reference), text);
    }
    assert_eq!(format_purity(Purity::Pure), "Pure");
    assert_eq!(format_purity(Purity::Impure), "Impure");
    for (read, text) in [
        (ChainStateRead::BlockInfo, "block-info"),
        (ChainStateRead::StacksBlockInfo, "stacks-block-info"),
        (ChainStateRead::BurnBlockInfo, "burn-block-info"),
        (ChainStateRead::TenureInfo, "tenure-info"),
    ] {
        assert_eq!(format_chain_read(&read), text);
    }
    for (version, text) in [
        (ClarityVersion::Clarity1, "Clarity1"),
        (ClarityVersion::Clarity2, "Clarity2"),
        (ClarityVersion::Clarity3, "Clarity3"),
        (ClarityVersion::Clarity4, "Clarity4"),
    ] {
        assert_eq!(format_clarity_version(version), text);
    }
}

#[test]
fn targets_are_written() {
    let nft = AssetId::token(id("t"), "n".to_string(), TokenKind::NonFungible);
    assert_eq!(format_asset_id(&nft), format!("{DEPLOYER}.t.n (nft)"));
    assert_eq!(format_asset_id(&AssetId::stx()), "stx");
    let nonce = EffectTarget::AccountNonce(AccountNonceAccess {
        principal: PrincipalReference::Any,
    });
    for (target, text, json) in [
        (
            map("m"),
            format!("contract {DEPLOYER}.sbtc-registry (map m)"),
            format!(
                r#"{{"Contract":{{"contract":"{DEPLOYER}.sbtc-registry",
                    "location":{{"DataMap":"m"}}}}}}"#
            ),
        ),
        (
            var("v"),
            format!("contract {DEPLOYER}.sbtc-registry (var v)"),
            format!(
                r#"{{"Contract":{{"contract":"{DEPLOYER}.sbtc-registry",
                    "location":{{"DataVar":"v"}}}}}}"#
            ),
        ),
        (
            storage("c", None),
            format!("contract {DEPLOYER}.c (any)"),
            format!(r#"{{"Contract":{{"contract":"{DEPLOYER}.c","location":null}}}}"#),
        ),
        (
            stx(PrincipalReference::Argument(3)),
            "asset stx principal $arg[3]".to_string(),
            r#"{"AssetOwnership":{"asset":"stx","principal":"$arg[3]"}}"#.to_string(),
        ),
        (
            nonce,
            "account-nonce <any>".to_string(),
            r#"{"AccountNonce":{"principal":"<any>"}}"#.to_string(),
        ),
        (
            EffectTarget::ChainState(ChainStateRead::BurnBlockInfo),
            "chain-state burn-block-info".to_string(),
            r#"{"ChainState":"burn-block-info"}"#.to_string(),
        ),
    ] {
        assert_eq!(format_effect_target(&target), text);
        assert_eq!(to_value(&effect_target_to_json(&target)), value(&json));
    }
    assert_eq!(effects_section("reads", &OrderedSet::new()), "");
    assert_eq!(
        effects_section("reads", &set(vec![stx(PrincipalReference::Any)])),
        "  reads:\n    - asset stx principal <any>\n"
    );
}

fn deposit_functions() -> Functions {
    let mut functions = OrderedMap::new();
    let mut helper = FunctionEffects {
        purity: Purity::Impure,
        reads: set(vec![
            EffectTarget::ChainState(ChainStateRead::BurnBlockInfo),
            var("current-signer-set"),
            var("current-aggregate-pubkey"),
            map("deposit-status"),
            map("active-protocol-roles"),
        ]),
        writes: set(vec![
            EffectTarget::AssetOwnership(AssetOwnershipAccess {
                asset: AssetId::token(
                    id("sbtc-token"),
                    "sbtc-token".to_string(),
                    TokenKind::Fungible,
                ),
                principal: PrincipalReference::Argument(3),
            }),
            map("deposit-status"),
            map("completed-deposits"),
        ]),
        contract_calls: OrderedSet::new(),
    };
    helper.contract_calls.insert(ContractCall {
        contract: ContractReference::Argument(0),
        function: "transfer".to_string(),
        arg_principals: Vec::new(),
        caller: None,
    });
    functions.insert("get-burn-header".to_string(), FunctionEffects::default());
    functions.insert("complete-deposit-wrapper".to_string(), helper);
    functions
}

#[test]
fn effects_of_a_contract_are_written_in_order() {
    let text = format_contract_effects(
        &id("sbtc-deposit"),
        ClarityVersion::Clarity3,
        &deposit_functions(),
    );
    let expected = "Contract: ST1F7QA2MDF17S807EPA36TSS8AMEFY4KA9TVGWXT.sbtc-deposit
Clarity version: Clarity3

Function complete-deposit-wrapper (Impure)
  reads:
    - contract ST1F7QA2MDF17S807EPA36TSS8AMEFY4KA9TVGWXT.sbtc-registry (map active-protocol-roles)
    - contract ST1F7QA2MDF17S807EPA36TSS8AMEFY4KA9TVGWXT.sbtc-registry (map deposit-status)
    - contract ST1F7QA2MDF17S807EPA36TSS8AMEFY4KA9TVGWXT.sbtc-registry (var current-aggregate-pubkey)
    - contract ST1F7QA2MDF17S807EPA36TSS8AMEFY4KA9TVGWXT.sbtc-registry (var current-signer-set)
    - chain-state burn-block-info
  writes:
    - contract ST1F7QA2MDF17S807EPA36TSS8AMEFY4KA9TVGWXT.sbtc-registry (map completed-deposits)
    - contract ST1F7QA2MDF17S807EPA36TSS8AMEFY4KA9TVGWXT.sbtc-registry (map deposit-status)
    - asset ST1F7QA2MDF17S807EPA36TSS8AMEFY4KA9TVGWXT.sbtc-token.sbtc-token (ft) principal $arg[3]
  contract-calls:
    - $arg[0].transfer

Function get-burn-header (Pure)
";
    assert_eq!(text, expected);
}

#[test]
fn effects_of_a_contract_are_written_as_json() {
    let mut resolved: Functions = OrderedMap::new();
    let mut effects = FunctionEffects::default();
    effects.reads.insert(stx(PrincipalReference::Any));
    effects.purity = Purity::Impure;
    resolved.insert("f".to_string(), effects);
    let mut raw: Functions = OrderedMap::new();
    let mut effects = FunctionEffects::default();
    effects.contract_calls.insert(ContractCall {
        contract: ContractReference::Any,
        function: "g".to_string(),
        arg_principals: Vec::new(),
        caller: None,
    });
    raw.insert("f".to_string(), effects);
    raw.insert("h".to_string(), FunctionEffects::default());
    let json = contract_effects_to_json(&id("c"), ClarityVersion::Clarity1, &resolved, &raw);
    let expected = r#"{
        "contract": "ST1F7QA2MDF17S807EPA36TSS8AMEFY4KA9TVGWXT.c",
        "clarity_version": "Clarity1",
        "effects": {
            "f": {
                "purity": "Impure",
                "reads": [{"AssetOwnership": {"asset": "stx", "principal": "<any>"}}],
                "writes": [],
                "contract_calls": []
            }
        },
        "calls": {"f": [{"contract": "<any>", "function": "g"}], "h": []}
    }"#;
    assert_eq!(to_value(&json), value(expected));
    let Some(first) = raw.get(&"f".to_string()) else {
        panic!("the function was inserted");
    };
    assert_eq!(
        to_value(&function_effects_to_json(first)),
        value(
            r#"{"purity": "Pure", "reads": [], "writes": [],
                "contract_calls": [{"contract": "<any>", "function": "g"}]}"#
        )
    );
}

fn call_report() -> TxEffectsReport {
    let mut effects = FunctionEffects::default();
    let sender = PrincipalReference::Literal(PrincipalData::Standard(account("SP1")));
    effects.reads.insert(stx(sender.clone()));
    effects.writes.insert(stx(sender));
    TxEffectsReport {
        txid: "e38d".to_string(),
        label: "contract-call SP1.pool.supply".to_string(),
        effects: Some(effects),
        unresolved_contract_calls: 2,
        note: None,
        call_graph: vec![CallGraphEdge {
            from_contract: id("pool"),
            from_function: "supply".to_string(),
            to_contract: ContractReference::Literal(id("usdcx")),
            to_function: "transfer".to_string(),
            certainty: "might",
        }],
        call_contract: Some("SP1.pool".to_string()),
        call_function: Some("supply".to_string()),
        call_args: Some(vec!["u1".to_string()]),
    }
}

fn note_report() -> TxEffectsReport {
    TxEffectsReport {
        txid: "e38d".to_string(),
        label: "PoisonMicroblock".to_string(),
        effects: None,
        unresolved_contract_calls: 0,
        note: Some("unsupported payload".to_string()),
        call_graph: Vec::new(),
        call_contract: None,
        call_function: None,
        call_args: None,
    }
}

const BODY: &str = "Type: contract-call SP1.pool.supply
  reads:
    - asset stx principal SP1
  writes:
    - asset stx principal SP1
  unresolved contract calls: 2
";

const GRAPH: &str = "  call-graph (might-call):
    - ST1F7QA2MDF17S807EPA36TSS8AMEFY4KA9TVGWXT.pool.supply -> ST1F7QA2MDF17S807EPA36TSS8AMEFY4KA9TVGWXT.usdcx.transfer
";

#[test]
fn reports_are_written_for_people() {
    let report = call_report();
    assert_eq!(
        format_tx_effects_report(&report, true),
        format!("Txid: e38d\n{BODY}{GRAPH}")
    );
    assert_eq!(
        format_tx_effects_report(&report, false),
        format!("Txid: e38d\n{BODY}")
    );
    assert_eq!(
        format_txid_effects_report(&report, "a4c2", true),
        format!("Txid: e38d (block a4c2)\n{BODY}{GRAPH}")
    );
    assert_eq!(
        format_tx_effects_report(&note_report(), true),
        "Txid: e38d\nType: PoisonMicroblock\nNote: unsupported payload\n"
    );
}

#[test]
fn reports_are_written_as_json() {
    let effects = r#"{"purity": "Pure",
        "reads": [{"AssetOwnership": {"asset": "stx", "principal": "SP1"}}],
        "writes": [{"AssetOwnership": {"asset": "stx", "principal": "SP1"}}],
        "contract_calls": []}"#;
    let rest = format!(
        r#""txid": "e38d", "label": "contract-call SP1.pool.supply", "effects": {effects},
        "unresolved_contract_calls": 2, "note": null,
        "call_graph": [{{
            "from_contract": "{DEPLOYER}.pool", "from_function": "supply",
            "to_contract": "{DEPLOYER}.usdcx", "to_function": "transfer",
            "certainty": "might"
        }}],
        "call_contract": "SP1.pool", "call_function": "supply", "call_args": ["u1"]"#
    );
    let report = call_report();
    assert_eq!(
        to_value(&tx_effects_report_to_json(&report)),
        value(&format!("{{{rest}}}"))
    );
    assert_eq!(
        to_value(&txid_effects_report_to_json(&report, "a4c2")),
        value(&format!(r#"{{"index_block_hash": "a4c2", {rest}}}"#))
    );
    assert_eq!(
        to_value(&tx_effects_report_to_json(&note_report())),
        value(
            r#"{"txid": "e38d", "label": "PoisonMicroblock", "effects": null,
                "unresolved_contract_calls": 0, "note": "unsupported payload",
                "call_graph": [], "call_contract": null, "call_function": null,
                "call_args": null}"#
        )
    );
}

#[test]
fn numbers_are_written_and_read() {
    assert_eq!(decimal(0), "0");
    assert_eq!(decimal(u128::MAX), u128::MAX.to_string());
    for (text, number) in [
        ("0", Some(0)),
        ("007", Some(7)),
        ("+5", Some(5)),
        ("18446744073709551615", Some(u64::MAX)),
        ("18446744073709551616", None),
        ("99999999999999999999999", None),
        ("+", None),
        ("", None),
        ("-0", None),
        ("1 ", None),
        ("++1", None),
    ] {
        assert_eq!(parse_u64(text), number, "{text:?}");
        assert_eq!(text.parse::<u64>().ok(), number, "{text:?}");
    }
}

#[test]
fn accounts_are_ordered_by_version_and_hash() {
    let account = |version: u32, hash: &str, address: &str| StandardPrincipalData {
        version,
        hash: hash.to_string(),
        address: address.to_string(),
    };
    let mut set = OrderedSet::new();
    for issuer in [
        account(26, "00", "STA"),
        account(22, "ff", "SP1"),
        account(22, "0f", "SPZ"),
    ] {
        set.insert(QualifiedContractIdentifier {
            issuer,
            name: "c".to_string(),
        });
    }
    let addresses: Vec<&str> = (0..set.len())
        .map(|i| set.get(i).issuer.address.as_str())
        .collect();
    assert_eq!(addresses, ["SPZ", "SP1", "STA"]);
}

#[test]
fn ordered_collections_keep_order() {
    let mut set = OrderedSet::new();
    for word in ["b", "a", "b", "B", "\u{e9}", "z"] {
        set.insert(word.to_string());
    }
    let words: Vec<&str> = (0..set.len()).map(|i| set.get(i).as_str()).collect();
    assert_eq!(words, ["B", "a", "b", "z", "\u{e9}"]);
    assert!(!set.insert("a".to_string()));
    assert!(set.contains(&"z".to_string()));
    assert!(!set.contains(&"y".to_string()));

    let mut other = OrderedSet::new();
    other.insert("y".to_string());
    assert!(set.absorb(&other));
    assert!(!set.absorb(&other));

    let mut map = OrderedMap::new();
    map.insert("k".to_string(), 1u32);
    map.insert("a".to_string(), 2u32);
    map.insert("k".to_string(), 3u32);
    assert_eq!(map.len(), 2);
    assert_eq!(map.key(0), "a");
    assert_eq!(*map.value(1), 3);
    assert_eq!(map.remove(&"a".to_string()), Some(2));
    assert_eq!(map.remove(&"a".to_string()), None);
    assert!(!map.contains_key(&"a".to_string()));
    assert_eq!(map.key_set().len(), 1);
}
