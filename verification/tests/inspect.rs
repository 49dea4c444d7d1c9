//! What the commands decide between reading the chain state and printing.

use clarity_effects::contracts::{ContractStore, LoadStop, Lookup};
use clarity_effects::effects::{FunctionEffects, Functions};
use clarity_effects::inspect::{
    chain_state_path, check_txid_length, find_tx, format_contract_hash, hex_source, read_hex_arg,
    resolve_contract_effects, sort_db_path, staging_blocks_db_path, trimmed_hex, tx_not_found,
    HexSource, TxSearch,
};
use clarity_effects::ordered::OrderedMap;
use clarity_effects::types::{
    ChainStateRead, ContractCall, ContractReference, EffectTarget, QualifiedContractIdentifier,
    StandardPrincipalData,
};

fn id(name: &str) -> QualifiedContractIdentifier {
    QualifiedContractIdentifier {
        issuer: StandardPrincipalData {
            version: 22,
            hash: String::new(),
            address: "SP1".to_string(),
        },
        name: name.to_string(),
    }
}

fn calling(callee: &str, function: &str) -> FunctionEffects {
    let mut effects = FunctionEffects::default();
    effects.contract_calls.insert(ContractCall {
        contract: ContractReference::Literal(id(callee)),
        function: function.to_string(),
        arg_principals: Vec::new(),
        caller: None,
    });
    effects
}

fn functions(name: &str, effects: FunctionEffects) -> Functions {
    let mut functions = OrderedMap::new();
    functions.insert(name.to_string(), effects);
    functions
}

#[test]
fn effects_are_followed_through_contracts() {
    let mut deep = FunctionEffects::default();
    let target = EffectTarget::ChainState(ChainStateRead::TenureInfo);
    deep.reads.insert(target.clone());
    let root = functions("f", calling("b", "g"));
    let mut store: ContractStore = OrderedMap::new();

    let stop = resolve_contract_effects(&id("a"), &root, &store).unwrap_err();
    assert_eq!(stop, LoadStop::Unread(id("b")));
    store.insert(id("b"), Lookup::Found(functions("g", calling("c", "h"))));
    let stop = resolve_contract_effects(&id("a"), &root, &store).unwrap_err();
    assert_eq!(stop, LoadStop::Unread(id("c")));
    store.insert(id("c"), Lookup::Found(functions("h", deep)));

    let resolved = resolve_contract_effects(&id("a"), &root, &store).unwrap();
    assert_eq!(resolved.len(), 1);
    let effects = resolved.get(&"f".to_string()).unwrap();
    assert!(effects.reads.contains(&target));
    assert!(effects.contract_calls.is_empty());

    store.insert(id("c"), Lookup::Absent);
    let resolved = resolve_contract_effects(&id("a"), &root, &store).unwrap();
    let effects = resolved.get(&"f".to_string()).unwrap();
    assert_eq!(effects.contract_calls.len(), 1);
    assert_eq!(effects.contract_calls.get(0).function, "h");

    store.insert(id("c"), Lookup::Failed("broken".to_string()));
    let stop = resolve_contract_effects(&id("a"), &root, &store).unwrap_err();
    assert_eq!(stop, LoadStop::Failed("broken".to_string()));
}

#[test]
fn hexadecimal_arguments_are_told_apart() {
    assert_eq!(read_hex_arg(" \t- \n"), HexSource::Stdin);
    assert_eq!(
        read_hex_arg("\n@/tmp/tx.hex "),
        HexSource::File("/tmp/tx.hex".to_string())
    );
    assert_eq!(
        read_hex_arg("\u{2003}00ff\u{a0}"),
        HexSource::Text("00ff".to_string())
    );
    // A text without an at sign is never a path.
    assert_eq!(read_hex_arg("00ab"), HexSource::Text("00ab".to_string()));
    assert_eq!(read_hex_arg("/tmp/tx.hex"), HexSource::Text("/tmp/tx.hex".to_string()));
    assert_eq!(read_hex_arg("@-"), HexSource::File("-".to_string()));
    assert_eq!(read_hex_arg(""), HexSource::Text("".to_string()));
    assert_eq!(
        hex_source(&"@".to_string()),
        HexSource::File("".to_string())
    );
    assert_eq!(
        hex_source(&" -".to_string()),
        HexSource::Text(" -".to_string())
    );
    assert_eq!(trimmed_hex("\r\n 0a 0b \u{3000}"), "0a 0b");
    assert_eq!(trimmed_hex(" \t "), "");
    assert_eq!(trimmed_hex("\u{85}\u{a0}\u{1680}ff\u{2000}\u{200a}\u{2028}"), "ff");
    assert_eq!(trimmed_hex("\u{b}\u{c}ff\u{2029}\u{202f}\u{205f}"), "ff");
    // No white space in the sense of Unicode.
    assert_eq!(trimmed_hex("\u{200b}ff\u{1c}"), "\u{200b}ff\u{1c}");
}

#[test]
fn transactions_are_found() {
    let txids: Vec<String> = ["t1", "t2", "t2"].iter().map(|t| t.to_string()).collect();
    assert_eq!(find_tx(&txids, &"t2".to_string()), Some(1));
    assert_eq!(find_tx(&txids, &"t3".to_string()), None);
    assert_eq!(check_txid_length(32), Ok(()));
    assert_eq!(
        check_txid_length(31),
        Err("Invalid txid length: expected 32 bytes, got 31".to_string())
    );
    assert_eq!(
        tx_not_found("ab", &TxSearch::Index),
        "Transaction ab not found in chainstate (txindex may be disabled). \
         Provide --block-id to scan a specific block."
    );
    assert_eq!(
        tx_not_found("ab", &TxSearch::NakamotoBlock("b0".to_string())),
        "Transaction ab not found in Nakamoto block b0."
    );
    assert_eq!(
        tx_not_found("ab", &TxSearch::Block("b0".to_string())),
        "Transaction ab not found in block b0."
    );
}

#[test]
fn paths_and_hashes_are_written() {
    assert_eq!(chain_state_path("/d"), "/d/chainstate/");
    assert_eq!(sort_db_path("/d"), "/d/burnchain/sortition");
    assert_eq!(
        staging_blocks_db_path("/d"),
        "/d/chainstate/vm/index.sqlite"
    );
    assert_eq!(
        format_contract_hash(&"-".to_string(), "ff"),
        "Contract hash for stdin:\nff"
    );
    assert_eq!(
        format_contract_hash(&"a.clar".to_string(), "ff"),
        "Contract hash for a.clar:\nff"
    );
}
