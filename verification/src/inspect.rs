//! What the commands decide between reading the chain state and printing.

use vstd::prelude::*;

use crate::contracts::{
    collect_contract_effects_recursive, contracts_settled, finite_functions, finite_store,
    law_collected_contracts, law_contracts_settled_rest, reached,
    resolve_contract_effects_transitively, result_view, ContractStore, LoadStop, StopV, StoreV,
    ROUND_LIMIT,
};
use crate::effects::{Functions, FunctionsV};
use crate::following::{
    accesses, knows, law_settled_contracts_are_found, law_settled_contracts_follow_calls,
    leads_to_access, same_place, stems_from,
};
use crate::ordered::Data;
use crate::text::{decimal, digits, is_text, trim, trimmed};
use crate::types::{ContractIdV, NameV, QualifiedContractIdentifier, TargetV};

verus! {

/// The functions of a contract with the calls of other contracts replaced, until
/// nothing changes, in it and in all contracts that its calls lead to.
pub open spec fn contract_resolved(
    contract: ContractIdV,
    functions: FunctionsV,
    store: StoreV,
) -> Result<FunctionsV, StopV> {
    match reached(contract, functions, store) {
        Err(stop) => Err(stop),
        Ok(contracts) => match contracts_settled(contracts, ROUND_LIMIT as nat) {
            None => Err(StopV::Unsettled),
            Some(known) => if known.contains_key(contract) {
                Ok(known[contract])
            } else {
                Ok(functions)
            },
        },
    }
}

/// Replaces the calls of a contract by the effects of what they call.
pub fn resolve_contract_effects(
    contract_id: &QualifiedContractIdentifier,
    functions: &Functions,
    store: &ContractStore,
) -> (r: Result<Functions, LoadStop>)
    ensures
        result_view(r) == contract_resolved(contract_id@, functions@, store@),
{
    let mut contracts = match collect_contract_effects_recursive(contract_id, functions, store) {
        Ok(contracts) => contracts,
        Err(stop) => {
            return Err(stop);
        },
    };
    if !resolve_contract_effects_transitively(&mut contracts) {
        return Err(LoadStop::Unsettled);
    }
    match contracts.get(contract_id) {
        Some(resolved) => Ok(resolved.duplicate()),
        None => Ok(functions.duplicate()),
    }
}

/// Where a transaction in hexadecimal digits comes from.
#[derive(Debug, Clone, PartialEq, Eq)]
pub enum HexSource {
    Stdin,
    /// The file of this path.
    File(String),
    /// The digits themselves.
    Text(String),
}

pub ghost enum HexSourceV {
    Stdin,
    File(Seq<char>),
    Text(Seq<char>),
}

impl View for HexSource {
    type V = HexSourceV;

    open spec fn view(&self) -> HexSourceV {
        match self {
            HexSource::Stdin => HexSourceV::Stdin,
            HexSource::File(path) => HexSourceV::File(path@),
            HexSource::Text(text) => HexSourceV::Text(text@),
        }
    }
}

/// What a trimmed argument stands for: a dash for the standard input, an at sign
/// for the file whose path follows it, and anything else for itself.
pub open spec fn hex_source_in(arg: Seq<char>) -> HexSourceV {
    if arg == "-"@ {
        HexSourceV::Stdin
    } else if arg.len() > 0 && arg[0] == '@' {
        HexSourceV::File(arg.skip(1))
    } else {
        HexSourceV::Text(arg)
    }
}

/// What a trimmed argument stands for.
pub fn hex_source(arg: &String) -> (r: HexSource)
    ensures
        r@ == hex_source_in(arg@),
{
    if is_text(arg, "-") {
        return HexSource::Stdin;
    }
    let n = arg.as_str().unicode_len();
    if n > 0 && arg.as_str().get_char(0) == '@' {
        let path = arg.as_str().substring_char(1, n).to_string();
        assert(path@ =~= arg@.skip(1));
        HexSource::File(path)
    } else {
        HexSource::Text(arg.duplicate())
    }
}

/// What an argument stands for, with white space at its ends ignored.
pub fn read_hex_arg(arg: &str) -> (r: HexSource)
    ensures
        r@ == hex_source_in(trimmed(arg@)),
{
    hex_source(&trim(arg))
}

/// Hexadecimal digits with white space at their ends ignored.
pub fn trimmed_hex(arg: &str) -> (r: String)
    ensures
        r@ == trimmed(arg@),
{
    trim(arg)
}

/// Checks that the identifier of a transaction has as many bytes as it should.
pub fn check_txid_length(bytes: usize) -> (r: Result<(), String>)
    ensures
        r is Ok <==> bytes == 32,
        r matches Err(e) ==> e@ == "Invalid txid length: expected 32 bytes, got "@ + digits(
            bytes as nat,
        ),
{
    if bytes == 32 {
        Ok(())
    } else {
        let mut e = "Invalid txid length: expected 32 bytes, got ".to_string();
        e.append(decimal(bytes as u128).as_str());
        Err(e)
    }
}

/// The first place of a transaction in a list of identifiers.
pub fn find_tx(txids: &Vec<String>, txid: &String) -> (r: Option<usize>)
    ensures
        match r {
            Some(i) => i < txids@.len() && txids@[i as int]@ == txid@ && forall|j: int|
                0 <= j < i ==> (#[trigger] txids@[j])@ != txid@,
            None => forall|j: int| 0 <= j < txids@.len() ==> (#[trigger] txids@[j])@ != txid@,
        },
{
    let mut i: usize = 0;
    while i < txids.len()
        invariant
            i <= txids.len(),
            forall|j: int| 0 <= j < i ==> (#[trigger] txids@[j])@ != txid@,
        decreases txids.len() - i,
    {
        if txids[i].same(txid) {
            return Some(i);
        }
        i = i + 1;
    }
    None
}

/// Where a transaction was looked for in vain.
#[derive(Debug, Clone, PartialEq, Eq)]
pub enum TxSearch {
    /// In the index of transactions.
    Index,
    /// In a block of the later kind.
    NakamotoBlock(String),
    /// In a block of the earlier kind.
    Block(String),
}

/// What is said of a transaction that is not found.
pub open spec fn tx_not_found_text(txid: Seq<char>, search: TxSearch) -> Seq<char> {
    match search {
        TxSearch::Index => "Transaction "@ + txid
            + " not found in chainstate (txindex may be disabled). Provide --block-id to scan a specific block."@,
        TxSearch::NakamotoBlock(block) => "Transaction "@ + txid + " not found in Nakamoto block "@
            + block@ + "."@,
        TxSearch::Block(block) => "Transaction "@ + txid + " not found in block "@ + block@ + "."@,
    }
}

/// Says that a transaction is not found.
pub fn tx_not_found(txid: &str, search: &TxSearch) -> (s: String)
    ensures
        s@ == tx_not_found_text(txid@, *search),
{
    let mut s = "Transaction ".to_string();
    s.append(txid);
    match search {
        TxSearch::Index => {
            s.append(
                " not found in chainstate (txindex may be disabled). Provide --block-id to scan a specific block.",
            );
        },
        TxSearch::NakamotoBlock(block) => {
            s.append(" not found in Nakamoto block ");
            s.append(block.as_str());
            s.append(".");
        },
        TxSearch::Block(block) => {
            s.append(" not found in block ");
            s.append(block.as_str());
            s.append(".");
        },
    }
    s
}

/// Where the chain state lies under a data directory.
pub fn chain_state_path(db_path: &str) -> (s: String)
    ensures
        s@ == db_path@ + "/chainstate/"@,
{
    let mut s = db_path.to_string();
    s.append("/chainstate/");
    s
}

/// Where the sortitions lie under a data directory.
pub fn sort_db_path(db_path: &str) -> (s: String)
    ensures
        s@ == db_path@ + "/burnchain/sortition"@,
{
    let mut s = db_path.to_string();
    s.append("/burnchain/sortition");
    s
}

/// Where the staging blocks lie under a data directory.
pub fn staging_blocks_db_path(db_path: &str) -> (s: String)
    ensures
        s@ == db_path@ + "/chainstate/vm/index.sqlite"@,
{
    let mut s = db_path.to_string();
    s.append("/chainstate/vm/index.sqlite");
    s
}

/// What the source of a contract is called: the standard input, or its path.
pub open spec fn source_name(path: Seq<char>) -> Seq<char> {
    if path == "-"@ {
        "stdin"@
    } else {
        path
    }
}

/// Writes the hash of a contract.
pub fn format_contract_hash(path: &String, hex: &str) -> (s: String)
    ensures
        s@ == "Contract hash for "@ + source_name(path@) + ":\n"@ + hex@,
{
    let mut s = "Contract hash for ".to_string();
    if is_text(path, "-") {
        s.append("stdin");
    } else {
        s.append(path.as_str());
    }
    s.append(":\n");
    s.append(hex);
    s
}

/// The effects that are shown of a contract are those of its own functions: the
/// same functions, whose calls have been replaced.
pub proof fn law_resolved_contract_keeps_functions(
    contract: ContractIdV,
    functions: FunctionsV,
    store: StoreV,
)
    requires
        finite_functions(functions),
        finite_store(store),
    ensures
        contract_resolved(contract, functions, store) matches Ok(resolved) ==> resolved.dom()
            == functions.dom(),
{
    law_collected_contracts(contract, functions, store);
    if let Ok(contracts) = reached(contract, functions, store) {
        law_contracts_settled_rest(contracts, ROUND_LIMIT as nat);
    }
}

/// Nothing is missed of what is shown of a contract: a function reads and writes
/// whatever literal calls lead to from it, through all contracts that exist.
pub proof fn law_shown_effects_follow_calls(
    contract: ContractIdV,
    functions: FunctionsV,
    store: StoreV,
    f: NameV,
    writing: bool,
    t: TargetV,
    depth: nat,
)
    requires
        finite_functions(functions),
        finite_store(store),
        functions.contains_key(f),
        reached(contract, functions, store) matches Ok(contracts) && leads_to_access(
            contracts,
            functions[f],
            writing,
            t,
            depth,
        ),
    ensures
        contract_resolved(contract, functions, store) matches Ok(resolved) ==> accesses(
            resolved[f],
            writing,
        ).contains(t),
{
    law_collected_contracts(contract, functions, store);
    let contracts = reached(contract, functions, store)->Ok_0;
    law_settled_contracts_follow_calls(
        contracts,
        ROUND_LIMIT as nat,
        contract,
        f,
        writing,
        t,
        depth,
    );
}

/// Nothing is made up of what is shown of a contract: whatever a function reads or
/// writes, it does itself, or a function of a contract that calls lead to does, though
/// perhaps on another's behalf.
pub proof fn law_shown_effects_are_found(
    contract: ContractIdV,
    functions: FunctionsV,
    store: StoreV,
    f: NameV,
    writing: bool,
    t: TargetV,
)
    requires
        finite_functions(functions),
        finite_store(store),
        functions.contains_key(f),
    ensures
        contract_resolved(contract, functions, store) matches Ok(resolved) ==> accesses(
            resolved[f],
            writing,
        ).contains(t) ==> stems_from(
            reached(contract, functions, store)->Ok_0,
            writing,
            t,
        ),
{
    law_collected_contracts(contract, functions, store);
    if let Ok(contracts) = reached(contract, functions, store) {
        law_settled_contracts_are_found(contracts, ROUND_LIMIT as nat, writing, t);
        law_contracts_settled_rest(contracts, ROUND_LIMIT as nat);
        if let Some(known) = contracts_settled(contracts, ROUND_LIMIT as nat) {
            assert(knows(known, contract, f) && same_place(t, t));
        }
    }
}

/// A dash stands for the standard input, an at sign and what follows it for the file of
/// that path, and anything else for itself. A source is called by its path, but for the
/// standard input.
pub proof fn law_hex_sources(arg: Seq<char>, path: Seq<char>)
    ensures
        hex_source_in("-"@) == HexSourceV::Stdin,
        hex_source_in(seq!['@'] + path) == HexSourceV::File(path),
        arg != "-"@ && (arg.len() > 0 ==> arg[0] != '@') ==> hex_source_in(arg)
            == HexSourceV::Text(arg),
        source_name("-"@) == "stdin"@,
        arg != "-"@ ==> source_name(arg) == arg,
{
    reveal_strlit("-");
    assert((seq!['@'] + path).skip(1) =~= path);
    assert((seq!['@'] + path)[0] == '@');
    assert("-"@[0] == '-');
}

} // verus!
