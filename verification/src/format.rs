//! How effects are written, for people and as JSON.

use vstd::prelude::*;

use crate::codes::option_view;
use crate::effects::{EffectsV, FunctionEffects, Purity};
use crate::ordered::{ascending, Data, OrderedSet};
use crate::text::{decimal, digits};
use crate::types::{
    AssetId, AssetV, CallV, ChainReadV, ChainStateRead, ContractCall, ContractIdV, ContractRefV,
    ContractReference, EffectTarget, LocationV, PrincipalData, PrincipalRefV, PrincipalReference,
    PrincipalV, QualifiedContractIdentifier, StorageLocation, TargetV, TokenKind, TokenKindV,
};

verus! {

/// A contract is written as the address of its issuer and its name.
pub open spec fn contract_text(id: ContractIdV) -> Seq<char> {
    id.issuer.address + "."@ + id.name
}

/// A principal is written as its address, or as the contract it is.
pub open spec fn principal_text(p: PrincipalV) -> Seq<char> {
    match p {
        PrincipalV::Standard(account) => account.address,
        PrincipalV::Contract(id) => contract_text(id),
    }
}

/// An argument is written by its index.
pub open spec fn argument_text(index: u32) -> Seq<char> {
    "$arg["@ + digits(index as nat) + "]"@
}

pub open spec fn contract_ref_text(r: ContractRefV) -> Seq<char> {
    match r {
        ContractRefV::Any => "<any>"@,
        ContractRefV::Literal(id) => contract_text(id),
        ContractRefV::Argument(index) => argument_text(index),
    }
}

pub open spec fn principal_ref_text(p: PrincipalRefV) -> Seq<char> {
    match p {
        PrincipalRefV::Any => "<any>"@,
        PrincipalRefV::Literal(principal) => principal_text(principal),
        PrincipalRefV::Argument(index) => argument_text(index),
        PrincipalRefV::TxSender => "tx-sender"@,
        PrincipalRefV::ContractCaller => "contract-caller"@,
        PrincipalRefV::CurrentContract => "current-contract"@,
    }
}

pub open spec fn chain_read_text(read: ChainReadV) -> Seq<char> {
    match read {
        ChainReadV::BlockInfo => "block-info"@,
        ChainReadV::StacksBlockInfo => "stacks-block-info"@,
        ChainReadV::BurnBlockInfo => "burn-block-info"@,
        ChainReadV::TenureInfo => "tenure-info"@,
    }
}

pub open spec fn asset_text(asset: AssetV) -> Seq<char> {
    match asset {
        AssetV::Stx => "stx"@,
        AssetV::Token { contract, name, kind } => contract_text(contract) + "."@ + name + " ("@
            + (match kind {
            TokenKindV::Fungible => "ft"@,
            TokenKindV::NonFungible => "nft"@,
        }) + ")"@,
    }
}

pub open spec fn location_text(location: Option<LocationV>) -> Seq<char> {
    match location {
        Some(LocationV::DataMap(name)) => "map "@ + name,
        Some(LocationV::DataVar(name)) => "var "@ + name,
        None => "any"@,
    }
}

pub open spec fn target_text(t: TargetV) -> Seq<char> {
    match t {
        TargetV::Contract(access) => "contract "@ + contract_ref_text(access.contract) + " ("@
            + location_text(access.location) + ")"@,
        TargetV::AssetOwnership(access) => "asset "@ + asset_text(access.asset) + " principal "@
            + principal_ref_text(access.principal),
        TargetV::AccountNonce(access) => "account-nonce "@ + principal_ref_text(access.principal),
        TargetV::ChainState(read) => "chain-state "@ + chain_read_text(read),
    }
}

pub open spec fn purity_text(purity: Purity) -> Seq<char> {
    match purity {
        Purity::Pure => "Pure"@,
        Purity::Impure => "Impure"@,
    }
}

/// Writes a contract.
pub fn format_contract(id: &QualifiedContractIdentifier) -> (s: String)
    ensures
        s@ == contract_text(id@),
{
    let mut s = id.issuer.address.duplicate();
    s.append(".");
    s.append(id.name.as_str());
    s
}

/// Writes a principal.
pub fn format_principal(principal: &PrincipalData) -> (s: String)
    ensures
        s@ == principal_text(principal@),
{
    match principal {
        PrincipalData::Standard(account) => account.address.duplicate(),
        PrincipalData::Contract(id) => format_contract(id),
    }
}

fn format_argument(index: u32) -> (s: String)
    ensures
        s@ == argument_text(index),
{
    let mut s = "$arg[".to_string();
    s.append(decimal(index as u128).as_str());
    s.append("]");
    s
}

/// Writes a reference to a contract.
pub fn format_contract_reference(reference: &ContractReference) -> (s: String)
    ensures
        s@ == contract_ref_text(reference@),
{
    match reference {
        ContractReference::Any => "<any>".to_string(),
        ContractReference::Literal(contract) => format_contract(contract),
        ContractReference::Argument(index) => format_argument(*index),
    }
}

/// Writes a reference to a principal.
pub fn format_principal_reference(reference: &PrincipalReference) -> (s: String)
    ensures
        s@ == principal_ref_text(reference@),
{
    match reference {
        PrincipalReference::Any => "<any>".to_string(),
        PrincipalReference::Literal(principal) => format_principal(principal),
        PrincipalReference::Argument(index) => format_argument(*index),
        PrincipalReference::TxSender => "tx-sender".to_string(),
        PrincipalReference::ContractCaller => "contract-caller".to_string(),
        PrincipalReference::CurrentContract => "current-contract".to_string(),
    }
}

/// Writes a part of the chain state.
pub fn format_chain_read(read: &ChainStateRead) -> (s: &'static str)
    ensures
        s@ == chain_read_text(read@),
{
    match read {
        ChainStateRead::BlockInfo => "block-info",
        ChainStateRead::StacksBlockInfo => "stacks-block-info",
        ChainStateRead::BurnBlockInfo => "burn-block-info",
        ChainStateRead::TenureInfo => "tenure-info",
    }
}

/// Writes an asset.
pub fn format_asset_id(asset: &AssetId) -> (s: String)
    ensures
        s@ == asset_text(asset@),
{
    match asset {
        AssetId::Stx => "stx".to_string(),
        AssetId::Token { contract, name, kind } => {
            let mut s = format_contract(contract);
            s.append(".");
            s.append(name.as_str());
            s.append(" (");
            s.append(
                match kind {
                    TokenKind::Fungible => "ft",
                    TokenKind::NonFungible => "nft",
                },
            );
            s.append(")");
            s
        },
    }
}

fn format_location(location: &Option<StorageLocation>) -> (s: String)
    ensures
        s@ == location_text(option_view(*location)),
{
    match location {
        Some(StorageLocation::DataMap(name)) => {
            let mut s = "map ".to_string();
            s.append(name.as_str());
            s
        },
        Some(StorageLocation::DataVar(name)) => {
            let mut s = "var ".to_string();
            s.append(name.as_str());
            s
        },
        None => "any".to_string(),
    }
}

/// Writes what is read or written.
pub fn format_effect_target(effect: &EffectTarget) -> (s: String)
    ensures
        s@ == target_text(effect@),
{
    match effect {
        EffectTarget::Contract(access) => {
            let mut s = "contract ".to_string();
            s.append(format_contract_reference(&access.contract).as_str());
            s.append(" (");
            s.append(format_location(&access.location).as_str());
            s.append(")");
            s
        },
        EffectTarget::AssetOwnership(access) => {
            let mut s = "asset ".to_string();
            s.append(format_asset_id(&access.asset).as_str());
            s.append(" principal ");
            s.append(format_principal_reference(&access.principal).as_str());
            s
        },
        EffectTarget::AccountNonce(access) => {
            let mut s = "account-nonce ".to_string();
            s.append(format_principal_reference(&access.principal).as_str());
            s
        },
        EffectTarget::ChainState(read) => {
            let mut s = "chain-state ".to_string();
            s.append(format_chain_read(read));
            s
        },
    }
}

/// Writes a purity.
pub fn format_purity(purity: Purity) -> (s: &'static str)
    ensures
        s@ == purity_text(purity),
{
    match purity {
        Purity::Pure => "Pure",
        Purity::Impure => "Impure",
    }
}

/// The line for a target.
pub open spec fn target_line(t: TargetV) -> Seq<char> {
    "    - "@ + target_text(t) + "\n"@
}

/// One line for each target.
pub open spec fn target_lines(targets: Seq<TargetV>) -> Seq<char>
    decreases targets.len(),
{
    if targets.len() == 0 {
        ""@
    } else {
        target_lines(targets.drop_last()) + target_line(targets.last())
    }
}

/// A heading and one line for each target, in order; nothing where there is no
/// target.
pub open spec fn section_text(label: Seq<char>, targets: Set<TargetV>) -> Seq<char> {
    if targets == Set::<TargetV>::empty() {
        ""@
    } else {
        "  "@ + label + ":\n"@ + target_lines(ascending::<EffectTarget>(targets))
    }
}

fn format_target_line(effect: &EffectTarget) -> (s: String)
    ensures
        s@ == target_line(effect@),
{
    let mut s = "    - ".to_string();
    s.append(format_effect_target(effect).as_str());
    s.append("\n");
    s
}

/// Writes a section of effects.
pub fn effects_section(label: &str, effects: &OrderedSet<EffectTarget>) -> (s: String)
    ensures
        s@ == section_text(label@, effects@),
{
    if effects.is_empty() {
        return "".to_string();
    }
    let mut s = "  ".to_string();
    s.append(label);
    s.append(":\n");
    let ghost heading = s@;
    let n = effects.len();
    let ghost all = effects.in_order();
    let mut i: usize = 0;
    proof {
        reveal_strlit("");
        assert(s@ =~= heading + target_lines(all.take(0)));
    }
    while i < n
        invariant
            i <= n,
            n == all.len(),
            all == effects.in_order(),
            s@ == heading + target_lines(all.take(i as int)),
        decreases n - i,
    {
        s.append(format_target_line(effects.get(i)).as_str());
        proof {
            let next = all.take(i + 1);
            assert(next.drop_last() =~= all.take(i as int));
            assert(s@ =~= heading + target_lines(next));
        }
        i = i + 1;
    }
    assert(all.take(n as int) =~= all);
    s
}

/// A JSON value. The fields of an object have different names.
#[derive(Debug, PartialEq, Eq)]
pub enum Json {
    Null,
    Text(String),
    Number(u64),
    List(Vec<Json>),
    Object(Vec<(String, Json)>),
}

pub ghost enum JsonV {
    Null,
    Text(Seq<char>),
    Number(nat),
    List(Seq<JsonV>),
    Object(Seq<(Seq<char>, JsonV)>),
}

/// What a JSON value stands for.
pub open spec fn json_view(j: Json) -> JsonV
    decreases j, 0nat,
{
    match j {
        Json::Null => JsonV::Null,
        Json::Text(s) => JsonV::Text(s@),
        Json::Number(n) => JsonV::Number(n as nat),
        Json::List(list) => JsonV::List(json_views(list@)),
        Json::Object(fields) => JsonV::Object(field_views(fields@)),
    }
}

/// What the values of a list stand for.
pub open spec fn json_views(list: Seq<Json>) -> Seq<JsonV>
    decreases list, 1nat,
{
    if list.len() == 0 {
        Seq::empty()
    } else {
        json_views(list.subrange(0, list.len() - 1)).push(json_view(list[list.len() - 1]))
    }
}

/// What the fields of an object stand for.
pub open spec fn field_views(fields: Seq<(String, Json)>) -> Seq<(Seq<char>, JsonV)>
    decreases fields, 1nat,
{
    if fields.len() == 0 {
        Seq::empty()
    } else {
        let last = fields[fields.len() - 1];
        field_views(fields.subrange(0, fields.len() - 1)).push((last.0@, json_view(last.1)))
    }
}

impl View for Json {
    type V = JsonV;

    open spec fn view(&self) -> JsonV {
        json_view(*self)
    }
}

/// One value more.
pub proof fn lemma_json_push(list: Seq<Json>, j: Json)
    ensures
        json_views(list.push(j)) == json_views(list).push(j@),
{
    assert(list.push(j).subrange(0, list.len() as int) =~= list);
}

/// One field more.
pub proof fn lemma_field_push(fields: Seq<(String, Json)>, name: String, j: Json)
    ensures
        field_views(fields.push((name, j))) == field_views(fields).push((name@, j@)),
{
    assert(fields.push((name, j)).subrange(0, fields.len() as int) =~= fields);
}

/// Adds a field to an object under construction.
pub fn put(fields: &mut Vec<(String, Json)>, name: &str, value: Json)
    ensures
        field_views(final(fields)@) == field_views(old(fields)@).push((name@, value@)),
{
    let name = name.to_string();
    proof {
        lemma_field_push(fields@, name, value);
    }
    fields.push((name, value));
}

/// An object with one field.
pub open spec fn single(name: Seq<char>, value: JsonV) -> JsonV {
    JsonV::Object(seq![(name, value)])
}

fn single_field(name: &str, value: Json) -> (j: Json)
    ensures
        j@ == single(name@, value@),
{
    let mut fields: Vec<(String, Json)> = Vec::new();
    put(&mut fields, name, value);
    assert(field_views(fields@) =~= seq![(name@, value@)]);
    Json::Object(fields)
}

/// A location as JSON.
pub open spec fn location_json(location: Option<LocationV>) -> JsonV {
    match location {
        Some(LocationV::DataMap(name)) => single("DataMap"@, JsonV::Text(name)),
        Some(LocationV::DataVar(name)) => single("DataVar"@, JsonV::Text(name)),
        None => JsonV::Null,
    }
}

/// A target as JSON.
pub open spec fn target_json(t: TargetV) -> JsonV {
    match t {
        TargetV::Contract(access) => single(
            "Contract"@,
            JsonV::Object(
                seq![
                    ("contract"@, JsonV::Text(contract_ref_text(access.contract))),
                    ("location"@, location_json(access.location)),
                ],
            ),
        ),
        TargetV::AssetOwnership(access) => single(
            "AssetOwnership"@,
            JsonV::Object(
                seq![
                    ("asset"@, JsonV::Text(asset_text(access.asset))),
                    ("principal"@, JsonV::Text(principal_ref_text(access.principal))),
                ],
            ),
        ),
        TargetV::AccountNonce(access) => single(
            "AccountNonce"@,
            single("principal"@, JsonV::Text(principal_ref_text(access.principal))),
        ),
        TargetV::ChainState(read) => single("ChainState"@, JsonV::Text(chain_read_text(read))),
    }
}

/// A call as JSON.
pub open spec fn call_json(call: CallV) -> JsonV {
    JsonV::Object(
        seq![
            ("contract"@, JsonV::Text(contract_ref_text(call.contract))),
            ("function"@, JsonV::Text(call.function)),
        ],
    )
}

/// Targets as JSON, in order.
pub open spec fn targets_json(targets: Set<TargetV>) -> JsonV {
    JsonV::List(ascending::<EffectTarget>(targets).map_values(|t: TargetV| target_json(t)))
}

/// Calls as JSON, in order.
pub open spec fn calls_json(calls: Set<CallV>) -> JsonV {
    JsonV::List(ascending::<ContractCall>(calls).map_values(|c: CallV| call_json(c)))
}

/// Effects as JSON.
pub open spec fn effects_json(fx: EffectsV) -> JsonV {
    JsonV::Object(
        seq![
            ("purity"@, JsonV::Text(purity_text(fx.purity))),
            ("reads"@, targets_json(fx.reads)),
            ("writes"@, targets_json(fx.writes)),
            ("contract_calls"@, calls_json(fx.contract_calls)),
        ],
    )
}

fn two_fields(name: &str, value: Json, other_name: &str, other: Json) -> (j: Json)
    ensures
        j@ == JsonV::Object(seq![(name@, value@), (other_name@, other@)]),
{
    let mut fields: Vec<(String, Json)> = Vec::new();
    put(&mut fields, name, value);
    put(&mut fields, other_name, other);
    assert(field_views(fields@) =~= seq![(name@, value@), (other_name@, other@)]);
    Json::Object(fields)
}

/// A target as JSON.
pub fn effect_target_to_json(effect: &EffectTarget) -> (j: Json)
    ensures
        j@ == target_json(effect@),
{
    match effect {
        EffectTarget::Contract(access) => {
            let contract = format_contract_reference(&access.contract);
            let location = match &access.location {
                Some(StorageLocation::DataMap(name)) => single_field(
                    "DataMap",
                    Json::Text(name.duplicate()),
                ),
                Some(StorageLocation::DataVar(name)) => single_field(
                    "DataVar",
                    Json::Text(name.duplicate()),
                ),
                None => Json::Null,
            };
            single_field(
                "Contract",
                two_fields("contract", Json::Text(contract), "location", location),
            )
        },
        EffectTarget::AssetOwnership(access) => {
            let asset = format_asset_id(&access.asset);
            let principal = format_principal_reference(&access.principal);
            single_field(
                "AssetOwnership",
                two_fields("asset", Json::Text(asset), "principal", Json::Text(principal)),
            )
        },
        EffectTarget::AccountNonce(access) => {
            let principal = format_principal_reference(&access.principal);
            single_field("AccountNonce", single_field("principal", Json::Text(principal)))
        },
        EffectTarget::ChainState(read) => single_field(
            "ChainState",
            Json::Text(format_chain_read(read).to_string()),
        ),
    }
}

/// Targets as JSON, in order.
pub fn effect_set_to_json(effects: &OrderedSet<EffectTarget>) -> (j: Json)
    ensures
        j@ == targets_json(effects@),
{
    let n = effects.len();
    let ghost all = effects.in_order();
    let ghost f = |t: TargetV| target_json(t);
    let mut list: Vec<Json> = Vec::new();
    let mut i: usize = 0;
    assert(json_views(list@) =~= all.take(0).map_values(f));
    while i < n
        invariant
            i <= n,
            n == all.len(),
            all == effects.in_order(),
            f == (|t: TargetV| target_json(t)),
            json_views(list@) == all.take(i as int).map_values(f),
        decreases n - i,
    {
        let entry = effect_target_to_json(effects.get(i));
        proof {
            lemma_json_push(list@, entry);
            assert(all.take(i + 1).map_values(f) =~= all.take(i as int).map_values(f).push(
                f(all[i as int]),
            ));
        }
        list.push(entry);
        i = i + 1;
    }
    assert(all.take(n as int) =~= all);
    Json::List(list)
}

/// Calls as JSON, in order.
pub fn contract_calls_to_json(calls: &OrderedSet<ContractCall>) -> (j: Json)
    ensures
        j@ == calls_json(calls@),
{
    let n = calls.len();
    let ghost all = calls.in_order();
    let ghost f = |c: CallV| call_json(c);
    let mut list: Vec<Json> = Vec::new();
    let mut i: usize = 0;
    assert(json_views(list@) =~= all.take(0).map_values(f));
    while i < n
        invariant
            i <= n,
            n == all.len(),
            all == calls.in_order(),
            f == (|c: CallV| call_json(c)),
            json_views(list@) == all.take(i as int).map_values(f),
        decreases n - i,
    {
        let call = calls.get(i);
        let entry = two_fields(
            "contract",
            Json::Text(format_contract_reference(&call.contract)),
            "function",
            Json::Text(call.function.duplicate()),
        );
        proof {
            lemma_json_push(list@, entry);
            assert(all.take(i + 1).map_values(f) =~= all.take(i as int).map_values(f).push(
                f(all[i as int]),
            ));
        }
        list.push(entry);
        i = i + 1;
    }
    assert(all.take(n as int) =~= all);
    Json::List(list)
}

/// Effects as JSON.
pub fn function_effects_to_json(effects: &FunctionEffects) -> (j: Json)
    ensures
        j@ == effects_json(effects@),
{
    let mut fields: Vec<(String, Json)> = Vec::new();
    put(&mut fields, "purity", Json::Text(format_purity(effects.purity).to_string()));
    put(&mut fields, "reads", effect_set_to_json(&effects.reads));
    put(&mut fields, "writes", effect_set_to_json(&effects.writes));
    put(&mut fields, "contract_calls", contract_calls_to_json(&effects.contract_calls));
    assert(JsonV::Object(field_views(fields@)) == effects_json(effects@)) by {
        assert(field_views(fields@) =~= seq![
            ("purity"@, JsonV::Text(purity_text(effects@.purity))),
            ("reads"@, targets_json(effects@.reads)),
            ("writes"@, targets_json(effects@.writes)),
            ("contract_calls"@, calls_json(effects@.contract_calls)),
        ]);
    }
    Json::Object(fields)
}

} // verus!
