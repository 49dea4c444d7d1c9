//! Transactions, and the effects that each of them has by itself.

use vstd::prelude::*;

use crate::analyzer::owned;
use crate::codes::option_view;
use crate::effects::{contract_args, lemma_map_next, EffectsV, FunctionEffects, Purity};
use crate::ordered::{Data, OrderedSet};
use crate::syntax::{ClarityVersion, Value};
use crate::types::{
    AccountNonceAccess, AssetId, AssetOwnershipAccess, AssetV, ChainReadV, ChainStateRead,
    ClarityName, ContractIdV, ContractRefV, ContractReference, EffectTarget, NonceAccessV,
    OwnershipAccessV, PrincipalData, PrincipalRefV, PrincipalReference, PrincipalV,
    QualifiedContractIdentifier, StandardPrincipalData, TargetV,
};

verus! {

/// Who may spend: the account on each network.
#[derive(Debug, Clone, PartialEq, Eq)]
pub struct TransactionSpendingCondition {
    pub address_mainnet: StandardPrincipalData,
    pub address_testnet: StandardPrincipalData,
}

/// An argument of a call: its value, and how it is written.
#[derive(Debug, Clone, PartialEq, Eq)]
pub struct CallArgument {
    pub value: Value,
    pub text: String,
}

/// A call of a function of a contract.
#[derive(Debug, Clone, PartialEq, Eq)]
pub struct TransactionContractCall {
    pub contract: QualifiedContractIdentifier,
    pub function_name: ClarityName,
    pub function_args: Vec<CallArgument>,
}

/// The deployment of a contract.
#[derive(Debug, Clone, PartialEq, Eq)]
pub struct TransactionSmartContract {
    pub name: String,
    pub code_body: String,
}

/// What a transaction does.
#[derive(Debug, Clone, PartialEq, Eq)]
pub enum TransactionPayload {
    ContractCall(TransactionContractCall),
    SmartContract(TransactionSmartContract, Option<ClarityVersion>),
    TokenTransfer { recipient: PrincipalData },
    Coinbase { recipient: Option<PrincipalData> },
    TenureChange,
    /// Any other payload.
    Other,
}

/// A transaction, as far as its effects depend on it.
#[derive(Debug, Clone, PartialEq, Eq)]
pub struct StacksTransaction {
    /// The identifier, in hexadecimal digits.
    pub txid: String,
    pub mainnet: bool,
    pub origin: TransactionSpendingCondition,
    pub payer: TransactionSpendingCondition,
    pub sponsor: Option<TransactionSpendingCondition>,
    pub payload: TransactionPayload,
    /// What the kind of payload is called.
    pub payload_name: String,
}

/// The account of a spending condition on one of the networks.
pub open spec fn account(condition: TransactionSpendingCondition, mainnet: bool) -> PrincipalV {
    PrincipalV::Standard(
        if mainnet {
            condition.address_mainnet@
        } else {
            condition.address_testnet@
        },
    )
}

/// The account that a transaction comes from.
pub open spec fn origin_of(tx: StacksTransaction) -> PrincipalV {
    account(tx.origin, tx.mainnet)
}

/// The account that pays the fee.
pub open spec fn payer_of(tx: StacksTransaction) -> PrincipalV {
    account(tx.payer, tx.mainnet)
}

/// The account that sponsors the transaction, if there is one.
pub open spec fn sponsor_of(tx: StacksTransaction) -> Option<PrincipalV> {
    match tx.sponsor {
        Some(condition) => Some(account(condition, tx.mainnet)),
        None => None,
    }
}

/// The account of a spending condition on one of the networks.
pub fn spending_condition_principal(
    condition: &TransactionSpendingCondition,
    is_mainnet: bool,
) -> (p: PrincipalData)
    ensures
        p@ == account(*condition, is_mainnet),
{
    PrincipalData::Standard(
        if is_mainnet {
            condition.address_mainnet.duplicate()
        } else {
            condition.address_testnet.duplicate()
        },
    )
}

/// The account that a transaction comes from.
pub fn origin_principal(tx: &StacksTransaction) -> (p: Option<PrincipalData>)
    ensures
        option_view(p) == Some(origin_of(*tx)),
{
    Some(spending_condition_principal(&tx.origin, tx.mainnet))
}

/// The account that pays the fee.
pub fn payer_principal(tx: &StacksTransaction) -> (p: Option<PrincipalData>)
    ensures
        option_view(p) == Some(payer_of(*tx)),
{
    Some(spending_condition_principal(&tx.payer, tx.mainnet))
}

/// The account that sponsors the transaction, if there is one.
pub fn sponsor_principal(tx: &StacksTransaction) -> (p: Option<PrincipalData>)
    ensures
        option_view(p) == sponsor_of(*tx),
{
    match &tx.sponsor {
        Some(condition) => Some(spending_condition_principal(condition, tx.mainnet)),
        None => None,
    }
}

/// The identifier of a contract that a transaction deploys.
pub open spec fn deployed_contract(
    tx: StacksTransaction,
    contract: TransactionSmartContract,
) -> Option<ContractIdV> {
    match origin_of(tx) {
        PrincipalV::Standard(issuer) => Some(ContractIdV { issuer, name: contract.name@ }),
        PrincipalV::Contract(_) => None,
    }
}

/// The identifier of a contract that a transaction deploys.
pub fn contract_deploy_identifier(
    tx: &StacksTransaction,
    contract: &TransactionSmartContract,
) -> (r: Option<QualifiedContractIdentifier>)
    ensures
        option_view(r) == deployed_contract(*tx, *contract),
{
    match origin_principal(tx) {
        Some(PrincipalData::Standard(issuer)) => Some(
            QualifiedContractIdentifier { issuer, name: contract.name.duplicate() },
        ),
        _ => None,
    }
}

/// The nonce of an account.
pub open spec fn nonce(p: PrincipalV) -> TargetV {
    TargetV::AccountNonce(NonceAccessV { principal: PrincipalRefV::Literal(p) })
}

/// The native balance of an account.
pub open spec fn balance(p: PrincipalV) -> TargetV {
    owned(AssetV::Stx, PrincipalRefV::Literal(p))
}

/// Effects, and a target is read and written.
pub open spec fn updating(fx: EffectsV, t: TargetV) -> EffectsV {
    fx.reading(t).writing(t)
}

/// Effects that are impure from the start.
pub open spec fn impure() -> EffectsV {
    EffectsV { purity: Purity::Impure, ..EffectsV::none() }
}

/// The effects of a transfer of the native token.
pub open spec fn transfer_effects(tx: StacksTransaction, recipient: PrincipalV) -> EffectsV {
    updating(updating(impure(), balance(origin_of(tx))), balance(recipient))
}

/// The effects that every transaction has: the nonces of its accounts and the
/// balance that pays the fee are read and written.
pub open spec fn with_prereqs(fx: EffectsV, tx: StacksTransaction) -> EffectsV {
    let from_origin = updating(fx, nonce(origin_of(tx)));
    let from_sponsor = match sponsor_of(tx) {
        Some(sponsor) => updating(from_origin, nonce(sponsor)),
        None => from_origin,
    };
    updating(from_sponsor, balance(payer_of(tx)))
}

/// The effects of a coinbase: the recipient, or else the origin, is paid.
pub open spec fn coinbase_paid(tx: StacksTransaction, recipient: Option<PrincipalV>) -> EffectsV {
    match recipient {
        Some(p) => updating(impure(), balance(p)),
        None => updating(impure(), balance(origin_of(tx))),
    }
}

/// Adds a target to the reads and the writes.
fn update_target(effects: &mut FunctionEffects, target: EffectTarget)
    ensures
        final(effects)@ == updating(old(effects)@, target@),
{
    effects.reads.insert(target.duplicate());
    effects.writes.insert(target);
}

/// What a known principal, or else anyone, owns of the native token.
fn balance_of(principal: Option<PrincipalData>) -> (t: EffectTarget)
    ensures
        t@ == (match option_view(principal) {
            Some(p) => balance(p),
            None => owned(AssetV::Stx, PrincipalRefV::Any),
        }),
{
    EffectTarget::AssetOwnership(
        AssetOwnershipAccess {
            asset: AssetId::stx(),
            principal: match principal {
                Some(p) => PrincipalReference::Literal(p),
                None => PrincipalReference::Any,
            },
        },
    )
}

/// The nonce of a known principal, or else of anyone.
fn nonce_of(principal: Option<PrincipalData>) -> (t: EffectTarget)
    ensures
        t@ == (match option_view(principal) {
            Some(p) => nonce(p),
            None => TargetV::AccountNonce(NonceAccessV { principal: PrincipalRefV::Any }),
        }),
{
    EffectTarget::AccountNonce(
        AccountNonceAccess {
            principal: match principal {
                Some(p) => PrincipalReference::Literal(p),
                None => PrincipalReference::Any,
            },
        },
    )
}

fn impure_effects() -> (r: FunctionEffects)
    ensures
        r@ == impure(),
{
    let mut effects = FunctionEffects::default();
    effects.purity = Purity::Impure;
    effects
}

/// The effects of a transfer of the native token.
pub fn stx_transfer_effects(tx: &StacksTransaction, recipient: &PrincipalData) -> (r:
    FunctionEffects)
    ensures
        r@ == transfer_effects(*tx, recipient@),
{
    let mut effects = impure_effects();
    update_target(&mut effects, balance_of(origin_principal(tx)));
    update_target(&mut effects, balance_of(Some(recipient.duplicate())));
    effects
}

/// Adds the nonce and fee-payer balance effects that every transaction has.
pub fn apply_tx_prereqs(effects: &mut FunctionEffects, tx: &StacksTransaction)
    ensures
        final(effects)@ == with_prereqs(old(effects)@, *tx),
{
    update_target(effects, nonce_of(origin_principal(tx)));
    if let Some(sponsor) = sponsor_principal(tx) {
        update_target(effects, nonce_of(Some(sponsor)));
    }
    update_target(effects, balance_of(payer_principal(tx)));
}

/// The effects of a coinbase transaction.
pub fn coinbase_effects(tx: &StacksTransaction, recipient: &Option<PrincipalData>) -> (r:
    FunctionEffects)
    ensures
        r@ == coinbase_paid(*tx, option_view(*recipient)),
{
    let principal = match recipient {
        Some(p) => Some(p.duplicate()),
        None => origin_principal(tx),
    };
    let mut effects = impure_effects();
    update_target(&mut effects, balance_of(principal));
    effects
}

/// The effects of a tenure-change transaction: the tenure is written.
pub fn tenure_change_effects() -> (r: FunctionEffects)
    ensures
        r@ == impure().writing(TargetV::ChainState(ChainReadV::TenureInfo)),
{
    let mut effects = impure_effects();
    effects.writes.insert(EffectTarget::ChainState(ChainStateRead::TenureInfo));
    effects
}

/// The contract that an argument names.
pub open spec fn contract_argument(value: Value) -> Option<ContractIdV> {
    match value {
        Value::Principal(PrincipalData::Contract(id)) => Some(id@),
        Value::CallableContract(id) => Some(id@),
        _ => None,
    }
}

/// The principal that an argument is.
pub open spec fn principal_argument(value: Value) -> Option<PrincipalV> {
    match value {
        Value::Principal(p) => Some(p@),
        _ => None,
    }
}

/// The contract that an argument names, if it names one.
pub fn extract_contract_arg(value: &Value) -> (r: Option<QualifiedContractIdentifier>)
    ensures
        option_view(r) == contract_argument(*value),
{
    match value {
        Value::Principal(PrincipalData::Contract(id)) => Some(id.duplicate()),
        Value::CallableContract(id) => Some(id.duplicate()),
        _ => None,
    }
}

/// The principal that an argument is, if it is one.
pub fn extract_principal_arg(value: &Value) -> (r: Option<PrincipalData>)
    ensures
        option_view(r) == principal_argument(*value),
{
    match value {
        Value::Principal(p) => Some(p.duplicate()),
        _ => None,
    }
}

/// The optional principals that a list of arguments names.
pub open spec fn principal_args(v: Seq<Option<PrincipalData>>) -> Seq<Option<PrincipalV>> {
    Seq::new(v.len(), |i: int| option_view(v[i]))
}

/// A reference to an argument is replaced by the argument, or by anyone where
/// that is no principal.
pub open spec fn principal_with_args(
    p: PrincipalRefV,
    args: Seq<Option<PrincipalV>>,
) -> PrincipalRefV {
    match p {
        PrincipalRefV::Argument(i) => if i < args.len() {
            match args[i as int] {
                Some(q) => PrincipalRefV::Literal(q),
                None => PrincipalRefV::Any,
            }
        } else {
            PrincipalRefV::Any
        },
        other => other,
    }
}

/// Where nothing calls the function but the transaction, the sender of the
/// transaction calls the contract, and the contract is known.
pub open spec fn principal_in_tx(
    p: PrincipalRefV,
    sender: PrincipalV,
    contract: ContractIdV,
) -> PrincipalRefV {
    match p {
        PrincipalRefV::TxSender => PrincipalRefV::Literal(sender),
        PrincipalRefV::ContractCaller => PrincipalRefV::Literal(sender),
        PrincipalRefV::CurrentContract => PrincipalRefV::Literal(PrincipalV::Contract(contract)),
        other => other,
    }
}

/// A target with its principal replaced.
pub open spec fn retarget(t: TargetV, f: spec_fn(PrincipalRefV) -> PrincipalRefV) -> TargetV {
    match t {
        TargetV::AssetOwnership(access) => TargetV::AssetOwnership(
            OwnershipAccessV { asset: access.asset, principal: f(access.principal) },
        ),
        TargetV::AccountNonce(access) => TargetV::AccountNonce(
            NonceAccessV { principal: f(access.principal) },
        ),
        other => other,
    }
}

/// Targets with their principals replaced.
pub open spec fn retargeted(
    s: Set<TargetV>,
    f: spec_fn(PrincipalRefV) -> PrincipalRefV,
) -> Set<TargetV> {
    s.map(|t: TargetV| retarget(t, f))
}

/// Effects with the arguments of a transaction in place of references to them.
pub open spec fn effects_with_args(fx: EffectsV, args: Seq<Option<PrincipalV>>) -> EffectsV {
    let f = |p: PrincipalRefV| principal_with_args(p, args);
    EffectsV { reads: retargeted(fx.reads, f), writes: retargeted(fx.writes, f), ..fx }
}

/// Effects with the well-known principals of a transaction in place of their
/// names.
pub open spec fn effects_in_tx(
    fx: EffectsV,
    sender: PrincipalV,
    contract: ContractIdV,
) -> EffectsV {
    let f = |p: PrincipalRefV| principal_in_tx(p, sender, contract);
    EffectsV { reads: retargeted(fx.reads, f), writes: retargeted(fx.writes, f), ..fx }
}

/// Replaces a reference to an argument by the argument.
pub fn resolve_principal_reference(
    reference: &PrincipalReference,
    arg_principals: &[Option<PrincipalData>],
) -> (r: PrincipalReference)
    ensures
        r@ == principal_with_args(reference@, principal_args(arg_principals@)),
{
    match reference {
        PrincipalReference::Argument(index) => {
            let i: u32 = *index;
            if (i as usize) < arg_principals.len() {
                match &arg_principals[i as usize] {
                    Some(p) => PrincipalReference::Literal(p.duplicate()),
                    None => PrincipalReference::Any,
                }
            } else {
                PrincipalReference::Any
            }
        },
        other => other.duplicate(),
    }
}

/// Replaces references to arguments in a set of targets.
pub fn resolve_principal_effect_set(
    effects: &OrderedSet<EffectTarget>,
    arg_principals: &[Option<PrincipalData>],
) -> (r: OrderedSet<EffectTarget>)
    ensures
        r@ == retargeted(
            effects@,
            |p: PrincipalRefV| principal_with_args(p, principal_args(arg_principals@)),
        ),
{
    let ghost f = |p: PrincipalRefV| principal_with_args(p, principal_args(arg_principals@));
    let ghost on_target = |t: TargetV| retarget(t, f);
    let n = effects.len();
    let ghost all = effects.in_order();
    let mut r: OrderedSet<EffectTarget> = OrderedSet::new();
    let mut i: usize = 0;
    assert(all.take(0).to_set().map(on_target) =~= Set::empty());
    while i < n
        invariant
            i <= n,
            n == all.len(),
            all == effects.in_order(),
            f == (|p: PrincipalRefV| principal_with_args(p, principal_args(arg_principals@))),
            on_target == (|t: TargetV| retarget(t, f)),
            r@ == all.take(i as int).to_set().map(on_target),
        decreases n - i,
    {
        let target = match effects.get(i) {
            EffectTarget::AssetOwnership(access) => EffectTarget::AssetOwnership(
                AssetOwnershipAccess {
                    asset: access.asset.duplicate(),
                    principal: resolve_principal_reference(&access.principal, arg_principals),
                },
            ),
            EffectTarget::AccountNonce(access) => EffectTarget::AccountNonce(
                AccountNonceAccess {
                    principal: resolve_principal_reference(&access.principal, arg_principals),
                },
            ),
            other => other.duplicate(),
        };
        proof {
            assert(target@ == on_target(all[i as int]));
            lemma_map_next(all, i as int, on_target);
        }
        r.insert(target);
        i = i + 1;
    }
    assert(all.take(n as int) =~= all);
    r
}

/// Replaces references to arguments in effects.
pub fn resolve_principal_effects(
    effects: &FunctionEffects,
    arg_principals: &[Option<PrincipalData>],
) -> (r: FunctionEffects)
    ensures
        r@ == effects_with_args(effects@, principal_args(arg_principals@)),
{
    let mut resolved = effects.duplicate();
    resolved.reads = resolve_principal_effect_set(&effects.reads, arg_principals);
    resolved.writes = resolve_principal_effect_set(&effects.writes, arg_principals);
    resolved
}

fn principal_here(
    reference: &PrincipalReference,
    sender: &PrincipalData,
    contract: &QualifiedContractIdentifier,
) -> (r: PrincipalReference)
    ensures
        r@ == principal_in_tx(reference@, sender@, contract@),
{
    match reference {
        PrincipalReference::TxSender => PrincipalReference::Literal(sender.duplicate()),
        PrincipalReference::ContractCaller => PrincipalReference::Literal(sender.duplicate()),
        PrincipalReference::CurrentContract => PrincipalReference::Literal(
            PrincipalData::Contract(contract.duplicate()),
        ),
        other => other.duplicate(),
    }
}

fn resolve_well_known_set(
    effects: &OrderedSet<EffectTarget>,
    sender: &PrincipalData,
    contract: &QualifiedContractIdentifier,
) -> (r: OrderedSet<EffectTarget>)
    ensures
        r@ == retargeted(effects@, |p: PrincipalRefV| principal_in_tx(p, sender@, contract@)),
{
    let ghost f = |p: PrincipalRefV| principal_in_tx(p, sender@, contract@);
    let ghost on_target = |t: TargetV| retarget(t, f);
    let n = effects.len();
    let ghost all = effects.in_order();
    let mut r: OrderedSet<EffectTarget> = OrderedSet::new();
    let mut i: usize = 0;
    assert(all.take(0).to_set().map(on_target) =~= Set::empty());
    while i < n
        invariant
            i <= n,
            n == all.len(),
            all == effects.in_order(),
            f == (|p: PrincipalRefV| principal_in_tx(p, sender@, contract@)),
            on_target == (|t: TargetV| retarget(t, f)),
            r@ == all.take(i as int).to_set().map(on_target),
        decreases n - i,
    {
        let target = match effects.get(i) {
            EffectTarget::AssetOwnership(access) => EffectTarget::AssetOwnership(
                AssetOwnershipAccess {
                    asset: access.asset.duplicate(),
                    principal: principal_here(&access.principal, sender, contract),
                },
            ),
            EffectTarget::AccountNonce(access) => EffectTarget::AccountNonce(
                AccountNonceAccess {
                    principal: principal_here(&access.principal, sender, contract),
                },
            ),
            other => other.duplicate(),
        };
        proof {
            assert(target@ == on_target(all[i as int]));
            lemma_map_next(all, i as int, on_target);
        }
        r.insert(target);
        i = i + 1;
    }
    assert(all.take(n as int) =~= all);
    r
}

/// Replaces the names of well-known principals by what they stand for when a
/// transaction calls a contract.
pub fn resolve_well_known_principals(
    effects: &FunctionEffects,
    sender: &PrincipalData,
    contract: &QualifiedContractIdentifier,
) -> (r: FunctionEffects)
    ensures
        r@ == effects_in_tx(effects@, sender@, contract@),
{
    let mut resolved = effects.duplicate();
    resolved.reads = resolve_well_known_set(&effects.reads, sender, contract);
    resolved.writes = resolve_well_known_set(&effects.writes, sender, contract);
    resolved
}

/// A reference to an argument is replaced by the contract that is passed, or by
/// any where none is.
pub open spec fn contract_with_args(
    r: ContractRefV,
    args: Seq<Option<ContractIdV>>,
) -> ContractRefV {
    match r {
        ContractRefV::Argument(i) => if i < args.len() {
            match args[i as int] {
                Some(id) => ContractRefV::Literal(id),
                None => ContractRefV::Any,
            }
        } else {
            ContractRefV::Any
        },
        other => other,
    }
}

/// Replaces a reference to an argument by the contract that is passed.
pub fn resolve_contract_reference(
    reference: &ContractReference,
    arg_contracts: &[Option<QualifiedContractIdentifier>],
) -> (r: ContractReference)
    ensures
        r@ == contract_with_args(reference@, contract_args(arg_contracts@)),
{
    match reference {
        ContractReference::Argument(index) => {
            let i: u32 = *index;
            if (i as usize) < arg_contracts.len() {
                match &arg_contracts[i as usize] {
                    Some(id) => ContractReference::Literal(id.duplicate()),
                    None => ContractReference::Any,
                }
            } else {
                ContractReference::Any
            }
        },
        other => other.duplicate(),
    }
}

/// Every transaction reads and writes the nonce of its origin and the balance of
/// its payer, and the nonce of its sponsor if it has one; whatever else it does
/// is kept.
pub proof fn law_prereqs(fx: EffectsV, tx: StacksTransaction)
    ensures
        with_prereqs(fx, tx).includes(fx),
        with_prereqs(fx, tx).reads.contains(nonce(origin_of(tx))),
        with_prereqs(fx, tx).writes.contains(nonce(origin_of(tx))),
        with_prereqs(fx, tx).reads.contains(balance(payer_of(tx))),
        with_prereqs(fx, tx).writes.contains(balance(payer_of(tx))),
        sponsor_of(tx) matches Some(sponsor) ==> with_prereqs(fx, tx).reads.contains(
            nonce(sponsor),
        ) && with_prereqs(fx, tx).writes.contains(nonce(sponsor)),
        with_prereqs(fx, tx).contract_calls == fx.contract_calls,
{
}

/// A transfer of the native token reads what it writes: the balances of the
/// sender and of the recipient, and nothing else.
pub proof fn law_transfer(tx: StacksTransaction, recipient: PrincipalV)
    ensures
        transfer_effects(tx, recipient).reads == transfer_effects(tx, recipient).writes,
        forall|t: TargetV|
            transfer_effects(tx, recipient).reads.contains(t) <==> t == balance(origin_of(tx)) || t
                == balance(recipient),
{
    assert(transfer_effects(tx, recipient).reads =~= transfer_effects(tx, recipient).writes);
}

/// The principal that a target depends on.
pub open spec fn principal_of(t: TargetV) -> Option<PrincipalRefV> {
    match t {
        TargetV::AssetOwnership(access) => Some(access.principal),
        TargetV::AccountNonce(access) => Some(access.principal),
        _ => None,
    }
}

/// Once the arguments of a transaction and its well-known principals are filled
/// in, every target that is read or written is attributed to a literal principal
/// or to anyone.
pub proof fn law_principals_are_resolved(
    fx: EffectsV,
    args: Seq<Option<PrincipalV>>,
    sender: PrincipalV,
    contract: ContractIdV,
    t: TargetV,
)
    ensures
        ({
            let resolved = effects_in_tx(effects_with_args(fx, args), sender, contract);
            resolved.reads.contains(t) || resolved.writes.contains(t) ==> match principal_of(t) {
                Some(p) => p is Literal || p is Any,
                None => true,
            }
        }),
{
    let with_args = effects_with_args(fx, args);
    let f = |p: PrincipalRefV| principal_with_args(p, args);
    let g = |p: PrincipalRefV| principal_in_tx(p, sender, contract);
    let resolved = effects_in_tx(with_args, sender, contract);
    if resolved.reads.contains(t) {
        let u = choose|u: TargetV| with_args.reads.contains(u) && t == retarget(u, g);
        let v = choose|v: TargetV| fx.reads.contains(v) && u == retarget(v, f);
    }
    if resolved.writes.contains(t) {
        let u = choose|u: TargetV| with_args.writes.contains(u) && t == retarget(u, g);
        let v = choose|v: TargetV| fx.writes.contains(v) && u == retarget(v, f);
    }
}

} // verus!
