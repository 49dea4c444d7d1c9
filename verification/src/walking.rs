//! What walking an expression finds, form by form.

use vstd::prelude::*;

use crate::analyzer::{
    binding_in, bindings_with, contract_in, looking_up, moving, native_effects, principal_at,
    principal_in, principals_in, trace, trace_all, trace_let, trace_list, trace_values, BindingsV,
    ScopeV, TraceV,
};
use crate::effects::EffectsV;
use crate::syntax::{atom_in, NativeFunctions, SymbolicExpression, Value};
use crate::types::{
    AssetV, CallV, ChainReadV, ContractRefV, LocationV, NameV, OwnershipAccessV, PrincipalData,
    PrincipalRefV, StorageAccessV, TargetV, TokenKindV,
};

verus! {

/// One thing that a walk can find.
pub ghost enum FoundV {
    Read(TargetV),
    Write(TargetV),
    /// A call of another contract.
    Call(CallV),
    /// A call of a function of the same contract.
    Function(NameV),
}

/// A walk finds something.
pub open spec fn holds(found: TraceV, x: FoundV) -> bool {
    match x {
        FoundV::Read(t) => found.effects.reads.contains(t),
        FoundV::Write(t) => found.effects.writes.contains(t),
        FoundV::Call(c) => found.effects.contract_calls.contains(c),
        FoundV::Function(f) => found.calls.contains(f),
    }
}

/// One of some expressions, from a place on, does something.
pub open spec fn one_does(
    list: Seq<SymbolicExpression>,
    start: int,
    scope: ScopeV,
    bindings: BindingsV,
    x: FoundV,
) -> bool {
    exists|i: int|
        start <= i < list.len() && holds(trace(#[trigger] list[i], scope, bindings), x)
}

/// A list calls a native function.
pub open spec fn calls_native(
    list: Seq<SymbolicExpression>,
    scope: ScopeV,
    native: NativeFunctions,
) -> bool {
    list.len() > 0 && (list[0] matches SymbolicExpression::Atom(name)
        && scope.natives.contains_key(name@) && scope.natives[name@] == native)
}

/// A thing is what a principal owns of an asset. What the sender or the caller
/// owns may be anyone's.
pub open spec fn is_holding(t: TargetV, asset: AssetV, principal: PrincipalRefV) -> bool {
    ||| t == TargetV::AssetOwnership(OwnershipAccessV { asset, principal })
    ||| (principal is TxSender || principal is ContractCaller) && t == TargetV::AssetOwnership(
        OwnershipAccessV { asset, principal: PrincipalRefV::Any },
    )
}

/// A thing is what the principal owns of an asset that an expression stands for.
pub open spec fn is_holding_at(
    t: TargetV,
    asset: AssetV,
    list: Seq<SymbolicExpression>,
    k: int,
    scope: ScopeV,
    bindings: BindingsV,
) -> bool {
    list.len() > k && is_holding(t, asset, principal_in(list[k], scope, bindings))
}

/// What a native function does by itself.
pub open spec fn does_by_itself(
    native: NativeFunctions,
    list: Seq<SymbolicExpression>,
    scope: ScopeV,
    bindings: BindingsV,
    x: FoundV,
) -> bool {
    let args = list.subrange(1, list.len() as int);
    holds(
        TraceV { effects: native_effects(native, args, scope, bindings), calls: Set::empty() },
        x,
    )
}

/// What looking an asset up and moving it adds.
proof fn lemma_holdings(fx: EffectsV, asset: AssetV, principal: Option<PrincipalRefV>, t: TargetV)
    ensures
        ({
            let here = principal matches Some(p) && is_holding(t, asset, p);
            let read = looking_up(fx, asset, principal);
            let moved = moving(fx, asset, principal);
            &&& read.reads.contains(t) <==> fx.reads.contains(t) || here
            &&& read.writes == fx.writes
            &&& read.contract_calls == fx.contract_calls
            &&& moved.reads.contains(t) <==> fx.reads.contains(t) || here
            &&& moved.writes.contains(t) <==> fx.writes.contains(t) || here
            &&& moved.contract_calls == fx.contract_calls
        }),
{
}

proof fn lemma_one_of_all(
    list: Seq<SymbolicExpression>,
    scope: ScopeV,
    bindings: BindingsV,
    x: FoundV,
)
    ensures
        holds(trace_all(list, scope, bindings), x) <==> one_does(list, 0, scope, bindings, x),
    decreases list.len(),
{
    if list.len() > 0 {
        let before = list.subrange(0, list.len() - 1);
        let last = list.len() - 1;
        lemma_one_of_all(before, scope, bindings, x);
        if one_does(before, 0, scope, bindings, x) {
            let i = choose|i: int|
                0 <= i < before.len() && holds(trace(#[trigger] before[i], scope, bindings), x);
            assert(list[i] == before[i]);
        }
        if one_does(list, 0, scope, bindings, x) {
            let i = choose|i: int|
                0 <= i < list.len() && holds(trace(#[trigger] list[i], scope, bindings), x);
            if i < last {
                assert(list[i] == before[i]);
            }
        }
        if holds(trace(list[last], scope, bindings), x) {
            assert(one_does(list, 0, scope, bindings, x));
        }
    }
}

/// What the parts of a list behind another number of them do.
proof fn lemma_one_of_rest(
    list: Seq<SymbolicExpression>,
    start: int,
    scope: ScopeV,
    bindings: BindingsV,
    x: FoundV,
)
    requires
        0 <= start <= list.len(),
    ensures
        holds(trace_all(list.subrange(start, list.len() as int), scope, bindings), x)
            <==> one_does(list, start, scope, bindings, x),
{
    let rest = list.subrange(start, list.len() as int);
    lemma_one_of_all(rest, scope, bindings, x);
    if one_does(rest, 0, scope, bindings, x) {
        let i = choose|i: int|
            0 <= i < rest.len() && holds(trace(#[trigger] rest[i], scope, bindings), x);
        assert(rest[i] == list[i + start]);
    }
    if one_does(list, start, scope, bindings, x) {
        let i = choose|i: int|
            start <= i < list.len() && holds(trace(#[trigger] list[i], scope, bindings), x);
        assert(rest[i - start] == list[i]);
    }
}

proof fn lemma_native_call(
    list: Seq<SymbolicExpression>,
    scope: ScopeV,
    bindings: BindingsV,
    native: NativeFunctions,
    x: FoundV,
)
    requires
        calls_native(list, scope, native),
        native != NativeFunctions::Let,
    ensures
        holds(trace_list(list, scope, bindings), x) <==> one_does(list, 1, scope, bindings, x)
            || does_by_itself(native, list, scope, bindings, x),
{
    lemma_one_of_rest(list, 1, scope, bindings, x);
}

/// An expression stands for a principal where it is one, where it is a name that
/// stands for one, and where it is `(as-contract tx-sender)`. The names of the
/// sender, of the caller and of the contract itself cannot be bound anew; any other
/// name is looked up among the bindings, then the parameters, then the constants.
/// All else may be anyone.
pub proof fn law_expressions_stand_for_principals(
    e: SymbolicExpression,
    scope: ScopeV,
    bindings: BindingsV,
)
    ensures
        ({
            let p = principal_in(e, scope, bindings);
            match e {
                SymbolicExpression::LiteralValue(Value::Principal(q)) => p
                    == PrincipalRefV::Literal(q@),
                SymbolicExpression::Atom(name) => {
                    let known = name@ == "tx-sender"@ || name@ == "contract-caller"@ || name@
                        == "current-contract"@;
                    let bound = bindings.contains_key(name@);
                    let passed = scope.params.contains_key(name@);
                    let constant = scope.constants.contains_key(name@);
                    &&& name@ == "tx-sender"@ ==> p == PrincipalRefV::TxSender
                    &&& name@ == "contract-caller"@ ==> p == PrincipalRefV::ContractCaller
                    &&& name@ == "current-contract"@ ==> p == PrincipalRefV::CurrentContract
                    &&& !known && bound ==> p == bindings[name@]
                    &&& !known && !bound && passed ==> p == PrincipalRefV::Argument(
                        scope.params[name@],
                    )
                    &&& !known && !bound && !passed && constant ==> p == scope.constants[name@]
                    &&& !known && !bound && !passed && !constant ==> p == PrincipalRefV::Any
                },
                SymbolicExpression::List(list) => p == (if list@.len() >= 2 && (
                list@[0] matches SymbolicExpression::Atom(a) && a@ == "as-contract"@) && (
                list@[1] matches SymbolicExpression::Atom(b) && b@ == "tx-sender"@) {
                    PrincipalRefV::CurrentContract
                } else {
                    PrincipalRefV::Any
                }),
                _ => p == PrincipalRefV::Any,
            }
        }),
{
    reveal_strlit("tx-sender");
    reveal_strlit("contract-caller");
    reveal_strlit("current-contract");
    assert("tx-sender"@.len() == 9);
    assert("contract-caller"@.len() == 15);
    assert("current-contract"@.len() == 16);
}

/// What is not a list does nothing, and neither does an empty list.
pub proof fn law_only_lists_have_effects(
    e: SymbolicExpression,
    scope: ScopeV,
    bindings: BindingsV,
    x: FoundV,
)
    requires
        e matches SymbolicExpression::List(list) ==> list@.len() == 0,
    ensures
        !holds(trace(e, scope, bindings), x),
{
}

/// A list that does not begin with a name does what its parts do, and a call of a
/// function that is neither native nor defined in the contract does what its
/// arguments do.
pub proof fn law_other_lists_do_what_their_parts_do(
    list: Vec<SymbolicExpression>,
    scope: ScopeV,
    bindings: BindingsV,
    x: FoundV,
)
    requires
        list@.len() > 0,
        list@[0] matches SymbolicExpression::Atom(name) ==> !scope.natives.contains_key(name@)
            && !scope.known.contains(name@),
    ensures
        holds(trace(SymbolicExpression::List(list), scope, bindings), x) <==> one_does(
            list@,
            0,
            scope,
            bindings,
            x,
        ),
{
    lemma_one_of_all(list@, scope, bindings, x);
    lemma_one_of_rest(list@, 1, scope, bindings, x);
    if list@[0] is Atom && one_does(list@, 0, scope, bindings, x) {
        let i = choose|i: int|
            0 <= i < list@.len() && holds(trace(#[trigger] list@[i], scope, bindings), x);
        assert(i != 0);
    }
}

/// A call of a function of the same contract does what its arguments do, and calls
/// the function.
pub proof fn law_own_functions_are_called(
    list: Vec<SymbolicExpression>,
    scope: ScopeV,
    bindings: BindingsV,
    f: NameV,
    x: FoundV,
)
    requires
        list@.len() > 0,
        list@[0] matches SymbolicExpression::Atom(name) && name@ == f,
        !scope.natives.contains_key(f),
        scope.known.contains(f),
    ensures
        holds(trace(SymbolicExpression::List(list), scope, bindings), x) <==> one_does(
            list@,
            1,
            scope,
            bindings,
            x,
        ) || x == FoundV::Function(f),
{
    lemma_one_of_rest(list@, 1, scope, bindings, x);
}

/// A native function that is none of those with effects does what its arguments do.
#[verifier::spinoff_prover]
#[verifier::rlimit(40)]
pub proof fn law_plain_natives_do_what_their_arguments_do(
    list: Vec<SymbolicExpression>,
    scope: ScopeV,
    bindings: BindingsV,
    x: FoundV,
)
    requires
        calls_native(list@, scope, NativeFunctions::Other),
    ensures
        holds(trace(SymbolicExpression::List(list), scope, bindings), x) <==> one_does(
            list@,
            1,
            scope,
            bindings,
            x,
        ),
{
    lemma_native_call(list@, scope, bindings, NativeFunctions::Other, x);
}

/// Calls that set, insert or delete an entry write the map that they name, in the
/// contract that they stand in; calls that set a variable write it. Calls that get
/// an entry or a variable read it. Besides they do what their arguments do, and
/// nothing else.
#[verifier::spinoff_prover]
#[verifier::rlimit(40)]
pub proof fn law_storage_is_accessed(
    list: Vec<SymbolicExpression>,
    scope: ScopeV,
    bindings: BindingsV,
    native: NativeFunctions,
    name: NameV,
    x: FoundV,
)
    requires
        calls_native(list@, scope, native),
        list@.len() > 1,
        list@[1] matches SymbolicExpression::Atom(m) && m@ == name,
        native is SetEntry || native is InsertEntry || native is DeleteEntry || native is SetVar
            || native is FetchEntry || native is FetchVar,
    ensures
        ({
            let contract = ContractRefV::Literal(scope.contract);
            let map = TargetV::Contract(
                StorageAccessV { contract, location: Some(LocationV::DataMap(name)) },
            );
            let var = TargetV::Contract(
                StorageAccessV { contract, location: Some(LocationV::DataVar(name)) },
            );
            holds(trace(SymbolicExpression::List(list), scope, bindings), x) <==> {
                ||| one_does(list@, 1, scope, bindings, x)
                ||| (native is SetEntry || native is InsertEntry || native is DeleteEntry) && x
                    == FoundV::Write(map)
                ||| native is SetVar && x == FoundV::Write(var)
                ||| native is FetchEntry && x == FoundV::Read(map)
                ||| native is FetchVar && x == FoundV::Read(var)
            }
        }),
{
    lemma_native_call(list@, scope, bindings, native, x);
    assert(list@.subrange(1, list@.len() as int)[0] == list@[1]);
}

/// A call that looks at the chain reads the part of it that it looks at.
#[verifier::spinoff_prover]
#[verifier::rlimit(40)]
pub proof fn law_chain_state_is_read(
    list: Vec<SymbolicExpression>,
    scope: ScopeV,
    bindings: BindingsV,
    native: NativeFunctions,
    x: FoundV,
)
    requires
        calls_native(list@, scope, native),
        native is GetBlockInfo || native is GetStacksBlockInfo || native is GetBurnBlockInfo
            || native is GetTenureInfo,
    ensures
        holds(trace(SymbolicExpression::List(list), scope, bindings), x) <==> {
            ||| one_does(list@, 1, scope, bindings, x)
            ||| native is GetBlockInfo && x == FoundV::Read(
                TargetV::ChainState(ChainReadV::BlockInfo),
            )
            ||| native is GetStacksBlockInfo && x == FoundV::Read(
                TargetV::ChainState(ChainReadV::StacksBlockInfo),
            )
            ||| native is GetBurnBlockInfo && x == FoundV::Read(
                TargetV::ChainState(ChainReadV::BurnBlockInfo),
            )
            ||| native is GetTenureInfo && x == FoundV::Read(
                TargetV::ChainState(ChainReadV::TenureInfo),
            )
        },
{
    lemma_native_call(list@, scope, bindings, native, x);
}

/// What a thing is about, where it is about one.
pub open spec fn target_in(x: FoundV) -> TargetV {
    match x {
        FoundV::Read(t) => t,
        FoundV::Write(t) => t,
        _ => arbitrary(),
    }
}

#[verifier::spinoff_prover]
#[verifier::rlimit(40)]
proof fn lemma_stx_by_itself(
    list: Seq<SymbolicExpression>,
    scope: ScopeV,
    bindings: BindingsV,
    native: NativeFunctions,
    x: FoundV,
)
    requires
        list.len() > 0,
        native is GetStxBalance || native is StxGetAccount || native is StxTransfer
            || native is StxTransferMemo || native is StxBurn,
    ensures
        ({
            let t = target_in(x);
            let asks = native is GetStxBalance || native is StxGetAccount;
            let moves = native is StxTransfer || native is StxTransferMemo;
            does_by_itself(native, list, scope, bindings, x) <==> {
                ||| x is Read && asks && is_holding_at(t, AssetV::Stx, list, 1, scope, bindings)
                ||| (x is Read || x is Write) && (native is StxBurn || moves) && is_holding_at(
                    t,
                    AssetV::Stx,
                    list,
                    2,
                    scope,
                    bindings,
                )
                ||| (x is Read || x is Write) && moves && is_holding_at(
                    t,
                    AssetV::Stx,
                    list,
                    3,
                    scope,
                    bindings,
                )
            }
        }),
{
    let args = list.subrange(1, list.len() as int);
    assert(list.len() > 1 ==> args[0] == list[1]);
    assert(list.len() > 2 ==> args[1] == list[2]);
    assert(list.len() > 3 ==> args[2] == list[3]);
    let t = target_in(x);
    let none = EffectsV::none();
    let p0 = principal_at(args, 0, scope, bindings);
    let p1 = principal_at(args, 1, scope, bindings);
    let p2 = principal_at(args, 2, scope, bindings);
    lemma_holdings(none, AssetV::Stx, p0, t);
    lemma_holdings(none, AssetV::Stx, p1, t);
    lemma_holdings(moving(none, AssetV::Stx, p1), AssetV::Stx, p2, t);
}

/// A call about STX is about the principals that it names: the one whose balance is
/// asked for, the one who burns, the one who gives and the one who gets. A balance
/// that is asked for is read; one that changes is read and written.
#[verifier::spinoff_prover]
#[verifier::rlimit(40)]
pub proof fn law_stx_is_accessed(
    list: Vec<SymbolicExpression>,
    scope: ScopeV,
    bindings: BindingsV,
    native: NativeFunctions,
    x: FoundV,
)
    requires
        calls_native(list@, scope, native),
        native is GetStxBalance || native is StxGetAccount || native is StxTransfer
            || native is StxTransferMemo || native is StxBurn,
    ensures
        ({
            let t = target_in(x);
            let asks = native is GetStxBalance || native is StxGetAccount;
            let moves = native is StxTransfer || native is StxTransferMemo;
            holds(trace(SymbolicExpression::List(list), scope, bindings), x) <==> {
                ||| one_does(list@, 1, scope, bindings, x)
                ||| x is Read && asks && is_holding_at(t, AssetV::Stx, list@, 1, scope, bindings)
                ||| (x is Read || x is Write) && (native is StxBurn || moves) && is_holding_at(
                    t,
                    AssetV::Stx,
                    list@,
                    2,
                    scope,
                    bindings,
                )
                ||| (x is Read || x is Write) && moves && is_holding_at(
                    t,
                    AssetV::Stx,
                    list@,
                    3,
                    scope,
                    bindings,
                )
            }
        }),
{
    lemma_native_call(list@, scope, bindings, native, x);
    lemma_stx_by_itself(list@, scope, bindings, native, x);
}

/// The token that a call is about, by the name that it gives and the kind that the
/// function is for.
pub open spec fn token_in(native: NativeFunctions, scope: ScopeV, name: NameV) -> AssetV {
    AssetV::Token {
        contract: scope.contract,
        name,
        kind: if native is GetAssetOwner || native is TransferAsset || native is MintAsset
            || native is BurnAsset {
            TokenKindV::NonFungible
        } else {
            TokenKindV::Fungible
        },
    }
}

/// What a call about a token does by itself: a balance, a supply or an owner that is
/// asked for is read; the supply and the owner are nobody's in particular. What a token
/// is taken from or given to is read and written; what a new token is given to is
/// written.
pub open spec fn does_to_token(
    native: NativeFunctions,
    asset: AssetV,
    list: Seq<SymbolicExpression>,
    scope: ScopeV,
    bindings: BindingsV,
    x: FoundV,
) -> bool {
    let t = target_in(x);
    let moves = native is TransferToken || native is TransferAsset;
    let burns = native is BurnToken || native is BurnAsset;
    let mints = native is MintToken || native is MintAsset;
    ||| x is Read && native is GetTokenBalance && is_holding_at(
        t,
        asset,
        list,
        2,
        scope,
        bindings,
    )
    ||| x is Read && (native is GetTokenSupply || native is GetAssetOwner) && t
        == TargetV::AssetOwnership(OwnershipAccessV { asset, principal: PrincipalRefV::Any })
    ||| (x is Read || x is Write) && (moves || burns) && is_holding_at(
        t,
        asset,
        list,
        3,
        scope,
        bindings,
    )
    ||| (x is Read || x is Write) && moves && is_holding_at(t, asset, list, 4, scope, bindings)
    ||| x is Write && mints && list.len() > 3 && t == TargetV::AssetOwnership(
        OwnershipAccessV { asset, principal: principal_in(list[3], scope, bindings) },
    )
}

/// A native function is about a token.
pub open spec fn is_about_token(native: NativeFunctions) -> bool {
    native is GetTokenBalance || native is GetTokenSupply || native is TransferToken
        || native is MintToken || native is BurnToken || native is GetAssetOwner
        || native is TransferAsset || native is MintAsset || native is BurnAsset
}

#[verifier::spinoff_prover]
#[verifier::rlimit(40)]
proof fn lemma_token_by_itself(
    list: Seq<SymbolicExpression>,
    scope: ScopeV,
    bindings: BindingsV,
    native: NativeFunctions,
    name: NameV,
    x: FoundV,
)
    requires
        list.len() > 1,
        atom_in(list[1]) == Some(name),
        is_about_token(native),
    ensures
        does_by_itself(native, list, scope, bindings, x) <==> does_to_token(
            native,
            token_in(native, scope, name),
            list,
            scope,
            bindings,
            x,
        ),
{
    let args = list.subrange(1, list.len() as int);
    assert(args[0] == list[1]);
    assert(list.len() > 2 ==> args[1] == list[2]);
    assert(list.len() > 3 ==> args[2] == list[3]);
    assert(list.len() > 4 ==> args[3] == list[4]);
    let t = target_in(x);
    let none = EffectsV::none();
    let asset = token_in(native, scope, name);
    let p1 = principal_at(args, 1, scope, bindings);
    let p2 = principal_at(args, 2, scope, bindings);
    let p3 = principal_at(args, 3, scope, bindings);
    lemma_holdings(none, asset, p1, t);
    lemma_holdings(none, asset, p2, t);
    lemma_holdings(moving(none, asset, p2), asset, p3, t);
}

/// A call about a token is about the token of the contract that it names, of the
/// kind that the function is for, and the principals that it names. Besides it does
/// what its arguments do, and nothing else.
#[verifier::spinoff_prover]
#[verifier::rlimit(40)]
pub proof fn law_tokens_are_accessed(
    list: Vec<SymbolicExpression>,
    scope: ScopeV,
    bindings: BindingsV,
    native: NativeFunctions,
    name: NameV,
    x: FoundV,
)
    requires
        calls_native(list@, scope, native),
        list@.len() > 1,
        list@[1] matches SymbolicExpression::Atom(a) && a@ == name,
        is_about_token(native),
    ensures
        holds(trace(SymbolicExpression::List(list), scope, bindings), x) <==> one_does(
            list@,
            1,
            scope,
            bindings,
            x,
        ) || does_to_token(
            native,
            token_in(native, scope, name),
            list@,
            scope,
            bindings,
            x,
        ),
{
    lemma_native_call(list@, scope, bindings, native, x);
    lemma_token_by_itself(list@, scope, bindings, native, name, x);
}

/// A call that names no map, variable or token where it should does only what its
/// arguments do.
#[verifier::spinoff_prover]
#[verifier::rlimit(40)]
pub proof fn law_nameless_calls_do_what_their_arguments_do(
    list: Vec<SymbolicExpression>,
    scope: ScopeV,
    bindings: BindingsV,
    native: NativeFunctions,
    x: FoundV,
)
    requires
        calls_native(list@, scope, native),
        list@.len() > 1 ==> !(list@[1] is Atom),
        native is SetEntry || native is InsertEntry || native is DeleteEntry || native is SetVar
            || native is FetchEntry || native is FetchVar || is_about_token(native),
    ensures
        holds(trace(SymbolicExpression::List(list), scope, bindings), x) <==> one_does(
            list@,
            1,
            scope,
            bindings,
            x,
        ),
{
    lemma_native_call(list@, scope, bindings, native, x);
    let args = list@.subrange(1, list@.len() as int);
    assert(list@.len() > 1 ==> args[0] == list@[1]);
}

/// A call is the one that a list asks for: of the function that the list names, in
/// the contract that it names, on behalf of the contract that the list stands in,
/// and with as many principals as there are arguments, each that of the argument in
/// its place.
pub open spec fn is_call_in(
    c: CallV,
    list: Seq<SymbolicExpression>,
    scope: ScopeV,
    bindings: BindingsV,
) -> bool {
    &&& list.len() > 2
    &&& list[2] matches SymbolicExpression::Atom(function) && c.function == function@
    &&& c.caller == Some(scope.contract)
    &&& c.contract == (match list[1] {
        SymbolicExpression::LiteralValue(Value::Principal(PrincipalData::Contract(id))) => {
            ContractRefV::Literal(id@)
        },
        SymbolicExpression::Atom(name) => if scope.params.contains_key(name@) {
            ContractRefV::Argument(scope.params[name@])
        } else {
            ContractRefV::Any
        },
        _ => ContractRefV::Any,
    })
    &&& c.arg_principals.len() == list.len() - 3
    &&& forall|k: int|
        0 <= k < c.arg_principals.len() ==> #[trigger] c.arg_principals[k] == principal_in(
            list[k + 3],
            scope,
            bindings,
        )
}

/// There is one call that a list asks for, where it names a function, and that is
/// what the function that calls another contract does.
#[verifier::spinoff_prover]
#[verifier::rlimit(40)]
proof fn lemma_call_in(
    list: Seq<SymbolicExpression>,
    scope: ScopeV,
    bindings: BindingsV,
    c: CallV,
)
    requires
        list.len() > 2,
        list[2] is Atom,
    ensures
        ({
            let args = list.subrange(1, list.len() as int);
            let fx = native_effects(NativeFunctions::ContractCall, args, scope, bindings);
            &&& fx.reads == Set::<TargetV>::empty()
            &&& fx.writes == Set::<TargetV>::empty()
            &&& fx.contract_calls.contains(c) <==> is_call_in(c, list, scope, bindings)
        }),
        exists|d: CallV| #[trigger] is_call_in(d, list, scope, bindings),
{
    let args = list.subrange(1, list.len() as int);
    let found = CallV {
        contract: contract_in(args[0], scope.params),
        function: atom_in(args[1])->0,
        arg_principals: principals_in(args.skip(2), scope, bindings),
        caller: Some(scope.contract),
    };
    assert(args[0] == list[1] && args[1] == list[2]);
    let rest = args.skip(2);
    assert forall|k: int| 0 <= k < rest.len() implies #[trigger] rest[k] == list[k + 3] by {}
    assert(is_call_in(found, list, scope, bindings));
    if is_call_in(c, list, scope, bindings) {
        assert(c.arg_principals =~= found.arg_principals);
    }
}

/// A call of another contract is found as it is written, argument by argument.
#[verifier::spinoff_prover]
#[verifier::rlimit(40)]
pub proof fn law_calls_are_found_as_written(
    list: Vec<SymbolicExpression>,
    scope: ScopeV,
    bindings: BindingsV,
    x: FoundV,
)
    requires
        calls_native(list@, scope, NativeFunctions::ContractCall),
    ensures
        holds(trace(SymbolicExpression::List(list), scope, bindings), x) <==> one_does(
            list@,
            1,
            scope,
            bindings,
            x,
        ) || (x matches FoundV::Call(c) && is_call_in(c, list@, scope, bindings)),
        list@.len() > 2 && list@[2] is Atom ==> exists|c: CallV| #[trigger]
            is_call_in(c, list@, scope, bindings),
{
    lemma_native_call(list@, scope, bindings, NativeFunctions::ContractCall, x);
    let args = list@.subrange(1, list@.len() as int);
    if list@.len() > 2 && list@[2] is Atom {
        let c = match x {
            FoundV::Call(c) => c,
            _ => arbitrary(),
        };
        lemma_call_in(list@, scope, bindings, c);
    } else if list@.len() > 2 {
        assert(args[1] == list@[2]);
    }
}

/// An expression is a name and a value.
pub open spec fn is_binding(e: SymbolicExpression, name: NameV, value: SymbolicExpression) -> bool {
    e matches SymbolicExpression::List(pair) && pair@.len() >= 2 && (
    pair@[0] matches SymbolicExpression::Atom(n) && n@ == name) && pair@[1] == value
}

/// One of the values that are bound does something.
pub open spec fn a_value_does(
    list: Seq<SymbolicExpression>,
    scope: ScopeV,
    bindings: BindingsV,
    x: FoundV,
) -> bool {
    exists|i: int, name: NameV, value: SymbolicExpression|
        0 <= i < list.len() && #[trigger] is_binding(list[i], name, value) && holds(
            trace(value, scope, bindings),
            x,
        )
}

proof fn lemma_one_of_values(
    list: Seq<SymbolicExpression>,
    scope: ScopeV,
    bindings: BindingsV,
    x: FoundV,
)
    ensures
        holds(trace_values(list, scope, bindings), x) <==> a_value_does(list, scope, bindings, x),
    decreases list.len(),
{
    if list.len() > 0 {
        let before = list.subrange(0, list.len() - 1);
        let last = list.len() - 1;
        lemma_one_of_values(before, scope, bindings, x);
        if a_value_does(before, scope, bindings, x) {
            let (i, name, value) = choose|i: int, name: NameV, value: SymbolicExpression|
                0 <= i < before.len() && #[trigger] is_binding(before[i], name, value) && holds(
                    trace(value, scope, bindings),
                    x,
                );
            assert(is_binding(list[i], name, value));
        }
        if a_value_does(list, scope, bindings, x) {
            let (i, name, value) = choose|i: int, name: NameV, value: SymbolicExpression|
                0 <= i < list.len() && #[trigger] is_binding(list[i], name, value) && holds(
                    trace(value, scope, bindings),
                    x,
                );
            if i < last {
                assert(is_binding(before[i], name, value));
            }
        }
        if let SymbolicExpression::List(pair) = list[last] {
            if pair@.len() >= 2 {
                if let SymbolicExpression::Atom(n) = pair@[0] {
                    assert(is_binding(list[last], n@, pair@[1]));
                }
            }
        }
    }
}

/// A `let` does what the values do that it binds, which do not see the names that
/// it binds, and what the expressions behind them do, which see them.
#[verifier::spinoff_prover]
#[verifier::rlimit(40)]
pub proof fn law_let_does_what_its_parts_do(
    list: Vec<SymbolicExpression>,
    bound: Vec<SymbolicExpression>,
    scope: ScopeV,
    bindings: BindingsV,
    x: FoundV,
)
    requires
        calls_native(list@, scope, NativeFunctions::Let),
        list@.len() > 1,
        list@[1] == SymbolicExpression::List(bound),
    ensures
        holds(trace(SymbolicExpression::List(list), scope, bindings), x) <==> a_value_does(
            bound@,
            scope,
            bindings,
            x,
        ) || one_does(list@, 2, scope, bindings_with(bound@, scope, bindings), x),
{
    let args = list@.subrange(1, list@.len() as int);
    assert(args[0] == list@[1]);
    let inner = bindings_with(bound@, scope, bindings);
    lemma_one_of_values(bound@, scope, bindings, x);
    lemma_one_of_rest(list@, 2, scope, inner, x);
    assert(args.subrange(1, args.len() as int) =~= list@.subrange(2, list@.len() as int));
    assert(trace(SymbolicExpression::List(list), scope, bindings) == trace_let(
        args,
        scope,
        bindings,
    ));
}

/// Names are bound one after another: where nothing is bound nothing changes; a
/// binding gives its name the principal that its value stands for, seen with the
/// bindings before it; and it changes nothing where its value may be anyone, or
/// where it is no binding.
pub proof fn law_names_are_bound_in_order(
    bound: Seq<SymbolicExpression>,
    last: SymbolicExpression,
    scope: ScopeV,
    bindings: BindingsV,
)
    ensures
        bindings_with(Seq::empty(), scope, bindings) == bindings,
        ({
            let before = bindings_with(bound, scope, bindings);
            let after = bindings_with(bound.push(last), scope, bindings);
            &&& forall|name: NameV, value: SymbolicExpression| #[trigger]
                is_binding(last, name, value) ==> {
                    let p = principal_in(value, scope, before);
                    &&& p != PrincipalRefV::Any ==> after == before.insert(name, p)
                    &&& p == PrincipalRefV::Any ==> after == before
                }
            &&& (forall|name: NameV, value: SymbolicExpression| !is_binding(last, name, value))
                ==> after == before
        }),
{
    assert(bound.push(last).drop_last() =~= bound);
    assert(bound.push(last).last() == last);
    if let Some((name, value)) = binding_in(last) {
        assert(is_binding(last, name, value));
    }
}

} // verus!
