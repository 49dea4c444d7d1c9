//! The effects of the functions of a contract, found by walking its expressions.

use vstd::prelude::*;
use vstd::slice::slice_subrange;

use crate::codes::option_view;
use crate::effects::{EffectsV, FunctionEffects, Functions, FunctionsV};
use crate::ordered::{Data, OrderedMap, OrderedSet};
use crate::propagation::{CallGraph, CallGraphV};
use crate::syntax::{
    atom_in, list_in, ClarityVersion, NativeFunctions, NativeTable, SymbolicExpression, Value,
};
use crate::text::is_text;
use crate::types::{
    AssetId, AssetOwnershipAccess, AssetV, CallV, ChainReadV, ChainStateRead, ClarityName,
    ContractCall, ContractIdV, ContractRefV, ContractReference, ContractStorageAccess, EffectTarget,
    LocationV, NameV, OwnershipAccessV, PrincipalData, PrincipalRefV, PrincipalReference,
    QualifiedContractIdentifier, StorageAccessV, StorageLocation, TargetV, TokenKind, TokenKindV,
};

verus! {

/// The places of the parameters of a function, by name.
pub type Parameters = OrderedMap<ClarityName, u32>;

/// What names stand for, where they stand for a principal.
pub type Bindings = OrderedMap<ClarityName, PrincipalReference>;

pub type BindingsV = Map<NameV, PrincipalRefV>;

/// Finds the effects of the functions of a contract.
#[derive(Debug)]
pub struct EffectsAnalyzer {
    /// Contract being analyzed.
    pub contract_identifier: QualifiedContractIdentifier,
    pub clarity_version: ClarityVersion,
    /// The native functions of that version.
    pub natives: NativeTable,
    /// Per-function effect summaries for this contract.
    pub function_effects: Functions,
    /// Intra-contract call edges for effect propagation.
    pub call_graph: CallGraph,
    /// Function names declared in this contract.
    pub known_functions: OrderedSet<ClarityName>,
    /// Contract constants that stand for a principal.
    pub principal_constants: Bindings,
}

pub ghost struct AnalyzerV {
    pub contract: ContractIdV,
    pub clarity_version: ClarityVersion,
    pub natives: Map<NameV, NativeFunctions>,
    pub function_effects: FunctionsV,
    pub call_graph: CallGraphV,
    pub known_functions: Set<NameV>,
    pub principal_constants: BindingsV,
}

impl View for EffectsAnalyzer {
    type V = AnalyzerV;

    open spec fn view(&self) -> AnalyzerV {
        AnalyzerV {
            contract: self.contract_identifier@,
            clarity_version: self.clarity_version,
            natives: self.natives@,
            function_effects: self.function_effects@,
            call_graph: self.call_graph@,
            known_functions: self.known_functions@,
            principal_constants: self.principal_constants@,
        }
    }
}

impl AnalyzerV {
    /// What an expression of a function with these parameters can refer to.
    pub open spec fn scope(self, params: Map<NameV, u32>) -> ScopeV {
        ScopeV {
            contract: self.contract,
            natives: self.natives,
            known: self.known_functions,
            constants: self.principal_constants,
            params,
        }
    }

    /// The same analyzer, knowing that a function calls others.
    pub open spec fn noting(self, caller: NameV, callees: Set<NameV>) -> AnalyzerV {
        AnalyzerV { call_graph: with_calls(self.call_graph, caller, callees), ..self }
    }
}

/// What an expression can refer to: the contract, the native functions, the
/// functions and constants of the contract, and the parameters of the function.
pub ghost struct ScopeV {
    pub contract: ContractIdV,
    pub natives: Map<NameV, NativeFunctions>,
    pub known: Set<NameV>,
    pub constants: BindingsV,
    pub params: Map<NameV, u32>,
}

/// The functions that a function calls.
pub open spec fn calls_from(graph: CallGraphV, caller: NameV) -> Set<NameV> {
    if graph.contains_key(caller) {
        graph[caller]
    } else {
        Set::empty()
    }
}

/// The call graph with more calls of a function.
pub open spec fn with_calls(graph: CallGraphV, caller: NameV, callees: Set<NameV>) -> CallGraphV {
    if callees == Set::<NameV>::empty() {
        graph
    } else {
        graph.insert(caller, calls_from(graph, caller).union(callees))
    }
}

/// Calls that are added in two steps are added in one.
proof fn lemma_with_calls(graph: CallGraphV, caller: NameV, a: Set<NameV>, b: Set<NameV>)
    ensures
        with_calls(with_calls(graph, caller, a), caller, b) == with_calls(
            graph,
            caller,
            a.union(b),
        ),
{
    let whole = a.union(b);
    if a == Set::<NameV>::empty() {
        assert(whole =~= b);
    } else if b == Set::<NameV>::empty() {
        assert(whole =~= a);
    } else {
        assert(whole != Set::<NameV>::empty()) by {
            if whole == Set::<NameV>::empty() {
                assert forall|n: NameV| !a.contains(n) by {
                    assert(!whole.contains(n));
                }
                assert(a =~= Set::<NameV>::empty());
            }
        }
        assert(calls_from(graph, caller).union(a).union(b) =~= calls_from(graph, caller).union(
            whole,
        ));
        assert(with_calls(with_calls(graph, caller, a), caller, b) =~= with_calls(
            graph,
            caller,
            whole,
        ));
    }
}

/// The principal that a name stands for: a well-known one, or that of a binding,
/// of a parameter, or of a constant, looked up in this order.
pub open spec fn named_principal(name: NameV, scope: ScopeV, bindings: BindingsV) -> PrincipalRefV {
    if name == "tx-sender"@ {
        PrincipalRefV::TxSender
    } else if name == "contract-caller"@ {
        PrincipalRefV::ContractCaller
    } else if name == "current-contract"@ {
        PrincipalRefV::CurrentContract
    } else if bindings.contains_key(name) {
        bindings[name]
    } else if scope.params.contains_key(name) {
        PrincipalRefV::Argument(scope.params[name])
    } else if scope.constants.contains_key(name) {
        scope.constants[name]
    } else {
        PrincipalRefV::Any
    }
}

/// A list is `(as-contract tx-sender)`, perhaps with more behind it.
pub open spec fn is_own_principal(list: Seq<SymbolicExpression>) -> bool {
    &&& list.len() >= 2
    &&& atom_in(list[0]) == Some("as-contract"@)
    &&& atom_in(list[1]) == Some("tx-sender"@)
}

/// The principal that an expression stands for.
pub open spec fn principal_in(
    e: SymbolicExpression,
    scope: ScopeV,
    bindings: BindingsV,
) -> PrincipalRefV {
    match e {
        SymbolicExpression::LiteralValue(Value::Principal(principal)) => PrincipalRefV::Literal(
            principal@,
        ),
        SymbolicExpression::Atom(name) => named_principal(name@, scope, bindings),
        SymbolicExpression::List(list) => if is_own_principal(list@) {
            PrincipalRefV::CurrentContract
        } else {
            PrincipalRefV::Any
        },
        _ => PrincipalRefV::Any,
    }
}

/// The principals that expressions stand for.
pub open spec fn principals_in(
    list: Seq<SymbolicExpression>,
    scope: ScopeV,
    bindings: BindingsV,
) -> Seq<PrincipalRefV> {
    list.map_values(|e: SymbolicExpression| principal_in(e, scope, bindings))
}

/// The principal that an argument of a call stands for, if the call has it.
pub open spec fn principal_at(
    args: Seq<SymbolicExpression>,
    i: int,
    scope: ScopeV,
    bindings: BindingsV,
) -> Option<PrincipalRefV> {
    if i < args.len() {
        Some(principal_in(args[i], scope, bindings))
    } else {
        None
    }
}

/// The name that the first argument of a call consists of.
pub open spec fn first_name(args: Seq<SymbolicExpression>) -> Option<NameV> {
    if args.len() > 0 {
        atom_in(args[0])
    } else {
        None
    }
}

/// The contract that an expression names in a call: a literal one, or that of a
/// parameter.
pub open spec fn contract_in(e: SymbolicExpression, params: Map<NameV, u32>) -> ContractRefV {
    match e {
        SymbolicExpression::LiteralValue(
            Value::Principal(PrincipalData::Contract(id)),
        ) => ContractRefV::Literal(id@),
        SymbolicExpression::Atom(name) => if params.contains_key(name@) {
            ContractRefV::Argument(params[name@])
        } else {
            ContractRefV::Any
        },
        _ => ContractRefV::Any,
    }
}

/// A place in the storage of a contract.
pub open spec fn storage(contract: ContractIdV, location: LocationV) -> TargetV {
    TargetV::Contract(
        StorageAccessV { contract: ContractRefV::Literal(contract), location: Some(location) },
    )
}

/// What a principal owns of an asset.
pub open spec fn owned(asset: AssetV, principal: PrincipalRefV) -> TargetV {
    TargetV::AssetOwnership(OwnershipAccessV { asset, principal })
}

/// A token of a contract.
pub open spec fn token(contract: ContractIdV, name: NameV, kind: TokenKindV) -> AssetV {
    AssetV::Token { contract, name, kind }
}

/// A principal that whoever makes the call decides: the sender or the caller. As
/// long as the call is not known, it may be anyone.
pub open spec fn set_by_call(principal: PrincipalRefV) -> bool {
    principal is TxSender || principal is ContractCaller
}

/// Effects, and what a principal owns is read, if there is one. What the sender
/// or the caller owns is read as theirs and as anyone's.
pub open spec fn looking_up(
    fx: EffectsV,
    asset: AssetV,
    principal: Option<PrincipalRefV>,
) -> EffectsV {
    match principal {
        Some(p) => if set_by_call(p) {
            fx.reading(owned(asset, p)).reading(owned(asset, PrincipalRefV::Any))
        } else {
            fx.reading(owned(asset, p))
        },
        None => fx,
    }
}

/// Effects, and what a principal owns is read and written, if there is one. What
/// the sender or the caller owns is read and written as theirs and as anyone's.
pub open spec fn moving(fx: EffectsV, asset: AssetV, principal: Option<PrincipalRefV>) -> EffectsV {
    let read = looking_up(fx, asset, principal);
    match principal {
        Some(p) => if set_by_call(p) {
            read.writing(owned(asset, p)).writing(owned(asset, PrincipalRefV::Any))
        } else {
            read.writing(owned(asset, p))
        },
        None => read,
    }
}

/// What a call of a native function does by itself, apart from what its
/// arguments do.
pub open spec fn native_effects(
    native: NativeFunctions,
    args: Seq<SymbolicExpression>,
    scope: ScopeV,
    bindings: BindingsV,
) -> EffectsV {
    let none = EffectsV::none();
    let contract = scope.contract;
    match native {
        NativeFunctions::FetchVar => match first_name(args) {
            Some(name) => none.reading(storage(contract, LocationV::DataVar(name))),
            None => none,
        },
        NativeFunctions::SetVar => match first_name(args) {
            Some(name) => none.writing(storage(contract, LocationV::DataVar(name))),
            None => none,
        },
        NativeFunctions::FetchEntry => match first_name(args) {
            Some(name) => none.reading(storage(contract, LocationV::DataMap(name))),
            None => none,
        },
        NativeFunctions::SetEntry
        | NativeFunctions::InsertEntry
        | NativeFunctions::DeleteEntry => match first_name(args) {
            Some(name) => none.writing(storage(contract, LocationV::DataMap(name))),
            None => none,
        },
        NativeFunctions::GetBlockInfo => none.reading(TargetV::ChainState(ChainReadV::BlockInfo)),
        NativeFunctions::GetStacksBlockInfo => none.reading(
            TargetV::ChainState(ChainReadV::StacksBlockInfo),
        ),
        NativeFunctions::GetBurnBlockInfo => none.reading(
            TargetV::ChainState(ChainReadV::BurnBlockInfo),
        ),
        NativeFunctions::GetTenureInfo => none.reading(TargetV::ChainState(ChainReadV::TenureInfo)),
        NativeFunctions::GetStxBalance | NativeFunctions::StxGetAccount => looking_up(
            none,
            AssetV::Stx,
            principal_at(args, 0, scope, bindings),
        ),
        NativeFunctions::StxTransfer | NativeFunctions::StxTransferMemo => moving(
            moving(none, AssetV::Stx, principal_at(args, 1, scope, bindings)),
            AssetV::Stx,
            principal_at(args, 2, scope, bindings),
        ),
        NativeFunctions::StxBurn => moving(
            none,
            AssetV::Stx,
            principal_at(args, 1, scope, bindings),
        ),
        NativeFunctions::GetTokenBalance => match first_name(args) {
            Some(name) => looking_up(
                none,
                token(contract, name, TokenKindV::Fungible),
                principal_at(args, 1, scope, bindings),
            ),
            None => none,
        },
        NativeFunctions::GetTokenSupply => match first_name(args) {
            Some(name) => none.reading(
                owned(token(contract, name, TokenKindV::Fungible), PrincipalRefV::Any),
            ),
            None => none,
        },
        NativeFunctions::TransferToken => token_moved(
            TokenKindV::Fungible,
            args,
            scope,
            bindings,
        ),
        NativeFunctions::MintToken => token_minted(TokenKindV::Fungible, args, scope, bindings),
        NativeFunctions::BurnToken => token_burned(TokenKindV::Fungible, args, scope, bindings),
        NativeFunctions::GetAssetOwner => match first_name(args) {
            Some(name) => none.reading(
                owned(token(contract, name, TokenKindV::NonFungible), PrincipalRefV::Any),
            ),
            None => none,
        },
        NativeFunctions::TransferAsset => token_moved(
            TokenKindV::NonFungible,
            args,
            scope,
            bindings,
        ),
        NativeFunctions::MintAsset => token_minted(TokenKindV::NonFungible, args, scope, bindings),
        NativeFunctions::BurnAsset => token_burned(TokenKindV::NonFungible, args, scope, bindings),
        NativeFunctions::ContractCall => if args.len() >= 2 {
            match atom_in(args[1]) {
                Some(function) => none.calling(
                    CallV {
                        contract: contract_in(args[0], scope.params),
                        function,
                        arg_principals: principals_in(args.skip(2), scope, bindings),
                        caller: Some(contract),
                    },
                ),
                None => none,
            }
        } else {
            none
        },
        NativeFunctions::Let | NativeFunctions::Other => none,
    }
}

/// A transfer of a token reads and writes what the one who gives it and the one who
/// gets it own.
pub open spec fn token_moved(
    kind: TokenKindV,
    args: Seq<SymbolicExpression>,
    scope: ScopeV,
    bindings: BindingsV,
) -> EffectsV {
    match first_name(args) {
        Some(name) => {
            let asset = token(scope.contract, name, kind);
            moving(
                moving(EffectsV::none(), asset, principal_at(args, 2, scope, bindings)),
                asset,
                principal_at(args, 3, scope, bindings),
            )
        },
        None => EffectsV::none(),
    }
}

/// Minting a token writes what the receiver owns.
pub open spec fn token_minted(
    kind: TokenKindV,
    args: Seq<SymbolicExpression>,
    scope: ScopeV,
    bindings: BindingsV,
) -> EffectsV {
    match (first_name(args), principal_at(args, 2, scope, bindings)) {
        (Some(name), Some(p)) => EffectsV::none().writing(
            owned(token(scope.contract, name, kind), p),
        ),
        _ => EffectsV::none(),
    }
}

/// Burning a token reads and writes what its owner owns.
pub open spec fn token_burned(
    kind: TokenKindV,
    args: Seq<SymbolicExpression>,
    scope: ScopeV,
    bindings: BindingsV,
) -> EffectsV {
    match first_name(args) {
        Some(name) => moving(
            EffectsV::none(),
            token(scope.contract, name, kind),
            principal_at(args, 2, scope, bindings),
        ),
        None => EffectsV::none(),
    }
}

/// What walking an expression finds: effects, and the functions of the same
/// contract that it calls.
#[verifier::ext_equal]
pub ghost struct TraceV {
    pub effects: EffectsV,
    pub calls: Set<NameV>,
}

impl TraceV {
    /// Nothing is found.
    pub open spec fn none() -> TraceV {
        TraceV { effects: EffectsV::none(), calls: Set::empty() }
    }

    /// What both find.
    pub open spec fn plus(self, other: TraceV) -> TraceV {
        TraceV {
            effects: self.effects.plus(other.effects),
            calls: self.calls.union(other.calls),
        }
    }
}

/// What walking an expression finds.
pub open spec fn trace(e: SymbolicExpression, scope: ScopeV, bindings: BindingsV) -> TraceV
    decreases e, 0nat,
{
    match e {
        SymbolicExpression::List(list) => trace_list(list@, scope, bindings),
        _ => TraceV::none(),
    }
}

/// What walking expressions one after another finds.
pub open spec fn trace_all(
    list: Seq<SymbolicExpression>,
    scope: ScopeV,
    bindings: BindingsV,
) -> TraceV
    decreases list, 1nat,
{
    if list.len() == 0 {
        TraceV::none()
    } else {
        trace_all(list.subrange(0, list.len() - 1), scope, bindings).plus(
            trace(list[list.len() - 1], scope, bindings),
        )
    }
}

/// What a call finds: what its arguments find, and what the called function is
/// known to do. A list that does not begin with a name is no call, and all of it
/// is walked; a `let` is walked with the names that it binds.
pub open spec fn trace_list(
    list: Seq<SymbolicExpression>,
    scope: ScopeV,
    bindings: BindingsV,
) -> TraceV
    decreases list, 3nat,
{
    if list.len() == 0 {
        TraceV::none()
    } else {
        let args = list.subrange(1, list.len() as int);
        match atom_in(list[0]) {
            None => trace_all(list, scope, bindings),
            Some(name) => if scope.natives.contains_key(name) {
                if scope.natives[name] == NativeFunctions::Let {
                    trace_let(args, scope, bindings)
                } else {
                    trace_all(args, scope, bindings).plus(
                        TraceV {
                            effects: native_effects(scope.natives[name], args, scope, bindings),
                            calls: Set::empty(),
                        },
                    )
                }
            } else if scope.known.contains(name) {
                trace_all(args, scope, bindings).plus(
                    TraceV { effects: EffectsV::none(), calls: Set::empty().insert(name) },
                )
            } else {
                trace_all(args, scope, bindings)
            },
        }
    }
}

/// The name and the value of a binding, if the expression is one.
pub open spec fn binding_in(e: SymbolicExpression) -> Option<(NameV, SymbolicExpression)> {
    match list_in(e) {
        Some(pair) => if pair.len() >= 2 {
            match atom_in(pair[0]) {
                Some(name) => Some((name, pair[1])),
                None => None,
            }
        } else {
            None
        },
        None => None,
    }
}

/// The bindings with those that a `let` adds, each resolved with the help of
/// those before it. A name that stands for no principal adds none.
pub open spec fn bindings_with(
    list: Seq<SymbolicExpression>,
    scope: ScopeV,
    bindings: BindingsV,
) -> BindingsV
    decreases list.len(),
{
    if list.len() == 0 {
        bindings
    } else {
        let before = bindings_with(list.drop_last(), scope, bindings);
        match binding_in(list.last()) {
            Some((name, value)) => match principal_in(value, scope, before) {
                PrincipalRefV::Any => before,
                reference => before.insert(name, reference),
            },
            None => before,
        }
    }
}

/// The bindings that a `let` lists.
pub open spec fn let_list(args: Seq<SymbolicExpression>) -> Seq<SymbolicExpression> {
    if args.len() > 0 {
        match args[0] {
            SymbolicExpression::List(list) => list@,
            _ => Seq::empty(),
        }
    } else {
        Seq::empty()
    }
}

/// What walking the values of bindings finds.
pub open spec fn trace_values(
    list: Seq<SymbolicExpression>,
    scope: ScopeV,
    bindings: BindingsV,
) -> TraceV
    decreases list, 1nat,
{
    if list.len() == 0 {
        TraceV::none()
    } else {
        let before = trace_values(list.subrange(0, list.len() - 1), scope, bindings);
        match list[list.len() - 1] {
            SymbolicExpression::List(pair) => if pair@.len() >= 2 && atom_in(pair@[0]) is Some {
                before.plus(trace(pair@[1], scope, bindings))
            } else {
                before
            },
            _ => before,
        }
    }
}

/// What a `let` finds: what the values of its bindings find outside of it, and
/// what its body finds inside of it.
pub open spec fn trace_let(
    args: Seq<SymbolicExpression>,
    scope: ScopeV,
    bindings: BindingsV,
) -> TraceV
    decreases args, 2nat,
{
    if args.len() == 0 {
        TraceV::none()
    } else {
        let inner = bindings_with(let_list(args), scope, bindings);
        let body = trace_all(args.subrange(1, args.len() as int), scope, inner);
        match args[0] {
            SymbolicExpression::List(list) => trace_values(list@, scope, bindings).plus(body),
            _ => body,
        }
    }
}

/// What a principal owns of an asset.
fn holding(asset: AssetId, principal: PrincipalReference) -> (r: EffectTarget)
    ensures
        r@ == owned(asset@, principal@),
{
    EffectTarget::AssetOwnership(AssetOwnershipAccess { asset, principal })
}

/// Adds a principal's holding of an asset to the reads, and anyone's where the
/// principal is the sender or the caller.
fn look_up(effects: &mut FunctionEffects, asset: AssetId, principal: Option<PrincipalReference>)
    ensures
        final(effects)@ == old(effects)@.plus(
            looking_up(EffectsV::none(), asset@, option_view(principal)),
        ),
{
    let ghost goal = effects@.plus(
        looking_up(EffectsV::none(), asset@, option_view(principal)),
    );
    if let Some(principal) = principal {
        match &principal {
            PrincipalReference::TxSender | PrincipalReference::ContractCaller => {
                effects.reads.insert(holding(asset.duplicate(), PrincipalReference::Any));
            },
            _ => {},
        }
        effects.reads.insert(holding(asset, principal));
    }
    assert(effects@ =~= goal);
}

/// Adds a principal's holding of an asset to the reads and the writes, and
/// anyone's where the principal is the sender or the caller.
fn touch(effects: &mut FunctionEffects, asset: AssetId, principal: Option<PrincipalReference>)
    ensures
        final(effects)@ == old(effects)@.plus(
            moving(EffectsV::none(), asset@, option_view(principal)),
        ),
{
    let ghost goal = effects@.plus(
        moving(EffectsV::none(), asset@, option_view(principal)),
    );
    if let Some(principal) = principal {
        match &principal {
            PrincipalReference::TxSender | PrincipalReference::ContractCaller => {
                let anyone = holding(asset.duplicate(), PrincipalReference::Any);
                effects.reads.insert(anyone.duplicate());
                effects.writes.insert(anyone);
            },
            _ => {},
        }
        let access = holding(asset, principal);
        effects.reads.insert(access.duplicate());
        effects.writes.insert(access);
    }
    assert(effects@ =~= goal);
}

/// Adds a read.
fn note_read(effects: &mut FunctionEffects, target: EffectTarget)
    ensures
        final(effects)@ == old(effects)@.plus(EffectsV::none().reading(target@)),
{
    let ghost goal = effects@.plus(EffectsV::none().reading(target@));
    effects.reads.insert(target);
    assert(effects@ =~= goal);
}

/// Adds a write.
fn note_write(effects: &mut FunctionEffects, target: EffectTarget)
    ensures
        final(effects)@ == old(effects)@.plus(EffectsV::none().writing(target@)),
{
    let ghost goal = effects@.plus(EffectsV::none().writing(target@));
    effects.writes.insert(target);
    assert(effects@ =~= goal);
}

/// Moving an asset twice adds what moving it each time adds.
proof fn lemma_moving(
    fx: EffectsV,
    asset: AssetV,
    from: Option<PrincipalRefV>,
    to: Option<PrincipalRefV>,
)
    ensures
        fx.plus(moving(EffectsV::none(), asset, from)).plus(moving(EffectsV::none(), asset, to))
            == fx.plus(moving(moving(EffectsV::none(), asset, from), asset, to)),
        fx.plus(EffectsV::none()) == fx,
{
    assert(fx.plus(moving(EffectsV::none(), asset, from)).plus(
        moving(EffectsV::none(), asset, to),
    ) =~= fx.plus(moving(moving(EffectsV::none(), asset, from), asset, to)));
    assert(fx.plus(EffectsV::none()) =~= fx);
}

impl EffectsAnalyzer {
    /// The principal that an expression stands for.
    pub fn resolve_principal(
        &self,
        expr: &SymbolicExpression,
        param_indices: &Parameters,
        bindings: &Bindings,
    ) -> (r: PrincipalReference)
        ensures
            r@ == principal_in(*expr, self@.scope(param_indices@), bindings@),
    {
        match expr {
            SymbolicExpression::LiteralValue(Value::Principal(principal)) => {
                PrincipalReference::Literal(principal.duplicate())
            },
            SymbolicExpression::Atom(name) => {
                if is_text(name, "tx-sender") {
                    return PrincipalReference::TxSender;
                }
                if is_text(name, "contract-caller") {
                    return PrincipalReference::ContractCaller;
                }
                if is_text(name, "current-contract") {
                    return PrincipalReference::CurrentContract;
                }
                if let Some(reference) = bindings.get(name) {
                    return reference.duplicate();
                }
                if let Some(index) = param_indices.get(name) {
                    return PrincipalReference::Argument(*index);
                }
                if let Some(reference) = self.principal_constants.get(name) {
                    return reference.duplicate();
                }
                PrincipalReference::Any
            },
            SymbolicExpression::List(list) => {
                if list.len() >= 2 {
                    if let Some(head) = list[0].match_atom() {
                        if is_text(head, "as-contract") {
                            if let Some(inner) = list[1].match_atom() {
                                if is_text(inner, "tx-sender") {
                                    return PrincipalReference::CurrentContract;
                                }
                            }
                        }
                    }
                }
                PrincipalReference::Any
            },
            _ => PrincipalReference::Any,
        }
    }

    /// The principal that an argument stands for, if there is one.
    fn argument_principal(
        &self,
        args: &[SymbolicExpression],
        i: usize,
        param_indices: &Parameters,
        bindings: &Bindings,
    ) -> (r: Option<PrincipalReference>)
        ensures
            option_view(r) == principal_at(
                args@,
                i as int,
                self@.scope(param_indices@),
                bindings@,
            ),
    {
        if i < args.len() {
            Some(self.resolve_principal(&args[i], param_indices, bindings))
        } else {
            None
        }
    }

    /// A map of this contract.
    pub fn contract_map_access(&self, map_name: &ClarityName) -> (t: EffectTarget)
        ensures
            t@ == storage(self@.contract, LocationV::DataMap(map_name@)),
    {
        EffectTarget::Contract(
            ContractStorageAccess {
                contract: ContractReference::Literal(self.contract_identifier.duplicate()),
                location: Some(StorageLocation::DataMap(map_name.duplicate())),
            },
        )
    }

    /// A variable of this contract.
    pub fn contract_var_access(&self, var_name: &ClarityName) -> (t: EffectTarget)
        ensures
            t@ == storage(self@.contract, LocationV::DataVar(var_name@)),
    {
        EffectTarget::Contract(
            ContractStorageAccess {
                contract: ContractReference::Literal(self.contract_identifier.duplicate()),
                location: Some(StorageLocation::DataVar(var_name.duplicate())),
            },
        )
    }

    /// The fungible token of this contract that an expression names.
    pub fn ft_asset(&self, token_name: &SymbolicExpression) -> (r: Option<AssetId>)
        ensures
            match atom_in(*token_name) {
                Some(name) => r is Some && r->0@ == token(
                    self@.contract,
                    name,
                    TokenKindV::Fungible,
                ),
                None => r is None,
            },
    {
        match token_name.match_atom() {
            Some(name) => Some(
                AssetId::token(
                    self.contract_identifier.duplicate(),
                    name.duplicate(),
                    TokenKind::Fungible,
                ),
            ),
            None => None,
        }
    }

    /// The non-fungible token of this contract that an expression names.
    pub fn nft_asset(&self, token_name: &SymbolicExpression) -> (r: Option<AssetId>)
        ensures
            match atom_in(*token_name) {
                Some(name) => r is Some && r->0@ == token(
                    self@.contract,
                    name,
                    TokenKindV::NonFungible,
                ),
                None => r is None,
            },
    {
        match token_name.match_atom() {
            Some(name) => Some(
                AssetId::token(
                    self.contract_identifier.duplicate(),
                    name.duplicate(),
                    TokenKind::NonFungible,
                ),
            ),
            None => None,
        }
    }

    /// The name that the first argument consists of, if it is one.
    fn first_atom<'a>(args: &'a [SymbolicExpression]) -> (r: Option<&'a ClarityName>)
        ensures
            match r {
                Some(name) => first_name(args@) == Some(name@),
                None => first_name(args@) is None,
            },
    {
        if args.len() > 0 {
            args[0].match_atom()
        } else {
            None
        }
    }

    /// The token of this contract that the first argument names, if it names one.
    fn first_token(&self, args: &[SymbolicExpression], kind: TokenKind) -> (r: Option<AssetId>)
        ensures
            match first_name(args@) {
                Some(name) => r is Some && r->0@ == token(self@.contract, name, kind@),
                None => r is None,
            },
    {
        if args.len() == 0 {
            return None;
        }
        match kind {
            TokenKind::Fungible => self.ft_asset(&args[0]),
            TokenKind::NonFungible => self.nft_asset(&args[0]),
        }
    }

    /// Adds what a transfer of a token does.
    fn apply_transfer(
        &self,
        kind: TokenKind,
        args: &[SymbolicExpression],
        param_indices: &Parameters,
        bindings: &Bindings,
        effects: &mut FunctionEffects,
    )
        ensures
            final(effects)@ == old(effects)@.plus(
                token_moved(kind@, args@, self@.scope(param_indices@), bindings@),
            ),
    {
        if let Some(asset) = self.first_token(args, kind) {
            let from = self.argument_principal(args, 2, param_indices, bindings);
            let to = self.argument_principal(args, 3, param_indices, bindings);
            proof {
                lemma_moving(
                    effects@,
                    asset@,
                    option_view(from),
                    option_view(to),
                );
            }
            touch(effects, asset.duplicate(), from);
            touch(effects, asset, to);
        } else {
            proof {
                lemma_moving(effects@, AssetV::Stx, None, None);
            }
        }
    }

    /// Adds what minting a token does.
    fn apply_mint(
        &self,
        kind: TokenKind,
        args: &[SymbolicExpression],
        param_indices: &Parameters,
        bindings: &Bindings,
        effects: &mut FunctionEffects,
    )
        ensures
            final(effects)@ == old(effects)@.plus(
                token_minted(kind@, args@, self@.scope(param_indices@), bindings@),
            ),
    {
        proof {
            lemma_moving(effects@, AssetV::Stx, None, None);
        }
        if let Some(asset) = self.first_token(args, kind) {
            if let Some(principal) = self.argument_principal(args, 2, param_indices, bindings) {
                note_write(effects, holding(asset, principal));
            }
        }
    }

    /// Adds what burning a token does.
    fn apply_burn(
        &self,
        kind: TokenKind,
        args: &[SymbolicExpression],
        param_indices: &Parameters,
        bindings: &Bindings,
        effects: &mut FunctionEffects,
    )
        ensures
            final(effects)@ == old(effects)@.plus(
                token_burned(kind@, args@, self@.scope(param_indices@), bindings@),
            ),
    {
        proof {
            lemma_moving(effects@, AssetV::Stx, None, None);
        }
        if let Some(asset) = self.first_token(args, kind) {
            let principal = self.argument_principal(args, 2, param_indices, bindings);
            touch(effects, asset, principal);
        }
    }

    /// Adds the call of another contract.
    fn apply_contract_call(
        &self,
        args: &[SymbolicExpression],
        param_indices: &Parameters,
        bindings: &Bindings,
        effects: &mut FunctionEffects,
    )
        ensures
            final(effects)@ == old(effects)@.plus(
                native_effects(
                    NativeFunctions::ContractCall,
                    args@,
                    self@.scope(param_indices@),
                    bindings@,
                ),
            ),
    {
        let ghost scope = self@.scope(param_indices@);
        let ghost goal = effects@.plus(
            native_effects(NativeFunctions::ContractCall, args@, scope, bindings@),
        );
        if args.len() >= 2 {
            if let Some(function) = args[1].match_atom() {
                let contract = match &args[0] {
                    SymbolicExpression::LiteralValue(
                        Value::Principal(PrincipalData::Contract(id)),
                    ) => ContractReference::Literal(id.duplicate()),
                    SymbolicExpression::Atom(name) => match param_indices.get(name) {
                        Some(index) => ContractReference::Argument(*index),
                        None => ContractReference::Any,
                    },
                    _ => ContractReference::Any,
                };
                let mut arg_principals: Vec<PrincipalReference> = Vec::new();
                let mut i: usize = 2;
                while i < args.len()
                    invariant
                        2 <= i <= args.len(),
                        scope == self@.scope(param_indices@),
                        arg_principals.len() == i - 2,
                        forall|j: int|
                            0 <= j < i - 2 ==> (#[trigger] arg_principals[j])@ == principal_in(
                                args@[j + 2],
                                scope,
                                bindings@,
                            ),
                    decreases args.len() - i,
                {
                    arg_principals.push(
                        self.resolve_principal(&args[i], param_indices, bindings),
                    );
                    i = i + 1;
                }
                let call = ContractCall {
                    contract,
                    function: function.duplicate(),
                    arg_principals,
                    caller: Some(self.contract_identifier.duplicate()),
                };
                assert(call@.arg_principals =~= principals_in(args@.skip(2), scope, bindings@));
                effects.contract_calls.insert(call);
            }
        }
        assert(effects@ =~= goal);
    }

    /// Adds what a call of a native function does by itself.
    pub fn apply_native_effects(
        &self,
        native_function: NativeFunctions,
        args: &[SymbolicExpression],
        param_indices: &Parameters,
        bindings: &Bindings,
        effects: &mut FunctionEffects,
    )
        ensures
            final(effects)@ == old(effects)@.plus(
                native_effects(
                    native_function,
                    args@,
                    self@.scope(param_indices@),
                    bindings@,
                ),
            ),
    {
        proof {
            lemma_moving(effects@, AssetV::Stx, None, None);
        }
        match native_function {
            NativeFunctions::FetchVar => {
                if let Some(name) = Self::first_atom(args) {
                    note_read(effects, self.contract_var_access(name));
                }
            },
            NativeFunctions::SetVar => {
                if let Some(name) = Self::first_atom(args) {
                    note_write(effects, self.contract_var_access(name));
                }
            },
            NativeFunctions::FetchEntry => {
                if let Some(name) = Self::first_atom(args) {
                    note_read(effects, self.contract_map_access(name));
                }
            },
            NativeFunctions::SetEntry
            | NativeFunctions::InsertEntry
            | NativeFunctions::DeleteEntry => {
                if let Some(name) = Self::first_atom(args) {
                    note_write(effects, self.contract_map_access(name));
                }
            },
            NativeFunctions::GetBlockInfo => {
                note_read(effects, EffectTarget::ChainState(ChainStateRead::BlockInfo));
            },
            NativeFunctions::GetStacksBlockInfo => {
                note_read(effects, EffectTarget::ChainState(ChainStateRead::StacksBlockInfo));
            },
            NativeFunctions::GetBurnBlockInfo => {
                note_read(effects, EffectTarget::ChainState(ChainStateRead::BurnBlockInfo));
            },
            NativeFunctions::GetTenureInfo => {
                note_read(effects, EffectTarget::ChainState(ChainStateRead::TenureInfo));
            },
            NativeFunctions::GetStxBalance | NativeFunctions::StxGetAccount => {
                let principal = self.argument_principal(args, 0, param_indices, bindings);
                look_up(effects, AssetId::stx(), principal);
            },
            NativeFunctions::StxTransfer | NativeFunctions::StxTransferMemo => {
                let from = self.argument_principal(args, 1, param_indices, bindings);
                let to = self.argument_principal(args, 2, param_indices, bindings);
                proof {
                    lemma_moving(
                        effects@,
                        AssetV::Stx,
                        option_view(from),
                        option_view(to),
                    );
                }
                touch(effects, AssetId::stx(), from);
                touch(effects, AssetId::stx(), to);
            },
            NativeFunctions::StxBurn => {
                let principal = self.argument_principal(args, 1, param_indices, bindings);
                touch(effects, AssetId::stx(), principal);
            },
            NativeFunctions::GetTokenBalance => {
                if let Some(asset) = self.first_token(args, TokenKind::Fungible) {
                    let principal = self.argument_principal(args, 1, param_indices, bindings);
                    look_up(effects, asset, principal);
                }
            },
            NativeFunctions::GetTokenSupply => {
                if let Some(asset) = self.first_token(args, TokenKind::Fungible) {
                    note_read(effects, holding(asset, PrincipalReference::Any));
                }
            },
            NativeFunctions::TransferToken => {
                self.apply_transfer(TokenKind::Fungible, args, param_indices, bindings, effects);
            },
            NativeFunctions::MintToken => {
                self.apply_mint(TokenKind::Fungible, args, param_indices, bindings, effects);
            },
            NativeFunctions::BurnToken => {
                self.apply_burn(TokenKind::Fungible, args, param_indices, bindings, effects);
            },
            NativeFunctions::GetAssetOwner => {
                if let Some(asset) = self.first_token(args, TokenKind::NonFungible) {
                    note_read(effects, holding(asset, PrincipalReference::Any));
                }
            },
            NativeFunctions::TransferAsset => {
                self.apply_transfer(
                    TokenKind::NonFungible,
                    args,
                    param_indices,
                    bindings,
                    effects,
                );
            },
            NativeFunctions::MintAsset => {
                self.apply_mint(TokenKind::NonFungible, args, param_indices, bindings, effects);
            },
            NativeFunctions::BurnAsset => {
                self.apply_burn(TokenKind::NonFungible, args, param_indices, bindings, effects);
            },
            NativeFunctions::ContractCall => {
                self.apply_contract_call(args, param_indices, bindings, effects);
            },
            NativeFunctions::Let | NativeFunctions::Other => {},
        }
    }
}

/// Adding twice is adding both.
proof fn lemma_plus(a: EffectsV, b: EffectsV, c: EffectsV)
    ensures
        a.plus(b).plus(c) == a.plus(b.plus(c)),
        a.plus(EffectsV::none()) == a,
{
    assert(a.plus(b).plus(c) =~= a.plus(b.plus(c)));
    assert(a.plus(EffectsV::none()) =~= a);
}

/// Walking on adds what is found next.
pub proof fn lemma_walk(start: AnalyzerV, caller: NameV, fx: EffectsV, a: TraceV, b: TraceV)
    ensures
        start.noting(caller, a.calls).noting(caller, b.calls) == start.noting(
            caller,
            a.plus(b).calls,
        ),
        fx.plus(a.effects).plus(b.effects) == fx.plus(a.plus(b).effects),
        start.noting(caller, TraceV::none().calls) == start,
        fx.plus(TraceV::none().effects) == fx,
{
    lemma_with_calls(start.call_graph, caller, a.calls, b.calls);
    lemma_plus(fx, a.effects, b.effects);
}

impl EffectsAnalyzer {
    /// Notes that a function calls another of the same contract.
    fn note_call(&mut self, caller: &ClarityName, callee: &ClarityName)
        ensures
            final(self)@ == old(self)@.noting(caller@, Set::empty().insert(callee@)),
    {
        let ghost start = self@;
        let mut callees: OrderedSet<ClarityName> = match self.call_graph.get(caller) {
            Some(callees) => callees.duplicate(),
            None => OrderedSet::new(),
        };
        callees.insert(callee.duplicate());
        proof {
            let one = Set::<NameV>::empty().insert(callee@);
            assert(one.contains(callee@));
            assert(one != Set::<NameV>::empty());
            assert(callees@ =~= calls_from(start.call_graph, caller@).union(one));
        }
        self.call_graph.insert(caller.duplicate(), callees);
    }

    /// Walks an expression: adds its effects, and notes the functions of the
    /// contract that it calls.
    pub fn analyze_expr(
        &mut self,
        expr: &SymbolicExpression,
        current_function: &ClarityName,
        param_indices: &Parameters,
        bindings: &Bindings,
        effects: &mut FunctionEffects,
    )
        ensures
            final(self)@ == old(self)@.noting(
                current_function@,
                trace(*expr, old(self)@.scope(param_indices@), bindings@).calls,
            ),
            final(effects)@ == old(effects)@.plus(
                trace(*expr, old(self)@.scope(param_indices@), bindings@).effects,
            ),
        decreases *expr, 0nat,
    {
        match expr {
            SymbolicExpression::List(expressions) => {
                self.analyze_list(
                    expressions.as_slice(),
                    current_function,
                    param_indices,
                    bindings,
                    effects,
                );
            },
            _ => {
                proof {
                    lemma_walk(
                        self@,
                        current_function@,
                        effects@,
                        TraceV::none(),
                        TraceV::none(),
                    );
                }
            },
        }
    }

    /// Walks expressions one after another.
    fn analyze_all(
        &mut self,
        expressions: &[SymbolicExpression],
        current_function: &ClarityName,
        param_indices: &Parameters,
        bindings: &Bindings,
        effects: &mut FunctionEffects,
    )
        ensures
            final(self)@ == old(self)@.noting(
                current_function@,
                trace_all(expressions@, old(self)@.scope(param_indices@), bindings@).calls,
            ),
            final(effects)@ == old(effects)@.plus(
                trace_all(expressions@, old(self)@.scope(param_indices@), bindings@).effects,
            ),
        decreases expressions@, 1nat,
    {
        let ghost start = self@;
        let ghost fx = effects@;
        let ghost scope = self@.scope(param_indices@);
        let ghost list = expressions@;
        let mut i: usize = 0;
        proof {
            lemma_walk(start, current_function@, fx, TraceV::none(), TraceV::none());
        }
        while i < expressions.len()
            invariant
                i <= expressions.len(),
                list == expressions@,
                scope == start.scope(param_indices@),
                self@ == start.noting(
                    current_function@,
                    trace_all(list.subrange(0, i as int), scope, bindings@).calls,
                ),
                effects@ == fx.plus(
                    trace_all(list.subrange(0, i as int), scope, bindings@).effects,
                ),
            decreases expressions.len() - i,
        {
            proof {
                let next = list.subrange(0, i + 1);
                assert(next.subrange(0, next.len() - 1) =~= list.subrange(0, i as int));
                assert(next[next.len() - 1] == list[i as int]);
                lemma_walk(
                    start,
                    current_function@,
                    fx,
                    trace_all(list.subrange(0, i as int), scope, bindings@),
                    trace(list[i as int], scope, bindings@),
                );
            }
            self.analyze_expr(
                &expressions[i],
                current_function,
                param_indices,
                bindings,
                effects,
            );
            i = i + 1;
        }
        assert(list.subrange(0, list.len() as int) =~= list);
    }

    /// Walks a list: a call of a native function, of a function of the contract,
    /// or no call at all.
    pub fn analyze_list(
        &mut self,
        expressions: &[SymbolicExpression],
        current_function: &ClarityName,
        param_indices: &Parameters,
        bindings: &Bindings,
        effects: &mut FunctionEffects,
    )
        ensures
            final(self)@ == old(self)@.noting(
                current_function@,
                trace_list(expressions@, old(self)@.scope(param_indices@), bindings@).calls,
            ),
            final(effects)@ == old(effects)@.plus(
                trace_list(expressions@, old(self)@.scope(param_indices@), bindings@).effects,
            ),
        decreases expressions@, 3nat,
    {
        let ghost start = self@;
        let ghost fx = effects@;
        let ghost scope = self@.scope(param_indices@);
        if expressions.len() == 0 {
            proof {
                lemma_walk(start, current_function@, fx, TraceV::none(), TraceV::none());
            }
            return;
        }
        let args = slice_subrange(expressions, 1, expressions.len());
        match expressions[0].match_atom() {
            None => {
                self.analyze_all(expressions, current_function, param_indices, bindings, effects);
            },
            Some(function_name) => {
                let native = match self.natives.get(function_name) {
                    Some(native) => Some(*native),
                    None => None,
                };
                match native {
                    Some(NativeFunctions::Let) => {
                        self.analyze_let(
                            args,
                            current_function,
                            param_indices,
                            bindings,
                            effects,
                        );
                    },
                    Some(native) => {
                        proof {
                            lemma_walk(
                                start,
                                current_function@,
                                fx,
                                trace_all(args@, scope, bindings@),
                                TraceV {
                                    effects: native_effects(native, args@, scope, bindings@),
                                    calls: Set::empty(),
                                },
                            );
                        }
                        self.analyze_all(args, current_function, param_indices, bindings, effects);
                        self.apply_native_effects(native, args, param_indices, bindings, effects);
                    },
                    None => {
                        proof {
                            lemma_walk(
                                start,
                                current_function@,
                                fx,
                                trace_all(args@, scope, bindings@),
                                TraceV {
                                    effects: EffectsV::none(),
                                    calls: Set::empty().insert(function_name@),
                                },
                            );
                            lemma_plus(
                                fx.plus(trace_all(args@, scope, bindings@).effects),
                                EffectsV::none(),
                                EffectsV::none(),
                            );
                        }
                        self.analyze_all(args, current_function, param_indices, bindings, effects);
                        if self.known_functions.contains(function_name) {
                            self.note_call(current_function, function_name);
                        }
                    },
                }
            },
        }
    }

    /// Walks a `let`: first the values of its bindings, then its body with the
    /// names bound.
    pub fn analyze_let(
        &mut self,
        args: &[SymbolicExpression],
        current_function: &ClarityName,
        param_indices: &Parameters,
        bindings: &Bindings,
        effects: &mut FunctionEffects,
    )
        ensures
            final(self)@ == old(self)@.noting(
                current_function@,
                trace_let(args@, old(self)@.scope(param_indices@), bindings@).calls,
            ),
            final(effects)@ == old(effects)@.plus(
                trace_let(args@, old(self)@.scope(param_indices@), bindings@).effects,
            ),
        decreases args@, 2nat,
    {
        let ghost start = self@;
        let ghost fx = effects@;
        let ghost scope = self@.scope(param_indices@);
        proof {
            lemma_walk(start, current_function@, fx, TraceV::none(), TraceV::none());
        }
        if args.len() == 0 {
            return;
        }
        let mut extended = bindings.duplicate();
        if let SymbolicExpression::List(bindings_list) = &args[0] {
            let ghost list = bindings_list@;
            let mut i: usize = 0;
            while i < bindings_list.len()
                invariant
                    i <= bindings_list.len(),
                    list == bindings_list@,
                    args@.len() > 0,
                    args@[0] == SymbolicExpression::List(*bindings_list),
                    scope == start.scope(param_indices@),
                    extended@ == bindings_with(list.subrange(0, i as int), scope, bindings@),
                    self@ == start.noting(
                        current_function@,
                        trace_values(list.subrange(0, i as int), scope, bindings@).calls,
                    ),
                    effects@ == fx.plus(
                        trace_values(list.subrange(0, i as int), scope, bindings@).effects,
                    ),
                decreases bindings_list.len() - i,
            {
                proof {
                    let next = list.subrange(0, i + 1);
                    assert(next.subrange(0, next.len() - 1) =~= list.subrange(0, i as int));
                    assert(next.drop_last() =~= list.subrange(0, i as int));
                    assert(next[next.len() - 1] == list[i as int]);
                }
                if let SymbolicExpression::List(pair) = &bindings_list[i] {
                    if pair.len() >= 2 {
                        if let Some(name) = pair[0].match_atom() {
                            proof {
                                lemma_walk(
                                    start,
                                    current_function@,
                                    fx,
                                    trace_values(list.subrange(0, i as int), scope, bindings@),
                                    trace(pair@[1], scope, bindings@),
                                );
                                assert(decreases_to!(args@ => args@[0]));
                                assert(decreases_to!(args@[0] => args@[0]->List_0));
                                assert(decreases_to!(args@[0]->List_0 => list));
                                assert(decreases_to!(list => list[i as int]));
                                assert(decreases_to!(list[i as int] => list[i as int]->List_0));
                                assert(decreases_to!(list[i as int]->List_0 => pair@));
                                assert(decreases_to!(pair@ => pair@[1]));
                            }
                            self.analyze_expr(
                                &pair[1],
                                current_function,
                                param_indices,
                                bindings,
                                effects,
                            );
                            let reference = self.resolve_principal(
                                &pair[1],
                                param_indices,
                                &extended,
                            );
                            match reference {
                                PrincipalReference::Any => {},
                                reference => {
                                    extended.insert(name.duplicate(), reference);
                                },
                            }
                        }
                    }
                }
                i = i + 1;
            }
            assert(list.subrange(0, list.len() as int) =~= list);
        }
        let body = slice_subrange(args, 1, args.len());
        proof {
            let values = match args@[0] {
                SymbolicExpression::List(list) => trace_values(list@, scope, bindings@),
                _ => TraceV::none(),
            };
            lemma_walk(
                start,
                current_function@,
                fx,
                values,
                trace_all(body@, scope, extended@),
            );
        }
        self.analyze_all(body, current_function, param_indices, &extended, effects);
    }
}

/// One walk finds all that another does.
pub open spec fn finds(a: TraceV, b: TraceV) -> bool {
    a.effects.includes(b.effects) && b.calls.subset_of(a.calls)
}

/// A list binds names.
pub open spec fn is_let(list: Seq<SymbolicExpression>, scope: ScopeV) -> bool {
    &&& list.len() > 0
    &&& atom_in(list[0]) matches Some(name) && scope.natives.contains_key(name)
        && scope.natives[name] == NativeFunctions::Let
}

proof fn lemma_all_count(
    list: Seq<SymbolicExpression>,
    scope: ScopeV,
    bindings: BindingsV,
    i: int,
)
    requires
        0 <= i < list.len(),
    ensures
        finds(trace_all(list, scope, bindings), trace(list[i], scope, bindings)),
    decreases list.len(),
{
    let before = list.subrange(0, list.len() - 1);
    if i < list.len() - 1 {
        lemma_all_count(before, scope, bindings, i);
        assert(before[i] == list[i]);
    }
}

/// Whatever the parts of a list do, the list does, unless it binds names.
pub proof fn law_parts_count(
    list: Seq<SymbolicExpression>,
    scope: ScopeV,
    bindings: BindingsV,
    i: int,
)
    requires
        0 <= i < list.len(),
        !is_let(list, scope),
    ensures
        finds(trace_list(list, scope, bindings), trace(list[i], scope, bindings)),
{
    if atom_in(list[0]) is None {
        lemma_all_count(list, scope, bindings, i);
    } else if i > 0 {
        let args = list.subrange(1, list.len() as int);
        assert(args[i - 1] == list[i]);
        lemma_all_count(args, scope, bindings, i - 1);
    }
}

/// Whatever the body of a `let` does, with the names that the `let` binds, the `let`
/// does.
pub proof fn law_let_bodies_count(
    args: Seq<SymbolicExpression>,
    scope: ScopeV,
    bindings: BindingsV,
    i: int,
)
    requires
        1 <= i < args.len(),
    ensures
        finds(
            trace_let(args, scope, bindings),
            trace(args[i], scope, bindings_with(let_list(args), scope, bindings)),
        ),
{
    let body = args.subrange(1, args.len() as int);
    assert(body[i - 1] == args[i]);
    lemma_all_count(body, scope, bindings_with(let_list(args), scope, bindings), i - 1);
}

/// The value of a binding.
pub open spec fn value_in(binding: SymbolicExpression) -> SymbolicExpression {
    match binding_in(binding) {
        Some((_, value)) => value,
        None => binding,
    }
}

proof fn lemma_values_count(
    list: Seq<SymbolicExpression>,
    scope: ScopeV,
    bindings: BindingsV,
    i: int,
)
    requires
        0 <= i < list.len(),
        binding_in(list[i]) is Some,
    ensures
        finds(
            trace_values(list, scope, bindings),
            trace(value_in(list[i]), scope, bindings),
        ),
    decreases list.len(),
{
    let before = list.subrange(0, list.len() - 1);
    if i < list.len() - 1 {
        assert(before[i] == list[i]);
        lemma_values_count(before, scope, bindings, i);
    }
}

/// Whatever the values do that a `let` binds to names, the `let` does.
pub proof fn law_let_values_count(
    args: Seq<SymbolicExpression>,
    scope: ScopeV,
    bindings: BindingsV,
    i: int,
)
    requires
        0 <= i < let_list(args).len(),
        binding_in(let_list(args)[i]) is Some,
    ensures
        finds(
            trace_let(args, scope, bindings),
            trace(value_in(let_list(args)[i]), scope, bindings),
        ),
{
    lemma_values_count(let_list(args), scope, bindings, i);
}

/// A native function does what it is known to do, wherever it is called.
pub proof fn law_native_calls_count(
    list: Seq<SymbolicExpression>,
    scope: ScopeV,
    bindings: BindingsV,
    native: NativeFunctions,
)
    requires
        list.len() > 0,
        atom_in(list[0]) matches Some(name) && scope.natives.contains_key(name)
            && scope.natives[name] == native,
    ensures
        trace_list(list, scope, bindings).effects.includes(
            native_effects(native, list.subrange(1, list.len() as int), scope, bindings),
        ),
{
}

/// Whatever is read of the sender's or the caller's is read as anyone's too.
pub open spec fn reads_anyones(reads: Set<TargetV>) -> bool {
    forall|asset: AssetV, principal: PrincipalRefV|
        set_by_call(principal) && reads.contains(#[trigger] owned(asset, principal))
            ==> reads.contains(owned(asset, PrincipalRefV::Any))
}

/// Where two parts read what is anyone's, both together do.
proof fn lemma_reads_anyones(a: TraceV, b: TraceV)
    requires
        reads_anyones(a.effects.reads),
        reads_anyones(b.effects.reads),
    ensures
        reads_anyones(a.plus(b).effects.reads),
{
}

/// Native functions read what is anyone's wherever they read what the sender or
/// the caller owns.
proof fn lemma_native_reads_anyones(
    native: NativeFunctions,
    args: Seq<SymbolicExpression>,
    scope: ScopeV,
    bindings: BindingsV,
)
    ensures
        reads_anyones(native_effects(native, args, scope, bindings).reads),
{
}

proof fn lemma_all_read_anyones(
    list: Seq<SymbolicExpression>,
    scope: ScopeV,
    bindings: BindingsV,
)
    ensures
        reads_anyones(trace_all(list, scope, bindings).effects.reads),
    decreases list, 1nat,
{
    if list.len() > 0 {
        let before = list.subrange(0, list.len() - 1);
        let last = list[list.len() - 1];
        lemma_all_read_anyones(before, scope, bindings);
        law_reads_of_callers_are_anyones(last, scope, bindings);
        lemma_reads_anyones(trace_all(before, scope, bindings), trace(last, scope, bindings));
    }
}

proof fn lemma_values_read_anyones(
    list: Seq<SymbolicExpression>,
    scope: ScopeV,
    bindings: BindingsV,
)
    ensures
        reads_anyones(trace_values(list, scope, bindings).effects.reads),
    decreases list, 1nat,
{
    if list.len() > 0 {
        let before = list.subrange(0, list.len() - 1);
        lemma_values_read_anyones(before, scope, bindings);
        if let SymbolicExpression::List(pair) = list[list.len() - 1] {
            if pair@.len() >= 2 && atom_in(pair@[0]) is Some {
                law_reads_of_callers_are_anyones(pair@[1], scope, bindings);
                lemma_reads_anyones(
                    trace_values(before, scope, bindings),
                    trace(pair@[1], scope, bindings),
                );
            }
        }
    }
}

proof fn lemma_let_reads_anyones(
    args: Seq<SymbolicExpression>,
    scope: ScopeV,
    bindings: BindingsV,
)
    ensures
        reads_anyones(trace_let(args, scope, bindings).effects.reads),
    decreases args, 2nat,
{
    if args.len() > 0 {
        let inner = bindings_with(let_list(args), scope, bindings);
        let body = args.subrange(1, args.len() as int);
        lemma_all_read_anyones(body, scope, inner);
        if let SymbolicExpression::List(list) = args[0] {
            lemma_values_read_anyones(list@, scope, bindings);
            lemma_reads_anyones(
                trace_values(list@, scope, bindings),
                trace_all(body, scope, inner),
            );
        }
    }
}

/// The sender and the caller may be anyone: wherever walking an expression finds
/// that what one of them owns of an asset is read, it finds that what anyone owns
/// of that asset is read.
pub proof fn law_reads_of_callers_are_anyones(
    e: SymbolicExpression,
    scope: ScopeV,
    bindings: BindingsV,
)
    ensures
        reads_anyones(trace(e, scope, bindings).effects.reads),
    decreases e, 0nat,
{
    if let SymbolicExpression::List(list) = e {
        let list = list@;
        if list.len() > 0 {
            let args = list.subrange(1, list.len() as int);
            lemma_all_read_anyones(args, scope, bindings);
            match atom_in(list[0]) {
                None => lemma_all_read_anyones(list, scope, bindings),
                Some(name) => if scope.natives.contains_key(name) {
                    let native = scope.natives[name];
                    lemma_let_reads_anyones(args, scope, bindings);
                    lemma_native_reads_anyones(native, args, scope, bindings);
                    lemma_reads_anyones(
                        trace_all(args, scope, bindings),
                        TraceV {
                            effects: native_effects(native, args, scope, bindings),
                            calls: Set::empty(),
                        },
                    );
                } else {
                    lemma_reads_anyones(
                        trace_all(args, scope, bindings),
                        TraceV { effects: EffectsV::none(), calls: Set::empty().insert(name) },
                    );
                },
            }
        }
    }
}

} // verus!
