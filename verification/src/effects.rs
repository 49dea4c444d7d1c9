//! The effects of a function, and how calls of other contracts are replaced by
//! what the called functions do.

use vstd::prelude::*;

use crate::codes::option_view;
use crate::ordered::{lemma_push_members, Data, OrderedMap, OrderedSet};
use crate::types::{
    AccountNonceAccess, AssetOwnershipAccess, CallV, ClarityName, ContractCall, ContractIdV,
    ContractRefV, ContractReference, EffectTarget, NameV, NonceAccessV, OwnershipAccessV,
    PrincipalData, PrincipalRefV, PrincipalReference, PrincipalV, QualifiedContractIdentifier,
    TargetV,
};

verus! {

/// Whether a function has effects.
#[derive(Debug, Clone, Copy, PartialEq, Eq, Structural)]
pub enum Purity {
    Pure,
    Impure,
}

/// What a function can read, write and call.
#[derive(Debug, Clone, PartialEq, Eq)]
pub struct FunctionEffects {
    pub purity: Purity,
    pub reads: OrderedSet<EffectTarget>,
    pub writes: OrderedSet<EffectTarget>,
    /// Calls of other contracts that are not replaced by their effects.
    pub contract_calls: OrderedSet<ContractCall>,
}

#[verifier::ext_equal]
pub ghost struct EffectsV {
    pub purity: Purity,
    pub reads: Set<TargetV>,
    pub writes: Set<TargetV>,
    pub contract_calls: Set<CallV>,
}

/// The effects of the functions of a contract, by name.
pub type Functions = OrderedMap<ClarityName, FunctionEffects>;

/// The functions of several contracts.
pub type Contracts = OrderedMap<QualifiedContractIdentifier, Functions>;

pub type FunctionsV = Map<NameV, EffectsV>;

pub type ContractsV = Map<ContractIdV, FunctionsV>;

impl View for FunctionEffects {
    type V = EffectsV;

    open spec fn view(&self) -> EffectsV {
        EffectsV {
            purity: self.purity,
            reads: self.reads@,
            writes: self.writes@,
            contract_calls: self.contract_calls@,
        }
    }
}

impl EffectsV {
    /// No effects at all.
    pub open spec fn none() -> EffectsV {
        EffectsV {
            purity: Purity::Pure,
            reads: Set::empty(),
            writes: Set::empty(),
            contract_calls: Set::empty(),
        }
    }

    /// These effects and the others; the purity is kept.
    pub open spec fn plus(self, other: EffectsV) -> EffectsV {
        EffectsV {
            purity: self.purity,
            reads: self.reads.union(other.reads),
            writes: self.writes.union(other.writes),
            contract_calls: self.contract_calls.union(other.contract_calls),
        }
    }

    /// Every read, write and call of the others is one of these.
    pub open spec fn includes(self, other: EffectsV) -> bool {
        &&& other.reads.subset_of(self.reads)
        &&& other.writes.subset_of(self.writes)
        &&& other.contract_calls.subset_of(self.contract_calls)
    }

    /// Nothing is read, written or called.
    pub open spec fn silent(self) -> bool {
        &&& self.reads == Set::<TargetV>::empty()
        &&& self.writes == Set::<TargetV>::empty()
        &&& self.contract_calls == Set::<CallV>::empty()
    }

    /// The same effects, with the purity that they deserve.
    pub open spec fn judged(self) -> EffectsV {
        EffectsV {
            purity: if self.silent() {
                Purity::Pure
            } else {
                Purity::Impure
            },
            ..self
        }
    }

    /// These effects and a read.
    pub open spec fn reading(self, t: TargetV) -> EffectsV {
        EffectsV { reads: self.reads.insert(t), ..self }
    }

    /// These effects and a write.
    pub open spec fn writing(self, t: TargetV) -> EffectsV {
        EffectsV { writes: self.writes.insert(t), ..self }
    }

    /// These effects and a call.
    pub open spec fn calling(self, c: CallV) -> EffectsV {
        EffectsV { contract_calls: self.contract_calls.insert(c), ..self }
    }
}

impl Default for FunctionEffects {
    fn default() -> (r: Self)
        ensures
            r@ == EffectsV::none(),
    {
        FunctionEffects {
            purity: Purity::Pure,
            reads: OrderedSet::new(),
            writes: OrderedSet::new(),
            contract_calls: OrderedSet::new(),
        }
    }
}

impl Data for FunctionEffects {
    fn duplicate(&self) -> (r: Self) {
        FunctionEffects {
            purity: self.purity,
            reads: self.reads.duplicate(),
            writes: self.writes.duplicate(),
            contract_calls: self.contract_calls.duplicate(),
        }
    }

    fn same(&self, other: &Self) -> (b: bool) {
        let b = self.purity == other.purity && self.reads.same(&other.reads) && self.writes.same(
            &other.writes,
        ) && self.contract_calls.same(&other.contract_calls);
        b
    }
}

/// The principal that a reference inside a called function stands for in the
/// calling function.
///
/// An argument stands for what the call passes, the contract caller for the
/// contract that makes the call, and the current contract for the called one.
pub open spec fn principal_at_call(
    p: PrincipalRefV,
    call: CallV,
    callee: ContractIdV,
) -> PrincipalRefV {
    match p {
        PrincipalRefV::Argument(i) => if i < call.arg_principals.len() {
            call.arg_principals[i as int]
        } else {
            PrincipalRefV::Any
        },
        PrincipalRefV::ContractCaller => match call.caller {
            Some(id) => PrincipalRefV::Literal(PrincipalV::Contract(id)),
            None => PrincipalRefV::Any,
        },
        PrincipalRefV::CurrentContract => PrincipalRefV::Literal(PrincipalV::Contract(callee)),
        other => other,
    }
}

/// The contract that a reference inside a called function stands for in the
/// calling function.
pub open spec fn contract_at_call(r: ContractRefV, call: CallV) -> ContractRefV {
    match r {
        ContractRefV::Argument(i) => if i < call.arg_principals.len() {
            match call.arg_principals[i as int] {
                PrincipalRefV::Literal(PrincipalV::Contract(id)) => ContractRefV::Literal(id),
                PrincipalRefV::Argument(j) => ContractRefV::Argument(j),
                _ => ContractRefV::Any,
            }
        } else {
            ContractRefV::Any
        },
        other => other,
    }
}

/// A target of a called function as the calling function sees it.
pub open spec fn target_at_call(t: TargetV, call: CallV, callee: ContractIdV) -> TargetV {
    match t {
        TargetV::AssetOwnership(access) => TargetV::AssetOwnership(
            OwnershipAccessV {
                asset: access.asset,
                principal: principal_at_call(access.principal, call, callee),
            },
        ),
        TargetV::AccountNonce(access) => TargetV::AccountNonce(
            NonceAccessV { principal: principal_at_call(access.principal, call, callee) },
        ),
        other => other,
    }
}

/// A call made by a called function as the calling function sees it.
pub open spec fn call_at_call(c: CallV, call: CallV, callee: ContractIdV) -> CallV {
    CallV {
        contract: contract_at_call(c.contract, call),
        function: c.function,
        arg_principals: c.arg_principals.map_values(
            |p: PrincipalRefV| principal_at_call(p, call, callee),
        ),
        caller: c.caller,
    }
}

/// The contract that is called, where it can be told.
pub open spec fn called_contract(
    r: ContractRefV,
    arg_contracts: Seq<Option<ContractIdV>>,
) -> Option<ContractIdV> {
    match r {
        ContractRefV::Any => None,
        ContractRefV::Literal(id) => Some(id),
        ContractRefV::Argument(i) => if i < arg_contracts.len() {
            arg_contracts[i as int]
        } else {
            None
        },
    }
}

/// The effects that stand in place of a call: those of the called function
/// where it is known, and the call itself where it is not.
pub open spec fn effects_of_call(
    call: CallV,
    arg_contracts: Seq<Option<ContractIdV>>,
    contracts: ContractsV,
) -> EffectsV {
    match called_contract(call.contract, arg_contracts) {
        Some(id) if contracts.contains_key(id) && contracts[id].contains_key(call.function) => {
            let callee = contracts[id][call.function];
            EffectsV {
                purity: Purity::Impure,
                reads: callee.reads.map(|t: TargetV| target_at_call(t, call, id)),
                writes: callee.writes.map(|t: TargetV| target_at_call(t, call, id)),
                contract_calls: callee.contract_calls.map(|c: CallV| call_at_call(c, call, id)),
            }
        },
        _ => EffectsV::none().calling(call),
    }
}

/// The effects with each call replaced by what stands in its place.
pub open spec fn resolve_step(
    fx: EffectsV,
    arg_contracts: Seq<Option<ContractIdV>>,
    contracts: ContractsV,
) -> EffectsV {
    EffectsV {
        purity: fx.purity,
        reads: Set::new(
            |t: TargetV|
                fx.reads.contains(t) || exists|c: CallV| #[trigger]
                    fx.contract_calls.contains(c) && effects_of_call(
                        c,
                        arg_contracts,
                        contracts,
                    ).reads.contains(t),
        ),
        writes: Set::new(
            |t: TargetV|
                fx.writes.contains(t) || exists|c: CallV| #[trigger]
                    fx.contract_calls.contains(c) && effects_of_call(
                        c,
                        arg_contracts,
                        contracts,
                    ).writes.contains(t),
        ),
        contract_calls: Set::new(
            |d: CallV|
                exists|c: CallV| #[trigger]
                    fx.contract_calls.contains(c) && effects_of_call(
                        c,
                        arg_contracts,
                        contracts,
                    ).contract_calls.contains(d),
        ),
    }
}

/// The optional contracts that a list of arguments names.
pub open spec fn contract_args(v: Seq<Option<QualifiedContractIdentifier>>) -> Seq<
    Option<ContractIdV>,
> {
    Seq::new(v.len(), |i: int| option_view(v[i]))
}

fn principal_in_call(
    p: &PrincipalReference,
    call: &ContractCall,
    callee: &QualifiedContractIdentifier,
) -> (r: PrincipalReference)
    ensures
        r@ == principal_at_call(p@, call@, callee@),
{
    match p {
        PrincipalReference::Argument(i) => {
            let i: u32 = *i;
            if (i as usize) < call.arg_principals.len() {
                call.arg_principals[i as usize].duplicate()
            } else {
                PrincipalReference::Any
            }
        },
        PrincipalReference::ContractCaller => match &call.caller {
            Some(id) => PrincipalReference::Literal(PrincipalData::Contract(id.duplicate())),
            None => PrincipalReference::Any,
        },
        PrincipalReference::CurrentContract => PrincipalReference::Literal(
            PrincipalData::Contract(callee.duplicate()),
        ),
        other => other.duplicate(),
    }
}

fn contract_in_call(r: &ContractReference, call: &ContractCall) -> (q: ContractReference)
    ensures
        q@ == contract_at_call(r@, call@),
{
    match r {
        ContractReference::Argument(i) => {
            let i: u32 = *i;
            if (i as usize) < call.arg_principals.len() {
                match &call.arg_principals[i as usize] {
                    PrincipalReference::Literal(PrincipalData::Contract(id)) => {
                        ContractReference::Literal(id.duplicate())
                    },
                    PrincipalReference::Argument(j) => ContractReference::Argument(*j),
                    _ => ContractReference::Any,
                }
            } else {
                ContractReference::Any
            }
        },
        other => other.duplicate(),
    }
}

fn target_in_call(
    t: &EffectTarget,
    call: &ContractCall,
    callee: &QualifiedContractIdentifier,
) -> (r: EffectTarget)
    ensures
        r@ == target_at_call(t@, call@, callee@),
{
    match t {
        EffectTarget::AssetOwnership(access) => EffectTarget::AssetOwnership(
            AssetOwnershipAccess {
                asset: access.asset.duplicate(),
                principal: principal_in_call(&access.principal, call, callee),
            },
        ),
        EffectTarget::AccountNonce(access) => EffectTarget::AccountNonce(
            AccountNonceAccess { principal: principal_in_call(&access.principal, call, callee) },
        ),
        other => other.duplicate(),
    }
}

fn call_in_call(
    c: &ContractCall,
    call: &ContractCall,
    callee: &QualifiedContractIdentifier,
) -> (r: ContractCall)
    ensures
        r@ == call_at_call(c@, call@, callee@),
{
    let mut arg_principals: Vec<PrincipalReference> = Vec::new();
    let mut i: usize = 0;
    while i < c.arg_principals.len()
        invariant
            i <= c.arg_principals.len(),
            arg_principals.len() == i,
            forall|j: int|
                0 <= j < i ==> (#[trigger] arg_principals[j])@ == principal_at_call(
                    c.arg_principals[j]@,
                    call@,
                    callee@,
                ),
        decreases c.arg_principals.len() - i,
    {
        arg_principals.push(principal_in_call(&c.arg_principals[i], call, callee));
        i = i + 1;
    }
    let caller: Option<QualifiedContractIdentifier> = match &c.caller {
        Some(id) => Some(id.duplicate()),
        None => None,
    };
    let r = ContractCall {
        contract: contract_in_call(&c.contract, call),
        function: c.function.duplicate(),
        arg_principals,
        caller,
    };
    assert(r@.arg_principals =~= call_at_call(c@, call@, callee@).arg_principals);
    r
}

/// Adds to a set the targets of a called function, as the calling function sees
/// them.
fn absorb_targets(
    out: &mut OrderedSet<EffectTarget>,
    from: &OrderedSet<EffectTarget>,
    call: &ContractCall,
    callee: &QualifiedContractIdentifier,
)
    ensures
        final(out)@ == old(out)@.union(
            from@.map(|t: TargetV| target_at_call(t, call@, callee@)),
        ),
{
    let n = from.len();
    let ghost f = |t: TargetV| target_at_call(t, call@, callee@);
    let ghost all = from.in_order();
    let ghost before = out@;
    let mut i: usize = 0;
    assert(all.take(0).to_set().map(f) =~= Set::empty());
    assert(out@ =~= before.union(all.take(0).to_set().map(f)));
    while i < n
        invariant
            i <= n,
            n == all.len(),
            all == from.in_order(),
            f == (|t: TargetV| target_at_call(t, call@, callee@)),
            out@ == before.union(all.take(i as int).to_set().map(f)),
        decreases n - i,
    {
        out.insert(target_in_call(from.get(i), call, callee));
        proof {
            lemma_map_next(all, i as int, f);
            assert(out@ =~= before.union(all.take(i + 1).to_set().map(f)));
        }
        i = i + 1;
    }
    assert(all.take(n as int) =~= all);
}

/// Adds to a set the calls of a called function, as the calling function sees
/// them.
fn absorb_calls(
    out: &mut OrderedSet<ContractCall>,
    from: &OrderedSet<ContractCall>,
    call: &ContractCall,
    callee: &QualifiedContractIdentifier,
)
    ensures
        final(out)@ == old(out)@.union(from@.map(|c: CallV| call_at_call(c, call@, callee@))),
{
    let n = from.len();
    let ghost f = |c: CallV| call_at_call(c, call@, callee@);
    let ghost all = from.in_order();
    let ghost before = out@;
    let mut i: usize = 0;
    assert(all.take(0).to_set().map(f) =~= Set::empty());
    assert(out@ =~= before.union(all.take(0).to_set().map(f)));
    while i < n
        invariant
            i <= n,
            n == all.len(),
            all == from.in_order(),
            f == (|c: CallV| call_at_call(c, call@, callee@)),
            out@ == before.union(all.take(i as int).to_set().map(f)),
        decreases n - i,
    {
        out.insert(call_in_call(from.get(i), call, callee));
        proof {
            lemma_map_next(all, i as int, f);
            assert(out@ =~= before.union(all.take(i + 1).to_set().map(f)));
        }
        i = i + 1;
    }
    assert(all.take(n as int) =~= all);
}

/// One more element of a listing maps to one more element of the image.
pub proof fn lemma_map_next<A, B>(all: Seq<A>, i: int, f: spec_fn(A) -> B)
    requires
        0 <= i < all.len(),
    ensures
        all.take(i + 1).to_set() == all.take(i).to_set().insert(all[i]),
        all.take(i + 1).to_set().map(f) == all.take(i).to_set().map(f).insert(f(all[i])),
{
    assert(all.take(i + 1) =~= all.take(i).push(all[i]));
    let s = all.take(i).to_set();
    let t = all.take(i + 1).to_set();
    assert forall|y: A| t.contains(y) == s.insert(all[i]).contains(y) by {
        lemma_push_members(all.take(i), all[i], y);
    }
    assert(t =~= s.insert(all[i]));
    assert forall|b: B| t.map(f).contains(b) == s.map(f).insert(f(all[i])).contains(b) by {
        if s.map(f).contains(b) {
            let a = choose|a: A| s.contains(a) && b == f(a);
            assert(t.contains(a));
        }
        if b == f(all[i]) {
            assert(t.contains(all[i]));
        }
    }
    assert(t.map(f) =~= s.map(f).insert(f(all[i])));
}

/// The effects that stand in place of several calls.
pub open spec fn effects_of_calls(
    calls: Seq<CallV>,
    arg_contracts: Seq<Option<ContractIdV>>,
    contracts: ContractsV,
) -> EffectsV
    decreases calls.len(),
{
    if calls.len() == 0 {
        EffectsV::none()
    } else {
        effects_of_calls(calls.drop_last(), arg_contracts, contracts).plus(
            effects_of_call(calls.last(), arg_contracts, contracts),
        )
    }
}

proof fn lemma_effects_of_calls(
    calls: Seq<CallV>,
    arg_contracts: Seq<Option<ContractIdV>>,
    contracts: ContractsV,
)
    ensures
        forall|t: TargetV|
            effects_of_calls(calls, arg_contracts, contracts).reads.contains(t) <==> exists|c: CallV|
                #[trigger] calls.contains(c) && effects_of_call(
                    c,
                    arg_contracts,
                    contracts,
                ).reads.contains(t),
        forall|t: TargetV|
            effects_of_calls(calls, arg_contracts, contracts).writes.contains(t) <==> exists|c: CallV|
                #[trigger] calls.contains(c) && effects_of_call(
                    c,
                    arg_contracts,
                    contracts,
                ).writes.contains(t),
        forall|d: CallV|
            effects_of_calls(calls, arg_contracts, contracts).contract_calls.contains(d)
                <==> exists|c: CallV| #[trigger]
                calls.contains(c) && effects_of_call(
                    c,
                    arg_contracts,
                    contracts,
                ).contract_calls.contains(d),
    decreases calls.len(),
{
    if calls.len() > 0 {
        let rest = calls.drop_last();
        let last = calls.last();
        lemma_effects_of_calls(rest, arg_contracts, contracts);
        assert(calls =~= rest.push(last));
        assert forall|c: CallV| #[trigger] calls.contains(c) == (rest.contains(c) || c == last) by {
            lemma_push_members(rest, last, c);
        }
        assert(calls.contains(last));
        let whole = effects_of_calls(calls, arg_contracts, contracts);
        let part = effects_of_calls(rest, arg_contracts, contracts);
        assert forall|t: TargetV| whole.reads.contains(t) implies exists|c: CallV| #[trigger]
            calls.contains(c) && effects_of_call(
                c,
                arg_contracts,
                contracts,
            ).reads.contains(t) by {
            if part.reads.contains(t) {
                let c = choose|c: CallV| #[trigger]
                    rest.contains(c) && effects_of_call(
                        c,
                        arg_contracts,
                        contracts,
                    ).reads.contains(t);
                assert(calls.contains(c));
            }
        }
        assert forall|t: TargetV| whole.writes.contains(t) implies exists|c: CallV| #[trigger]
            calls.contains(c) && effects_of_call(
                c,
                arg_contracts,
                contracts,
            ).writes.contains(t) by {
            if part.writes.contains(t) {
                let c = choose|c: CallV| #[trigger]
                    rest.contains(c) && effects_of_call(
                        c,
                        arg_contracts,
                        contracts,
                    ).writes.contains(t);
                assert(calls.contains(c));
            }
        }
        assert forall|d: CallV| whole.contract_calls.contains(d) implies exists|c: CallV|
            #[trigger] calls.contains(c) && effects_of_call(
                c,
                arg_contracts,
                contracts,
            ).contract_calls.contains(d) by {
            if part.contract_calls.contains(d) {
                let c = choose|c: CallV| #[trigger]
                    rest.contains(c) && effects_of_call(
                        c,
                        arg_contracts,
                        contracts,
                    ).contract_calls.contains(d);
                assert(calls.contains(c));
            }
        }
    }
}

/// The contract that a call names, where it can be told.
fn contract_called(
    r: &ContractReference,
    arg_contracts: &[Option<QualifiedContractIdentifier>],
) -> (id: Option<QualifiedContractIdentifier>)
    ensures
        option_view(id) == called_contract(r@, contract_args(arg_contracts@)),
{
    match r {
        ContractReference::Any => None,
        ContractReference::Literal(id) => Some(id.duplicate()),
        ContractReference::Argument(i) => {
            let i: u32 = *i;
            if (i as usize) < arg_contracts.len() {
                match &arg_contracts[i as usize] {
                    Some(id) => Some(id.duplicate()),
                    None => None,
                }
            } else {
                None
            }
        },
    }
}

impl FunctionEffects {
    /// Replaces each call whose contract and function are known by the effects
    /// of the called function, seen from here.
    pub fn resolve_contract_calls(
        &self,
        arg_contracts: &[Option<QualifiedContractIdentifier>],
        contracts: &Contracts,
    ) -> (r: FunctionEffects)
        ensures
            r@ == resolve_step(self@, contract_args(arg_contracts@), contracts@),
    {
        let ghost args = contract_args(arg_contracts@);
        let mut r = FunctionEffects {
            purity: self.purity,
            reads: self.reads.duplicate(),
            writes: self.writes.duplicate(),
            contract_calls: OrderedSet::new(),
        };
        let n = self.contract_calls.len();
        let ghost all = self.contract_calls.in_order();
        let ghost start = r@;
        let mut i: usize = 0;
        assert(r@ =~= start.plus(effects_of_calls(all.take(0), args, contracts@)));
        while i < n
            invariant
                i <= n,
                n == all.len(),
                all == self.contract_calls.in_order(),
                args == contract_args(arg_contracts@),
                r@ == start.plus(effects_of_calls(all.take(i as int), args, contracts@)),
            decreases n - i,
        {
            let call = self.contract_calls.get(i);
            let ghost before = r@;
            let mut known = false;
            if let Some(id) = contract_called(&call.contract, arg_contracts) {
                if let Some(functions) = contracts.get(&id) {
                    if let Some(callee) = functions.get(&call.function) {
                        known = true;
                        absorb_targets(&mut r.reads, &callee.reads, call, &id);
                        absorb_targets(&mut r.writes, &callee.writes, call, &id);
                        absorb_calls(&mut r.contract_calls, &callee.contract_calls, call, &id);
                    }
                }
            }
            if !known {
                r.contract_calls.insert(call.duplicate());
            }
            proof {
                assert(r@ =~= before.plus(effects_of_call(all[i as int], args, contracts@)));
                let next = all.take(i + 1);
                assert(next.drop_last() =~= all.take(i as int));
                assert(r@ =~= start.plus(effects_of_calls(next, args, contracts@)));
            }
            i = i + 1;
        }
        proof {
            assert(all.take(n as int) =~= all);
            lemma_effects_of_calls(all, args, contracts@);
            let goal = resolve_step(self@, args, contracts@);
            assert forall|c: CallV| self@.contract_calls.contains(c) == #[trigger] all.contains(
                c,
            ) by {}
            assert(r@.reads =~= goal.reads);
            assert(r@.writes =~= goal.writes);
            assert(r@.contract_calls =~= goal.contract_calls);
        }
        r
    }
}

/// Replacing calls takes away no read and no write, and leaves the purity as it
/// is.
pub proof fn law_replacing_keeps(
    fx: EffectsV,
    arg_contracts: Seq<Option<ContractIdV>>,
    contracts: ContractsV,
)
    ensures
        fx.reads.subset_of(resolve_step(fx, arg_contracts, contracts).reads),
        fx.writes.subset_of(resolve_step(fx, arg_contracts, contracts).writes),
        resolve_step(fx, arg_contracts, contracts).purity == fx.purity,
{
}

/// A call of a function that is known is replaced: every read and write of the
/// called function is there, as the caller sees it, and so is every call.
pub proof fn law_known_calls_are_replaced(
    fx: EffectsV,
    arg_contracts: Seq<Option<ContractIdV>>,
    contracts: ContractsV,
    call: CallV,
    id: ContractIdV,
)
    requires
        fx.contract_calls.contains(call),
        called_contract(call.contract, arg_contracts) == Some(id),
        contracts.contains_key(id),
        contracts[id].contains_key(call.function),
    ensures
        ({
            let callee = contracts[id][call.function];
            let after = resolve_step(fx, arg_contracts, contracts);
            &&& forall|t: TargetV| #[trigger]
                callee.reads.contains(t) ==> after.reads.contains(target_at_call(t, call, id))
            &&& forall|t: TargetV| #[trigger]
                callee.writes.contains(t) ==> after.writes.contains(target_at_call(t, call, id))
            &&& forall|c: CallV| #[trigger]
                callee.contract_calls.contains(c) ==> after.contract_calls.contains(
                    call_at_call(c, call, id),
                )
        }),
{
    let callee = contracts[id][call.function];
    let after = resolve_step(fx, arg_contracts, contracts);
    let in_place = effects_of_call(call, arg_contracts, contracts);
    assert forall|t: TargetV| #[trigger] callee.reads.contains(t) implies after.reads.contains(
        target_at_call(t, call, id),
    ) by {
        assert(in_place.reads.contains(target_at_call(t, call, id)));
    }
    assert forall|t: TargetV| #[trigger] callee.writes.contains(t) implies after.writes.contains(
        target_at_call(t, call, id),
    ) by {
        assert(in_place.writes.contains(target_at_call(t, call, id)));
    }
    assert forall|c: CallV| #[trigger]
        callee.contract_calls.contains(c) implies after.contract_calls.contains(
        call_at_call(c, call, id),
    ) by {
        assert(in_place.contract_calls.contains(call_at_call(c, call, id)));
    }
}

/// A call of a function that is not known stays.
pub proof fn law_unknown_calls_stay(
    fx: EffectsV,
    arg_contracts: Seq<Option<ContractIdV>>,
    contracts: ContractsV,
    call: CallV,
)
    requires
        fx.contract_calls.contains(call),
        match called_contract(call.contract, arg_contracts) {
            Some(id) => !contracts.contains_key(id) || !contracts[id].contains_key(call.function),
            None => true,
        },
    ensures
        resolve_step(fx, arg_contracts, contracts).contract_calls.contains(call),
{
    assert(effects_of_call(call, arg_contracts, contracts).contract_calls.contains(call));
}

/// Effects without calls stay as they are.
pub proof fn law_nothing_to_replace(
    fx: EffectsV,
    arg_contracts: Seq<Option<ContractIdV>>,
    contracts: ContractsV,
)
    requires
        fx.contract_calls == Set::<CallV>::empty(),
    ensures
        resolve_step(fx, arg_contracts, contracts) == fx,
{
    assert(resolve_step(fx, arg_contracts, contracts) =~= fx);
}

} // verus!
