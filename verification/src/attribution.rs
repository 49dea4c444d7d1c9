//! What a called function does, as the calling function sees it.

use vstd::prelude::*;

use crate::effects::{
    call_at_call, called_contract, effects_of_call, resolve_step, target_at_call, ContractsV,
    EffectsV,
};
use crate::types::{CallV, ContractIdV, ContractRefV, PrincipalRefV, PrincipalV, TargetV};

verus! {

/// A call is one of a function that is known: of a contract that the call names, or
/// that is passed in the place that the call names.
pub open spec fn known_as(
    call: CallV,
    arg_contracts: Seq<Option<ContractIdV>>,
    contracts: ContractsV,
    id: ContractIdV,
) -> bool {
    &&& {
        ||| call.contract == ContractRefV::Literal(id)
        ||| call.contract matches ContractRefV::Argument(k) && k < arg_contracts.len()
            && arg_contracts[k as int] == Some(id)
    }
    &&& contracts.contains_key(id)
    &&& contracts[id].contains_key(call.function)
}

/// Whom a principal of a called function is in the calling function: an argument is
/// what the call passes in its place, or may be anyone where it passes none; the
/// caller is the contract that makes the call; the contract itself is the called
/// one; all others are who they are.
pub open spec fn stands_for(
    inside: PrincipalRefV,
    outside: PrincipalRefV,
    call: CallV,
    callee: ContractIdV,
) -> bool {
    match inside {
        PrincipalRefV::Argument(k) => {
            &&& k < call.arg_principals.len() ==> outside == call.arg_principals[k as int]
            &&& k >= call.arg_principals.len() ==> outside == PrincipalRefV::Any
        },
        PrincipalRefV::ContractCaller => {
            &&& call.caller matches Some(id) ==> outside == PrincipalRefV::Literal(
                PrincipalV::Contract(id),
            )
            &&& call.caller is None ==> outside == PrincipalRefV::Any
        },
        PrincipalRefV::CurrentContract => outside == PrincipalRefV::Literal(
            PrincipalV::Contract(callee),
        ),
        PrincipalRefV::TxSender => outside == PrincipalRefV::TxSender,
        PrincipalRefV::Any => outside == PrincipalRefV::Any,
        PrincipalRefV::Literal(p) => outside == PrincipalRefV::Literal(p),
    }
}

/// What a target of a called function is in the calling function: the same, of the
/// principal that the one inside stands for.
pub open spec fn seen_as(
    inside: TargetV,
    outside: TargetV,
    call: CallV,
    callee: ContractIdV,
) -> bool {
    match (inside, outside) {
        (TargetV::AssetOwnership(a), TargetV::AssetOwnership(b)) => a.asset == b.asset
            && stands_for(a.principal, b.principal, call, callee),
        (TargetV::AccountNonce(a), TargetV::AccountNonce(b)) => stands_for(
            a.principal,
            b.principal,
            call,
            callee,
        ),
        (TargetV::Contract(a), TargetV::Contract(b)) => a == b,
        (TargetV::ChainState(a), TargetV::ChainState(b)) => a == b,
        _ => false,
    }
}

/// What a call that a called function makes is in the calling function: the same
/// call, made by the same contract, with the principals that those inside stand for,
/// place by place; of a contract that is passed where the one inside is.
pub open spec fn call_seen_as(
    inside: CallV,
    outside: CallV,
    call: CallV,
    callee: ContractIdV,
) -> bool {
    &&& outside.function == inside.function
    &&& outside.caller == inside.caller
    &&& outside.arg_principals.len() == inside.arg_principals.len()
    &&& forall|k: int|
        0 <= k < inside.arg_principals.len() ==> stands_for(
            #[trigger] inside.arg_principals[k],
            outside.arg_principals[k],
            call,
            callee,
        )
    &&& match inside.contract {
        ContractRefV::Argument(k) => {
            let passed = call.arg_principals[k as int];
            if k >= call.arg_principals.len() {
                outside.contract == ContractRefV::Any
            } else if passed is Argument {
                outside.contract == ContractRefV::Argument(passed->Argument_0)
            } else if passed is Literal && passed->Literal_0 is Contract {
                outside.contract == ContractRefV::Literal(passed->Literal_0->Contract_0)
            } else {
                outside.contract == ContractRefV::Any
            }
        },
        ContractRefV::Literal(id) => outside.contract == ContractRefV::Literal(id),
        ContractRefV::Any => outside.contract == ContractRefV::Any,
    }
}

proof fn lemma_known_as(
    call: CallV,
    arg_contracts: Seq<Option<ContractIdV>>,
    contracts: ContractsV,
    id: ContractIdV,
)
    ensures
        known_as(call, arg_contracts, contracts, id) <==> called_contract(
            call.contract,
            arg_contracts,
        ) == Some(id) && contracts.contains_key(id) && contracts[id].contains_key(call.function),
{
}

proof fn lemma_seen_as(inside: TargetV, outside: TargetV, call: CallV, callee: ContractIdV)
    ensures
        seen_as(inside, outside, call, callee) <==> outside == target_at_call(inside, call, callee),
{
}

proof fn lemma_call_seen_as(inside: CallV, outside: CallV, call: CallV, callee: ContractIdV)
    ensures
        call_seen_as(inside, outside, call, callee) <==> outside == call_at_call(
            inside,
            call,
            callee,
        ),
{
    let image = call_at_call(inside, call, callee);
    if call_seen_as(inside, outside, call, callee) {
        assert forall|k: int| 0 <= k < inside.arg_principals.len() implies outside.arg_principals[k]
            == image.arg_principals[k] by {
            assert(stands_for(
                inside.arg_principals[k],
                outside.arg_principals[k],
                call,
                callee,
            ));
        }
        assert(outside.arg_principals =~= image.arg_principals);
    }
    assert(call_seen_as(inside, image, call, callee));
}

/// A target of a function that is called is seen here.
pub open spec fn callee_accesses(
    fx: EffectsV,
    arg_contracts: Seq<Option<ContractIdV>>,
    contracts: ContractsV,
    writing: bool,
    u: TargetV,
) -> bool {
    exists|call: CallV, id: ContractIdV, t: TargetV|
        #![trigger known_as(call, arg_contracts, contracts, id), seen_as(t, u, call, id)]
        {
            &&& fx.contract_calls.contains(call)
            &&& known_as(call, arg_contracts, contracts, id)
            &&& if writing {
                contracts[id][call.function].writes.contains(t)
            } else {
                contracts[id][call.function].reads.contains(t)
            }
            &&& seen_as(t, u, call, id)
        }
}

/// Once calls are replaced, exactly that is read and written that was before, and
/// what the called functions that are known read and write, as the caller sees it.
pub proof fn law_callees_are_attributed(
    fx: EffectsV,
    arg_contracts: Seq<Option<ContractIdV>>,
    contracts: ContractsV,
    u: TargetV,
)
    ensures
        resolve_step(fx, arg_contracts, contracts).reads.contains(u) <==> fx.reads.contains(u)
            || callee_accesses(fx, arg_contracts, contracts, false, u),
        resolve_step(fx, arg_contracts, contracts).writes.contains(u) <==> fx.writes.contains(u)
            || callee_accesses(fx, arg_contracts, contracts, true, u),
        resolve_step(fx, arg_contracts, contracts).purity == fx.purity,
{
    lemma_callee_accesses(fx, arg_contracts, contracts, false, u);
    lemma_callee_accesses(fx, arg_contracts, contracts, true, u);
}

proof fn lemma_callee_accesses(
    fx: EffectsV,
    arg_contracts: Seq<Option<ContractIdV>>,
    contracts: ContractsV,
    writing: bool,
    u: TargetV,
)
    ensures
        callee_accesses(fx, arg_contracts, contracts, writing, u) <==> exists|c: CallV| #[trigger]
            fx.contract_calls.contains(c) && (if writing {
                effects_of_call(c, arg_contracts, contracts).writes.contains(u)
            } else {
                effects_of_call(c, arg_contracts, contracts).reads.contains(u)
            }),
{
    if callee_accesses(fx, arg_contracts, contracts, writing, u) {
        let (call, id, t) = choose|call: CallV, id: ContractIdV, t: TargetV|
            #![trigger known_as(call, arg_contracts, contracts, id), seen_as(t, u, call, id)]
            {
                &&& fx.contract_calls.contains(call)
                &&& known_as(call, arg_contracts, contracts, id)
                &&& if writing {
                    contracts[id][call.function].writes.contains(t)
                } else {
                    contracts[id][call.function].reads.contains(t)
                }
                &&& seen_as(t, u, call, id)
            };
        lemma_known_as(call, arg_contracts, contracts, id);
        lemma_seen_as(t, u, call, id);
        let in_place = effects_of_call(call, arg_contracts, contracts);
        if writing {
            assert(in_place.writes.contains(u));
        } else {
            assert(in_place.reads.contains(u));
        }
        assert(fx.contract_calls.contains(call));
    }
    if exists|c: CallV| #[trigger]
        fx.contract_calls.contains(c) && (if writing {
            effects_of_call(c, arg_contracts, contracts).writes.contains(u)
        } else {
            effects_of_call(c, arg_contracts, contracts).reads.contains(u)
        }) {
        let c = choose|c: CallV| #[trigger]
            fx.contract_calls.contains(c) && (if writing {
                effects_of_call(c, arg_contracts, contracts).writes.contains(u)
            } else {
                effects_of_call(c, arg_contracts, contracts).reads.contains(u)
            });
        let id = called_contract(c.contract, arg_contracts)->0;
        lemma_known_as(c, arg_contracts, contracts, id);
        let callee = contracts[id][c.function];
        let t = if writing {
            choose|t: TargetV| callee.writes.contains(t) && u == target_at_call(t, c, id)
        } else {
            choose|t: TargetV| callee.reads.contains(t) && u == target_at_call(t, c, id)
        };
        lemma_seen_as(t, u, c, id);
    }
}

/// Once calls are replaced, exactly those calls are left that are of functions that
/// are not known, and those that the called functions make, as the caller sees them.
pub proof fn law_calls_of_callees_are_passed_on(
    fx: EffectsV,
    arg_contracts: Seq<Option<ContractIdV>>,
    contracts: ContractsV,
    d: CallV,
)
    ensures
        resolve_step(fx, arg_contracts, contracts).contract_calls.contains(d) <==> {
            ||| fx.contract_calls.contains(d) && forall|id: ContractIdV|
                !known_as(d, arg_contracts, contracts, id)
            ||| exists|call: CallV, id: ContractIdV, c: CallV|
                #![trigger known_as(call, arg_contracts, contracts, id), call_seen_as(c, d, call, id)]
                {
                    &&& fx.contract_calls.contains(call)
                    &&& known_as(call, arg_contracts, contracts, id)
                    &&& contracts[id][call.function].contract_calls.contains(c)
                    &&& call_seen_as(c, d, call, id)
                }
        },
{
    let after = resolve_step(fx, arg_contracts, contracts);
    if after.contract_calls.contains(d) {
        let call = choose|call: CallV| #[trigger]
            fx.contract_calls.contains(call) && effects_of_call(
                call,
                arg_contracts,
                contracts,
            ).contract_calls.contains(d);
        let id = called_contract(call.contract, arg_contracts);
        if id is Some && contracts.contains_key(id->0) && contracts[id->0].contains_key(
            call.function,
        ) {
            let id = id->0;
            lemma_known_as(call, arg_contracts, contracts, id);
            let callee = contracts[id][call.function];
            let c = choose|c: CallV|
                callee.contract_calls.contains(c) && d == call_at_call(c, call, id);
            lemma_call_seen_as(c, d, call, id);
        } else {
            assert(d == call);
            assert forall|id: ContractIdV| !known_as(d, arg_contracts, contracts, id) by {
                lemma_known_as(d, arg_contracts, contracts, id);
            }
        }
    }
    if fx.contract_calls.contains(d) && forall|id: ContractIdV|
        !known_as(d, arg_contracts, contracts, id) {
        let id = called_contract(d.contract, arg_contracts);
        if id is Some {
            lemma_known_as(d, arg_contracts, contracts, id->0);
        }
        assert(effects_of_call(d, arg_contracts, contracts).contract_calls.contains(d));
    }
    if exists|call: CallV, id: ContractIdV, c: CallV|
        #![trigger known_as(call, arg_contracts, contracts, id), call_seen_as(c, d, call, id)]
        {
            &&& fx.contract_calls.contains(call)
            &&& known_as(call, arg_contracts, contracts, id)
            &&& contracts[id][call.function].contract_calls.contains(c)
            &&& call_seen_as(c, d, call, id)
        } {
        let (call, id, c) = choose|call: CallV, id: ContractIdV, c: CallV|
            #![trigger known_as(call, arg_contracts, contracts, id), call_seen_as(c, d, call, id)]
            {
                &&& fx.contract_calls.contains(call)
                &&& known_as(call, arg_contracts, contracts, id)
                &&& contracts[id][call.function].contract_calls.contains(c)
                &&& call_seen_as(c, d, call, id)
            };
        lemma_known_as(call, arg_contracts, contracts, id);
        lemma_call_seen_as(c, d, call, id);
        assert(effects_of_call(call, arg_contracts, contracts).contract_calls.contains(d));
    }
}

} // verus!
