//! What following calls promises: that nothing is missed that literal calls lead
//! to, and that nothing is made up.

use vstd::prelude::*;

use crate::contracts::{
    contracts_resolved, contracts_settled, functions_resolved, law_contracts_settled_rest,
    lemma_literals, lemma_onward, lemma_taken_in, literals, outstanding, resolved_across,
    resolved_onward, settled, taken_in, LookupV, StoreV, ROUND_LIMIT,
};
use crate::effects::{
    call_at_call, called_contract, effects_of_call, law_known_calls_are_replaced, principal_at_call, resolve_step,
    target_at_call, ContractsV, EffectsV,
};
use crate::ordered::{ascending, lemma_listed};
use crate::types::{
    CallV, ContractCall, ContractIdV, ContractRefV, NameV, PrincipalRefV, TargetV,
};

verus! {

/// What is written, or what is read.
pub open spec fn accesses(fx: EffectsV, writing: bool) -> Set<TargetV> {
    if writing {
        fx.writes
    } else {
        fx.reads
    }
}

/// The contracts have a function.
pub open spec fn knows(contracts: ContractsV, id: ContractIdV, f: NameV) -> bool {
    contracts.contains_key(id) && contracts[id].contains_key(f)
}

/// A call names its contract literally.
pub open spec fn names(c: CallV, id: ContractIdV) -> bool {
    c.contract == ContractRefV::Literal(id)
}

/// Effects lead to an access: it is one of theirs, or a literal call of a function
/// that is known leads to it, in at most so many calls. The access is as the first
/// caller sees it.
pub open spec fn leads_to_access(
    contracts: ContractsV,
    fx: EffectsV,
    writing: bool,
    t: TargetV,
    depth: nat,
) -> bool
    decreases depth,
{
    ||| accesses(fx, writing).contains(t)
    ||| depth > 0 && exists|c: CallV, id: ContractIdV, u: TargetV|
        #![trigger fx.contract_calls.contains(c), target_at_call(u, c, id)]
        {
            &&& fx.contract_calls.contains(c)
            &&& names(c, id)
            &&& knows(contracts, id, c.function)
            &&& t == target_at_call(u, c, id)
            &&& leads_to_access(
                contracts,
                contracts[id][c.function],
                writing,
                u,
                (depth - 1) as nat,
            )
        }
}

/// More calls lead to no less.
proof fn lemma_deeper(
    contracts: ContractsV,
    fx: EffectsV,
    writing: bool,
    t: TargetV,
    depth: nat,
)
    requires
        leads_to_access(contracts, fx, writing, t, depth),
    ensures
        leads_to_access(contracts, fx, writing, t, depth + 1),
    decreases depth,
{
    if !accesses(fx, writing).contains(t) {
        let (c, id, u) = choose|c: CallV, id: ContractIdV, u: TargetV|
            #![trigger fx.contract_calls.contains(c), target_at_call(u, c, id)]
            {
                &&& fx.contract_calls.contains(c)
                &&& names(c, id)
                &&& knows(contracts, id, c.function)
                &&& t == target_at_call(u, c, id)
                &&& leads_to_access(
                    contracts,
                    contracts[id][c.function],
                    writing,
                    u,
                    (depth - 1) as nat,
                )
            };
        lemma_deeper(contracts, contracts[id][c.function], writing, u, (depth - 1) as nat);
        assert(fx.contract_calls.contains(c) && t == target_at_call(u, c, id));
    }
}

/// What the first caller sees through two calls does not depend on which of them
/// is looked through first.
proof fn lemma_seen_through(
    v: TargetV,
    inner: CallV,
    callee: ContractIdV,
    outer: CallV,
    between: ContractIdV,
)
    ensures
        target_at_call(target_at_call(v, inner, callee), outer, between) == target_at_call(
            v,
            call_at_call(inner, outer, between),
            callee,
        ),
{
    let both = call_at_call(inner, outer, between);
    assert forall|p: PrincipalRefV| #[trigger]
        principal_at_call(principal_at_call(p, inner, callee), outer, between)
            == principal_at_call(p, both, callee) by {
        if let PrincipalRefV::Argument(i) = p {
            if i < inner.arg_principals.len() {
                assert(both.arg_principals[i as int] == principal_at_call(
                    inner.arg_principals[i as int],
                    outer,
                    between,
                ));
            }
        }
    }
}

/// Replacing calls brings what effects lead to one call nearer, where the
/// functions that are known access at least what they did.
proof fn lemma_nearer(
    contracts: ContractsV,
    after: ContractsV,
    fx: EffectsV,
    arg_contracts: Seq<Option<ContractIdV>>,
    writing: bool,
    t: TargetV,
    depth: nat,
)
    requires
        after == contracts || after == contracts_resolved(contracts),
        leads_to_access(contracts, fx, writing, t, depth + 1),
    ensures
        leads_to_access(
            after,
            resolve_step(fx, arg_contracts, contracts),
            writing,
            t,
            depth,
        ),
    decreases depth,
{
    let next = resolve_step(fx, arg_contracts, contracts);
    if accesses(fx, writing).contains(t) {
        assert(accesses(next, writing).contains(t));
    } else {
        let (c, id, u) = choose|c: CallV, id: ContractIdV, u: TargetV|
            #![trigger fx.contract_calls.contains(c), target_at_call(u, c, id)]
            {
                &&& fx.contract_calls.contains(c)
                &&& names(c, id)
                &&& knows(contracts, id, c.function)
                &&& t == target_at_call(u, c, id)
                &&& leads_to_access(contracts, contracts[id][c.function], writing, u, depth)
            };
        let callee = contracts[id][c.function];
        law_known_calls_are_replaced(fx, arg_contracts, contracts, c, id);
        if accesses(callee, writing).contains(u) {
            assert(accesses(next, writing).contains(t));
        } else {
            let (e, h, v) = choose|e: CallV, h: ContractIdV, v: TargetV|
                #![trigger callee.contract_calls.contains(e), target_at_call(v, e, h)]
                {
                    &&& callee.contract_calls.contains(e)
                    &&& names(e, h)
                    &&& knows(contracts, h, e.function)
                    &&& u == target_at_call(v, e, h)
                    &&& leads_to_access(
                        contracts,
                        contracts[h][e.function],
                        writing,
                        v,
                        (depth - 1) as nat,
                    )
                };
            let direct = call_at_call(e, c, id);
            lemma_seen_through(v, e, h, c, id);
            assert(next.contract_calls.contains(direct));
            assert(names(direct, h));
            let inner = contracts[h][e.function];
            if after != contracts {
                assert(after.contains_key(h));
                assert(after[h] == functions_resolved(contracts[h], contracts));
                assert(after[h].contains_key(e.function));
                assert(after[h][e.function] == resolve_step(inner, seq![], contracts));
                if depth == 1 {
                    assert(accesses(inner, writing).contains(v));
                    assert(accesses(after[h][e.function], writing).contains(v));
                } else {
                    lemma_nearer(
                        contracts,
                        after,
                        inner,
                        seq![],
                        writing,
                        v,
                        (depth - 2) as nat,
                    );
                    lemma_deeper(after, after[h][e.function], writing, v, (depth - 2) as nat);
                }
            }
            assert(knows(after, h, direct.function));
            assert(leads_to_access(
                after,
                after[h][direct.function],
                writing,
                v,
                (depth - 1) as nat,
            ));
            assert(t == target_at_call(v, direct, h));
            assert(next.contract_calls.contains(direct));
            assert(depth > 0);
        }
    }
}

/// Settled effects hold every read and write that literal calls of known functions
/// lead to, however many calls that takes.
pub proof fn law_settled_effects_follow_calls(
    fx: EffectsV,
    arg_contracts: Seq<Option<ContractIdV>>,
    contracts: ContractsV,
    rounds: nat,
    writing: bool,
    t: TargetV,
    depth: nat,
)
    requires
        leads_to_access(contracts, fx, writing, t, depth),
    ensures
        settled(fx, arg_contracts, contracts, rounds) matches Some(r) ==> accesses(
            r,
            writing,
        ).contains(t),
    decreases rounds, depth,
{
    let next = resolve_step(fx, arg_contracts, contracts);
    if next == fx {
        if depth > 0 {
            lemma_nearer(contracts, contracts, fx, arg_contracts, writing, t, (depth - 1) as nat);
            law_settled_effects_follow_calls(
                fx,
                arg_contracts,
                contracts,
                rounds,
                writing,
                t,
                (depth - 1) as nat,
            );
        }
    } else if rounds > 0 {
        lemma_deeper(contracts, fx, writing, t, depth);
        lemma_nearer(contracts, contracts, fx, arg_contracts, writing, t, depth);
        law_settled_effects_follow_calls(
            next,
            arg_contracts,
            contracts,
            (rounds - 1) as nat,
            writing,
            t,
            depth,
        );
    }
}

/// The functions of settled contracts hold every read and write that literal calls
/// of the contracts' functions lead to, however many calls that takes.
pub proof fn law_settled_contracts_follow_calls(
    contracts: ContractsV,
    rounds: nat,
    id: ContractIdV,
    f: NameV,
    writing: bool,
    t: TargetV,
    depth: nat,
)
    requires
        knows(contracts, id, f),
        leads_to_access(contracts, contracts[id][f], writing, t, depth),
    ensures
        contracts_settled(contracts, rounds) matches Some(known) ==> knows(known, id, f)
            && accesses(known[id][f], writing).contains(t),
    decreases rounds, depth,
{
    let next = contracts_resolved(contracts);
    assert(next.contains_key(id));
    assert(next[id] == functions_resolved(contracts[id], contracts));
    assert(next[id].contains_key(f));
    assert(next[id][f] == resolve_step(contracts[id][f], seq![], contracts));
    if next == contracts {
        if depth > 0 {
            lemma_nearer(
                contracts,
                next,
                contracts[id][f],
                seq![],
                writing,
                t,
                (depth - 1) as nat,
            );
            law_settled_contracts_follow_calls(
                contracts,
                rounds,
                id,
                f,
                writing,
                t,
                (depth - 1) as nat,
            );
        }
    } else if rounds > 0 {
        lemma_deeper(contracts, contracts[id][f], writing, t, depth);
        lemma_nearer(contracts, next, contracts[id][f], seq![], writing, t, depth);
        law_settled_contracts_follow_calls(
            next,
            (rounds - 1) as nat,
            id,
            f,
            writing,
            t,
            depth,
        );
    }
}

/// Two targets are the same, but for the principal whose they are.
pub open spec fn same_place(t: TargetV, u: TargetV) -> bool {
    match (t, u) {
        (TargetV::AssetOwnership(a), TargetV::AssetOwnership(b)) => a.asset == b.asset,
        (TargetV::AccountNonce(_), TargetV::AccountNonce(_)) => true,
        _ => t == u,
    }
}

/// A function of the contracts accesses a place itself.
pub open spec fn stems_from(contracts: ContractsV, writing: bool, t: TargetV) -> bool {
    exists|id: ContractIdV, f: NameV, u: TargetV|
        #![trigger knows(contracts, id, f), same_place(t, u)]
        knows(contracts, id, f) && accesses(contracts[id][f], writing).contains(u) && same_place(
            t,
            u,
        )
}

/// What replacing calls adds stems from the functions that are known.
proof fn lemma_added(
    fx: EffectsV,
    arg_contracts: Seq<Option<ContractIdV>>,
    contracts: ContractsV,
    writing: bool,
    t: TargetV,
)
    requires
        accesses(resolve_step(fx, arg_contracts, contracts), writing).contains(t),
    ensures
        accesses(fx, writing).contains(t) || stems_from(contracts, writing, t),
{
    if !accesses(fx, writing).contains(t) {
        let c = choose|c: CallV| #[trigger]
            fx.contract_calls.contains(c) && accesses(
                effects_of_call(c, arg_contracts, contracts),
                writing,
            ).contains(t);
        let id = called_contract(c.contract, arg_contracts)->0;
        let callee = contracts[id][c.function];
        let u = choose|u: TargetV| #[trigger]
            accesses(callee, writing).contains(u) && t == target_at_call(u, c, id);
        assert(knows(contracts, id, c.function) && same_place(t, u));
    }
}

/// What a target stems from is at the same place as what another at the same place
/// stems from.
proof fn lemma_stems_on(contracts: ContractsV, writing: bool, t: TargetV, u: TargetV)
    requires
        same_place(t, u),
        stems_from(contracts, writing, u),
    ensures
        stems_from(contracts, writing, t),
{
    let (id, f, v) = choose|id: ContractIdV, f: NameV, v: TargetV|
        #![trigger knows(contracts, id, f), same_place(u, v)]
        knows(contracts, id, f) && accesses(contracts[id][f], writing).contains(v) && same_place(
            u,
            v,
        );
    assert(knows(contracts, id, f) && same_place(t, v));
}

/// Settling effects makes nothing up: what is read or written in the end was so
/// before, or is by a function that is known, though perhaps on another's behalf.
pub proof fn law_settled_effects_are_found(
    fx: EffectsV,
    arg_contracts: Seq<Option<ContractIdV>>,
    contracts: ContractsV,
    rounds: nat,
    writing: bool,
    t: TargetV,
)
    ensures
        settled(fx, arg_contracts, contracts, rounds) matches Some(r) ==> accesses(
            r,
            writing,
        ).contains(t) ==> accesses(fx, writing).contains(t) || stems_from(contracts, writing, t),
    decreases rounds,
{
    let next = resolve_step(fx, arg_contracts, contracts);
    if next != fx && rounds > 0 {
        law_settled_effects_are_found(
            next,
            arg_contracts,
            contracts,
            (rounds - 1) as nat,
            writing,
            t,
        );
        if accesses(next, writing).contains(t) {
            lemma_added(fx, arg_contracts, contracts, writing, t);
        }
    }
}

/// Settling contracts makes nothing up: what a function reads or writes in the end
/// one of the functions read or wrote before, though perhaps on another's behalf.
pub proof fn law_settled_contracts_are_found(
    contracts: ContractsV,
    rounds: nat,
    writing: bool,
    t: TargetV,
)
    ensures
        contracts_settled(contracts, rounds) matches Some(known) ==> stems_from(
            known,
            writing,
            t,
        ) ==> stems_from(contracts, writing, t),
    decreases rounds,
{
    let next = contracts_resolved(contracts);
    if next != contracts && rounds > 0 {
        law_settled_contracts_are_found(next, (rounds - 1) as nat, writing, t);
        if stems_from(next, writing, t) {
            let (id, f, u) = choose|id: ContractIdV, f: NameV, u: TargetV|
                #![trigger knows(next, id, f), same_place(t, u)]
                knows(next, id, f) && accesses(next[id][f], writing).contains(u) && same_place(
                    t,
                    u,
                );
            assert(next[id] == functions_resolved(contracts[id], contracts));
            assert(next[id][f] == resolve_step(contracts[id][f], seq![], contracts));
            lemma_added(contracts[id][f], seq![], contracts, writing, u);
            if accesses(contracts[id][f], writing).contains(u) {
                assert(knows(contracts, id, f) && same_place(u, u));
            }
            lemma_stems_on(contracts, writing, t, u);
        }
    }
}

/// Following calls onward takes no read and no write away.
proof fn lemma_onward_keeps(
    fx: EffectsV,
    arg_contracts: Seq<Option<ContractIdV>>,
    contracts: ContractsV,
    store: StoreV,
    writing: bool,
    t: TargetV,
)
    requires
        store.dom().finite(),
        accesses(fx, writing).contains(t),
    ensures
        resolved_onward(fx, arg_contracts, contracts, store) matches Ok((r, _)) ==> accesses(
            r,
            writing,
        ).contains(t),
    decreases outstanding(contracts, store).len(),
{
    lemma_onward(fx, contracts, store);
    let ids = literals(ascending::<ContractCall>(fx.contract_calls));
    if let Ok((more, fresh)) = taken_in(ids, contracts, Seq::empty(), store) {
        if fresh.len() > 0 {
            if let Some(known) = contracts_settled(more, ROUND_LIMIT as nat) {
                let next = resolve_step(fx, arg_contracts, known);
                if next != fx {
                    lemma_onward_keeps(next, arg_contracts, known, store, writing, t);
                }
            }
        }
    }
}

/// Effects whose calls are replaced across contracts hold every read and write that
/// literal calls of functions at hand lead to, however many calls that takes.
pub proof fn law_calls_across_contracts_are_followed(
    fx: EffectsV,
    arg_contracts: Seq<Option<ContractIdV>>,
    contracts: ContractsV,
    store: StoreV,
    writing: bool,
    t: TargetV,
    depth: nat,
)
    requires
        store.dom().finite(),
        leads_to_access(contracts, fx, writing, t, depth),
    ensures
        resolved_across(fx, arg_contracts, contracts, store) matches Ok((r, _)) ==> accesses(
            r,
            writing,
        ).contains(t),
{
    if let Some(known) = contracts_settled(contracts, ROUND_LIMIT as nat) {
        let first = resolve_step(fx, arg_contracts, known);
        if !accesses(fx, writing).contains(t) {
            let (c, id, u) = choose|c: CallV, id: ContractIdV, u: TargetV|
                #![trigger fx.contract_calls.contains(c), target_at_call(u, c, id)]
                {
                    &&& fx.contract_calls.contains(c)
                    &&& names(c, id)
                    &&& knows(contracts, id, c.function)
                    &&& t == target_at_call(u, c, id)
                    &&& leads_to_access(
                        contracts,
                        contracts[id][c.function],
                        writing,
                        u,
                        (depth - 1) as nat,
                    )
                };
            law_settled_contracts_follow_calls(
                contracts,
                ROUND_LIMIT as nat,
                id,
                c.function,
                writing,
                u,
                (depth - 1) as nat,
            );
            law_known_calls_are_replaced(fx, arg_contracts, known, c, id);
        }
        assert(accesses(first, writing).contains(t));
        lemma_onward_keeps(first, arg_contracts, known, store, writing, t);
    }
}

/// A call of a contract that is passed as an argument is followed like one of a
/// contract that is named: whatever the called function does, itself or through
/// literal calls, is done here, as the caller sees it.
pub proof fn law_passed_contracts_are_followed(
    fx: EffectsV,
    arg_contracts: Seq<Option<ContractIdV>>,
    contracts: ContractsV,
    store: StoreV,
    writing: bool,
    call: CallV,
    k: u32,
    id: ContractIdV,
    t: TargetV,
    depth: nat,
)
    requires
        store.dom().finite(),
        fx.contract_calls.contains(call),
        call.contract == ContractRefV::Argument(k),
        k < arg_contracts.len(),
        arg_contracts[k as int] == Some(id),
        contracts.contains_key(id),
        contracts[id].contains_key(call.function),
        leads_to_access(contracts, contracts[id][call.function], writing, t, depth),
    ensures
        resolved_across(fx, arg_contracts, contracts, store) matches Ok((r, _)) ==> accesses(
            r,
            writing,
        ).contains(target_at_call(t, call, id)),
{
    if let Some(known) = contracts_settled(contracts, ROUND_LIMIT as nat) {
        let first = resolve_step(fx, arg_contracts, known);
        law_settled_contracts_follow_calls(
            contracts,
            ROUND_LIMIT as nat,
            id,
            call.function,
            writing,
            t,
            depth,
        );
        law_known_calls_are_replaced(fx, arg_contracts, known, call, id);
        let u = target_at_call(t, call, id);
        assert(accesses(first, writing).contains(u));
        lemma_onward_keeps(first, arg_contracts, known, store, writing, u);
    }
}

/// What is done by functions at hand is still done by them once more contracts are at
/// hand and calls are replaced.
proof fn lemma_stems_later(
    contracts: ContractsV,
    more: ContractsV,
    known: ContractsV,
    writing: bool,
    t: TargetV,
)
    requires
        forall|id: ContractIdV| #[trigger]
            contracts.contains_key(id) ==> more.contains_key(id) && more[id] == contracts[id],
        contracts_settled(more, ROUND_LIMIT as nat) == Some(known),
        stems_from(contracts, writing, t),
    ensures
        stems_from(known, writing, t),
{
    let (id, f, u) = choose|id: ContractIdV, f: NameV, u: TargetV|
        #![trigger knows(contracts, id, f), same_place(t, u)]
        knows(contracts, id, f) && accesses(contracts[id][f], writing).contains(u) && same_place(
            t,
            u,
        );
    assert(contracts.contains_key(id));
    assert(knows(more, id, f));
    assert(leads_to_access(more, more[id][f], writing, u, 0));
    law_settled_contracts_follow_calls(more, ROUND_LIMIT as nat, id, f, writing, u, 0);
    assert(knows(known, id, f) && same_place(t, u));
}

proof fn lemma_onward_made_up(
    fx: EffectsV,
    arg_contracts: Seq<Option<ContractIdV>>,
    contracts: ContractsV,
    store: StoreV,
    writing: bool,
    t: TargetV,
)
    requires
        store.dom().finite(),
    ensures
        resolved_onward(fx, arg_contracts, contracts, store) matches Ok((r, known)) ==> {
            &&& stems_from(contracts, writing, t) ==> stems_from(known, writing, t)
            &&& accesses(r, writing).contains(t) ==> accesses(fx, writing).contains(t)
                || stems_from(known, writing, t)
        },
    decreases outstanding(contracts, store).len(),
{
    lemma_onward(fx, contracts, store);
    let ids = literals(ascending::<ContractCall>(fx.contract_calls));
    if let Ok((more, fresh)) = taken_in(ids, contracts, Seq::empty(), store) {
        if fresh.len() > 0 {
            if let Some(known) = contracts_settled(more, ROUND_LIMIT as nat) {
                let next = resolve_step(fx, arg_contracts, known);
                lemma_taken_in(ids, contracts, Seq::empty(), store);
                if stems_from(contracts, writing, t) {
                    lemma_stems_later(contracts, more, known, writing, t);
                }
                if next != fx {
                    lemma_onward_made_up(next, arg_contracts, known, store, writing, t);
                    if accesses(next, writing).contains(t) {
                        lemma_added(fx, arg_contracts, known, writing, t);
                    }
                }
            }
        }
    }
}

/// Replacing calls across contracts makes nothing up: whatever is read or written in the
/// end was before, or a function of a contract at hand in the end does it, though
/// perhaps on another's behalf.
pub proof fn law_calls_across_contracts_make_nothing_up(
    fx: EffectsV,
    arg_contracts: Seq<Option<ContractIdV>>,
    contracts: ContractsV,
    store: StoreV,
    writing: bool,
    t: TargetV,
)
    requires
        store.dom().finite(),
    ensures
        resolved_across(fx, arg_contracts, contracts, store) matches Ok((r, known)) ==> (accesses(
            r,
            writing,
        ).contains(t) ==> accesses(fx, writing).contains(t) || stems_from(known, writing, t)),
{
    if let Some(known) = contracts_settled(contracts, ROUND_LIMIT as nat) {
        let first = resolve_step(fx, arg_contracts, known);
        lemma_onward_made_up(first, arg_contracts, known, store, writing, t);
        if accesses(first, writing).contains(t) {
            lemma_added(fx, arg_contracts, known, writing, t);
        }
    }
}

proof fn lemma_onward_reads_on(
    fx: EffectsV,
    arg_contracts: Seq<Option<ContractIdV>>,
    contracts: ContractsV,
    store: StoreV,
    call: CallV,
    id: ContractIdV,
)
    requires
        store.dom().finite(),
        call.contract == ContractRefV::Literal(id),
    ensures
        resolved_onward(fx, arg_contracts, contracts, store) matches Ok((r, known)) ==> (
        r.contract_calls.finite() && r.contract_calls.contains(call) ==> known.contains_key(id)
            || store.contains_key(id) && store[id] == LookupV::Absent),
    decreases outstanding(contracts, store).len(),
{
    lemma_onward(fx, contracts, store);
    let calls = ascending::<ContractCall>(fx.contract_calls);
    let ids = literals(calls);
    if let Ok((more, fresh)) = taken_in(ids, contracts, Seq::empty(), store) {
        lemma_taken_in(ids, contracts, Seq::empty(), store);
        if fx.contract_calls.finite() && fx.contract_calls.contains(call) {
            lemma_listed::<ContractCall>(fx.contract_calls);
            assert(calls.to_set().contains(call));
            lemma_literals(calls, id);
        }
        if fresh.len() > 0 {
            if let Some(known) = contracts_settled(more, ROUND_LIMIT as nat) {
                law_contracts_settled_rest(more, ROUND_LIMIT as nat);
                let next = resolve_step(fx, arg_contracts, known);
                if next != fx {
                    lemma_onward_reads_on(next, arg_contracts, known, store, call, id);
                }
            }
        }
    }
}

/// Replacing calls across contracts reads on: where a call of a named contract is left
/// in the end, that contract is at hand, or there is none of that name.
pub proof fn law_called_contracts_are_read(
    fx: EffectsV,
    arg_contracts: Seq<Option<ContractIdV>>,
    contracts: ContractsV,
    store: StoreV,
    call: CallV,
    id: ContractIdV,
)
    requires
        store.dom().finite(),
        call.contract == ContractRefV::Literal(id),
    ensures
        resolved_across(fx, arg_contracts, contracts, store) matches Ok((r, known)) ==> (
        r.contract_calls.finite() && r.contract_calls.contains(call) ==> known.contains_key(id)
            || store.contains_key(id) && store[id] == LookupV::Absent),
{
    if let Some(known) = contracts_settled(contracts, ROUND_LIMIT as nat) {
        let first = resolve_step(fx, arg_contracts, known);
        lemma_onward_reads_on(first, arg_contracts, known, store, call, id);
    }
}

} // verus!
