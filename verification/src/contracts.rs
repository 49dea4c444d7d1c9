//! Following calls from contract to contract.
//!
//! The effects of other contracts come from a store that a caller fills. Where
//! the store has no entry for a contract that is needed, the work stops and
//! names the contract; the caller reads it, adds what it found to the store, and
//! starts again.

use vstd::prelude::*;

use crate::codes::option_view;
use crate::effects::{
    contract_args, resolve_step, Contracts, ContractsV, EffectsV, FunctionEffects, Functions,
    FunctionsV,
};
use crate::ordered::{
    ascending, lemma_listed, lemma_push_members, views, Data, OrderedMap, OrderedSet,
};
use crate::types::{
    CallV, ClarityName, ContractCall, ContractIdV, ContractRefV, ContractReference, NameV,
    QualifiedContractIdentifier,
};

verus! {

/// How often calls are replaced before the attempt is given up. Contracts that
/// call each other in a circle can keep it from ever coming to rest.
pub const ROUND_LIMIT: u64 = 0xffff_ffff_ffff_ffff;

/// What reading a contract gave.
#[derive(Debug, Clone, PartialEq, Eq)]
pub enum Lookup {
    /// The effects of its functions.
    Found(Functions),
    /// There is no such contract.
    Absent,
    /// It could not be read or analyzed.
    Failed(String),
}

#[verifier::ext_equal]
pub ghost enum LookupV {
    Found(FunctionsV),
    Absent,
    Failed(Seq<char>),
}

impl View for Lookup {
    type V = LookupV;

    open spec fn view(&self) -> LookupV {
        match self {
            Lookup::Found(functions) => LookupV::Found(functions@),
            Lookup::Absent => LookupV::Absent,
            Lookup::Failed(message) => LookupV::Failed(message@),
        }
    }
}

impl Data for Lookup {
    fn duplicate(&self) -> (r: Self) {
        match self {
            Lookup::Found(functions) => Lookup::Found(functions.duplicate()),
            Lookup::Absent => Lookup::Absent,
            Lookup::Failed(message) => Lookup::Failed(message.duplicate()),
        }
    }

    fn same(&self, other: &Self) -> (b: bool) {
        match (self, other) {
            (Lookup::Found(x), Lookup::Found(y)) => x.same(y),
            (Lookup::Absent, Lookup::Absent) => true,
            (Lookup::Failed(x), Lookup::Failed(y)) => x.same(y),
            _ => false,
        }
    }
}

/// The contracts that have been read so far, and what reading them gave.
pub type ContractStore = OrderedMap<QualifiedContractIdentifier, Lookup>;

pub type StoreV = Map<ContractIdV, LookupV>;

/// Why following the calls stopped.
#[derive(Debug, Clone, PartialEq, Eq)]
pub enum LoadStop {
    /// This contract is needed and has not been read yet.
    Unread(QualifiedContractIdentifier),
    /// A contract could not be read or analyzed.
    Failed(String),
    /// Replacing the calls by their effects came to no end.
    Unsettled,
}

pub ghost enum StopV {
    Unread(ContractIdV),
    Failed(Seq<char>),
    Unsettled,
}

impl View for LoadStop {
    type V = StopV;

    open spec fn view(&self) -> StopV {
        match self {
            LoadStop::Unread(id) => StopV::Unread(id@),
            LoadStop::Failed(message) => StopV::Failed(message@),
            LoadStop::Unsettled => StopV::Unsettled,
        }
    }
}

/// What a result holds.
pub open spec fn result_view<T: View>(r: Result<T, LoadStop>) -> Result<T::V, StopV> {
    match r {
        Ok(v) => Ok(v@),
        Err(e) => Err(e@),
    }
}

/// The effects once replacing calls changes nothing more, if that is reached
/// within a number of rounds.
pub open spec fn settled(
    fx: EffectsV,
    arg_contracts: Seq<Option<ContractIdV>>,
    contracts: ContractsV,
    rounds: nat,
) -> Option<EffectsV>
    decreases rounds,
{
    let next = resolve_step(fx, arg_contracts, contracts);
    if next == fx {
        Some(fx)
    } else if rounds == 0 {
        None
    } else {
        settled(next, arg_contracts, contracts, (rounds - 1) as nat)
    }
}

/// Replaces calls by their effects until nothing changes.
pub fn settle(
    effects: &FunctionEffects,
    arg_contracts: &[Option<QualifiedContractIdentifier>],
    contracts: &Contracts,
) -> (r: Option<FunctionEffects>)
    ensures
        option_view(r) == settled(
            effects@,
            contract_args(arg_contracts@),
            contracts@,
            ROUND_LIMIT as nat,
        ),
{
    let mut left: u64 = ROUND_LIMIT;
    let mut resolved = effects.duplicate();
    loop
        invariant
            settled(resolved@, contract_args(arg_contracts@), contracts@, left as nat) == settled(
                effects@,
                contract_args(arg_contracts@),
                contracts@,
                ROUND_LIMIT as nat,
            ),
        decreases left,
    {
        let next = resolved.resolve_contract_calls(arg_contracts, contracts);
        if next.same(&resolved) {
            return Some(resolved);
        }
        if left == 0 {
            return None;
        }
        left = left - 1;
        resolved = next;
    }
}

/// The functions of a contract, with each call replaced once.
pub open spec fn functions_resolved(functions: FunctionsV, contracts: ContractsV) -> FunctionsV {
    Map::new(
        |name: NameV| functions.contains_key(name),
        |name: NameV| resolve_step(functions[name], seq![], contracts),
    )
}

/// The contracts, with each call of each function replaced once.
pub open spec fn contracts_resolved(contracts: ContractsV) -> ContractsV {
    Map::new(
        |id: ContractIdV| contracts.contains_key(id),
        |id: ContractIdV| functions_resolved(contracts[id], contracts),
    )
}

/// The contracts once replacing calls changes nothing more, if that is reached
/// within a number of rounds.
pub open spec fn contracts_settled(contracts: ContractsV, rounds: nat) -> Option<ContractsV>
    decreases rounds,
{
    let next = contracts_resolved(contracts);
    if next == contracts {
        Some(contracts)
    } else if rounds == 0 {
        None
    } else {
        contracts_settled(next, (rounds - 1) as nat)
    }
}

/// A listing of part of the keys, one key longer.
proof fn lemma_next_key<A>(keys: Seq<A>, i: int, k: A)
    requires
        0 <= i < keys.len(),
    ensures
        keys.take(i + 1).contains(k) <==> keys.take(i).contains(k) || k == keys[i],
{
    assert(keys.take(i + 1) =~= keys.take(i).push(keys[i]));
    lemma_push_members(keys.take(i), keys[i], k);
}

fn resolve_functions(functions: &Functions, contracts: &Contracts) -> (r: Functions)
    ensures
        r@ == functions_resolved(functions@, contracts@),
{
    let n = functions.len();
    let ghost keys = functions.keys_in_order();
    let ghost goal = functions_resolved(functions@, contracts@);
    let mut r: Functions = OrderedMap::new();
    let mut i: usize = 0;
    let no_args: [Option<QualifiedContractIdentifier>; 0] = [];
    assert(contract_args(no_args@) =~= seq![]);
    while i < n
        invariant
            i <= n,
            n == keys.len(),
            keys == functions.keys_in_order(),
            keys.to_set() == functions@.dom(),
            goal == functions_resolved(functions@, contracts@),
            contract_args(no_args@) == Seq::<Option<ContractIdV>>::empty(),
            forall|k: NameV| #[trigger] r@.contains_key(k) <==> keys.take(i as int).contains(k),
            forall|k: NameV| #[trigger] r@.contains_key(k) ==> r@[k] == goal[k],
        decreases n - i,
    {
        let name = functions.key(i).duplicate();
        let resolved = functions.value(i).resolve_contract_calls(&no_args, contracts);
        r.insert(name, resolved);
        proof {
            assert forall|k: NameV| #[trigger] r@.contains_key(k) <==> keys.take(i + 1).contains(
                k,
            ) by {
                lemma_next_key(keys, i as int, k);
            }
        }
        i = i + 1;
    }
    proof {
        assert(keys.take(n as int) =~= keys);
        assert forall|k: NameV| r@.contains_key(k) == #[trigger] goal.contains_key(k) by {
            assert(keys.to_set().contains(k) == keys.contains(k));
        }
        assert(r@ =~= goal);
    }
    r
}

fn resolve_contracts(contracts: &Contracts) -> (r: Contracts)
    ensures
        r@ == contracts_resolved(contracts@),
{
    let n = contracts.len();
    let ghost keys = contracts.keys_in_order();
    let ghost goal = contracts_resolved(contracts@);
    let mut r: Contracts = OrderedMap::new();
    let mut i: usize = 0;
    while i < n
        invariant
            i <= n,
            n == keys.len(),
            keys == contracts.keys_in_order(),
            keys.to_set() == contracts@.dom(),
            goal == contracts_resolved(contracts@),
            forall|k: ContractIdV| #[trigger]
                r@.contains_key(k) <==> keys.take(i as int).contains(k),
            forall|k: ContractIdV| #[trigger] r@.contains_key(k) ==> r@[k] == goal[k],
        decreases n - i,
    {
        let id = contracts.key(i).duplicate();
        let resolved = resolve_functions(contracts.value(i), contracts);
        r.insert(id, resolved);
        proof {
            assert forall|k: ContractIdV| #[trigger] r@.contains_key(k) <==> keys.take(
                i + 1,
            ).contains(k) by {
                lemma_next_key(keys, i as int, k);
            }
        }
        i = i + 1;
    }
    proof {
        assert(keys.take(n as int) =~= keys);
        assert forall|k: ContractIdV| r@.contains_key(k) == #[trigger] goal.contains_key(k) by {
            assert(keys.to_set().contains(k) == keys.contains(k));
        }
        assert(r@ =~= goal);
    }
    r
}

/// Replaces the calls of all functions of all contracts until nothing changes.
/// Tells whether that came to an end; where not, the contracts stay as they were.
pub fn resolve_contract_effects_transitively(contracts: &mut Contracts) -> (settles: bool)
    ensures
        settles == contracts_settled(old(contracts)@, ROUND_LIMIT as nat) is Some,
        settles ==> Some(final(contracts)@) == contracts_settled(
            old(contracts)@,
            ROUND_LIMIT as nat,
        ),
        !settles ==> final(contracts)@ == old(contracts)@,
{
    let mut left: u64 = ROUND_LIMIT;
    let mut current = contracts.duplicate();
    loop
        invariant
            contracts@ == old(contracts)@,
            contracts_settled(current@, left as nat) == contracts_settled(
                old(contracts)@,
                ROUND_LIMIT as nat,
            ),
        decreases left,
    {
        let next = resolve_contracts(&current);
        if next.same(&current) {
            *contracts = current;
            return true;
        }
        if left == 0 {
            return false;
        }
        left = left - 1;
        current = next;
    }
}

/// The contracts that calls name literally, in the order of the calls.
pub open spec fn literals(calls: Seq<CallV>) -> Seq<ContractIdV>
    decreases calls.len(),
{
    if calls.len() == 0 {
        Seq::empty()
    } else {
        match calls.last().contract {
            ContractRefV::Literal(id) => literals(calls.drop_last()).push(id),
            _ => literals(calls.drop_last()),
        }
    }
}

/// The contracts that functions of the given names call literally.
pub open spec fn callees_of(names: Seq<NameV>, functions: FunctionsV) -> Seq<ContractIdV>
    decreases names.len(),
{
    if names.len() == 0 {
        Seq::empty()
    } else {
        callees_of(names.drop_last(), functions) + literals(
            ascending::<ContractCall>(functions[names.last()].contract_calls),
        )
    }
}

/// The contracts that functions call literally: function by function, and call
/// by call, in order.
pub open spec fn callees(functions: FunctionsV) -> Seq<ContractIdV> {
    callees_of(ascending::<ClarityName>(functions.dom()), functions)
}

/// The contracts with those of a list that are new, and what they are followed
/// by on the list of contracts still to be searched.
pub open spec fn taken_in(
    ids: Seq<ContractIdV>,
    contracts: ContractsV,
    queue: Seq<ContractIdV>,
    store: StoreV,
) -> Result<(ContractsV, Seq<ContractIdV>), StopV>
    decreases ids.len(),
{
    if ids.len() == 0 {
        Ok((contracts, queue))
    } else if contracts.contains_key(ids[0]) {
        taken_in(ids.drop_first(), contracts, queue, store)
    } else if !store.contains_key(ids[0]) {
        Err(StopV::Unread(ids[0]))
    } else {
        match store[ids[0]] {
            LookupV::Found(functions) => taken_in(
                ids.drop_first(),
                contracts.insert(ids[0], functions),
                queue.push(ids[0]),
                store,
            ),
            LookupV::Absent => taken_in(ids.drop_first(), contracts, queue, store),
            LookupV::Failed(message) => Err(StopV::Failed(message)),
        }
    }
}

/// The contracts that the store has and the map lacks.
pub open spec fn outstanding(contracts: ContractsV, store: StoreV) -> Set<ContractIdV> {
    store.dom().difference(contracts.dom())
}

/// Taking contracts in keeps those that are there, takes the others from the
/// store, and queues exactly the new ones.
pub proof fn lemma_taken_in(
    ids: Seq<ContractIdV>,
    contracts: ContractsV,
    queue: Seq<ContractIdV>,
    store: StoreV,
)
    requires
        store.dom().finite(),
    ensures
        taken_in(ids, contracts, queue, store) matches Ok((c, q)) ==> {
            &&& contracts.submap_of(c)
            &&& forall|id: ContractIdV| #[trigger]
                c.contains_key(id) && !contracts.contains_key(id) ==> store.contains_key(id)
                    && store[id] == LookupV::Found(c[id]) && q.contains(id) && ids.contains(id)
            &&& forall|id: ContractIdV| #[trigger]
                ids.contains(id) ==> c.contains_key(id) || store.contains_key(id) && store[id]
                    == LookupV::Absent
            &&& queue.len() <= q.len()
            &&& q.take(queue.len() as int) == queue
            &&& forall|i: int|
                queue.len() <= i < q.len() ==> c.contains_key(#[trigger] q[i])
                    && !contracts.contains_key(q[i])
            &&& outstanding(c, store).finite()
            &&& q == queue ==> c == contracts
            &&& q != queue ==> outstanding(c, store).len() < outstanding(contracts, store).len()
        },
        outstanding(contracts, store).finite(),
    decreases ids.len(),
{
    vstd::set_lib::lemma_set_subset_finite(store.dom(), outstanding(contracts, store));
    if ids.len() == 0 {
        assert(queue.take(queue.len() as int) =~= queue);
    } else {
        let id = ids[0];
        let rest = ids.drop_first();
        assert forall|x: ContractIdV| ids.contains(x) == (x == id || rest.contains(x)) by {
            if ids.contains(x) {
                let k = choose|k: int| 0 <= k < ids.len() && ids[k] == x;
                if k > 0 {
                    assert(rest[k - 1] == x);
                }
            }
            if rest.contains(x) {
                let k = choose|k: int| 0 <= k < rest.len() && rest[k] == x;
                assert(ids[k + 1] == x);
            }
            assert(ids.contains(ids[0]));
        }
        if contracts.contains_key(id) {
            lemma_taken_in(rest, contracts, queue, store);
        } else if store.contains_key(id) {
            match store[id] {
                LookupV::Found(functions) => {
                    let c1 = contracts.insert(id, functions);
                    let q1 = queue.push(id);
                    lemma_taken_in(rest, c1, q1, store);
                    assert(outstanding(c1, store) =~= outstanding(contracts, store).remove(id));
                    if let Ok((c, q)) = taken_in(rest, c1, q1, store) {
                        assert(q.take(q1.len() as int) == q1);
                        assert(q[queue.len() as int] == q1[queue.len() as int]) by {
                            assert(q.take(q1.len() as int)[queue.len() as int] == id);
                        }
                        assert(q.take(queue.len() as int) =~= q1.take(queue.len() as int));
                        assert(q1.take(queue.len() as int) =~= queue);
                        assert(q.contains(id));
                        assert(q.len() > queue.len());
                        if q1 == q {
                            assert(c == c1);
                        }
                        assert forall|k: ContractIdV| #[trigger]
                            contracts.dom().contains(k) implies c.dom().contains(k) && c[k]
                            == contracts[k] by {
                            assert(c1.dom().contains(k));
                        }
                    }
                },
                LookupV::Absent => {
                    lemma_taken_in(rest, contracts, queue, store);
                },
                LookupV::Failed(message) => {},
            }
        }
    }
}

/// The contracts that are reached from those given by following literal calls,
/// searched from the end of the queue on.
pub open spec fn gathered(
    contracts: ContractsV,
    queue: Seq<ContractIdV>,
    store: StoreV,
) -> Result<ContractsV, StopV>
    decreases outstanding(contracts, store).len(), queue.len(),
    when store.dom().finite()
    via gathered_decreases
{
    if queue.len() == 0 {
        Ok(contracts)
    } else {
        match taken_in(callees(contracts[queue.last()]), contracts, queue.drop_last(), store) {
            Err(stop) => Err(stop),
            Ok((c, q)) => gathered(c, q, store),
        }
    }
}

#[via_fn]
proof fn gathered_decreases(contracts: ContractsV, queue: Seq<ContractIdV>, store: StoreV) {
    if queue.len() > 0 {
        lemma_taken_in(callees(contracts[queue.last()]), contracts, queue.drop_last(), store);
    }
}

/// The contracts that calls name literally.
fn literal_contracts(
    calls: &OrderedSet<ContractCall>,
    out: &mut Vec<QualifiedContractIdentifier>,
)
    ensures
        views(final(out)@) == views(old(out)@) + literals(ascending::<ContractCall>(calls@)),
{
    let n = calls.len();
    let ghost all = calls.in_order();
    let ghost before = views(out@);
    let mut i: usize = 0;
    assert(views(out@) =~= before + literals(all.take(0)));
    while i < n
        invariant
            i <= n,
            n == all.len(),
            all == calls.in_order(),
            views(out@) == before + literals(all.take(i as int)),
        decreases n - i,
    {
        let ghost was = out@;
        if let ContractReference::Literal(id) = &calls.get(i).contract {
            out.push(id.duplicate());
            assert(views(out@) =~= views(was).push(id@));
        }
        proof {
            assert(all.take(i + 1).drop_last() =~= all.take(i as int));
            assert(views(out@) =~= before + literals(all.take(i + 1)));
        }
        i = i + 1;
    }
    assert(all.take(n as int) =~= all);
}

/// The contracts that functions call literally.
fn called_contracts(functions: &Functions) -> (ids: Vec<QualifiedContractIdentifier>)
    ensures
        views(ids@) == callees(functions@),
{
    let n = functions.len();
    let ghost names = functions.keys_in_order();
    let mut ids: Vec<QualifiedContractIdentifier> = Vec::new();
    let mut i: usize = 0;
    assert(views(ids@) =~= callees_of(names.take(0), functions@));
    while i < n
        invariant
            i <= n,
            n == names.len(),
            names == functions.keys_in_order(),
            views(ids@) == callees_of(names.take(i as int), functions@),
        decreases n - i,
    {
        literal_contracts(&functions.value(i).contract_calls, &mut ids);
        proof {
            assert(names.take(i + 1).drop_last() =~= names.take(i as int));
        }
        i = i + 1;
    }
    assert(names.take(n as int) =~= names);
    ids
}

/// The contracts with one more from the store: none where it does not exist.
pub open spec fn loaded(id: ContractIdV, contracts: ContractsV, store: StoreV) -> Result<
    Option<ContractsV>,
    StopV,
> {
    if contracts.contains_key(id) {
        Ok(Some(contracts))
    } else if !store.contains_key(id) {
        Err(StopV::Unread(id))
    } else {
        match store[id] {
            LookupV::Found(functions) => Ok(Some(contracts.insert(id, functions))),
            LookupV::Absent => Ok(None),
            LookupV::Failed(message) => Err(StopV::Failed(message)),
        }
    }
}

/// Adds the effects of a contract to those at hand, if they are not there yet.
/// `None` means that there is no such contract.
pub fn load_contract_effects(
    store: &ContractStore,
    contract_id: &QualifiedContractIdentifier,
    contract_effects: &mut Contracts,
) -> (r: Result<Option<()>, LoadStop>)
    ensures
        match loaded(contract_id@, old(contract_effects)@, store@) {
            Ok(Some(contracts)) => r is Ok && r->Ok_0 is Some && final(contract_effects)@
                == contracts,
            Ok(None) => r is Ok && r->Ok_0 is None && final(contract_effects)@ == old(
                contract_effects,
            )@,
            Err(stop) => r is Err && r->Err_0@ == stop && final(contract_effects)@ == old(
                contract_effects,
            )@,
        },
{
    if contract_effects.contains_key(contract_id) {
        return Ok(Some(()));
    }
    match store.get(contract_id) {
        None => Err(LoadStop::Unread(contract_id.duplicate())),
        Some(Lookup::Found(functions)) => {
            contract_effects.insert(contract_id.duplicate(), functions.duplicate());
            Ok(Some(()))
        },
        Some(Lookup::Absent) => Ok(None),
        Some(Lookup::Failed(message)) => Err(LoadStop::Failed(message.duplicate())),
    }
}

/// Adds the contracts of a list that are new, and queues them.
fn take_in(
    ids: &Vec<QualifiedContractIdentifier>,
    contracts: &mut Contracts,
    queue: &mut Vec<QualifiedContractIdentifier>,
    store: &ContractStore,
) -> (r: Result<(), LoadStop>)
    ensures
        match r {
            Ok(_) => taken_in(views(ids@), old(contracts)@, views(old(queue)@), store@) == Ok::<
                (ContractsV, Seq<ContractIdV>),
                StopV,
            >((final(contracts)@, views(final(queue)@))),
            Err(stop) => taken_in(views(ids@), old(contracts)@, views(old(queue)@), store@) == Err::<
                (ContractsV, Seq<ContractIdV>),
                StopV,
            >(stop@),
        },
{
    let ghost all = views(ids@);
    let ghost goal = taken_in(all, contracts@, views(queue@), store@);
    let mut i: usize = 0;
    assert(all.skip(0) =~= all);
    while i < ids.len()
        invariant
            i <= ids.len(),
            all == views(ids@),
            goal == taken_in(all.skip(i as int), contracts@, views(queue@), store@),
            goal == taken_in(all, old(contracts)@, views(old(queue)@), store@),
        decreases ids.len() - i,
    {
        let id = &ids[i];
        proof {
            assert(all.skip(i as int)[0] == id@);
            assert(all.skip(i as int).drop_first() =~= all.skip(i + 1));
        }
        if !contracts.contains_key(id) {
            match load_contract_effects(store, id, contracts) {
                Ok(Some(_)) => {
                    let ghost was = views(queue@);
                    queue.push(id.duplicate());
                    assert(views(queue@) =~= was.push(id@));
                },
                Ok(None) => {},
                Err(stop) => {
                    return Err(stop);
                },
            }
        }
        i = i + 1;
    }
    Ok(())
}

/// The contracts reached from a root contract.
pub open spec fn reached(
    root: ContractIdV,
    functions: FunctionsV,
    store: StoreV,
) -> Result<ContractsV, StopV> {
    gathered(Map::empty().insert(root, functions), seq![root], store)
}

/// Collects contracts, starting from a root contract and following literal
/// calls.
pub fn collect_contract_effects_recursive(
    root_contract: &QualifiedContractIdentifier,
    root_effects: &Functions,
    store: &ContractStore,
) -> (r: Result<Contracts, LoadStop>)
    ensures
        result_view(r) == reached(root_contract@, root_effects@, store@),
{
    let mut contracts: Contracts = OrderedMap::new();
    contracts.insert(root_contract.duplicate(), root_effects.duplicate());
    let mut queue: Vec<QualifiedContractIdentifier> = Vec::new();
    queue.push(root_contract.duplicate());
    let ghost goal = reached(root_contract@, root_effects@, store@);
    let entries = store.len();
    proof {
        assert(views(queue@) =~= seq![root_contract@]);
        lemma_taken_in(Seq::empty(), contracts@, views(queue@), store@);
    }
    loop
        invariant
            store@.dom().finite(),
            outstanding(contracts@, store@).finite(),
            goal == reached(root_contract@, root_effects@, store@),
            goal == gathered(contracts@, views(queue@), store@),
            forall|i: int| 0 <= i < queue.len() ==> contracts@.contains_key((#[trigger] queue[i])@),
        ensures
            goal == Ok::<ContractsV, StopV>(contracts@),
        decreases outstanding(contracts@, store@).len(), queue.len(),
    {
        let ghost q0 = views(queue@);
        let ghost c0 = contracts@;
        let last = queue.pop();
        match last {
            None => {
                break ;
            },
            Some(id) => {
                let ghost q1 = views(queue@);
                proof {
                    assert(q0.drop_last() =~= q1);
                    assert(q0.last() == id@);
                }
                if let Some(functions) = contracts.get(&id) {
                    let ids = called_contracts(functions);
                    proof {
                        lemma_taken_in(callees(c0[id@]), c0, q1, store@);
                    }
                    match take_in(&ids, &mut contracts, &mut queue, store) {
                        Ok(_) => {
                            proof {
                                let q = views(queue@);
                                assert forall|i: int| 0 <= i < queue.len() implies contracts@.contains_key(
                                    (#[trigger] queue[i])@,
                                ) by {
                                    assert(q[i] == queue[i]@);
                                    if i < q1.len() {
                                        assert(q.take(q1.len() as int)[i] == q1[i]);
                                        assert(q0[i] == q1[i]);
                                        assert(c0.contains_key(q0[i]));
                                        assert(c0.dom().contains(q0[i]));
                                    }
                                }
                            }
                        },
                        Err(stop) => {
                            return Err(stop);
                        },
                    }
                } else {
                    assert(false);
                }
            },
        }
    }
    Ok(contracts)
}

/// Two contracts: one of them calls the other literally.
pub open spec fn calls_literally(functions: FunctionsV, callee: ContractIdV) -> bool {
    exists|name: NameV, call: CallV| #[trigger]
        functions.contains_key(name) && #[trigger] functions[name].contract_calls.contains(call)
            && call.contract == ContractRefV::Literal(callee)
}

/// A chain of contracts from the root: each calls the next literally, and each
/// but the root is in the store.
pub open spec fn call_chain(
    root: ContractIdV,
    functions: FunctionsV,
    store: StoreV,
    path: Seq<ContractIdV>,
) -> bool {
    &&& path.len() > 0
    &&& path[0] == root
    &&& forall|i: int|
        0 < i < path.len() ==> #[trigger] path[i] != root && store.contains_key(path[i])
            && store[path[i]] is Found && calls_literally(
            functions_in(root, functions, store, path[i - 1]),
            path[i],
        )
}

/// The functions of the root, or of a contract of the store.
pub open spec fn functions_in(
    root: ContractIdV,
    functions: FunctionsV,
    store: StoreV,
    id: ContractIdV,
) -> FunctionsV {
    if id == root {
        functions
    } else {
        store[id]->Found_0
    }
}

/// Finitely many functions, each with finitely many calls.
pub open spec fn finite_functions(functions: FunctionsV) -> bool {
    &&& functions.dom().finite()
    &&& forall|name: NameV| #[trigger]
        functions.contains_key(name) ==> functions[name].contract_calls.finite()
}

/// Finitely many contracts, each with finitely many functions and calls.
pub open spec fn finite_store(store: StoreV) -> bool {
    &&& store.dom().finite()
    &&& forall|id: ContractIdV| #[trigger]
        store.contains_key(id) ==> (store[id] matches LookupV::Found(functions)
            ==> finite_functions(functions))
}

pub proof fn lemma_literals(calls: Seq<CallV>, id: ContractIdV)
    ensures
        literals(calls).contains(id) <==> exists|c: CallV| #[trigger]
            calls.contains(c) && c.contract == ContractRefV::Literal(id),
    decreases calls.len(),
{
    if calls.len() > 0 {
        let rest = calls.drop_last();
        lemma_literals(rest, id);
        assert(calls =~= rest.push(calls.last()));
        assert forall|c: CallV| #[trigger] calls.contains(c) == (rest.contains(c) || c
            == calls.last()) by {
            lemma_push_members(rest, calls.last(), c);
        }
        assert(calls.contains(calls.last()));
        match calls.last().contract {
            ContractRefV::Literal(last) => {
                lemma_push_members(literals(rest), last, id);
            },
            _ => {},
        }
        if exists|c: CallV| #[trigger]
            rest.contains(c) && c.contract == ContractRefV::Literal(id) {
            let c = choose|c: CallV| #[trigger]
                rest.contains(c) && c.contract == ContractRefV::Literal(id);
            assert(calls.contains(c));
        }
    }
}

proof fn lemma_callees_of(names: Seq<NameV>, functions: FunctionsV, id: ContractIdV)
    requires
        forall|name: NameV| #[trigger]
            names.contains(name) ==> functions[name].contract_calls.finite(),
    ensures
        callees_of(names, functions).contains(id) <==> exists|name: NameV, call: CallV| #[trigger]
            names.contains(name) && #[trigger] functions[name].contract_calls.contains(call)
                && call.contract == ContractRefV::Literal(id),
    decreases names.len(),
{
    if names.len() > 0 {
        let rest = names.drop_last();
        let last = names.last();
        assert(names =~= rest.push(last));
        assert forall|n: NameV| #[trigger] names.contains(n) == (rest.contains(n) || n
            == last) by {
            lemma_push_members(rest, last, n);
        }
        assert(names.contains(last));
        assert forall|n: NameV| #[trigger] rest.contains(n) implies functions[
            n
        ].contract_calls.finite() by {
            assert(names.contains(n));
        }
        lemma_callees_of(rest, functions, id);
        let calls = functions[last].contract_calls;
        lemma_listed::<ContractCall>(calls);
        lemma_literals(ascending::<ContractCall>(calls), id);
        let left = callees_of(rest, functions);
        let right = literals(ascending::<ContractCall>(calls));
        assert((left + right).contains(id) <==> left.contains(id) || right.contains(id)) by {
            if left.contains(id) {
                let k = choose|k: int| 0 <= k < left.len() && left[k] == id;
                assert((left + right)[k] == id);
            }
            if right.contains(id) {
                let k = choose|k: int| 0 <= k < right.len() && right[k] == id;
                assert((left + right)[left.len() + k] == id);
            }
        }
        assert forall|c: CallV| calls.contains(c) == #[trigger] ascending::<ContractCall>(
            calls,
        ).contains(c) by {
            assert(ascending::<ContractCall>(calls).to_set().contains(c) == calls.contains(c));
        }
        if left.contains(id) {
            let (n, c) = choose|n: NameV, c: CallV| #[trigger]
                rest.contains(n) && #[trigger] functions[n].contract_calls.contains(c)
                    && c.contract == ContractRefV::Literal(id);
            assert(names.contains(n));
        }
        if right.contains(id) {
            let c = choose|c: CallV| #[trigger]
                ascending::<ContractCall>(calls).contains(c) && c.contract == ContractRefV::Literal(
                    id,
                );
            assert(functions[last].contract_calls.contains(c));
        }
        if exists|n: NameV, c: CallV| #[trigger]
            names.contains(n) && #[trigger] functions[n].contract_calls.contains(c) && c.contract
                == ContractRefV::Literal(id) {
            let (n, c) = choose|n: NameV, c: CallV| #[trigger]
                names.contains(n) && #[trigger] functions[n].contract_calls.contains(c)
                    && c.contract == ContractRefV::Literal(id);
            if rest.contains(n) {
                assert(left.contains(id));
            } else {
                assert(ascending::<ContractCall>(calls).contains(c));
            }
        }
    }
}

/// The list of callees holds exactly the contracts that are called literally.
pub proof fn lemma_callees(functions: FunctionsV, id: ContractIdV)
    requires
        finite_functions(functions),
    ensures
        callees(functions).contains(id) <==> calls_literally(functions, id),
{
    let names = ascending::<ClarityName>(functions.dom());
    lemma_listed::<ClarityName>(functions.dom());
    assert forall|n: NameV| #[trigger] names.contains(n) == functions.contains_key(n) by {
        assert(names.to_set().contains(n) == functions.dom().contains(n));
    }
    lemma_callees_of(names, functions, id);
    if callees(functions).contains(id) {
        let (n, c) = choose|n: NameV, c: CallV| #[trigger]
            names.contains(n) && #[trigger] functions[n].contract_calls.contains(c) && c.contract
                == ContractRefV::Literal(id);
        assert(functions.contains_key(n));
    }
    if calls_literally(functions, id) {
        let (n, c) = choose|n: NameV, c: CallV| #[trigger]
            functions.contains_key(n) && #[trigger] functions[n].contract_calls.contains(c)
                && c.contract == ContractRefV::Literal(id);
        assert(names.contains(n));
    }
}

/// Every contract that a contract calls literally is there too, or does not
/// exist.
pub open spec fn closed_at(contracts: ContractsV, store: StoreV, id: ContractIdV) -> bool {
    forall|callee: ContractIdV| #[trigger]
        calls_literally(contracts[id], callee) ==> contracts.contains_key(callee)
            || store.contains_key(callee) && store[callee] == LookupV::Absent
}

/// The state of a search: the root is there, the others come from the store and
/// are reached from the root, and all but the queued ones are closed.
spec fn search_state(
    root: ContractIdV,
    functions: FunctionsV,
    store: StoreV,
    contracts: ContractsV,
    queue: Seq<ContractIdV>,
) -> bool {
    &&& contracts.contains_key(root)
    &&& forall|id: ContractIdV| #[trigger]
        contracts.contains_key(id) ==> {
            &&& contracts[id] == functions_in(root, functions, store, id)
            &&& id != root ==> store.contains_key(id) && store[id] is Found
            &&& exists|path: Seq<ContractIdV>| #[trigger]
                call_chain(root, functions, store, path) && path.last() == id
            &&& queue.contains(id) || closed_at(contracts, store, id)
        }
    &&& forall|i: int| 0 <= i < queue.len() ==> contracts.contains_key(#[trigger] queue[i])
}

/// A chain of literal calls leads from the root to a contract that calls this one.
pub open spec fn is_called_along(
    root: ContractIdV,
    functions: FunctionsV,
    store: StoreV,
    id: ContractIdV,
) -> bool {
    exists|path: Seq<ContractIdV>| #[trigger]
        call_chain(root, functions, store, path) && calls_literally(
            functions_in(root, functions, store, path.last()),
            id,
        )
}

proof fn lemma_search(
    root: ContractIdV,
    functions: FunctionsV,
    store: StoreV,
    contracts: ContractsV,
    queue: Seq<ContractIdV>,
)
    requires
        finite_functions(functions),
        finite_store(store),
        search_state(root, functions, store, contracts, queue),
    ensures
        gathered(contracts, queue, store) matches Ok(c) ==> search_state(
            root,
            functions,
            store,
            c,
            Seq::empty(),
        ),
        gathered(contracts, queue, store) matches Err(StopV::Unread(id)) ==> !store.contains_key(
            id,
        ) && is_called_along(root, functions, store, id),
        gathered(contracts, queue, store) matches Err(StopV::Failed(message)) ==> exists|
            id: ContractIdV,
        | #[trigger]
            store.contains_key(id) && store[id] == LookupV::Failed(message) && is_called_along(
                root,
                functions,
                store,
                id,
            ),
        !(gathered(contracts, queue, store) == Err::<ContractsV, StopV>(StopV::Unsettled)),
    decreases outstanding(contracts, store).len(), queue.len(),
{
    if queue.len() == 0 {
        assert(queue =~= Seq::empty());
    } else {
        let id = queue.last();
        let q0 = queue.drop_last();
        assert(contracts.contains_key(queue[queue.len() - 1]));
        let ids = callees(contracts[id]);
        lemma_taken_in(ids, contracts, q0, store);
        lemma_taken_in_stop(ids, contracts, q0, store);
        assert forall|x: ContractIdV| ids.contains(x) implies is_called_along(
            root,
            functions,
            store,
            x,
        ) by {
            let path = choose|path: Seq<ContractIdV>| #[trigger]
                call_chain(root, functions, store, path) && path.last() == id;
            lemma_callees(contracts[id], x);
            assert(call_chain(root, functions, store, path));
        }
        if let Ok((c, q)) = taken_in(ids, contracts, q0, store) {
            assert forall|x: ContractIdV| #[trigger] c.contains_key(x) implies {
                &&& c[x] == functions_in(root, functions, store, x)
                &&& x != root ==> store.contains_key(x) && store[x] is Found
                &&& exists|path: Seq<ContractIdV>| #[trigger]
                    call_chain(root, functions, store, path) && path.last() == x
                &&& q.contains(x) || closed_at(c, store, x)
            } by {
                if contracts.contains_key(x) {
                    assert(contracts.dom().contains(x));
                    if x == id {
                        assert forall|callee: ContractIdV| #[trigger]
                            calls_literally(c[x], callee) implies c.contains_key(callee)
                            || store.contains_key(callee) && store[callee] == LookupV::Absent by {
                            lemma_callees(contracts[id], callee);
                            assert(ids.contains(callee));
                        }
                    } else if queue.contains(x) {
                        let k = choose|k: int| 0 <= k < queue.len() && queue[k] == x;
                        assert(q0[k] == x);
                        assert(q.take(q0.len() as int)[k] == x);
                        assert(q[k] == x);
                    } else {
                        assert(closed_at(contracts, store, x));
                        assert forall|callee: ContractIdV| #[trigger]
                            calls_literally(c[x], callee) implies c.contains_key(callee)
                            || store.contains_key(callee) && store[callee] == LookupV::Absent by {
                            if contracts.contains_key(callee) {
                                assert(contracts.dom().contains(callee));
                            }
                        }
                    }
                } else {
                    let path = choose|path: Seq<ContractIdV>| #[trigger]
                        call_chain(root, functions, store, path) && path.last() == id;
                    let longer = path.push(x);
                    lemma_callees(contracts[id], x);
                    assert forall|i: int| 0 < i < longer.len() implies #[trigger] longer[i] != root
                        && store.contains_key(longer[i]) && store[longer[i]] is Found
                        && calls_literally(
                        functions_in(root, functions, store, longer[i - 1]),
                        longer[i],
                    ) by {
                        if i < path.len() {
                            assert(longer[i] == path[i] && longer[i - 1] == path[i - 1]);
                        } else {
                            assert(longer[i - 1] == path.last());
                        }
                    }
                    assert(longer[0] == path[0]);
                    assert(call_chain(root, functions, store, longer) && longer.last() == x);
                }
            }
            assert forall|i: int| 0 <= i < q.len() implies c.contains_key(#[trigger] q[i]) by {
                if i < q0.len() {
                    assert(q.take(q0.len() as int)[i] == q0[i]);
                    assert(queue[i] == q0[i]);
                    assert(contracts.dom().contains(queue[i]));
                }
            }
            assert(contracts.dom().contains(root));
            lemma_search(root, functions, store, c, q);
        }
    }
}

proof fn lemma_taken_in_stop(
    ids: Seq<ContractIdV>,
    contracts: ContractsV,
    queue: Seq<ContractIdV>,
    store: StoreV,
)
    ensures
        taken_in(ids, contracts, queue, store) matches Err(stop) ==> match stop {
            StopV::Unread(id) => !store.contains_key(id) && ids.contains(id),
            StopV::Failed(message) => exists|id: ContractIdV| #[trigger]
                store.contains_key(id) && store[id] == LookupV::Failed(message) && ids.contains(id),
            StopV::Unsettled => false,
        },
    decreases ids.len(),
{
    if ids.len() > 0 {
        let rest = ids.drop_first();
        assert forall|x: ContractIdV| rest.contains(x) implies ids.contains(x) by {
            let k = choose|k: int| 0 <= k < rest.len() && rest[k] == x;
            assert(ids[k + 1] == x);
        }
        assert(ids.contains(ids[0]));
        if contracts.contains_key(ids[0]) {
            lemma_taken_in_stop(rest, contracts, queue, store);
        } else if store.contains_key(ids[0]) {
            match store[ids[0]] {
                LookupV::Found(functions) => {
                    lemma_taken_in_stop(
                        rest,
                        contracts.insert(ids[0], functions),
                        queue.push(ids[0]),
                        store,
                    );
                },
                LookupV::Absent => {
                    lemma_taken_in_stop(rest, contracts, queue, store);
                },
                LookupV::Failed(message) => {},
            }
        }
    }
}

/// Collecting contracts finds exactly those that literal calls lead to from the
/// root: the root keeps its functions, every other contract comes from the store
/// and is at the end of a chain of calls, and every contract that one of them
/// calls is among them, unless it does not exist. The search stops only at a
/// contract that one of them calls and that has not been read, or could not be.
pub proof fn law_collected_contracts(root: ContractIdV, functions: FunctionsV, store: StoreV)
    requires
        finite_functions(functions),
        finite_store(store),
    ensures
        reached(root, functions, store) matches Ok(contracts) ==> {
            &&& contracts.contains_key(root)
            &&& contracts[root] == functions
            &&& forall|id: ContractIdV| #[trigger]
                contracts.contains_key(id) && id != root ==> store.contains_key(id) && store[id]
                    == LookupV::Found(contracts[id])
            &&& forall|id: ContractIdV| #[trigger]
                contracts.contains_key(id) ==> closed_at(contracts, store, id)
            &&& forall|id: ContractIdV| #[trigger]
                contracts.contains_key(id) ==> exists|path: Seq<ContractIdV>| #[trigger]
                    call_chain(root, functions, store, path) && path.last() == id
        },
        reached(root, functions, store) matches Err(StopV::Unread(id)) ==> !store.contains_key(id)
            && is_called_along(root, functions, store, id),
        reached(root, functions, store) matches Err(StopV::Failed(message)) ==> exists|
            id: ContractIdV,
        | #[trigger]
            store.contains_key(id) && store[id] == LookupV::Failed(message) && is_called_along(
                root,
                functions,
                store,
                id,
            ),
        !(reached(root, functions, store) == Err::<ContractsV, StopV>(StopV::Unsettled)),
{
    let start: ContractsV = Map::empty().insert(root, functions);
    let queue = seq![root];
    assert(queue[0] == root);
    assert(call_chain(root, functions, store, queue) && queue.last() == root);
    assert(search_state(root, functions, store, start, queue));
    lemma_search(root, functions, store, start, queue);
    if let Ok(contracts) = reached(root, functions, store) {
        assert forall|id: ContractIdV| #[trigger]
            contracts.contains_key(id) implies closed_at(contracts, store, id) by {
            assert(!Seq::<ContractIdV>::empty().contains(id));
        }
    }
}

/// What is settled stays as it is when calls are replaced once more.
pub proof fn law_settled_rests(
    fx: EffectsV,
    arg_contracts: Seq<Option<ContractIdV>>,
    contracts: ContractsV,
    rounds: nat,
)
    ensures
        settled(fx, arg_contracts, contracts, rounds) matches Some(r) ==> resolve_step(
            r,
            arg_contracts,
            contracts,
        ) == r,
    decreases rounds,
{
    let next = resolve_step(fx, arg_contracts, contracts);
    if next != fx && rounds > 0 {
        law_settled_rests(next, arg_contracts, contracts, (rounds - 1) as nat);
    }
}

/// Settled effects hold every read and write that was there before.
pub proof fn law_settled_keeps(
    fx: EffectsV,
    arg_contracts: Seq<Option<ContractIdV>>,
    contracts: ContractsV,
    rounds: nat,
)
    ensures
        settled(fx, arg_contracts, contracts, rounds) matches Some(r) ==> {
            &&& fx.reads.subset_of(r.reads)
            &&& fx.writes.subset_of(r.writes)
            &&& r.purity == fx.purity
        },
    decreases rounds,
{
    let next = resolve_step(fx, arg_contracts, contracts);
    assert(fx.reads.subset_of(next.reads));
    assert(fx.writes.subset_of(next.writes));
    if next != fx && rounds > 0 {
        law_settled_keeps(next, arg_contracts, contracts, (rounds - 1) as nat);
    }
}

/// Settled contracts stay as they are when calls are replaced once more; they
/// are the same contracts, with the same functions.
pub proof fn law_contracts_settled_rest(contracts: ContractsV, rounds: nat)
    ensures
        contracts_settled(contracts, rounds) matches Some(c) ==> {
            &&& contracts_resolved(c) == c
            &&& c.dom() == contracts.dom()
            &&& forall|id: ContractIdV| #[trigger]
                c.contains_key(id) ==> c[id].dom() == contracts[id].dom()
        },
    decreases rounds,
{
    let next = contracts_resolved(contracts);
    assert(next.dom() =~= contracts.dom());
    assert forall|id: ContractIdV| #[trigger] next.contains_key(id) implies next[id].dom()
        == contracts[id].dom() by {
        assert(next[id].dom() =~= contracts[id].dom());
    }
    if next != contracts && rounds > 0 {
        law_contracts_settled_rest(next, (rounds - 1) as nat);
    }
}

/// Effects with their calls replaced, while contracts that calls name literally
/// are read from the store, until none is new or nothing changes. With them, the
/// contracts that are known by then.
pub open spec fn resolved_onward(
    fx: EffectsV,
    arg_contracts: Seq<Option<ContractIdV>>,
    contracts: ContractsV,
    store: StoreV,
) -> Result<(EffectsV, ContractsV), StopV>
    decreases outstanding(contracts, store).len(),
    when store.dom().finite()
    via resolved_onward_decreases
{
    match taken_in(
        literals(ascending::<ContractCall>(fx.contract_calls)),
        contracts,
        Seq::empty(),
        store,
    ) {
        Err(stop) => Err(stop),
        Ok((more, fresh)) => if fresh.len() == 0 {
            Ok((fx, contracts))
        } else {
            match contracts_settled(more, ROUND_LIMIT as nat) {
                None => Err(StopV::Unsettled),
                Some(known) => {
                    let next = resolve_step(fx, arg_contracts, known);
                    if next == fx {
                        Ok((fx, known))
                    } else {
                        resolved_onward(next, arg_contracts, known, store)
                    }
                },
            }
        },
    }
}

#[via_fn]
proof fn resolved_onward_decreases(
    fx: EffectsV,
    arg_contracts: Seq<Option<ContractIdV>>,
    contracts: ContractsV,
    store: StoreV,
) {
    lemma_onward(fx, contracts, store);
}

/// Where a contract is new, fewer are left to be read.
pub proof fn lemma_onward(fx: EffectsV, contracts: ContractsV, store: StoreV)
    requires
        store.dom().finite(),
    ensures
        outstanding(contracts, store).finite(),
        taken_in(
            literals(ascending::<ContractCall>(fx.contract_calls)),
            contracts,
            Seq::empty(),
            store,
        ) matches Ok((more, fresh)) ==> {
            &&& outstanding(more, store).finite()
            &&& fresh.len() > 0 ==> outstanding(more, store).len() < outstanding(
                contracts,
                store,
            ).len()
            &&& fresh.len() == 0 ==> more == contracts
            &&& contracts_settled(more, ROUND_LIMIT as nat) matches Some(known) ==> outstanding(
                known,
                store,
            ) == outstanding(more, store)
        },
{
    let ids = literals(ascending::<ContractCall>(fx.contract_calls));
    lemma_taken_in(ids, contracts, Seq::empty(), store);
    if let Ok((more, fresh)) = taken_in(ids, contracts, Seq::empty(), store) {
        if fresh.len() == 0 {
            assert(fresh =~= Seq::<ContractIdV>::empty());
        }
        law_contracts_settled_rest(more, ROUND_LIMIT as nat);
        if let Some(known) = contracts_settled(more, ROUND_LIMIT as nat) {
            assert(outstanding(known, store) =~= outstanding(more, store));
        }
    }
}

/// Effects with their calls replaced across contracts: first the contracts at
/// hand are settled, and then those that calls name are read as well.
pub open spec fn resolved_across(
    fx: EffectsV,
    arg_contracts: Seq<Option<ContractIdV>>,
    contracts: ContractsV,
    store: StoreV,
) -> Result<(EffectsV, ContractsV), StopV> {
    match contracts_settled(contracts, ROUND_LIMIT as nat) {
        None => Err(StopV::Unsettled),
        Some(known) => resolved_onward(
            resolve_step(fx, arg_contracts, known),
            arg_contracts,
            known,
            store,
        ),
    }
}

/// Replaces calls by their effects, reading the contracts they name, until there
/// is no further progress. The contracts that were read are added to those at
/// hand; where the work stops, they stay as they were.
pub fn resolve_contract_calls_across_contracts(
    effects: &FunctionEffects,
    arg_contracts: &[Option<QualifiedContractIdentifier>],
    contract_effects: &mut Contracts,
    store: &ContractStore,
) -> (r: Result<FunctionEffects, LoadStop>)
    ensures
        match r {
            Ok(resolved) => resolved_across(
                effects@,
                contract_args(arg_contracts@),
                old(contract_effects)@,
                store@,
            ) == Ok::<(EffectsV, ContractsV), StopV>((resolved@, final(contract_effects)@)),
            Err(stop) => resolved_across(
                effects@,
                contract_args(arg_contracts@),
                old(contract_effects)@,
                store@,
            ) == Err::<(EffectsV, ContractsV), StopV>(stop@) && final(contract_effects)@ == old(
                contract_effects,
            )@,
        },
{
    let ghost args = contract_args(arg_contracts@);
    let ghost goal = resolved_across(effects@, args, contract_effects@, store@);
    let mut known = contract_effects.duplicate();
    if !resolve_contract_effects_transitively(&mut known) {
        return Err(LoadStop::Unsettled);
    }
    let mut resolved = effects.resolve_contract_calls(arg_contracts, &known);
    let entries = store.len();
    proof {
        lemma_onward(resolved@, known@, store@);
    }
    loop
        invariant_except_break
            goal == resolved_onward(resolved@, args, known@, store@),
        invariant
            store@.dom().finite(),
            outstanding(known@, store@).finite(),
            contract_effects@ == old(contract_effects)@,
            args == contract_args(arg_contracts@),
            goal == resolved_across(effects@, args, old(contract_effects)@, store@),
        ensures
            contract_effects@ == old(contract_effects)@,
            goal == resolved_across(effects@, args, old(contract_effects)@, store@),
            goal == Ok::<(EffectsV, ContractsV), StopV>((resolved@, known@)),
        decreases outstanding(known@, store@).len(),
    {
        let ghost before = known@;
        let ghost fx = resolved@;
        let mut ids: Vec<QualifiedContractIdentifier> = Vec::new();
        literal_contracts(&resolved.contract_calls, &mut ids);
        let mut fresh: Vec<QualifiedContractIdentifier> = Vec::new();
        proof {
            assert(views(ids@) =~= literals(
                ascending::<ContractCall>(resolved@.contract_calls),
            ));
            assert(views(fresh@) =~= Seq::<ContractIdV>::empty());
            lemma_onward(fx, before, store@);
        }
        match take_in(&ids, &mut known, &mut fresh, store) {
            Err(stop) => {
                return Err(stop);
            },
            Ok(_) => {},
        }
        if fresh.len() == 0 {
            break ;
        }
        if !resolve_contract_effects_transitively(&mut known) {
            return Err(LoadStop::Unsettled);
        }
        let next = resolved.resolve_contract_calls(arg_contracts, &known);
        if next.same(&resolved) {
            break ;
        }
        resolved = next;
    }
    *contract_effects = known;
    Ok(resolved)
}

/// The effects after calls are replaced a number of times.
pub open spec fn replaced(
    fx: EffectsV,
    arg_contracts: Seq<Option<ContractIdV>>,
    contracts: ContractsV,
    times: nat,
) -> EffectsV
    decreases times,
{
    if times == 0 {
        fx
    } else {
        replaced(
            resolve_step(fx, arg_contracts, contracts),
            arg_contracts,
            contracts,
            (times - 1) as nat,
        )
    }
}

proof fn lemma_settles(
    fx: EffectsV,
    arg_contracts: Seq<Option<ContractIdV>>,
    contracts: ContractsV,
    times: nat,
    rounds: nat,
)
    requires
        times <= rounds,
        ({
            let r = replaced(fx, arg_contracts, contracts, times);
            resolve_step(r, arg_contracts, contracts) == r
        }),
    ensures
        settled(fx, arg_contracts, contracts, rounds) == Some(
            replaced(fx, arg_contracts, contracts, times),
        ),
    decreases times,
{
    let next = resolve_step(fx, arg_contracts, contracts);
    if next == fx {
        lemma_rests(fx, arg_contracts, contracts, times);
    } else {
        lemma_settles(next, arg_contracts, contracts, (times - 1) as nat, (rounds - 1) as nat);
    }
}

proof fn lemma_rests(
    fx: EffectsV,
    arg_contracts: Seq<Option<ContractIdV>>,
    contracts: ContractsV,
    times: nat,
)
    requires
        resolve_step(fx, arg_contracts, contracts) == fx,
    ensures
        replaced(fx, arg_contracts, contracts, times) == fx,
    decreases times,
{
    if times > 0 {
        lemma_rests(fx, arg_contracts, contracts, (times - 1) as nat);
    }
}

/// Effects are settled wherever replacing their calls comes to an end within as many
/// times as can be counted in 64 bits, and they are then what that gives.
pub proof fn law_effects_settle_where_they_can(
    fx: EffectsV,
    arg_contracts: Seq<Option<ContractIdV>>,
    contracts: ContractsV,
    times: nat,
)
    requires
        times <= 0xffff_ffff_ffff_ffff,
        ({
            let r = replaced(fx, arg_contracts, contracts, times);
            resolve_step(r, arg_contracts, contracts) == r
        }),
    ensures
        settled(fx, arg_contracts, contracts, ROUND_LIMIT as nat) == Some(
            replaced(fx, arg_contracts, contracts, times),
        ),
{
    lemma_settles(fx, arg_contracts, contracts, times, ROUND_LIMIT as nat);
}

/// The contracts after the calls of all their functions are replaced a number of times.
pub open spec fn all_replaced(contracts: ContractsV, times: nat) -> ContractsV
    decreases times,
{
    if times == 0 {
        contracts
    } else {
        all_replaced(contracts_resolved(contracts), (times - 1) as nat)
    }
}

proof fn lemma_all_rest(contracts: ContractsV, times: nat)
    requires
        contracts_resolved(contracts) == contracts,
    ensures
        all_replaced(contracts, times) == contracts,
    decreases times,
{
    if times > 0 {
        lemma_all_rest(contracts, (times - 1) as nat);
    }
}

proof fn lemma_all_settle(contracts: ContractsV, times: nat, rounds: nat)
    requires
        times <= rounds,
        contracts_resolved(all_replaced(contracts, times)) == all_replaced(contracts, times),
    ensures
        contracts_settled(contracts, rounds) == Some(all_replaced(contracts, times)),
    decreases times,
{
    let next = contracts_resolved(contracts);
    if next == contracts {
        lemma_all_rest(contracts, times);
    } else {
        lemma_all_settle(next, (times - 1) as nat, (rounds - 1) as nat);
    }
}

/// Contracts are settled wherever replacing all their calls comes to an end within as
/// many times as can be counted in 64 bits, and they are then what that gives. Each
/// time every function of every contract has its calls replaced by what the others do.
pub proof fn law_contracts_settle_where_they_can(
    contracts: ContractsV,
    times: nat,
    id: ContractIdV,
    f: NameV,
)
    requires
        times <= 0xffff_ffff_ffff_ffff,
        contracts_resolved(all_replaced(contracts, times)) == all_replaced(contracts, times),
    ensures
        contracts_settled(contracts, ROUND_LIMIT as nat) == Some(all_replaced(contracts, times)),
        contracts_resolved(contracts).contains_key(id) <==> contracts.contains_key(id),
        contracts.contains_key(id) ==> {
            &&& contracts_resolved(contracts)[id].contains_key(f) <==> contracts[id].contains_key(f)
            &&& contracts[id].contains_key(f) ==> contracts_resolved(contracts)[id][f]
                == resolve_step(contracts[id][f], Seq::empty(), contracts)
        },
{
    lemma_all_settle(contracts, times, ROUND_LIMIT as nat);
    assert(Seq::<Option<ContractIdV>>::empty() =~= seq![]);
}

} // verus!
