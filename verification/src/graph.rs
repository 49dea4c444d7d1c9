//! The calls that a function might lead to, across contracts.

use vstd::prelude::*;

use crate::effects::{Contracts, ContractsV};
use crate::ordered::{ascending, lemma_listed, lemma_push_members, views, Data, OrderedSet};
use crate::types::{
    CallV, ClarityName, ContractCall, ContractIdV, ContractRefV, ContractReference,
    FunctionReference, FunctionRefV, NameV, QualifiedContractIdentifier,
};

verus! {

/// A call that a function might make.
#[derive(Debug, Clone, PartialEq, Eq)]
pub struct CallGraphEdge {
    pub from_contract: QualifiedContractIdentifier,
    pub from_function: ClarityName,
    pub to_contract: ContractReference,
    pub to_function: ClarityName,
    pub certainty: &'static str,
}

pub ghost struct EdgeV {
    pub from_contract: ContractIdV,
    pub from_function: NameV,
    pub to_contract: ContractRefV,
    pub to_function: NameV,
    pub certainty: Seq<char>,
}

impl View for CallGraphEdge {
    type V = EdgeV;

    open spec fn view(&self) -> EdgeV {
        EdgeV {
            from_contract: self.from_contract@,
            from_function: self.from_function@,
            to_contract: self.to_contract@,
            to_function: self.to_function@,
            certainty: self.certainty@,
        }
    }
}

/// The edge of a call in a function.
pub open spec fn edge_of(from: FunctionRefV, call: CallV) -> EdgeV {
    EdgeV {
        from_contract: from.contract,
        from_function: from.function,
        to_contract: call.contract,
        to_function: call.function,
        certainty: "might"@,
    }
}

/// The edges of calls in a function, in the order of the calls.
pub open spec fn edges_of(from: FunctionRefV, calls: Seq<CallV>) -> Seq<EdgeV> {
    calls.map_values(|c: CallV| edge_of(from, c))
}

/// The functions that calls name literally, in the order of the calls.
pub open spec fn callees_in(calls: Seq<CallV>) -> Seq<FunctionRefV>
    decreases calls.len(),
{
    if calls.len() == 0 {
        Seq::empty()
    } else {
        match calls.last().contract {
            ContractRefV::Literal(id) => callees_in(calls.drop_last()).push(
                FunctionRefV { contract: id, function: calls.last().function },
            ),
            _ => callees_in(calls.drop_last()),
        }
    }
}

/// The contracts have this function.
pub open spec fn has_function(contracts: ContractsV, f: FunctionRefV) -> bool {
    contracts.contains_key(f.contract) && contracts[f.contract].contains_key(f.function)
}

/// The calls of a function, in order.
pub open spec fn calls_in(contracts: ContractsV, f: FunctionRefV) -> Seq<CallV> {
    ascending::<ContractCall>(contracts[f.contract][f.function].contract_calls)
}

/// The functions of the contracts that have not been visited.
pub open spec fn unvisited(contracts: ContractsV, visited: Set<FunctionRefV>) -> Set<FunctionRefV> {
    Set::new(|f: FunctionRefV| has_function(contracts, f) && !visited.contains(f))
}

/// The contracts are finitely many, with finitely many functions.
pub open spec fn finite_contracts(contracts: ContractsV) -> bool {
    &&& contracts.dom().finite()
    &&& forall|id: ContractIdV| #[trigger]
        contracts.contains_key(id) ==> contracts[id].dom().finite()
}

/// The edges that a search finds from the functions on a queue, taken from its
/// end, where some functions were visited before.
pub open spec fn searched(
    contracts: ContractsV,
    queue: Seq<FunctionRefV>,
    visited: Set<FunctionRefV>,
) -> Seq<EdgeV>
    decreases unvisited(contracts, visited).len(), queue.len(),
    when finite_contracts(contracts)
    via searched_decreases
{
    if queue.len() == 0 {
        Seq::empty()
    } else {
        let f = queue.last();
        let rest = queue.drop_last();
        if visited.contains(f) {
            searched(contracts, rest, visited)
        } else if !has_function(contracts, f) {
            searched(contracts, rest, visited.insert(f))
        } else {
            edges_of(f, calls_in(contracts, f)) + searched(
                contracts,
                rest + callees_in(calls_in(contracts, f)),
                visited.insert(f),
            )
        }
    }
}

#[via_fn]
proof fn searched_decreases(
    contracts: ContractsV,
    queue: Seq<FunctionRefV>,
    visited: Set<FunctionRefV>,
) {
    if queue.len() > 0 {
        lemma_visit(contracts, visited, queue.last());
    }
}

proof fn lemma_functions_finite(contracts: ContractsV, ids: Set<ContractIdV>)
    requires
        finite_contracts(contracts),
        ids.finite(),
        ids.subset_of(contracts.dom()),
    ensures
        Set::new(|f: FunctionRefV| ids.contains(f.contract) && has_function(contracts, f)).finite(),
    decreases ids.len(),
{
    let all = Set::new(
        |f: FunctionRefV| ids.contains(f.contract) && has_function(contracts, f),
    );
    if ids.len() == 0 {
        assert(all =~= Set::empty());
    } else {
        let id = ids.choose();
        let others = ids.remove(id);
        lemma_functions_finite(contracts, others);
        let part = Set::new(
            |f: FunctionRefV| others.contains(f.contract) && has_function(contracts, f),
        );
        let names = contracts[id].dom();
        let at = |name: NameV| FunctionRefV { contract: id, function: name };
        assert(contracts.contains_key(id));
        names.lemma_map_finite(at);
        assert forall|f: FunctionRefV| all.contains(f) == part.union(names.map(at)).contains(f) by {
            if f.contract == id && names.contains(f.function) {
                assert(at(f.function) == f);
            }
        }
        assert(all =~= part.union(names.map(at)));
    }
}

/// Visiting a function of the contracts leaves fewer to be visited.
proof fn lemma_visit(contracts: ContractsV, visited: Set<FunctionRefV>, f: FunctionRefV)
    requires
        finite_contracts(contracts),
    ensures
        unvisited(contracts, visited).finite(),
        unvisited(contracts, visited.insert(f)).finite(),
        has_function(contracts, f) && !visited.contains(f) ==> unvisited(
            contracts,
            visited.insert(f),
        ).len() < unvisited(contracts, visited).len(),
        !has_function(contracts, f) ==> unvisited(contracts, visited.insert(f)) == unvisited(
            contracts,
            visited,
        ),
{
    lemma_functions_finite(contracts, contracts.dom());
    let all = Set::new(
        |f: FunctionRefV| contracts.dom().contains(f.contract) && has_function(contracts, f),
    );
    let before = unvisited(contracts, visited);
    let after = unvisited(contracts, visited.insert(f));
    vstd::set_lib::lemma_set_subset_finite(all, before);
    vstd::set_lib::lemma_set_subset_finite(all, after);
    assert(after =~= before.remove(f));
}

/// Walks the contracts once, to learn that their functions are finitely many.
fn survey(contracts: &Contracts)
    ensures
        finite_contracts(contracts@),
{
    let n = contracts.len();
    let ghost keys = contracts.keys_in_order();
    let mut i: usize = 0;
    while i < n
        invariant
            i <= n,
            n == keys.len(),
            keys == contracts.keys_in_order(),
            contracts.values_in_order().len() == n,
            contracts@.dom().finite(),
            keys.to_set() == contracts@.dom(),
            forall|j: int|
                0 <= j < i ==> contracts@.contains_key(#[trigger] keys[j])
                    && contracts@[keys[j]].dom().finite(),
        decreases n - i,
    {
        let functions = contracts.value(i).len();
        i = i + 1;
    }
    proof {
        assert forall|id: ContractIdV| #[trigger]
            contracts@.contains_key(id) implies contracts@[id].dom().finite() by {
            assert(keys.to_set().contains(id));
            let j = choose|j: int| 0 <= j < keys.len() && keys[j] == id;
        }
    }
}

/// The edges of the calls in a function; the functions that the calls name are
/// queued.
fn follow_calls(
    f: &FunctionReference,
    calls: &OrderedSet<ContractCall>,
    edges: &mut Vec<CallGraphEdge>,
    queue: &mut Vec<FunctionReference>,
)
    ensures
        views(final(edges)@) == views(old(edges)@) + edges_of(
            f@,
            ascending::<ContractCall>(calls@),
        ),
        views(final(queue)@) == views(old(queue)@) + callees_in(ascending::<ContractCall>(calls@)),
{
    let n = calls.len();
    let ghost all = calls.in_order();
    let ghost edges_before = views(edges@);
    let ghost queue_before = views(queue@);
    let mut i: usize = 0;
    assert(views(edges@) =~= edges_before + edges_of(f@, all.take(0)));
    assert(views(queue@) =~= queue_before + callees_in(all.take(0)));
    while i < n
        invariant
            i <= n,
            n == all.len(),
            all == calls.in_order(),
            views(edges@) == edges_before + edges_of(f@, all.take(i as int)),
            views(queue@) == queue_before + callees_in(all.take(i as int)),
        decreases n - i,
    {
        let call = calls.get(i);
        let ghost edges_were = edges@;
        let ghost queue_was = queue@;
        edges.push(
            CallGraphEdge {
                from_contract: f.contract.duplicate(),
                from_function: f.function.duplicate(),
                to_contract: call.contract.duplicate(),
                to_function: call.function.duplicate(),
                certainty: "might",
            },
        );
        if let ContractReference::Literal(callee) = &call.contract {
            queue.push(
                FunctionReference {
                    contract: callee.duplicate(),
                    function: call.function.duplicate(),
                },
            );
        }
        proof {
            assert(views(edges@) =~= views(edges_were).push(edge_of(f@, call@)));
            assert(all.take(i + 1).drop_last() =~= all.take(i as int));
            assert(edges_of(f@, all.take(i + 1)) =~= edges_of(f@, all.take(i as int)).push(
                edge_of(f@, call@),
            ));
            if let ContractRefV::Literal(id) = call@.contract {
                assert(views(queue@) =~= views(queue_was).push(
                    FunctionRefV { contract: id, function: call@.function },
                ));
            }
            assert(views(edges@) =~= edges_before + edges_of(f@, all.take(i + 1)));
            assert(views(queue@) =~= queue_before + callees_in(all.take(i + 1)));
        }
        i = i + 1;
    }
    assert(all.take(n as int) =~= all);
}

/// The calls that a function might lead to: its own, and those of the functions
/// that it calls in contracts at hand.
pub fn build_contract_call_graph(
    root_contract: &QualifiedContractIdentifier,
    root_function: &ClarityName,
    contracts: &Contracts,
) -> (r: Vec<CallGraphEdge>)
    ensures
        views(r@) == searched(
            contracts@,
            seq![FunctionRefV { contract: root_contract@, function: root_function@ }],
            Set::empty(),
        ),
{
    survey(contracts);
    let mut edges: Vec<CallGraphEdge> = Vec::new();
    let mut visited: OrderedSet<FunctionReference> = OrderedSet::new();
    let mut queue: Vec<FunctionReference> = Vec::new();
    queue.push(
        FunctionReference {
            contract: root_contract.duplicate(),
            function: root_function.duplicate(),
        },
    );
    let ghost goal = searched(
        contracts@,
        seq![FunctionRefV { contract: root_contract@, function: root_function@ }],
        Set::empty(),
    );
    proof {
        assert(views(queue@) =~= seq![
            FunctionRefV { contract: root_contract@, function: root_function@ },
        ]);
        assert(views(edges@) + goal =~= goal);
    }
    while queue.len() > 0
        invariant
            finite_contracts(contracts@),
            goal == views(edges@) + searched(contracts@, views(queue@), visited@),
        decreases unvisited(contracts@, visited@).len(), queue.len(),
    {
        let ghost before = views(queue@);
        let ghost edges_before = views(edges@);
        let ghost seen = visited@;
        if let Some(f) = queue.pop() {
            proof {
                assert(views(queue@) =~= before.drop_last());
                assert(before.last() == f@);
                lemma_visit(contracts@, seen, f@);
            }
            if visited.insert(f.duplicate()) {
                if let Some(functions) = contracts.get(&f.contract) {
                    if let Some(effects) = functions.get(&f.function) {
                        follow_calls(&f, &effects.contract_calls, &mut edges, &mut queue);
                    }
                }
            } else {
                assert(visited@ =~= seen);
            }
            proof {
                if !seen.contains(f@) && has_function(contracts@, f@) {
                    let calls = calls_in(contracts@, f@);
                    let more = searched(
                        contracts@,
                        before.drop_last() + callees_in(calls),
                        seen.insert(f@),
                    );
                    assert(edges_before + (edges_of(f@, calls) + more) =~= (edges_before
                        + edges_of(f@, calls)) + more);
                }
            }
        }
    }
    proof {
        assert(views(queue@) =~= Seq::<FunctionRefV>::empty());
        assert(goal =~= views(edges@));
    }
    edges
}

/// One function makes a call that names the other literally.
pub open spec fn calls_function(contracts: ContractsV, f: FunctionRefV, g: FunctionRefV) -> bool {
    &&& has_function(contracts, f)
    &&& exists|c: CallV| #[trigger]
        contracts[f.contract][f.function].contract_calls.contains(c) && c.contract
            == ContractRefV::Literal(g.contract) && c.function == g.function
}

/// A chain of functions, each of which calls the next.
pub open spec fn function_chain(contracts: ContractsV, path: Seq<FunctionRefV>) -> bool {
    &&& path.len() > 0
    &&& forall|i: int|
        0 < i < path.len() ==> calls_function(contracts, path[i - 1], #[trigger] path[i])
}

/// A chain of calls leads from one function to the other.
pub open spec fn leads_to(contracts: ContractsV, f: FunctionRefV, g: FunctionRefV) -> bool {
    exists|path: Seq<FunctionRefV>| #[trigger]
        function_chain(contracts, path) && path[0] == f && path.last() == g
}

/// The contracts are finitely many, with finitely many functions that make
/// finitely many calls.
pub open spec fn finite_calls(contracts: ContractsV) -> bool {
    &&& finite_contracts(contracts)
    &&& forall|f: FunctionRefV| #[trigger]
        has_function(contracts, f)
            ==> contracts[f.contract][f.function].contract_calls.finite()
}

proof fn lemma_callees_in(calls: Seq<CallV>, g: FunctionRefV)
    ensures
        callees_in(calls).contains(g) <==> exists|c: CallV| #[trigger]
            calls.contains(c) && c.contract == ContractRefV::Literal(g.contract) && c.function
                == g.function,
    decreases calls.len(),
{
    if calls.len() > 0 {
        let rest = calls.drop_last();
        let last = calls.last();
        lemma_callees_in(rest, g);
        assert(calls =~= rest.push(last));
        assert forall|c: CallV| #[trigger] calls.contains(c) == (rest.contains(c) || c == last) by {
            lemma_push_members(rest, last, c);
        }
        assert(calls.contains(last));
        if let ContractRefV::Literal(id) = last.contract {
            lemma_push_members(
                callees_in(rest),
                FunctionRefV { contract: id, function: last.function },
                g,
            );
        }
        if exists|c: CallV| #[trigger]
            rest.contains(c) && c.contract == ContractRefV::Literal(g.contract) && c.function
                == g.function {
            let c = choose|c: CallV| #[trigger]
                rest.contains(c) && c.contract == ContractRefV::Literal(g.contract) && c.function
                    == g.function;
            assert(calls.contains(c));
        }
    }
}

/// The list of callees of a function holds exactly those that it calls.
proof fn lemma_function_callees(contracts: ContractsV, f: FunctionRefV, g: FunctionRefV)
    requires
        finite_calls(contracts),
        has_function(contracts, f),
    ensures
        callees_in(calls_in(contracts, f)).contains(g) <==> calls_function(contracts, f, g),
        forall|c: CallV|
            calls_in(contracts, f).contains(c)
                <==> #[trigger] contracts[f.contract][f.function].contract_calls.contains(c),
{
    let set = contracts[f.contract][f.function].contract_calls;
    let calls = calls_in(contracts, f);
    lemma_listed::<ContractCall>(set);
    assert forall|c: CallV| calls.contains(c) <==> #[trigger] set.contains(c) by {
        assert(calls.to_set().contains(c) == set.contains(c));
    }
    lemma_callees_in(calls, g);
    if callees_in(calls).contains(g) {
        let c = choose|c: CallV| #[trigger]
            calls.contains(c) && c.contract == ContractRefV::Literal(g.contract) && c.function
                == g.function;
        assert(set.contains(c));
    }
    if calls_function(contracts, f, g) {
        let c = choose|c: CallV| #[trigger]
            set.contains(c) && c.contract == ContractRefV::Literal(g.contract) && c.function
                == g.function;
        assert(calls.contains(c));
    }
}

/// An edge of a search comes from a call of a function that the root leads to.
pub open spec fn edge_is_call(contracts: ContractsV, root: FunctionRefV, e: EdgeV) -> bool {
    exists|f: FunctionRefV, c: CallV|
        #![trigger edge_of(f, c)]
        leads_to(contracts, root, f) && has_function(contracts, f)
            && contracts[f.contract][f.function].contract_calls.contains(c) && e == edge_of(f, c)
}

proof fn lemma_searched_edges(
    contracts: ContractsV,
    queue: Seq<FunctionRefV>,
    visited: Set<FunctionRefV>,
    root: FunctionRefV,
)
    requires
        finite_calls(contracts),
        forall|i: int| 0 <= i < queue.len() ==> leads_to(contracts, root, #[trigger] queue[i]),
    ensures
        forall|i: int|
            0 <= i < searched(contracts, queue, visited).len() ==> edge_is_call(
                contracts,
                root,
                #[trigger] searched(contracts, queue, visited)[i],
            ),
    decreases unvisited(contracts, visited).len(), queue.len(),
{
    if queue.len() > 0 {
        let f = queue.last();
        let rest = queue.drop_last();
        lemma_visit(contracts, visited, f);
        assert forall|i: int| 0 <= i < rest.len() implies leads_to(
            contracts,
            root,
            #[trigger] rest[i],
        ) by {
            assert(rest[i] == queue[i]);
        }
        if visited.contains(f) {
            lemma_searched_edges(contracts, rest, visited, root);
            assert(searched(contracts, queue, visited) == searched(contracts, rest, visited));
        } else if !has_function(contracts, f) {
            lemma_searched_edges(contracts, rest, visited.insert(f), root);
            assert(searched(contracts, queue, visited) == searched(
                contracts,
                rest,
                visited.insert(f),
            ));
        } else {
            let calls = calls_in(contracts, f);
            let next = rest + callees_in(calls);
            assert(leads_to(contracts, root, queue[queue.len() - 1]));
            let path = choose|path: Seq<FunctionRefV>| #[trigger]
                function_chain(contracts, path) && path[0] == root && path.last() == f;
            assert forall|i: int| 0 <= i < next.len() implies leads_to(
                contracts,
                root,
                #[trigger] next[i],
            ) by {
                if i < rest.len() {
                    assert(next[i] == rest[i]);
                } else {
                    let g = next[i];
                    assert(g == callees_in(calls)[i - rest.len()]);
                    lemma_function_callees(contracts, f, g);
                    let longer = path.push(g);
                    assert forall|k: int| 0 < k < longer.len() implies calls_function(
                        contracts,
                        longer[k - 1],
                        #[trigger] longer[k],
                    ) by {
                        if k < path.len() {
                            assert(longer[k] == path[k] && longer[k - 1] == path[k - 1]);
                        } else {
                            assert(longer[k - 1] == path.last());
                        }
                    }
                    assert(function_chain(contracts, longer) && longer[0] == root && longer.last()
                        == g);
                }
            }
            lemma_searched_edges(contracts, next, visited.insert(f), root);
            let own = edges_of(f, calls);
            let more = searched(contracts, next, visited.insert(f));
            let edges = searched(contracts, queue, visited);
            assert(edges == own + more);
            assert forall|i: int| 0 <= i < edges.len() implies edge_is_call(
                contracts,
                root,
                #[trigger] edges[i],
            ) by {
                if i < own.len() {
                    lemma_function_callees(contracts, f, f);
                    assert(calls.contains(calls[i]));
                    assert(edges[i] == edge_of(f, calls[i]));
                } else {
                    assert(edges[i] == more[i - own.len()]);
                }
            }
        }
    }
}

/// The last place of an element.
proof fn lemma_last_place(path: Seq<FunctionRefV>, f: FunctionRefV) -> (k: int)
    requires
        path.contains(f),
    ensures
        0 <= k < path.len(),
        path[k] == f,
        forall|j: int| k < j < path.len() ==> #[trigger] path[j] != f,
    decreases path.len(),
{
    let n = path.len() - 1;
    if path[n] == f {
        n
    } else {
        let i = choose|i: int| 0 <= i < path.len() && path[i] == f;
        let rest = path.drop_last();
        assert(rest[i] == f);
        let k = lemma_last_place(rest, f);
        assert forall|j: int| k < j < path.len() implies #[trigger] path[j] != f by {
            if j < n {
                assert(path[j] == rest[j]);
            }
        }
        k
    }
}

proof fn lemma_searched_all(
    contracts: ContractsV,
    queue: Seq<FunctionRefV>,
    visited: Set<FunctionRefV>,
    path: Seq<FunctionRefV>,
    call: CallV,
)
    requires
        finite_calls(contracts),
        function_chain(contracts, path),
        queue.contains(path[0]),
        forall|i: int| 0 <= i < path.len() ==> !visited.contains(#[trigger] path[i]),
        has_function(contracts, path.last()),
        contracts[path.last().contract][path.last().function].contract_calls.contains(call),
    ensures
        searched(contracts, queue, visited).contains(edge_of(path.last(), call)),
    decreases unvisited(contracts, visited).len(), queue.len(),
{
    let f = queue.last();
    let rest = queue.drop_last();
    lemma_visit(contracts, visited, f);
    assert(queue =~= rest.push(f));
    lemma_push_members(rest, f, path[0]);
    if visited.contains(f) {
        lemma_searched_all(contracts, rest, visited, path, call);
    } else if !has_function(contracts, f) {
        assert forall|i: int| 0 <= i < path.len() implies !visited.insert(f).contains(
            #[trigger] path[i],
        ) by {
            if path[i] == f && i + 1 < path.len() {
                assert(calls_function(contracts, path[i + 1 - 1], path[i + 1]));
            }
        }
        lemma_searched_all(contracts, rest, visited.insert(f), path, call);
    } else {
        let calls = calls_in(contracts, f);
        let next = rest + callees_in(calls);
        let own = edges_of(f, calls);
        let more = searched(contracts, next, visited.insert(f));
        assert(searched(contracts, queue, visited) == own + more);
        let e = edge_of(path.last(), call);
        if path.contains(f) {
            let k = lemma_last_place(path, f);
            if k == path.len() - 1 {
                lemma_function_callees(contracts, f, f);
                assert(calls.contains(call));
                let i = choose|i: int| 0 <= i < calls.len() && calls[i] == call;
                assert((own + more)[i] == e);
            } else {
                let tail = path.skip(k + 1);
                assert(calls_function(contracts, path[k + 1 - 1], path[k + 1]));
                lemma_function_callees(contracts, f, path[k + 1]);
                let i = choose|i: int|
                    0 <= i < callees_in(calls).len() && callees_in(calls)[i] == path[k + 1];
                assert(next[rest.len() + i] == tail[0]);
                assert forall|j: int| 0 < j < tail.len() implies calls_function(
                    contracts,
                    tail[j - 1],
                    #[trigger] tail[j],
                ) by {
                    assert(tail[j] == path[k + 1 + j] && tail[j - 1] == path[k + 1 + j - 1]);
                }
                assert forall|j: int| 0 <= j < tail.len() implies !visited.insert(f).contains(
                    #[trigger] tail[j],
                ) by {
                    assert(tail[j] == path[k + 1 + j]);
                }
                lemma_searched_all(contracts, next, visited.insert(f), tail, call);
                let j = choose|j: int| 0 <= j < more.len() && more[j] == e;
                assert((own + more)[own.len() + j] == e);
            }
        } else {
            let i = choose|i: int| 0 <= i < rest.len() && rest[i] == path[0];
            assert(next[i] == path[0]);
            assert forall|j: int| 0 <= j < path.len() implies !visited.insert(f).contains(
                #[trigger] path[j],
            ) by {
                assert(path.contains(path[j]));
            }
            lemma_searched_all(contracts, next, visited.insert(f), path, call);
            let j = choose|j: int| 0 <= j < more.len() && more[j] == e;
            assert((own + more)[own.len() + j] == e);
        }
    }
}

/// The call graph of a function holds exactly the calls of the functions that a
/// chain of calls leads to from it.
pub proof fn law_call_graph(contracts: ContractsV, root: FunctionRefV, e: EdgeV)
    requires
        finite_calls(contracts),
    ensures
        searched(contracts, seq![root], Set::empty()).contains(e) <==> edge_is_call(
            contracts,
            root,
            e,
        ),
{
    let queue = seq![root];
    let edges = searched(contracts, queue, Set::empty());
    if edges.contains(e) {
        assert(function_chain(contracts, queue) && queue[0] == root && queue.last() == root);
        lemma_searched_edges(contracts, queue, Set::empty(), root);
        let i = choose|i: int| 0 <= i < edges.len() && edges[i] == e;
    }
    if edge_is_call(contracts, root, e) {
        let (f, c) = choose|f: FunctionRefV, c: CallV|
            #![trigger edge_of(f, c)]
            leads_to(contracts, root, f) && has_function(contracts, f)
                && contracts[f.contract][f.function].contract_calls.contains(c) && e == edge_of(
                f,
                c,
            );
        let path = choose|path: Seq<FunctionRefV>| #[trigger]
            function_chain(contracts, path) && path[0] == root && path.last() == f;
        assert(queue[0] == path[0]);
        lemma_searched_all(contracts, queue, Set::empty(), path, c);
    }
}

} // verus!
