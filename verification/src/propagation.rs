//! Passing effects on along the calls between the functions of a contract.

use vstd::prelude::*;

use crate::effects::{EffectsV, FunctionEffects, Functions, FunctionsV, Purity};
use crate::ordered::{lemma_push_members, Data, OrderedMap, OrderedSet};
use crate::types::{CallV, ClarityName, NameV, TargetV};

verus! {

/// The functions that functions of the same contract call, by name.
pub type CallGraph = OrderedMap<ClarityName, OrderedSet<ClarityName>>;

pub type CallGraphV = Map<NameV, Set<NameV>>;

/// One effect: a read, a write, or a call.
pub ghost enum ItemV {
    Read(TargetV),
    Write(TargetV),
    Call(CallV),
}

/// An effect is among others.
pub open spec fn shows(fx: EffectsV, item: ItemV) -> bool {
    match item {
        ItemV::Read(t) => fx.reads.contains(t),
        ItemV::Write(t) => fx.writes.contains(t),
        ItemV::Call(c) => fx.contract_calls.contains(c),
    }
}

/// The effects of which a predicate says that they are there.
pub open spec fn effects_where(purity: Purity, p: spec_fn(ItemV) -> bool) -> EffectsV {
    EffectsV {
        purity,
        reads: Set::new(|t: TargetV| p(ItemV::Read(t))),
        writes: Set::new(|t: TargetV| p(ItemV::Write(t))),
        contract_calls: Set::new(|c: CallV| p(ItemV::Call(c))),
    }
}

/// A function calls another, and both have effects on record.
pub open spec fn calls_directly(
    functions: FunctionsV,
    graph: CallGraphV,
    f: NameV,
    g: NameV,
) -> bool {
    &&& functions.contains_key(f)
    &&& functions.contains_key(g)
    &&& graph.contains_key(f)
    &&& graph[f].contains(g)
}

/// A chain of functions, each of which calls the next.
pub open spec fn name_chain(functions: FunctionsV, graph: CallGraphV, path: Seq<NameV>) -> bool {
    &&& path.len() > 0
    &&& functions.contains_key(path[0])
    &&& forall|i: int|
        0 < i < path.len() ==> calls_directly(functions, graph, path[i - 1], #[trigger] path[i])
}

/// A function calls another, itself or through others; each function counts as
/// reached from itself.
pub open spec fn reaches(functions: FunctionsV, graph: CallGraphV, f: NameV, g: NameV) -> bool {
    exists|path: Seq<NameV>| #[trigger]
        name_chain(functions, graph, path) && path[0] == f && path.last() == g
}

/// The functions, each with the effects of all that it reaches.
pub open spec fn propagated(functions: FunctionsV, graph: CallGraphV) -> FunctionsV {
    Map::new(
        |f: NameV| functions.contains_key(f),
        |f: NameV|
            effects_where(
                functions[f].purity,
                |item: ItemV|
                    exists|g: NameV| #[trigger]
                        reaches(functions, graph, f, g) && shows(functions[g], item),
            ),
    )
}

/// The functions, each with the effects of those that it calls directly.
pub open spec fn propagated_once(functions: FunctionsV, graph: CallGraphV) -> FunctionsV {
    Map::new(
        |f: NameV| functions.contains_key(f),
        |f: NameV|
            effects_where(
                functions[f].purity,
                |item: ItemV|
                    shows(functions[f], item) || exists|g: NameV| #[trigger]
                        calls_directly(functions, graph, f, g) && shows(functions[g], item),
            ),
    )
}

/// Effects that agree in purity and in every effect are the same.
proof fn lemma_effects_equal(a: EffectsV, b: EffectsV)
    requires
        a.purity == b.purity,
        forall|item: ItemV| #[trigger] shows(a, item) == shows(b, item),
    ensures
        a == b,
{
    assert forall|t: TargetV| a.reads.contains(t) == b.reads.contains(t) by {
        assert(shows(a, ItemV::Read(t)) == shows(b, ItemV::Read(t)));
    }
    assert forall|t: TargetV| a.writes.contains(t) == b.writes.contains(t) by {
        assert(shows(a, ItemV::Write(t)) == shows(b, ItemV::Write(t)));
    }
    assert forall|c: CallV| a.contract_calls.contains(c) == b.contract_calls.contains(c) by {
        assert(shows(a, ItemV::Call(c)) == shows(b, ItemV::Call(c)));
    }
    assert(a =~= b);
}

pub proof fn lemma_reaches_self(functions: FunctionsV, graph: CallGraphV, f: NameV)
    requires
        functions.contains_key(f),
    ensures
        reaches(functions, graph, f, f),
{
    let path = seq![f];
    assert(name_chain(functions, graph, path) && path[0] == f && path.last() == f);
}

proof fn lemma_reaches_before(
    functions: FunctionsV,
    graph: CallGraphV,
    f: NameV,
    g: NameV,
    h: NameV,
)
    requires
        calls_directly(functions, graph, f, g),
        reaches(functions, graph, g, h),
    ensures
        reaches(functions, graph, f, h),
{
    let path = choose|path: Seq<NameV>| #[trigger]
        name_chain(functions, graph, path) && path[0] == g && path.last() == h;
    let longer = seq![f] + path;
    assert forall|i: int| 0 < i < longer.len() implies calls_directly(
        functions,
        graph,
        longer[i - 1],
        #[trigger] longer[i],
    ) by {
        assert(longer[i] == path[i - 1]);
        if i > 1 {
            assert(longer[i - 1] == path[i - 2]);
            assert(calls_directly(functions, graph, path[i - 1 - 1], path[i - 1]));
        }
    }
    assert(name_chain(functions, graph, longer) && longer[0] == f && longer.last() == h);
}

/// Functions on the way to the propagated ones: the same names and purities,
/// with the first effects and no more than the propagated ones.
spec fn on_the_way(functions: FunctionsV, graph: CallGraphV, current: FunctionsV) -> bool {
    &&& current.dom() == functions.dom()
    &&& forall|f: NameV| #[trigger]
        functions.contains_key(f) ==> current[f].purity == functions[f].purity
    &&& forall|f: NameV, item: ItemV|
        functions.contains_key(f) && shows(functions[f], item) ==> #[trigger] shows(current[f], item)
    &&& forall|f: NameV, item: ItemV|
        functions.contains_key(f) && #[trigger] shows(current[f], item) ==> shows(
            propagated(functions, graph)[f],
            item,
        )
}

proof fn lemma_once(functions: FunctionsV, graph: CallGraphV, current: FunctionsV)
    requires
        on_the_way(functions, graph, current),
    ensures
        on_the_way(functions, graph, propagated_once(current, graph)),
{
    let next = propagated_once(current, graph);
    let all = propagated(functions, graph);
    assert(next.dom() =~= functions.dom());
    assert forall|f: NameV, item: ItemV|
        functions.contains_key(f) && shows(functions[f], item) implies #[trigger] shows(
        next[f],
        item,
    ) by {
        assert(shows(current[f], item));
    }
    assert forall|f: NameV, item: ItemV|
        functions.contains_key(f) && #[trigger] shows(next[f], item) implies shows(all[f], item) by {
        if !shows(current[f], item) {
            let g = choose|g: NameV| #[trigger]
                calls_directly(current, graph, f, g) && shows(current[g], item);
            assert(calls_directly(functions, graph, f, g));
            assert(shows(all[g], item));
            let h = choose|h: NameV| #[trigger]
                reaches(functions, graph, g, h) && shows(functions[h], item);
            lemma_reaches_before(functions, graph, f, g, h);
        }
    }
}

proof fn lemma_closed_path(
    functions: FunctionsV,
    graph: CallGraphV,
    current: FunctionsV,
    path: Seq<NameV>,
    item: ItemV,
)
    requires
        on_the_way(functions, graph, current),
        propagated_once(current, graph) == current,
        name_chain(functions, graph, path),
        shows(functions[path.last()], item),
    ensures
        shows(current[path[0]], item),
    decreases path.len(),
{
    if path.len() > 1 {
        let rest = path.drop_first();
        assert(calls_directly(functions, graph, path[1 - 1], path[1]));
        assert forall|i: int| 0 < i < rest.len() implies calls_directly(
            functions,
            graph,
            rest[i - 1],
            #[trigger] rest[i],
        ) by {
            assert(rest[i] == path[i + 1] && rest[i - 1] == path[i]);
            assert(calls_directly(functions, graph, path[i + 1 - 1], path[i + 1]));
        }
        lemma_closed_path(functions, graph, current, rest, item);
        assert(calls_directly(current, graph, path[0], path[1]));
        assert(shows(propagated_once(current, graph)[path[0]], item));
    }
}

/// Once another round changes nothing, all effects have arrived.
proof fn lemma_arrived(functions: FunctionsV, graph: CallGraphV, current: FunctionsV)
    requires
        on_the_way(functions, graph, current),
        propagated_once(current, graph) == current,
    ensures
        current == propagated(functions, graph),
{
    let all = propagated(functions, graph);
    assert forall|f: NameV| #[trigger] functions.contains_key(f) implies current[f] == all[f] by {
        assert forall|item: ItemV| #[trigger] shows(current[f], item) == shows(all[f], item) by {
            if shows(all[f], item) {
                let g = choose|g: NameV| #[trigger]
                    reaches(functions, graph, f, g) && shows(functions[g], item);
                let path = choose|path: Seq<NameV>| #[trigger]
                    name_chain(functions, graph, path) && path[0] == f && path.last() == g;
                lemma_closed_path(functions, graph, current, path, item);
            }
        }
        lemma_effects_equal(current[f], all[f]);
    }
    assert(current =~= all);
}

/// Effects that are finitely many.
pub open spec fn finite_effects(fx: EffectsV) -> bool {
    &&& fx.reads.finite()
    &&& fx.writes.finite()
    &&& fx.contract_calls.finite()
}

/// Finitely many functions with finitely many effects.
pub open spec fn all_finite(functions: FunctionsV) -> bool {
    &&& functions.dom().finite()
    &&& forall|f: NameV| #[trigger] functions.contains_key(f) ==> finite_effects(functions[f])
}

/// The effects that some function of a set has.
spec fn items_of(functions: FunctionsV, names: Set<NameV>) -> Set<ItemV> {
    Set::new(
        |item: ItemV|
            exists|f: NameV| #[trigger]
                names.contains(f) && functions.contains_key(f) && shows(functions[f], item),
    )
}

proof fn lemma_items_finite(functions: FunctionsV, names: Set<NameV>)
    requires
        all_finite(functions),
        names.finite(),
    ensures
        items_of(functions, names).finite(),
    decreases names.len(),
{
    let all = items_of(functions, names);
    if names.len() == 0 {
        assert(all =~= Set::empty());
    } else {
        let f = names.choose();
        let rest = names.remove(f);
        lemma_items_finite(functions, rest);
        let part = items_of(functions, rest);
        if functions.contains_key(f) {
            let fx = functions[f];
            let read = |t: TargetV| ItemV::Read(t);
            let write = |t: TargetV| ItemV::Write(t);
            let call = |c: CallV| ItemV::Call(c);
            fx.reads.lemma_map_finite(read);
            fx.writes.lemma_map_finite(write);
            fx.contract_calls.lemma_map_finite(call);
            let own = fx.reads.map(read).union(fx.writes.map(write)).union(
                fx.contract_calls.map(call),
            );
            assert forall|item: ItemV| all.contains(item) implies part.union(own).contains(
                item,
            ) by {
                let g = choose|g: NameV| #[trigger]
                    names.contains(g) && functions.contains_key(g) && shows(functions[g], item);
                if g == f {
                    match item {
                        ItemV::Read(t) => {
                            assert(read(t) == item);
                        },
                        ItemV::Write(t) => {
                            assert(write(t) == item);
                        },
                        ItemV::Call(c) => {
                            assert(call(c) == item);
                        },
                    }
                } else {
                    assert(rest.contains(g));
                }
            }
            vstd::set_lib::lemma_set_subset_finite(part.union(own), all);
        } else {
            assert forall|item: ItemV| all.contains(item) implies part.contains(item) by {
                let g = choose|g: NameV| #[trigger]
                    names.contains(g) && functions.contains_key(g) && shows(functions[g], item);
                assert(rest.contains(g));
            }
            vstd::set_lib::lemma_set_subset_finite(part, all);
        }
    }
}

proof fn lemma_pairs_finite(names: Set<NameV>, items: Set<ItemV>)
    requires
        names.finite(),
        items.finite(),
    ensures
        Set::new(|p: (NameV, ItemV)| names.contains(p.0) && items.contains(p.1)).finite(),
    decreases names.len(),
{
    let all = Set::new(|p: (NameV, ItemV)| names.contains(p.0) && items.contains(p.1));
    if names.len() == 0 {
        assert(all =~= Set::empty());
    } else {
        let f = names.choose();
        let rest = names.remove(f);
        lemma_pairs_finite(rest, items);
        let part = Set::new(|p: (NameV, ItemV)| rest.contains(p.0) && items.contains(p.1));
        let with = |item: ItemV| (f, item);
        items.lemma_map_finite(with);
        assert forall|p: (NameV, ItemV)| all.contains(p) == part.union(items.map(with)).contains(
            p,
        ) by {
            if p.0 == f && items.contains(p.1) {
                assert(with(p.1) == p);
            }
        }
        assert(all =~= part.union(items.map(with)));
    }
}

/// The effects that have not arrived yet, each with the function that lacks it.
spec fn missing(functions: FunctionsV, graph: CallGraphV, current: FunctionsV) -> Set<
    (NameV, ItemV),
> {
    Set::new(
        |p: (NameV, ItemV)|
            functions.contains_key(p.0) && shows(propagated(functions, graph)[p.0], p.1) && !shows(
                current[p.0],
                p.1,
            ),
    )
}

proof fn lemma_missing(functions: FunctionsV, graph: CallGraphV, current: FunctionsV)
    requires
        all_finite(functions),
        on_the_way(functions, graph, current),
    ensures
        missing(functions, graph, current).finite(),
        propagated_once(current, graph) != current ==> missing(
            functions,
            graph,
            propagated_once(current, graph),
        ).len() < missing(functions, graph, current).len(),
{
    let all = propagated(functions, graph);
    let next = propagated_once(current, graph);
    let names = functions.dom();
    let items = items_of(functions, names);
    lemma_items_finite(functions, names);
    lemma_pairs_finite(names, items);
    let pairs = Set::new(|p: (NameV, ItemV)| names.contains(p.0) && items.contains(p.1));
    let before = missing(functions, graph, current);
    let after = missing(functions, graph, next);
    assert forall|p: (NameV, ItemV)| before.contains(p) implies pairs.contains(p) by {
        let g = choose|g: NameV| #[trigger]
            reaches(functions, graph, p.0, g) && shows(functions[g], p.1);
        lemma_reached_known(functions, graph, p.0, g);
        assert(names.contains(g));
    }
    vstd::set_lib::lemma_set_subset_finite(pairs, before);
    if next != current {
        lemma_once(functions, graph, current);
        if forall|f: NameV| #[trigger] functions.contains_key(f) ==> next[f] == current[f] {
            assert(next =~= current);
        }
        let f = choose|f: NameV| #[trigger] functions.contains_key(f) && next[f] != current[f];
        if forall|item: ItemV| #[trigger] shows(next[f], item) == shows(current[f], item) {
            lemma_effects_equal(next[f], current[f]);
        }
        let item = choose|item: ItemV| #[trigger] shows(next[f], item) != shows(current[f], item);
        let p = (f, item);
        assert(shows(next[f], item) && !shows(current[f], item));
        assert(before.contains(p));
        assert forall|q: (NameV, ItemV)| after.contains(q) implies before.remove(p).contains(q) by {
            assert(shows(current[q.0], q.1) ==> shows(next[q.0], q.1));
        }
        vstd::set_lib::lemma_len_subset(after, before.remove(p));
    }
}

pub proof fn lemma_reached_known(functions: FunctionsV, graph: CallGraphV, f: NameV, g: NameV)
    requires
        reaches(functions, graph, f, g),
    ensures
        functions.contains_key(f),
        functions.contains_key(g),
{
    let path = choose|path: Seq<NameV>| #[trigger]
        name_chain(functions, graph, path) && path[0] == f && path.last() == g;
    if path.len() > 1 {
        let n = path.len() - 1;
        assert(calls_directly(functions, graph, path[n - 1], path[n]));
    }
}

/// Walks the functions once, to learn that their effects are finitely many.
fn survey(functions: &Functions)
    ensures
        all_finite(functions@),
{
    let n = functions.len();
    let ghost keys = functions.keys_in_order();
    let mut i: usize = 0;
    while i < n
        invariant
            i <= n,
            n == keys.len(),
            keys == functions.keys_in_order(),
            functions@.dom().finite(),
            keys.to_set() == functions@.dom(),
            forall|j: int| 0 <= j < i ==> finite_effects(functions@[#[trigger] keys[j]]),
        decreases n - i,
    {
        let effects = functions.value(i);
        let reads = effects.reads.len();
        let writes = effects.writes.len();
        let calls = effects.contract_calls.len();
        i = i + 1;
    }
    proof {
        assert forall|f: NameV| #[trigger] functions@.contains_key(f) implies finite_effects(
            functions@[f],
        ) by {
            assert(keys.to_set().contains(f));
            let j = choose|j: int| 0 <= j < keys.len() && keys[j] == f;
        }
    }
}

/// The effects of a function with those of the functions that it calls.
fn effects_with_callees(
    effects: &FunctionEffects,
    callees: &OrderedSet<ClarityName>,
    functions: &Functions,
) -> (r: FunctionEffects)
    ensures
        r@ == effects_where(
            effects@.purity,
            |item: ItemV|
                shows(effects@, item) || exists|g: NameV| #[trigger]
                    callees@.contains(g) && functions@.contains_key(g) && shows(
                        functions@[g],
                        item,
                    ),
        ),
{
    let n = callees.len();
    let ghost names = callees.in_order();
    let mut r = effects.duplicate();
    let mut i: usize = 0;
    while i < n
        invariant
            i <= n,
            n == names.len(),
            names == callees.in_order(),
            r@.purity == effects@.purity,
            forall|item: ItemV| #[trigger]
                shows(r@, item) <==> shows(effects@, item) || exists|g: NameV| #[trigger]
                    names.take(i as int).contains(g) && functions@.contains_key(g) && shows(
                        functions@[g],
                        item,
                    ),
        decreases n - i,
    {
        let callee = callees.get(i);
        let ghost before = r@;
        if let Some(callee_effects) = functions.get(callee) {
            r.reads.absorb(&callee_effects.reads);
            r.writes.absorb(&callee_effects.writes);
            r.contract_calls.absorb(&callee_effects.contract_calls);
        }
        proof {
            let done = names.take(i as int);
            assert(names.take(i + 1) =~= done.push(callee@));
            assert forall|item: ItemV| #[trigger] shows(r@, item) <==> shows(effects@, item) || exists|
                g: NameV,
            | #[trigger]
                names.take(i + 1).contains(g) && functions@.contains_key(g) && shows(
                    functions@[g],
                    item,
                ) by {
                assert forall|g: NameV| #[trigger] names.take(i + 1).contains(g) == (done.contains(
                    g,
                ) || g == callee@) by {
                    lemma_push_members(done, callee@, g);
                }
                assert(shows(r@, item) == (shows(before, item) || functions@.contains_key(callee@)
                    && shows(functions@[callee@], item)));
                assert(names.take(i + 1).contains(callee@));
                if exists|g: NameV| #[trigger]
                    done.contains(g) && functions@.contains_key(g) && shows(functions@[g], item) {
                    let g = choose|g: NameV| #[trigger]
                        done.contains(g) && functions@.contains_key(g) && shows(
                            functions@[g],
                            item,
                        );
                    assert(names.take(i + 1).contains(g));
                }
            }
        }
        i = i + 1;
    }
    proof {
        assert(names.take(n as int) =~= names);
        let goal = effects_where(
            effects@.purity,
            |item: ItemV|
                shows(effects@, item) || exists|g: NameV| #[trigger]
                    callees@.contains(g) && functions@.contains_key(g) && shows(
                        functions@[g],
                        item,
                    ),
        );
        assert forall|g: NameV| callees@.contains(g) == #[trigger] names.contains(g) by {}
        assert forall|item: ItemV| #[trigger] shows(r@, item) == shows(goal, item) by {
            if shows(goal, item) && !shows(effects@, item) {
                let g = choose|g: NameV| #[trigger]
                    callees@.contains(g) && functions@.contains_key(g) && shows(
                        functions@[g],
                        item,
                    );
                assert(names.contains(g));
            }
        }
        lemma_effects_equal(r@, goal);
    }
    r
}

/// Passes the effects of each function on to those that call it, once.
fn propagate_once(functions: &Functions, graph: &CallGraph) -> (r: Functions)
    ensures
        r@ == propagated_once(functions@, graph@),
{
    let n = graph.len();
    let ghost keys = graph.keys_in_order();
    let ghost goal = propagated_once(functions@, graph@);
    let mut r = functions.duplicate();
    let mut i: usize = 0;
    while i < n
        invariant
            i <= n,
            n == keys.len(),
            keys == graph.keys_in_order(),
            keys.to_set() == graph@.dom(),
            goal == propagated_once(functions@, graph@),
            r@.dom() == functions@.dom(),
            forall|f: NameV| #[trigger]
                functions@.contains_key(f) ==> r@[f] == (if keys.take(i as int).contains(f) {
                    goal[f]
                } else {
                    functions@[f]
                }),
        decreases n - i,
    {
        let caller = graph.key(i);
        let ghost done = keys.take(i as int);
        proof {
            assert(keys.take(i + 1) =~= done.push(caller@));
            assert forall|f: NameV| #[trigger] keys.take(i + 1).contains(f) == (done.contains(f)
                || f == caller@) by {
                lemma_push_members(done, caller@, f);
            }
        }
        if let Some(effects) = functions.get(caller) {
            let with_callees = effects_with_callees(effects, graph.value(i), functions);
            proof {
                let f = caller@;
                assert forall|item: ItemV| #[trigger]
                    shows(with_callees@, item) == shows(goal[f], item) by {
                    if shows(with_callees@, item) && !shows(functions@[f], item) {
                        let g = choose|g: NameV| #[trigger]
                            graph@[f].contains(g) && functions@.contains_key(g) && shows(
                                functions@[g],
                                item,
                            );
                        assert(calls_directly(functions@, graph@, f, g));
                    }
                    if shows(goal[f], item) && !shows(functions@[f], item) {
                        let g = choose|g: NameV| #[trigger]
                            calls_directly(functions@, graph@, f, g) && shows(functions@[g], item);
                        assert(graph@[f].contains(g));
                    }
                }
                lemma_effects_equal(with_callees@, goal[f]);
            }
            r.insert(caller.duplicate(), with_callees);
            assert(r@.dom() =~= functions@.dom());
        }
        i = i + 1;
    }
    proof {
        assert(keys.take(n as int) =~= keys);
        assert forall|f: NameV| #[trigger] functions@.contains_key(f) implies r@[f] == goal[f] by {
            if !keys.contains(f) {
                assert(!graph@.contains_key(f)) by {
                    assert(keys.to_set().contains(f) == graph@.dom().contains(f));
                }
                assert forall|item: ItemV| #[trigger] shows(functions@[f], item) == shows(
                    goal[f],
                    item,
                ) by {}
                lemma_effects_equal(functions@[f], goal[f]);
            }
        }
        assert(r@ =~= goal);
    }
    r
}

/// Passes effects on until every function has the effects of all functions that
/// it reaches.
pub fn propagate(functions: &mut Functions, graph: &CallGraph)
    ensures
        final(functions)@ == propagated(old(functions)@, graph@),
{
    survey(functions);
    let ghost start = functions@;
    proof {
        assert forall|f: NameV, item: ItemV|
            start.contains_key(f) && #[trigger] shows(start[f], item) implies shows(
            propagated(start, graph@)[f],
            item,
        ) by {
            lemma_reaches_self(start, graph@, f);
        }
    }
    let mut current = functions.duplicate();
    loop
        invariant
            all_finite(start),
            start == old(functions)@,
            on_the_way(start, graph@, current@),
        ensures
            current@ == propagated(start, graph@),
            start == old(functions)@,
        decreases missing(start, graph@, current@).len(),
    {
        proof {
            lemma_missing(start, graph@, current@);
            lemma_once(start, graph@, current@);
        }
        let next = propagate_once(&current, graph);
        if next.same(&current) {
            proof {
                lemma_arrived(start, graph@, current@);
            }
            break ;
        }
        current = next;
    }
    *functions = current;
}

proof fn lemma_reaches_on(functions: FunctionsV, graph: CallGraphV, f: NameV, g: NameV, h: NameV)
    requires
        reaches(functions, graph, f, g),
        reaches(functions, graph, g, h),
    ensures
        reaches(functions, graph, f, h),
{
    let a = choose|path: Seq<NameV>| #[trigger]
        name_chain(functions, graph, path) && path[0] == f && path.last() == g;
    let b = choose|path: Seq<NameV>| #[trigger]
        name_chain(functions, graph, path) && path[0] == g && path.last() == h;
    let path = a + b.drop_first();
    assert forall|i: int| 0 < i < path.len() implies calls_directly(
        functions,
        graph,
        path[i - 1],
        #[trigger] path[i],
    ) by {
        if i < a.len() {
            assert(path[i] == a[i] && path[i - 1] == a[i - 1]);
        } else {
            let j = i - a.len() + 1;
            assert(path[i] == b[j]);
            assert(path[i - 1] == b[j - 1]);
            assert(calls_directly(functions, graph, b[j - 1], b[j]));
        }
    }
    assert(name_chain(functions, graph, path) && path[0] == f && path.last() == h);
}

/// Propagation keeps every function, its purity, and its effects.
pub proof fn law_propagation_keeps(functions: FunctionsV, graph: CallGraphV, f: NameV)
    requires
        functions.contains_key(f),
    ensures
        propagated(functions, graph).contains_key(f),
        propagated(functions, graph)[f].purity == functions[f].purity,
        propagated(functions, graph)[f].includes(functions[f]),
{
    lemma_reaches_self(functions, graph, f);
    lemma_includes(propagated(functions, graph)[f], functions[f]);
}

proof fn lemma_includes(a: EffectsV, b: EffectsV)
    requires
        forall|item: ItemV| #[trigger] shows(b, item) ==> shows(a, item),
    ensures
        a.includes(b),
{
    assert forall|t: TargetV| b.reads.contains(t) implies a.reads.contains(t) by {
        assert(shows(b, ItemV::Read(t)));
        assert(shows(a, ItemV::Read(t)));
    }
    assert forall|t: TargetV| b.writes.contains(t) implies a.writes.contains(t) by {
        assert(shows(b, ItemV::Write(t)));
        assert(shows(a, ItemV::Write(t)));
    }
    assert forall|c: CallV| b.contract_calls.contains(c) implies a.contract_calls.contains(c) by {
        assert(shows(b, ItemV::Call(c)));
        assert(shows(a, ItemV::Call(c)));
    }
}

/// After propagation a function has all effects of each function that it calls.
pub proof fn law_callers_have_effects_of_callees(
    functions: FunctionsV,
    graph: CallGraphV,
    f: NameV,
    g: NameV,
)
    requires
        calls_directly(functions, graph, f, g),
    ensures
        propagated(functions, graph)[f].includes(propagated(functions, graph)[g]),
{
    let all = propagated(functions, graph);
    assert forall|item: ItemV| #[trigger] shows(all[g], item) implies shows(all[f], item) by {
        let h = choose|h: NameV| #[trigger]
            reaches(functions, graph, g, h) && shows(functions[h], item);
        lemma_reaches_before(functions, graph, f, g, h);
    }
    lemma_includes(all[f], all[g]);
}

/// Propagating once more changes nothing.
pub proof fn law_propagation_rests(functions: FunctionsV, graph: CallGraphV)
    ensures
        propagated(propagated(functions, graph), graph) == propagated(functions, graph),
{
    let once = propagated(functions, graph);
    let twice = propagated(once, graph);
    assert forall|f: NameV, g: NameV| #[trigger] calls_directly(functions, graph, f, g)
        == calls_directly(once, graph, f, g) by {}
    assert forall|path: Seq<NameV>| name_chain(functions, graph, path) == #[trigger] name_chain(
        once,
        graph,
        path,
    ) by {
        if name_chain(functions, graph, path) {
            assert forall|i: int| 0 < i < path.len() implies calls_directly(
                once,
                graph,
                path[i - 1],
                #[trigger] path[i],
            ) by {
                assert(calls_directly(functions, graph, path[i - 1], path[i]));
            }
        }
        if name_chain(once, graph, path) {
            assert forall|i: int| 0 < i < path.len() implies calls_directly(
                functions,
                graph,
                path[i - 1],
                #[trigger] path[i],
            ) by {
                assert(calls_directly(once, graph, path[i - 1], path[i]));
            }
        }
    }
    assert forall|f: NameV| #[trigger] functions.contains_key(f) implies once[f] == twice[f] by {
        assert forall|item: ItemV| #[trigger] shows(once[f], item) == shows(twice[f], item) by {
            if shows(once[f], item) {
                lemma_reaches_self(once, graph, f);
            }
            if shows(twice[f], item) {
                let g = choose|g: NameV| #[trigger]
                    reaches(once, graph, f, g) && shows(once[g], item);
                lemma_reached_known(once, graph, f, g);
                let path = choose|path: Seq<NameV>| #[trigger]
                    name_chain(once, graph, path) && path[0] == f && path.last() == g;
                assert(name_chain(functions, graph, path));
                assert(reaches(functions, graph, f, g));
                let h = choose|h: NameV| #[trigger]
                    reaches(functions, graph, g, h) && shows(functions[h], item);
                lemma_reaches_on(functions, graph, f, g, h);
            }
        }
        lemma_effects_equal(once[f], twice[f]);
    }
    assert(once =~= twice);
}

} // verus!
