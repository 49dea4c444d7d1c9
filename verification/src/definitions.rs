//! What the definitions of a contract come to in its analysis.

use vstd::prelude::*;

use crate::analysis::{
    analyzed, body_trace, collected, defines, fresh_analyzer, function_in, functions_settled,
    parameters_in, passed_on, signature_parameters, walked,
};
use crate::analyzer::{principal_in, trace, AnalyzerV, TraceV};
use crate::contracts::{law_settled_keeps, reached, settled, StopV, StoreV, ROUND_LIMIT};
use crate::effects::{law_nothing_to_replace, EffectsV, Purity};
use crate::propagation::{
    calls_directly, lemma_reached_known, name_chain, propagated, reaches, shows, ItemV,
};
use crate::syntax::{
    CheckErrorV, ContractAnalysis, DefineFunctionsParsed, SymbolicExpression, TopLevel,
};
use crate::types::{CallV, NameV, PrincipalRefV, TargetV};
use crate::walking::{holds, FoundV};

verus! {

/// An expression declares a parameter.
pub open spec fn declares(e: SymbolicExpression, name: NameV) -> bool {
    e matches SymbolicExpression::List(list) && list@.len() > 0 && (
    list@[0] matches SymbolicExpression::Atom(n) && n@ == name)
}

proof fn lemma_declared(list: Seq<SymbolicExpression>, name: NameV)
    ensures
        parameters_in(list).contains_key(name) <==> exists|k: int|
            0 <= k < list.len() && declares(#[trigger] list[k], name),
    decreases list.len(),
{
    if list.len() > 0 {
        let before = list.drop_last();
        let last = list.len() - 1;
        lemma_declared(before, name);
        if parameters_in(before).contains_key(name) {
            let k = choose|k: int| 0 <= k < before.len() && declares(#[trigger] before[k], name);
            assert(declares(list[k], name));
        }
        if exists|k: int| 0 <= k < list.len() && declares(#[trigger] list[k], name) {
            let k = choose|k: int| 0 <= k < list.len() && declares(#[trigger] list[k], name);
            if k < last {
                assert(declares(before[k], name));
            }
        }
        if declares(list[last], name) {
            assert(parameters_in(list).contains_key(name));
        }
    }
}

proof fn lemma_numbered(list: Seq<SymbolicExpression>, name: NameV, k: int)
    requires
        0 <= k < list.len(),
        k <= u32::MAX,
        declares(list[k], name),
        forall|j: int| k < j < list.len() ==> !declares(#[trigger] list[j], name),
    ensures
        parameters_in(list).contains_key(name),
        parameters_in(list)[name] == k,
    decreases list.len(),
{
    let last = list.len() - 1;
    if k < last {
        let before = list.drop_last();
        assert(declares(before[k], name));
        assert forall|j: int| k < j < before.len() implies !declares(
            #[trigger] before[j],
            name,
        ) by {
            assert(!declares(list[j], name));
        }
        lemma_numbered(before, name, k);
        assert(!declares(list[last], name));
    }
}

/// The parameters of a function are numbered in the order in which its signature
/// declares them behind its name, from zero on; nothing else is a parameter.
pub proof fn law_parameters_are_numbered(
    signature: Seq<SymbolicExpression>,
    name: NameV,
    k: int,
)
    ensures
        signature_parameters(signature).contains_key(name) <==> exists|j: int|
            1 <= j < signature.len() && declares(#[trigger] signature[j], name),
        1 <= k < signature.len() && k - 1 <= u32::MAX && declares(signature[k], name) && (forall|
            j: int,
        |
            k < j < signature.len() ==> !declares(#[trigger] signature[j], name))
            ==> signature_parameters(signature)[name] == k - 1,
{
    if signature.len() > 0 {
        let list = signature.subrange(1, signature.len() as int);
        lemma_declared(list, name);
        assert(forall|j: int| 0 <= j < list.len() ==> #[trigger] list[j] == signature[j + 1]);
        if exists|j: int| 1 <= j < signature.len() && declares(#[trigger] signature[j], name) {
            let j = choose|j: int|
                1 <= j < signature.len() && declares(#[trigger] signature[j], name);
            assert(declares(list[j - 1], name));
        }
        if exists|j: int| 0 <= j < list.len() && declares(#[trigger] list[j], name) {
            let j = choose|j: int| 0 <= j < list.len() && declares(#[trigger] list[j], name);
            assert(declares(signature[j + 1], name));
        }
        if 1 <= k < signature.len() && k - 1 <= u32::MAX && declares(signature[k], name) && (forall|
            j: int,
        |
            k < j < signature.len() ==> !declares(#[trigger] signature[j], name)) {
            assert(declares(list[k - 1], name));
            assert forall|j: int| k - 1 < j < list.len() implies !declares(
                #[trigger] list[j],
                name,
            ) by {
                assert(!declares(signature[j + 1], name));
            }
            lemma_numbered(list, name, k - 1);
        }
    }
}

/// An item defines a function with this signature and this body: a public, a
/// read-only or a private one.
pub open spec fn is_function(
    item: TopLevel,
    signature: Seq<SymbolicExpression>,
    body: SymbolicExpression,
) -> bool {
    item matches TopLevel::Definition(definition) && {
        ||| definition matches DefineFunctionsParsed::PublicFunction { signature: s, body: b } && s@
            == signature && b == body
        ||| definition matches DefineFunctionsParsed::ReadOnlyFunction { signature: s, body: b }
            && s@ == signature && b == body
        ||| definition matches DefineFunctionsParsed::PrivateFunction { signature: s, body: b }
            && s@ == signature && b == body
    }
}

/// An item defines a function of this name.
pub open spec fn is_function_named(
    item: TopLevel,
    f: NameV,
    signature: Seq<SymbolicExpression>,
    body: SymbolicExpression,
) -> bool {
    is_function(item, signature, body) && signature.len() > 0 && (
    signature[0] matches SymbolicExpression::Atom(name) && name@ == f)
}

proof fn lemma_is_function(item: TopLevel, f: NameV)
    ensures
        forall|signature: Seq<SymbolicExpression>, body: SymbolicExpression| #[trigger]
            is_function(item, signature, body) <==> function_in(item) == Some((signature, body)),
        defines(item, f) <==> exists|signature: Seq<SymbolicExpression>, body: SymbolicExpression|
            #[trigger] is_function_named(item, f, signature, body),
{
    if defines(item, f) {
        let (signature, body) = function_in(item)->0;
        assert(is_function_named(item, f, signature, body));
    }
}

/// The definition of a function that counts: the last of its name.
pub open spec fn counts_for(
    items: Seq<TopLevel>,
    i: int,
    f: NameV,
    signature: Seq<SymbolicExpression>,
    body: SymbolicExpression,
) -> bool {
    &&& 0 <= i < items.len()
    &&& is_function_named(items[i], f, signature, body)
    &&& forall|j: int, s: Seq<SymbolicExpression>, b: SymbolicExpression|
        i < j < items.len() ==> !#[trigger] is_function_named(items[j], f, s, b)
}

/// The items define a function.
pub open spec fn function_defined(items: Seq<TopLevel>, f: NameV) -> bool {
    exists|i: int, signature: Seq<SymbolicExpression>, body: SymbolicExpression|
        0 <= i < items.len() && #[trigger] is_function_named(items[i], f, signature, body)
}

/// Collecting a contract keeps what contract it is and which functions are native,
/// and makes the functions known that are defined, and no others. Where the contract
/// is accepted each of its functions gets effects on record.
pub proof fn law_collecting_makes_functions_known(
    items: Seq<TopLevel>,
    start: AnalyzerV,
    f: NameV,
)
    requires
        collected(items, start).1 is None,
    ensures
        ({
            let a = collected(items, start).0.analyzer;
            &&& a.contract == start.contract
            &&& a.clarity_version == start.clarity_version
            &&& a.natives == start.natives
            &&& a.call_graph == start.call_graph
            &&& a.known_functions.contains(f) <==> start.known_functions.contains(f)
                || function_defined(items, f)
            &&& a.function_effects.contains_key(f) <==> start.function_effects.contains_key(f)
                || function_defined(items, f)
            &&& a.function_effects.contains_key(f) ==> a.function_effects[f] == (
            if start.function_effects.contains_key(f) {
                start.function_effects[f]
            } else {
                EffectsV {
                    purity: Purity::Pure,
                    reads: Set::empty(),
                    writes: Set::empty(),
                    contract_calls: Set::empty(),
                }
            })
        }),
    decreases items.len(),
{
    if items.len() > 0 {
        let before = items.drop_last();
        let last = items.len() - 1;
        law_collecting_makes_functions_known(before, start, f);
        lemma_is_function(items[last], f);
        if function_defined(before, f) {
            let (i, s, b) = choose|i: int, s: Seq<SymbolicExpression>, b: SymbolicExpression|
                0 <= i < before.len() && #[trigger] is_function_named(before[i], f, s, b);
            assert(is_function_named(items[i], f, s, b));
        }
        if function_defined(items, f) {
            let (i, s, b) = choose|i: int, s: Seq<SymbolicExpression>, b: SymbolicExpression|
                0 <= i < items.len() && #[trigger] is_function_named(items[i], f, s, b);
            if i < last {
                assert(is_function_named(before[i], f, s, b));
            } else {
                assert(defines(items[last], f));
            }
        }
        if defines(items[last], f) {
            let (s, b) = choose|s: Seq<SymbolicExpression>, b: SymbolicExpression| #[trigger]
                is_function_named(items[last], f, s, b);
            assert(is_function_named(items[last], f, s, b));
        }
    }
}

/// Constants are known in the order of their definitions: one that stands for a
/// principal, seen with those before it, is known for that principal, and all other
/// items change no constant.
pub proof fn law_constants_are_known(items: Seq<TopLevel>, last: TopLevel, start: AnalyzerV)
    requires
        collected(items.push(last), start).1 is None,
    ensures
        collected(Seq::empty(), start).0.analyzer.principal_constants == start.principal_constants,
        ({
            let before = collected(items, start).0.analyzer;
            let after = collected(items.push(last), start).0.analyzer.principal_constants;
            match last {
                TopLevel::Definition(DefineFunctionsParsed::Constant { name, value }) => {
                    let p = principal_in(value, before.scope(Map::empty()), Map::empty());
                    &&& p != PrincipalRefV::Any ==> after == before.principal_constants.insert(
                        name@,
                        p,
                    )
                    &&& p == PrincipalRefV::Any ==> after == before.principal_constants
                },
                _ => after == before.principal_constants,
            }
        }),
{
    assert(items.push(last).drop_last() =~= items);
    assert(items.push(last).last() == last);
}

/// An item is accepted: it is well formed, and if it defines a function, its
/// signature begins with a name.
pub open spec fn is_accepted(item: TopLevel) -> bool {
    &&& !(item is Invalid)
    &&& forall|signature: Seq<SymbolicExpression>, body: SymbolicExpression| #[trigger]
        is_function(item, signature, body) ==> signature.len() > 0 && signature[0] is Atom
}

/// A contract is refused exactly if one of its items is not accepted, and for the
/// first that is not: with its own message where it is not well formed, and else
/// because of its signature.
pub proof fn law_contracts_are_refused_for_their_first_fault(
    items: Seq<TopLevel>,
    start: AnalyzerV,
    k: int,
)
    ensures
        collected(items, start).1 is None <==> forall|i: int|
            0 <= i < items.len() ==> is_accepted(#[trigger] items[i]),
        0 <= k < items.len() && !is_accepted(items[k]) && (forall|i: int|
            0 <= i < k ==> is_accepted(#[trigger] items[i])) ==> collected(items, start).1 == Some(
            match items[k] {
                TopLevel::Invalid(message) => CheckErrorV::InvalidDefinition(message@),
                _ => CheckErrorV::DefineFunctionBadSignature,
            },
        ),
    decreases items.len(),
{
    if items.len() > 0 {
        let before = items.drop_last();
        let last = items.len() - 1;
        law_contracts_are_refused_for_their_first_fault(before, start, k);
        assert(forall|i: int| 0 <= i < last ==> #[trigger] before[i] == items[i]);
        lemma_is_function(items[last], Seq::empty());
        if let Some((signature, body)) = function_in(items[last]) {
            assert(is_function(items[last], signature, body));
        }
        if forall|i: int| 0 <= i < items.len() ==> is_accepted(#[trigger] items[i]) {
            assert forall|i: int| 0 <= i < before.len() implies is_accepted(
                #[trigger] before[i],
            ) by {
                assert(is_accepted(items[i]));
            }
            assert(is_accepted(items[last]));
        }
        if collected(items, start).1 is None {
            assert forall|i: int| 0 <= i < items.len() implies is_accepted(
                #[trigger] items[i],
            ) by {
                if i < last {
                    assert(is_accepted(before[i]));
                }
            }
        }
    }
}

/// What the body of a function does, seen with the parameters of its signature, the
/// functions and constants of the contract, and no bindings.
pub open spec fn body_does(start: AnalyzerV, items: Seq<TopLevel>, f: NameV, x: FoundV) -> bool {
    exists|i: int, signature: Seq<SymbolicExpression>, body: SymbolicExpression|
        #[trigger] counts_for(items, i, f, signature, body) && holds(
            trace(
                body,
                collected(items, start).0.analyzer.scope(signature_parameters(signature)),
                Map::empty(),
            ),
            x,
        )
}

/// Functions of a contract, the body of each of which calls the next.
pub open spec fn body_chain(start: AnalyzerV, items: Seq<TopLevel>, path: Seq<NameV>) -> bool {
    &&& path.len() > 0
    &&& function_defined(items, path[0])
    &&& forall|i: int|
        0 < i < path.len() ==> function_defined(items, #[trigger] path[i]) && body_does(
            start,
            items,
            path[i - 1],
            FoundV::Function(path[i]),
        )
}

/// An analyzer has seen nothing yet.
pub open spec fn is_fresh(start: AnalyzerV) -> bool {
    &&& start.function_effects == Map::<NameV, EffectsV>::empty()
    &&& start.call_graph == Map::<NameV, Set<NameV>>::empty()
    &&& start.known_functions == Set::<NameV>::empty()
}

#[verifier::spinoff_prover]
#[verifier::rlimit(40)]
proof fn lemma_last_definition(items: Seq<TopLevel>, start: AnalyzerV, f: NameV)
    requires
        items.len() <= usize::MAX,
        collected(items, start).1 is None,
    ensures
        function_defined(items, f) <==> collected(items, start).0.places.contains_key(f),
        forall|i: int, signature: Seq<SymbolicExpression>, body: SymbolicExpression| #[trigger]
            counts_for(items, i, f, signature, body) ==> collected(items, start).0.places[f] == i,
        function_defined(items, f) ==> exists|
            i: int,
            signature: Seq<SymbolicExpression>,
            body: SymbolicExpression,
        | #[trigger] counts_for(items, i, f, signature, body),
    decreases items.len(),
{
    if items.len() > 0 {
        let before = items.drop_last();
        let last = items.len() - 1;
        let c = collected(items, start).0;
        let c0 = collected(before, start).0;
        lemma_last_definition(before, start, f);
        lemma_is_function(items[last], f);
        if defines(items[last], f) {
            let (s, b) = choose|s: Seq<SymbolicExpression>, b: SymbolicExpression| #[trigger]
                is_function_named(items[last], f, s, b);
            assert(c.places[f] == last as usize);
            assert(counts_for(items, last, f, s, b));
            assert forall|
                i: int,
                signature: Seq<SymbolicExpression>,
                body: SymbolicExpression,
            | #[trigger] counts_for(items, i, f, signature, body) implies c.places[f] == i by {
                if i < last {
                    assert(!is_function_named(items[last], f, s, b));
                }
            }
        } else {
            assert(c.places.contains_key(f) == c0.places.contains_key(f));
            assert(c.places.contains_key(f) ==> c.places[f] == c0.places[f]);
            if function_defined(items, f) {
                let (i, s, b) = choose|i: int, s: Seq<SymbolicExpression>, b: SymbolicExpression|
                    0 <= i < items.len() && #[trigger] is_function_named(items[i], f, s, b);
                assert(i < last);
                assert(is_function_named(before[i], f, s, b));
                let (i, s, b) = choose|i: int, s: Seq<SymbolicExpression>, b: SymbolicExpression|
                    #[trigger] counts_for(before, i, f, s, b);
                assert(counts_for(items, i, f, s, b)) by {
                    assert(is_function_named(items[i], f, s, b));
                    assert forall|j: int, s2: Seq<SymbolicExpression>, b2: SymbolicExpression|
                        i < j < items.len() implies !#[trigger] is_function_named(
                        items[j],
                        f,
                        s2,
                        b2,
                    ) by {
                        if j < last {
                            assert(!is_function_named(before[j], f, s2, b2));
                        }
                    }
                }
            }
            if function_defined(before, f) {
                let (i, s, b) = choose|i: int, s: Seq<SymbolicExpression>, b: SymbolicExpression|
                    0 <= i < before.len() && #[trigger] is_function_named(before[i], f, s, b);
                assert(is_function_named(items[i], f, s, b));
            }
            assert forall|
                i: int,
                signature: Seq<SymbolicExpression>,
                body: SymbolicExpression,
            | #[trigger] counts_for(items, i, f, signature, body) implies c.places[f] == i by {
                assert(i < last);
                assert(is_function_named(before[i], f, signature, body));
                assert forall|j: int, s2: Seq<SymbolicExpression>, b2: SymbolicExpression|
                    i < j < before.len() implies !#[trigger] is_function_named(
                    before[j],
                    f,
                    s2,
                    b2,
                ) by {
                    assert(!is_function_named(items[j], f, s2, b2));
                }
                assert(counts_for(before, i, f, signature, body));
            }
        }
    }
}

/// What is on record of a function after all bodies are walked is what its body does.
#[verifier::spinoff_prover]
#[verifier::rlimit(40)]
proof fn lemma_walked_body(start: AnalyzerV, items: Seq<TopLevel>, f: NameV, x: FoundV)
    requires
        items.len() <= usize::MAX,
        is_fresh(start),
        collected(items, start).1 is None,
    ensures
        ({
            let a = walked(start, items);
            &&& a.function_effects.contains_key(f) <==> function_defined(items, f)
            &&& function_defined(items, f) ==> (body_does(start, items, f, x) <==> holds(
                TraceV {
                    effects: a.function_effects[f],
                    calls: if a.call_graph.contains_key(f) {
                        a.call_graph[f]
                    } else {
                        Set::empty()
                    },
                },
                x,
            ))
            &&& a.call_graph.contains_key(f) ==> function_defined(items, f)
        }),
{
    let c = collected(items, start).0;
    law_collecting_makes_functions_known(items, start, f);
    lemma_last_definition(items, start, f);
    if function_defined(items, f) {
        let (i, signature, body) = choose|
            i: int,
            signature: Seq<SymbolicExpression>,
            body: SymbolicExpression,
        | #[trigger] counts_for(items, i, f, signature, body);
        lemma_is_function(items[i], f);
        assert(is_function(items[i], signature, body));
        let found = trace(
            body,
            c.analyzer.scope(signature_parameters(signature)),
            Map::empty(),
        );
        assert(c.places[f] == i);
        assert(body_trace(c.analyzer, items[i]) == found);
        assert(body_does(start, items, f, x) <==> holds(found, x)) by {
            if body_does(start, items, f, x) {
                let (i2, s2, b2) = choose|
                    i2: int,
                    s2: Seq<SymbolicExpression>,
                    b2: SymbolicExpression,
                |
                    #[trigger] counts_for(items, i2, f, s2, b2) && holds(
                        trace(
                            b2,
                            c.analyzer.scope(signature_parameters(s2)),
                            Map::empty(),
                        ),
                        x,
                    );
                assert(i2 == i);
                assert(is_function(items[i], s2, b2));
            }
        }
    }
}

#[verifier::spinoff_prover]
#[verifier::rlimit(40)]
proof fn lemma_chains(start: AnalyzerV, items: Seq<TopLevel>, path: Seq<NameV>)
    requires
        items.len() <= usize::MAX,
        is_fresh(start),
        collected(items, start).1 is None,
    ensures
        body_chain(start, items, path) <==> name_chain(
            walked(start, items).function_effects,
            walked(start, items).call_graph,
            path,
        ),
{
    let a = walked(start, items);
    if path.len() > 0 {
        lemma_walked_body(start, items, path[0], FoundV::Function(path[0]));
        if body_chain(start, items, path) {
            assert forall|i: int| 0 < i < path.len() implies calls_directly(
                a.function_effects,
                a.call_graph,
                path[i - 1],
                #[trigger] path[i],
            ) by {
                assert(function_defined(items, path[i]));
                lemma_walked_body(start, items, path[i], FoundV::Function(path[i]));
                lemma_walked_body(start, items, path[i - 1], FoundV::Function(path[i]));
                if i > 1 {
                    assert(function_defined(items, path[i - 1]));
                }
            }
        }
        if name_chain(a.function_effects, a.call_graph, path) {
            assert forall|i: int| 0 < i < path.len() implies function_defined(
                items,
                #[trigger] path[i],
            ) && body_does(start, items, path[i - 1], FoundV::Function(path[i])) by {
                assert(calls_directly(a.function_effects, a.call_graph, path[i - 1], path[i]));
                lemma_walked_body(start, items, path[i], FoundV::Function(path[i]));
                lemma_walked_body(start, items, path[i - 1], FoundV::Function(path[i]));
            }
        }
    }
}

/// Before calls of other contracts are replaced, a function has exactly the effects
/// that the body of a function has that it is or calls, itself or through others.
pub proof fn law_effects_are_those_of_bodies(
    start: AnalyzerV,
    items: Seq<TopLevel>,
    f: NameV,
    x: FoundV,
)
    requires
        items.len() <= usize::MAX,
        is_fresh(start),
        collected(items, start).1 is None,
        function_defined(items, f),
        !(x is Function),
    ensures
        passed_on(start, items).contains_key(f),
        holds(TraceV { effects: passed_on(start, items)[f], calls: Set::empty() }, x)
            <==> exists|path: Seq<NameV>| #[trigger]
            body_chain(start, items, path) && path[0] == f && body_does(
                start,
                items,
                path.last(),
                x,
            ),
{
    let a = walked(start, items);
    let functions = a.function_effects;
    let graph = a.call_graph;
    lemma_walked_body(start, items, f, x);
    let item = match x {
        FoundV::Read(t) => ItemV::Read(t),
        FoundV::Write(t) => ItemV::Write(t),
        FoundV::Call(c) => ItemV::Call(c),
        FoundV::Function(_) => arbitrary(),
    };
    let all = propagated(functions, graph);
    if holds(TraceV { effects: all[f], calls: Set::empty() }, x) {
        let g = choose|g: NameV| #[trigger]
            reaches(functions, graph, f, g) && shows(functions[g], item);
        let path = choose|path: Seq<NameV>| #[trigger]
            name_chain(functions, graph, path) && path[0] == f && path.last() == g;
        lemma_chains(start, items, path);
        lemma_reached_known(functions, graph, f, g);
        lemma_walked_body(start, items, g, x);
        assert(body_chain(start, items, path));
    }
    if exists|path: Seq<NameV>| #[trigger]
        body_chain(start, items, path) && path[0] == f && body_does(start, items, path.last(), x) {
        let path = choose|path: Seq<NameV>| #[trigger]
            body_chain(start, items, path) && path[0] == f && body_does(
                start,
                items,
                path.last(),
                x,
            );
        lemma_chains(start, items, path);
        let g = path.last();
        assert(reaches(functions, graph, f, g));
        lemma_reached_known(functions, graph, f, g);
        lemma_walked_body(start, items, g, x);
        assert(shows(functions[g], item));
    }
}

/// A function does something, itself or through functions of the contract that it
/// calls.
pub open spec fn function_does(
    start: AnalyzerV,
    items: Seq<TopLevel>,
    f: NameV,
    x: FoundV,
) -> bool {
    exists|path: Seq<NameV>| #[trigger]
        body_chain(start, items, path) && path[0] == f && body_does(start, items, path.last(), x)
}

/// A successful analysis reports every read and write of a function of the contract,
/// nothing but these and calls where it makes no call of another contract, and the
/// function as pure exactly if nothing is left that it does.
#[verifier::spinoff_prover]
#[verifier::rlimit(40)]
pub proof fn law_functions_are_reported(
    start: AnalyzerV,
    items: Seq<TopLevel>,
    store: StoreV,
    f: NameV,
    x: FoundV,
)
    requires
        items.len() <= usize::MAX,
        is_fresh(start),
        analyzed(start, items, store).1 is None,
        !(x is Function),
    ensures
        ({
            let functions = analyzed(start, items, store).0.function_effects;
            let fx = functions[f];
            let reported = TraceV { effects: fx, calls: Set::empty() };
            &&& functions.contains_key(f) <==> function_defined(items, f)
            &&& functions.contains_key(f) ==> {
                &&& function_does(start, items, f, x) && !(x is Call) ==> holds(reported, x)
                &&& (forall|c: CallV| !function_does(start, items, f, FoundV::Call(c))) ==> (holds(
                    reported,
                    x,
                ) <==> function_does(start, items, f, x))
                &&& fx.purity == (if fx.reads == Set::<TargetV>::empty() && fx.writes == Set::<
                    TargetV,
                >::empty() && fx.contract_calls == Set::<CallV>::empty() {
                    Purity::Pure
                } else {
                    Purity::Impure
                })
            }
        }),
{
    lemma_walked_body(start, items, f, x);
    let before = passed_on(start, items);
    let contract = walked(start, items).contract;
    let contracts = reached(contract, before, store)->Ok_0;
    assert(functions_settled(before, contracts) is Some);
    if function_defined(items, f) {
        law_effects_are_those_of_bodies(start, items, f, x);
        law_settled_keeps(before[f], seq![], contracts, ROUND_LIMIT as nat);
        if forall|c: CallV| !function_does(start, items, f, FoundV::Call(c)) {
            assert forall|c: CallV| !before[f].contract_calls.contains(c) by {
                law_effects_are_those_of_bodies(start, items, f, FoundV::Call(c));
                assert(!function_does(start, items, f, FoundV::Call(c)));
            }
            assert(before[f].contract_calls =~= Set::empty());
            law_nothing_to_replace(before[f], seq![], contracts);
        }
    }
}

/// An analysis starts with the contract and its native functions, and knows nothing
/// else.
pub proof fn law_analyses_start_fresh(analysis: ContractAnalysis)
    ensures
        ({
            let start = fresh_analyzer(analysis);
            &&& is_fresh(start)
            &&& start.contract == analysis.contract_identifier@
            &&& start.clarity_version == analysis.clarity_version
            &&& start.natives == analysis.natives@
            &&& start.principal_constants == Map::<NameV, PrincipalRefV>::empty()
        }),
{
}

/// An analysis fails exactly where the contract is refused, where reading the contracts
/// that it calls stops, or where replacing its calls comes to no end; and it tells
/// which.
pub proof fn law_analyses_tell_why_they_fail(
    start: AnalyzerV,
    items: Seq<TopLevel>,
    store: StoreV,
)
    ensures
        ({
            let error = analyzed(start, items, store).1;
            let functions = passed_on(start, items);
            let contract = collected(items, start).0.analyzer.contract;
            &&& collected(items, start).1 matches Some(e) ==> error == Some(e)
            &&& collected(items, start).1 is None ==> match reached(contract, functions, store) {
                Err(stop) => error == Some(CheckErrorV::Load(stop)),
                Ok(contracts) => {
                    let settles = forall|f: NameV| #[trigger]
                        functions.contains_key(f) ==> settled(
                            functions[f],
                            seq![],
                            contracts,
                            ROUND_LIMIT as nat,
                        ) is Some;
                    &&& settles ==> error is None
                    &&& !settles ==> error == Some(CheckErrorV::Load(StopV::Unsettled))
                },
            }
        }),
{
}

} // verus!
