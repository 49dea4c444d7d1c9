//! The effects of deploying a contract.

use vstd::prelude::*;

use crate::analysis::{constant_in, fresh_analyzer, judge, with_constant};
use crate::analyzer::{
    lemma_walk, principal_in, storage, trace, with_calls, AnalyzerV, Bindings, BindingsV,
    EffectsAnalyzer, Parameters, ScopeV, TraceV,
};
use crate::effects::{EffectsV, FunctionEffects, Purity};
use crate::ordered::{Data, OrderedMap};
use crate::propagation::{
    calls_directly, law_callers_have_effects_of_callees, law_propagation_keeps, lemma_reaches_self,
    name_chain, propagated, reaches, shows, ItemV,
};
use crate::syntax::{
    CheckErrorV, ContractAnalysis, DefineFunctionsParsed, StaticCheckError, TopLevel,
};
use crate::types::{
    CallV, ClarityName, ContractRefV, LocationV, NameV, PrincipalRefV, StorageAccessV, TargetV,
};
use crate::walking::{holds, FoundV};

verus! {

/// Why the first definition that is not well formed is refused, if there is one.
pub open spec fn first_invalid(items: Seq<TopLevel>) -> Option<Seq<char>>
    decreases items.len(),
{
    if items.len() == 0 {
        None
    } else {
        match first_invalid(items.drop_last()) {
            Some(message) => Some(message),
            None => match items.last() {
                TopLevel::Invalid(message) => Some(message@),
                _ => None,
            },
        }
    }
}

proof fn lemma_first_invalid(items: Seq<TopLevel>, i: int)
    requires
        0 <= i <= items.len(),
        first_invalid(items.take(i)) is Some,
    ensures
        first_invalid(items) == first_invalid(items.take(i)),
    decreases items.len() - i,
{
    if i == items.len() {
        assert(items.take(i) =~= items);
    } else {
        assert(items.take(i + 1).drop_last() =~= items.take(i));
        lemma_first_invalid(items, i + 1);
    }
}

/// The analyzer, knowing the constants that are defined.
pub open spec fn with_constants(items: Seq<TopLevel>, start: AnalyzerV) -> AnalyzerV
    decreases items.len(),
{
    if items.len() == 0 {
        start
    } else {
        let before = with_constants(items.drop_last(), start);
        match constant_in(items.last()) {
            Some((name, value)) => with_constant(before, name, value),
            None => before,
        }
    }
}

/// What deploying one item does: a constant, the initial value of a variable,
/// the supply of a token and a bare expression are evaluated; a variable and a
/// map are written.
pub open spec fn item_trace(item: TopLevel, scope: ScopeV) -> TraceV {
    let no_bindings: BindingsV = Map::empty();
    match item {
        TopLevel::Definition(definition) => match definition {
            DefineFunctionsParsed::Constant { value, .. } => trace(value, scope, no_bindings),
            DefineFunctionsParsed::PersistedVariable { name, initial } => (TraceV {
                effects: EffectsV::none().writing(
                    storage(scope.contract, LocationV::DataVar(name@)),
                ),
                calls: Set::empty(),
            }).plus(trace(initial, scope, no_bindings)),
            DefineFunctionsParsed::DataMap { name } => TraceV {
                effects: EffectsV::none().writing(
                    storage(scope.contract, LocationV::DataMap(name@)),
                ),
                calls: Set::empty(),
            },
            DefineFunctionsParsed::BoundedFungibleToken { max_supply, .. } => trace(
                max_supply,
                scope,
                no_bindings,
            ),
            _ => TraceV::none(),
        },
        TopLevel::Expression(expression) => trace(expression, scope, no_bindings),
        TopLevel::Invalid(_) => TraceV::none(),
    }
}

/// What deploying items one after another does.
pub open spec fn items_trace(items: Seq<TopLevel>, scope: ScopeV) -> TraceV
    decreases items.len(),
{
    if items.len() == 0 {
        TraceV::none()
    } else {
        items_trace(items.drop_last(), scope).plus(item_trace(items.last(), scope))
    }
}

/// The analyzer with which a deployment is walked: the analyzed functions are
/// known, and so are the constants.
pub open spec fn deploy_analyzer(analysis: ContractAnalysis) -> AnalyzerV {
    with_constants(
        analysis.expressions@,
        AnalyzerV {
            function_effects: analysis.function_effects@,
            known_functions: analysis.function_effects@.dom(),
            ..fresh_analyzer(analysis)
        },
    )
}

/// The effects of deploying a contract: what its top level does, and what the
/// functions do that the top level calls.
pub open spec fn deploy_effects(analysis: ContractAnalysis) -> EffectsV {
    let a = deploy_analyzer(analysis);
    let found = items_trace(analysis.expressions@, a.scope(Map::empty()));
    propagated(
        a.function_effects.insert("deploy"@, found.effects),
        with_calls(Map::empty(), "deploy"@, found.calls),
    )["deploy"@].judged()
}

impl EffectsAnalyzer {
    /// Notes the constants of a contract, or refuses a definition that is not
    /// well formed.
    fn collect_constants(&mut self, items: &Vec<TopLevel>) -> (r: Result<(), StaticCheckError>)
        ensures
            match first_invalid(items@) {
                None => r is Ok && final(self)@ == with_constants(items@, old(self)@),
                Some(message) => r is Err && r->Err_0@ == CheckErrorV::InvalidDefinition(message),
            },
    {
        let ghost start = self@;
        let ghost all = items@;
        let mut i: usize = 0;
        while i < items.len()
            invariant
                i <= items.len(),
                all == items@,
                start == old(self)@,
                first_invalid(all.take(i as int)) is None,
                self@ == with_constants(all.take(i as int), start),
            decreases items.len() - i,
        {
            proof {
                assert(all.take(i + 1).drop_last() =~= all.take(i as int));
                assert(all.take(i + 1).last() == all[i as int]);
            }
            match &items[i] {
                TopLevel::Invalid(message) => {
                    proof {
                        lemma_first_invalid(all, i + 1);
                    }
                    return Err(StaticCheckError::InvalidDefinition(message.duplicate()));
                },
                TopLevel::Definition(DefineFunctionsParsed::Constant { name, value }) => {
                    self.note_constant(name, value);
                },
                _ => {},
            }
            i = i + 1;
        }
        assert(all.take(all.len() as int) =~= all);
        Ok(())
    }

    /// Walks one item as its deployment does.
    fn analyze_item(
        &mut self,
        item: &TopLevel,
        deploy_name: &ClarityName,
        param_indices: &Parameters,
        bindings: &Bindings,
        effects: &mut FunctionEffects,
    )
        requires
            param_indices@ == Map::<NameV, u32>::empty(),
            bindings@ == Map::<NameV, PrincipalRefV>::empty(),
        ensures
            final(self)@ == old(self)@.noting(
                deploy_name@,
                item_trace(*item, old(self)@.scope(Map::empty())).calls,
            ),
            final(effects)@ == old(effects)@.plus(
                item_trace(*item, old(self)@.scope(Map::empty())).effects,
            ),
    {
        let ghost start = self@;
        let ghost fx = effects@;
        proof {
            lemma_walk(start, deploy_name@, fx, TraceV::none(), TraceV::none());
        }
        match item {
            TopLevel::Definition(definition) => match definition {
                DefineFunctionsParsed::Constant { value, .. } => {
                    self.analyze_expr(value, deploy_name, param_indices, bindings, effects);
                },
                DefineFunctionsParsed::PersistedVariable { name, initial } => {
                    let ghost written = TraceV {
                        effects: EffectsV::none().writing(
                            storage(start.contract, LocationV::DataVar(name@)),
                        ),
                        calls: Set::empty(),
                    };
                    effects.writes.insert(self.contract_var_access(name));
                    proof {
                        assert(effects@ =~= fx.plus(written.effects));
                        lemma_walk(
                            start,
                            deploy_name@,
                            fx,
                            written,
                            trace(*initial, start.scope(Map::empty()), Map::empty()),
                        );
                    }
                    self.analyze_expr(initial, deploy_name, param_indices, bindings, effects);
                },
                DefineFunctionsParsed::DataMap { name } => {
                    effects.writes.insert(self.contract_map_access(name));
                    assert(effects@ =~= fx.plus(
                        item_trace(*item, start.scope(Map::empty())).effects,
                    ));
                },
                DefineFunctionsParsed::BoundedFungibleToken { max_supply, .. } => {
                    self.analyze_expr(max_supply, deploy_name, param_indices, bindings, effects);
                },
                _ => {},
            },
            TopLevel::Expression(expression) => {
                self.analyze_expr(expression, deploy_name, param_indices, bindings, effects);
            },
            TopLevel::Invalid(_) => {},
        }
    }

    /// The effects of deploying an analyzed contract.
    pub fn compute_deploy_effects(contract_analysis: &ContractAnalysis) -> (r: Result<
        FunctionEffects,
        StaticCheckError,
    >)
        ensures
            match first_invalid(contract_analysis.expressions@) {
                None => r is Ok && r->Ok_0@ == deploy_effects(*contract_analysis),
                Some(message) => r is Err && r->Err_0@ == CheckErrorV::InvalidDefinition(message),
            },
    {
        let mut analyzer = EffectsAnalyzer::new(contract_analysis);
        analyzer.function_effects = contract_analysis.function_effects.duplicate();
        analyzer.known_functions = analyzer.function_effects.key_set();
        let items = &contract_analysis.expressions;
        match analyzer.collect_constants(items) {
            Ok(_) => {},
            Err(e) => {
                return Err(e);
            },
        }
        let ghost start = analyzer@;
        proof {
            assert(start == deploy_analyzer(*contract_analysis));
            lemma_constants_only(
                items@,
                AnalyzerV {
                    function_effects: contract_analysis.function_effects@,
                    known_functions: contract_analysis.function_effects@.dom(),
                    ..fresh_analyzer(*contract_analysis)
                },
            );
        }
        let ghost scope = start.scope(Map::empty());
        let ghost all = items@;
        let mut effects = FunctionEffects::default();
        let param_indices: Parameters = OrderedMap::new();
        let bindings: Bindings = OrderedMap::new();
        let deploy_name: ClarityName = "deploy".to_string();
        let mut i: usize = 0;
        proof {
            lemma_walk(start, deploy_name@, EffectsV::none(), TraceV::none(), TraceV::none());
        }
        while i < items.len()
            invariant
                i <= items.len(),
                all == items@,
                scope == start.scope(Map::empty()),
                param_indices@ == Map::<NameV, u32>::empty(),
                bindings@ == Map::<NameV, PrincipalRefV>::empty(),
                analyzer@ == start.noting(
                    deploy_name@,
                    items_trace(all.take(i as int), scope).calls,
                ),
                effects@ == EffectsV::none().plus(items_trace(all.take(i as int), scope).effects),
            decreases items.len() - i,
        {
            proof {
                assert(all.take(i + 1).drop_last() =~= all.take(i as int));
                assert(all.take(i + 1).last() == all[i as int]);
                lemma_walk(
                    start,
                    deploy_name@,
                    EffectsV::none(),
                    items_trace(all.take(i as int), scope),
                    item_trace(all[i as int], scope),
                );
            }
            analyzer.analyze_item(
                &items[i],
                &deploy_name,
                &param_indices,
                &bindings,
                &mut effects,
            );
            i = i + 1;
        }
        proof {
            assert(all.take(all.len() as int) =~= all);
            lemma_items_pure(all, scope);
            assert(effects@ =~= items_trace(all, scope).effects);
            law_propagation_keeps(
                start.function_effects.insert("deploy"@, effects@),
                analyzer@.call_graph,
                "deploy"@,
            );
        }
        analyzer.function_effects.insert(deploy_name.duplicate(), effects);
        analyzer.propagate_call_effects();
        let effects = match analyzer.function_effects.remove(&deploy_name) {
            Some(effects) => effects,
            None => FunctionEffects::default(),
        };
        Ok(judge(effects))
    }
}

/// Noting constants changes nothing else of an analyzer.
proof fn lemma_constants_only(items: Seq<TopLevel>, start: AnalyzerV)
    ensures
        with_constants(items, start) == (AnalyzerV {
            principal_constants: with_constants(items, start).principal_constants,
            ..start
        }),
    decreases items.len(),
{
    if items.len() > 0 {
        lemma_constants_only(items.drop_last(), start);
    }
}

/// Walking says nothing of purity.
proof fn lemma_items_pure(items: Seq<TopLevel>, scope: ScopeV)
    ensures
        items_trace(items, scope).effects.purity == EffectsV::none().purity,
    decreases items.len(),
{
    if items.len() > 0 {
        lemma_items_pure(items.drop_last(), scope);
    }
}

proof fn lemma_items_include(items: Seq<TopLevel>, scope: ScopeV, i: int)
    requires
        0 <= i < items.len(),
    ensures
        items_trace(items, scope).effects.includes(item_trace(items[i], scope).effects),
    decreases items.len(),
{
    if i < items.len() - 1 {
        assert(items.drop_last()[i] == items[i]);
        lemma_items_include(items.drop_last(), scope, i);
    }
}

/// Deploying a contract has every effect that deploying one of its items has.
pub proof fn law_deployment_includes_items(analysis: ContractAnalysis, i: int)
    requires
        0 <= i < analysis.expressions@.len(),
    ensures
        deploy_effects(analysis).includes(
            item_trace(
                analysis.expressions@[i],
                deploy_analyzer(analysis).scope(Map::empty()),
            ).effects,
        ),
{
    let a = deploy_analyzer(analysis);
    let found = items_trace(analysis.expressions@, a.scope(Map::empty()));
    lemma_items_include(analysis.expressions@, a.scope(Map::empty()), i);
    law_propagation_keeps(
        a.function_effects.insert("deploy"@, found.effects),
        with_calls(Map::empty(), "deploy"@, found.calls),
        "deploy"@,
    );
}

/// Deploying a contract writes each variable and each map that it defines.
pub proof fn law_definitions_are_writes(analysis: ContractAnalysis, i: int)
    requires
        0 <= i < analysis.expressions@.len(),
    ensures
        analysis.expressions@[i] matches TopLevel::Definition(
            DefineFunctionsParsed::PersistedVariable { name, .. },
        ) ==> deploy_effects(analysis).writes.contains(
            storage(analysis.contract_identifier@, LocationV::DataVar(name@)),
        ),
        analysis.expressions@[i] matches TopLevel::Definition(
            DefineFunctionsParsed::DataMap { name },
        ) ==> deploy_effects(analysis).writes.contains(
            storage(analysis.contract_identifier@, LocationV::DataMap(name@)),
        ),
{
    law_deployment_includes_items(analysis, i);
    lemma_constants_only(
        analysis.expressions@,
        AnalyzerV {
            function_effects: analysis.function_effects@,
            known_functions: analysis.function_effects@.dom(),
            ..fresh_analyzer(analysis)
        },
    );
}

proof fn lemma_items_call(items: Seq<TopLevel>, scope: ScopeV, i: int)
    requires
        0 <= i < items.len(),
    ensures
        item_trace(items[i], scope).calls.subset_of(items_trace(items, scope).calls),
    decreases items.len(),
{
    if i < items.len() - 1 {
        assert(items.drop_last()[i] == items[i]);
        lemma_items_call(items.drop_last(), scope, i);
    }
}

/// Deploying a contract has every effect of the functions that its items call. A
/// function that is named like the deployment itself is not told from it.
pub proof fn law_deployment_includes_called_functions(
    analysis: ContractAnalysis,
    i: int,
    f: NameV,
)
    requires
        0 <= i < analysis.expressions@.len(),
        item_trace(
            analysis.expressions@[i],
            deploy_analyzer(analysis).scope(Map::empty()),
        ).calls.contains(f),
        analysis.function_effects@.contains_key(f),
        f != "deploy"@,
    ensures
        deploy_effects(analysis).includes(analysis.function_effects@[f]),
{
    let a = deploy_analyzer(analysis);
    let scope = a.scope(Map::empty());
    let found = items_trace(analysis.expressions@, scope);
    lemma_constants_only(
        analysis.expressions@,
        AnalyzerV {
            function_effects: analysis.function_effects@,
            known_functions: analysis.function_effects@.dom(),
            ..fresh_analyzer(analysis)
        },
    );
    lemma_items_call(analysis.expressions@, scope, i);
    let functions = a.function_effects.insert("deploy"@, found.effects);
    let graph = with_calls(Map::empty(), "deploy"@, found.calls);
    assert(found.calls.contains(f));
    assert(calls_directly(functions, graph, "deploy"@, f));
    law_callers_have_effects_of_callees(functions, graph, "deploy"@, f);
    law_propagation_keeps(functions, graph, f);
}

/// A deployment is pure exactly if it reads, writes and calls nothing.
pub proof fn law_pure_deployment(analysis: ContractAnalysis)
    ensures
        deploy_effects(analysis).purity == Purity::Pure <==> deploy_effects(analysis).silent(),
{
}

/// What deploying an item does: the value of a constant, the initial value of a
/// variable, the supply of a bounded token and a bare expression are evaluated, and
/// a variable and a map of the contract are written. Other definitions do nothing.
pub open spec fn deploying_does(item: TopLevel, scope: ScopeV, x: FoundV) -> bool {
    let no_bindings: BindingsV = Map::empty();
    let contract = ContractRefV::Literal(scope.contract);
    match item {
        TopLevel::Definition(DefineFunctionsParsed::Constant { name: _, value }) => holds(
            trace(value, scope, no_bindings),
            x,
        ),
        TopLevel::Definition(DefineFunctionsParsed::PersistedVariable { name, initial }) => {
            ||| holds(trace(initial, scope, no_bindings), x)
            ||| x == FoundV::Write(
                TargetV::Contract(
                    StorageAccessV { contract, location: Some(LocationV::DataVar(name@)) },
                ),
            )
        },
        TopLevel::Definition(DefineFunctionsParsed::DataMap { name }) => x == FoundV::Write(
            TargetV::Contract(
                StorageAccessV { contract, location: Some(LocationV::DataMap(name@)) },
            ),
        ),
        TopLevel::Definition(
            DefineFunctionsParsed::BoundedFungibleToken { name: _, max_supply },
        ) => holds(trace(max_supply, scope, no_bindings), x),
        TopLevel::Expression(expression) => holds(trace(expression, scope, no_bindings), x),
        _ => false,
    }
}

/// One of the items does something when it is deployed.
pub open spec fn an_item_does(items: Seq<TopLevel>, scope: ScopeV, x: FoundV) -> bool {
    exists|i: int| 0 <= i < items.len() && deploying_does(#[trigger] items[i], scope, x)
}

#[verifier::spinoff_prover]
#[verifier::rlimit(40)]
proof fn lemma_items_do(items: Seq<TopLevel>, scope: ScopeV, x: FoundV)
    ensures
        holds(items_trace(items, scope), x) <==> an_item_does(items, scope, x),
    decreases items.len(),
{
    if items.len() > 0 {
        let before = items.drop_last();
        let last = items.len() - 1;
        lemma_items_do(before, scope, x);
        assert(holds(item_trace(items[last], scope), x) <==> deploying_does(
            items[last],
            scope,
            x,
        ));
        if an_item_does(before, scope, x) {
            let i = choose|i: int|
                0 <= i < before.len() && deploying_does(#[trigger] before[i], scope, x);
            assert(deploying_does(items[i], scope, x));
        }
        if an_item_does(items, scope, x) {
            let i = choose|i: int|
                0 <= i < items.len() && deploying_does(#[trigger] items[i], scope, x);
            if i < last {
                assert(deploying_does(before[i], scope, x));
            }
        }
    }
}

/// What the top level of a contract can refer to: the contract, its native
/// functions, the functions that were analyzed, and no parameters.
pub proof fn law_deployment_sees_the_contract(analysis: ContractAnalysis)
    ensures
        ({
            let scope = deploy_analyzer(analysis).scope(Map::empty());
            &&& scope.contract == analysis.contract_identifier@
            &&& scope.natives == analysis.natives@
            &&& scope.known == analysis.function_effects@.dom()
            &&& scope.params == Map::<NameV, u32>::empty()
        }),
        deploy_analyzer(analysis).function_effects == analysis.function_effects@,
{
    lemma_constants_only(
        analysis.expressions@,
        AnalyzerV {
            function_effects: analysis.function_effects@,
            known_functions: analysis.function_effects@.dom(),
            ..fresh_analyzer(analysis)
        },
    );
}

/// Constants are known in the order of their definitions: one that stands for a
/// principal, seen with those before it, is known for that principal, and all other
/// items change no constant.
pub proof fn law_deployed_constants_are_known(
    items: Seq<TopLevel>,
    last: TopLevel,
    start: AnalyzerV,
)
    ensures
        with_constants(Seq::empty(), start) == start,
        ({
            let before = with_constants(items, start);
            let after = with_constants(items.push(last), start);
            match last {
                TopLevel::Definition(DefineFunctionsParsed::Constant { name, value }) => {
                    let p = principal_in(value, before.scope(Map::empty()), Map::empty());
                    &&& p != PrincipalRefV::Any ==> after.principal_constants
                        == before.principal_constants.insert(name@, p)
                    &&& p == PrincipalRefV::Any ==> after.principal_constants
                        == before.principal_constants
                },
                _ => after.principal_constants == before.principal_constants,
            }
        }),
{
    assert(items.push(last).drop_last() =~= items);
    assert(items.push(last).last() == last);
}

/// Deploying a contract does exactly what its items do when they are deployed, and
/// what the functions do that these items call. A function that is named like the
/// deployment itself is not told from it. The deployment is pure exactly if nothing
/// is left that it does.
#[verifier::spinoff_prover]
#[verifier::rlimit(40)]
pub proof fn law_deployment_does_what_its_items_do(analysis: ContractAnalysis, x: FoundV)
    requires
        !(x is Function),
    ensures
        ({
            let fx = deploy_effects(analysis);
            let items = analysis.expressions@;
            let functions = analysis.function_effects@;
            let scope = deploy_analyzer(analysis).scope(Map::empty());
            &&& holds(TraceV { effects: fx, calls: Set::empty() }, x) <==> {
                ||| an_item_does(items, scope, x)
                ||| exists|f: NameV| #[trigger]
                    functions.contains_key(f) && f != "deploy"@ && an_item_does(
                        items,
                        scope,
                        FoundV::Function(f),
                    ) && holds(TraceV { effects: functions[f], calls: Set::empty() }, x)
            }
            &&& fx.purity == (if fx.reads == Set::<TargetV>::empty() && fx.writes == Set::<
                TargetV,
            >::empty() && fx.contract_calls == Set::<CallV>::empty() {
                Purity::Pure
            } else {
                Purity::Impure
            })
        }),
{
    let a = deploy_analyzer(analysis);
    let scope = a.scope(Map::empty());
    let items = analysis.expressions@;
    let known = analysis.function_effects@;
    let found = items_trace(items, scope);
    let functions = known.insert("deploy"@, found.effects);
    let graph = with_calls(Map::empty(), "deploy"@, found.calls);
    law_deployment_sees_the_contract(analysis);
    lemma_items_do(items, scope, x);
    let item = match x {
        FoundV::Read(t) => ItemV::Read(t),
        FoundV::Write(t) => ItemV::Write(t),
        FoundV::Call(c) => ItemV::Call(c),
        FoundV::Function(_) => arbitrary(),
    };
    let fx = propagated(functions, graph)["deploy"@];
    assert(shows(fx, item) <==> exists|g: NameV| #[trigger]
        reaches(functions, graph, "deploy"@, g) && shows(functions[g], item));
    if shows(fx, item) {
        let g = choose|g: NameV| #[trigger]
            reaches(functions, graph, "deploy"@, g) && shows(functions[g], item);
        if g != "deploy"@ {
            let path = choose|path: Seq<NameV>| #[trigger]
                name_chain(functions, graph, path) && path[0] == "deploy"@ && path.last() == g;
            let n = path.len() - 1;
            assert(calls_directly(functions, graph, path[n - 1], path[n]));
            assert(found.calls.contains(g));
            lemma_items_do(items, scope, FoundV::Function(g));
            assert(known.contains_key(g));
        }
    }
    if an_item_does(items, scope, x) {
        lemma_reaches_self(functions, graph, "deploy"@);
        assert(shows(functions["deploy"@], item));
    }
    assert forall|f: NameV| #[trigger]
        known.contains_key(f) && f != "deploy"@ && an_item_does(
            items,
            scope,
            FoundV::Function(f),
        ) && holds(TraceV { effects: known[f], calls: Set::empty() }, x) implies shows(fx, item) by {
        lemma_items_do(items, scope, FoundV::Function(f));
        let path = seq!["deploy"@, f];
        assert(found.calls.contains(f));
        assert(calls_directly(functions, graph, "deploy"@, f));
        assert(name_chain(functions, graph, path));
        assert(reaches(functions, graph, "deploy"@, f));
    }
}

/// A definition that is not well formed stops the deployment, with its own message,
/// and the first that is not is the one that counts.
pub proof fn law_first_invalid_definition_counts(items: Seq<TopLevel>, k: int)
    ensures
        first_invalid(items) is None <==> forall|i: int|
            0 <= i < items.len() ==> !(#[trigger] items[i] is Invalid),
        0 <= k < items.len() && (forall|i: int| 0 <= i < k ==> !(#[trigger] items[i] is Invalid))
            ==> (items[k] matches TopLevel::Invalid(message) ==> first_invalid(items) == Some(
            message@,
        )),
    decreases items.len(),
{
    if items.len() > 0 {
        let before = items.drop_last();
        let last = items.len() - 1;
        law_first_invalid_definition_counts(before, k);
        assert(forall|i: int| 0 <= i < last ==> #[trigger] before[i] == items[i]);
        if first_invalid(before) is Some {
            let i = choose|i: int| 0 <= i < before.len() && #[trigger] before[i] is Invalid;
            assert(items[i] is Invalid);
        }
        if forall|i: int| 0 <= i < items.len() ==> !(#[trigger] items[i] is Invalid) {
            assert(!(items[last] is Invalid));
        }
        if first_invalid(items) is None {
            assert forall|i: int| 0 <= i < items.len() implies !(
            #[trigger] items[i] is Invalid) by {
                if i < last {
                    assert(!(before[i] is Invalid));
                }
            }
        }
    }
}

} // verus!
