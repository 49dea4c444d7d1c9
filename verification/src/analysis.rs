//! The analysis of a whole contract: its functions, and its deployment.

use vstd::prelude::*;
use vstd::slice::slice_subrange;

use crate::analyzer::{
    calls_from, principal_in, trace, with_calls, AnalyzerV, Bindings, EffectsAnalyzer, Parameters,
    TraceV,
};
use crate::contracts::{
    collect_contract_effects_recursive, law_settled_keeps, reached, result_view, settle, settled,
    ContractStore, LoadStop, StopV, StoreV, ROUND_LIMIT,
};
use crate::effects::{
    contract_args, Contracts, ContractsV, EffectsV, FunctionEffects, Functions, FunctionsV, Purity,
};
use crate::following::{
    accesses, law_settled_effects_are_found, law_settled_effects_follow_calls, leads_to_access,
    stems_from,
};
use crate::ordered::{lemma_push_members, lemma_sorted_distinct, Data, OrderedMap, OrderedSet};
use crate::propagation::{
    lemma_reached_known, lemma_reaches_self, propagate, propagated, reaches, shows, ItemV,
};
use crate::syntax::{
    atom_in, list_in, CheckErrorV, ContractAnalysis, DefineFunctionsParsed, StaticCheckError,
    SymbolicExpression, TopLevel,
};
use crate::types::{
    ClarityName, ContractIdV, NameV, PrincipalRefV, PrincipalReference, QualifiedContractIdentifier,
    TargetV,
};

verus! {

/// The name of a parameter, if the expression declares one.
pub open spec fn parameter_in(e: SymbolicExpression) -> Option<NameV> {
    match list_in(e) {
        Some(list) => if list.len() > 0 {
            atom_in(list[0])
        } else {
            None
        },
        None => None,
    }
}

/// The places of the parameters that expressions declare. Where a name is
/// declared twice, the last place counts.
pub open spec fn parameters_in(list: Seq<SymbolicExpression>) -> Map<NameV, u32>
    decreases list.len(),
{
    if list.len() == 0 {
        Map::empty()
    } else {
        let before = parameters_in(list.drop_last());
        match parameter_in(list.last()) {
            Some(name) => before.insert(name, (list.len() - 1) as u32),
            None => before,
        }
    }
}

/// The places of the parameters of a function.
pub open spec fn signature_parameters(signature: Seq<SymbolicExpression>) -> Map<NameV, u32> {
    if signature.len() == 0 {
        Map::empty()
    } else {
        parameters_in(signature.subrange(1, signature.len() as int))
    }
}

/// The signature and the body of the function that is defined here.
pub open spec fn function_in(item: TopLevel) -> Option<
    (Seq<SymbolicExpression>, SymbolicExpression),
> {
    match item {
        TopLevel::Definition(DefineFunctionsParsed::PrivateFunction { signature, body }) => Some(
            (signature@, body),
        ),
        TopLevel::Definition(DefineFunctionsParsed::ReadOnlyFunction { signature, body }) => Some(
            (signature@, body),
        ),
        TopLevel::Definition(DefineFunctionsParsed::PublicFunction { signature, body }) => Some(
            (signature@, body),
        ),
        _ => None,
    }
}

/// The name and the value of the constant that is defined here.
pub open spec fn constant_in(item: TopLevel) -> Option<(NameV, SymbolicExpression)> {
    match item {
        TopLevel::Definition(DefineFunctionsParsed::Constant { name, value }) => Some(
            (name@, value),
        ),
        _ => None,
    }
}

/// The name at the head of a signature.
pub open spec fn name_in(signature: Seq<SymbolicExpression>) -> Option<NameV> {
    if signature.len() > 0 {
        atom_in(signature[0])
    } else {
        None
    }
}

/// The analyzer, knowing a constant if it stands for a principal.
pub open spec fn with_constant(a: AnalyzerV, name: NameV, value: SymbolicExpression) -> AnalyzerV {
    match principal_in(value, a.scope(Map::empty()), Map::empty()) {
        PrincipalRefV::Any => a,
        reference => AnalyzerV {
            principal_constants: a.principal_constants.insert(name, reference),
            ..a
        },
    }
}

/// What a first pass over a contract collects: the analyzer, and the places of
/// the definitions of the functions.
pub ghost struct CollectedV {
    pub analyzer: AnalyzerV,
    pub places: Map<NameV, usize>,
}

/// The collection with one more item, or why the item is refused.
pub open spec fn collected_item(before: CollectedV, item: TopLevel, place: int) -> Result<
    CollectedV,
    CheckErrorV,
> {
    match item {
        TopLevel::Invalid(message) => Err(CheckErrorV::InvalidDefinition(message@)),
        _ => match function_in(item) {
            Some((signature, body)) => match name_in(signature) {
                Some(name) => Ok(
                    CollectedV {
                        analyzer: AnalyzerV {
                            function_effects: if before.analyzer.function_effects.contains_key(
                                name,
                            ) {
                                before.analyzer.function_effects
                            } else {
                                before.analyzer.function_effects.insert(name, EffectsV::none())
                            },
                            known_functions: before.analyzer.known_functions.insert(name),
                            ..before.analyzer
                        },
                        places: before.places.insert(name, place as usize),
                    },
                ),
                None => Err(CheckErrorV::DefineFunctionBadSignature),
            },
            None => match constant_in(item) {
                Some((name, value)) => Ok(
                    CollectedV { analyzer: with_constant(before.analyzer, name, value), ..before },
                ),
                None => Ok(before),
            },
        },
    }
}

/// What is collected from items up to the first that is refused, and why that
/// one is.
pub open spec fn collected(items: Seq<TopLevel>, start: AnalyzerV) -> (
    CollectedV,
    Option<CheckErrorV>,
)
    decreases items.len(),
{
    if items.len() == 0 {
        (CollectedV { analyzer: start, places: Map::empty() }, None)
    } else {
        let (before, error) = collected(items.drop_last(), start);
        match error {
            Some(e) => (before, Some(e)),
            None => match collected_item(before, items.last(), items.len() - 1) {
                Ok(after) => (after, None),
                Err(e) => (before, Some(e)),
            },
        }
    }
}

proof fn lemma_collected_error(items: Seq<TopLevel>, start: AnalyzerV, i: int)
    requires
        0 <= i <= items.len(),
        collected(items.take(i), start).1 is Some,
    ensures
        collected(items, start) == collected(items.take(i), start),
    decreases items.len() - i,
{
    if i == items.len() {
        assert(items.take(i) =~= items);
    } else {
        assert(items.take(i + 1).drop_last() =~= items.take(i));
        lemma_collected_error(items, start, i + 1);
    }
}

/// What walking the body of a function finds.
pub open spec fn body_trace(a: AnalyzerV, item: TopLevel) -> TraceV {
    match function_in(item) {
        Some((signature, body)) => trace(
            body,
            a.scope(signature_parameters(signature)),
            Map::empty(),
        ),
        None => TraceV::none(),
    }
}

/// The effects that a function has on record.
pub open spec fn effects_on_record(functions: FunctionsV, f: NameV) -> EffectsV {
    if functions.contains_key(f) {
        functions[f]
    } else {
        EffectsV::none()
    }
}

/// The analyzer after the bodies of some of the functions have been walked.
pub open spec fn bodies_walked(
    c: CollectedV,
    items: Seq<TopLevel>,
    done: Set<NameV>,
) -> AnalyzerV {
    let a = c.analyzer;
    AnalyzerV {
        function_effects: Map::new(
            |f: NameV| a.function_effects.contains_key(f) || done.contains(f),
            |f: NameV|
                if done.contains(f) {
                    effects_on_record(a.function_effects, f).plus(
                        body_trace(a, items[c.places[f] as int]).effects,
                    )
                } else {
                    a.function_effects[f]
                },
        ),
        call_graph: Map::new(
            |f: NameV|
                a.call_graph.contains_key(f) || done.contains(f) && body_trace(
                    a,
                    items[c.places[f] as int],
                ).calls != Set::<NameV>::empty(),
            |f: NameV|
                if done.contains(f) {
                    calls_from(a.call_graph, f).union(
                        body_trace(a, items[c.places[f] as int]).calls,
                    )
                } else {
                    a.call_graph[f]
                },
        ),
        ..a
    }
}

/// The functions once their calls of other contracts are replaced.
pub open spec fn functions_settled(functions: FunctionsV, contracts: ContractsV) -> Option<
    FunctionsV,
> {
    if forall|f: NameV| #[trigger]
        functions.contains_key(f) ==> settled(
            functions[f],
            seq![],
            contracts,
            ROUND_LIMIT as nat,
        ) is Some {
        Some(
            Map::new(
                |f: NameV| functions.contains_key(f),
                |f: NameV| settled(functions[f], seq![], contracts, ROUND_LIMIT as nat)->0,
            ),
        )
    } else {
        None
    }
}

/// The functions of a contract with their calls of other contracts replaced by
/// the effects of what they call.
pub open spec fn calls_replaced(
    contract: ContractIdV,
    functions: FunctionsV,
    store: StoreV,
) -> Result<FunctionsV, StopV> {
    match reached(contract, functions, store) {
        Err(stop) => Err(stop),
        Ok(contracts) => match functions_settled(functions, contracts) {
            Some(r) => Ok(r),
            None => Err(StopV::Unsettled),
        },
    }
}

/// The functions, each with the purity that its effects deserve.
pub open spec fn all_judged(functions: FunctionsV) -> FunctionsV {
    Map::new(
        |f: NameV| functions.contains_key(f),
        |f: NameV| functions[f].judged(),
    )
}

/// The analyzer after an analysis, and why the analysis failed if it did.
///
/// The functions are collected, their bodies are walked, effects are passed on
/// along calls in the contract, calls of other contracts are replaced by what
/// they do, and the purity is told from the effects.
pub open spec fn analyzed(start: AnalyzerV, items: Seq<TopLevel>, store: StoreV) -> (
    AnalyzerV,
    Option<CheckErrorV>,
) {
    let (c, error) = collected(items, start);
    match error {
        Some(e) => (c.analyzer, Some(e)),
        None => {
            let walked = bodies_walked(c, items, c.places.dom());
            let passed_on = AnalyzerV {
                function_effects: propagated(walked.function_effects, walked.call_graph),
                ..walked
            };
            match calls_replaced(passed_on.contract, passed_on.function_effects, store) {
                Err(stop) => (passed_on, Some(CheckErrorV::Load(stop))),
                Ok(functions) => (
                    AnalyzerV { function_effects: all_judged(functions), ..passed_on },
                    None,
                ),
            }
        },
    }
}

/// The analyzer before an analysis.
pub open spec fn fresh_analyzer(analysis: ContractAnalysis) -> AnalyzerV {
    AnalyzerV {
        contract: analysis.contract_identifier@,
        clarity_version: analysis.clarity_version,
        natives: analysis.natives@,
        function_effects: Map::empty(),
        call_graph: Map::empty(),
        known_functions: Set::empty(),
        principal_constants: Map::empty(),
    }
}

impl EffectsAnalyzer {
    /// An analyzer for a contract, with nothing found yet.
    pub fn new(contract_analysis: &ContractAnalysis) -> (r: Self)
        ensures
            r@ == fresh_analyzer(*contract_analysis),
    {
        EffectsAnalyzer {
            contract_identifier: contract_analysis.contract_identifier.duplicate(),
            clarity_version: contract_analysis.clarity_version,
            natives: contract_analysis.natives.duplicate(),
            function_effects: OrderedMap::new(),
            call_graph: OrderedMap::new(),
            known_functions: OrderedSet::new(),
            principal_constants: OrderedMap::new(),
        }
    }

    /// Tells for each parameter of a function its place among the arguments.
    pub fn extract_param_indices(signature: &[SymbolicExpression]) -> (r: Parameters)
        ensures
            r@ == signature_parameters(signature@),
    {
        let mut param_indices: Parameters = OrderedMap::new();
        if signature.len() == 0 {
            return param_indices;
        }
        let params = slice_subrange(signature, 1, signature.len());
        let ghost list = params@;
        let mut i: usize = 0;
        while i < params.len()
            invariant
                i <= params.len(),
                list == params@,
                param_indices@ == parameters_in(list.take(i as int)),
            decreases params.len() - i,
        {
            proof {
                assert(list.take(i + 1).drop_last() =~= list.take(i as int));
                assert(list.take(i + 1).last() == list[i as int]);
            }
            if let Some(param_list) = params[i].match_list() {
                if param_list.len() > 0 {
                    if let Some(name) = param_list[0].match_atom() {
                        param_indices.insert(name.duplicate(), i as u32);
                    }
                }
            }
            i = i + 1;
        }
        assert(list.take(list.len() as int) =~= list);
        param_indices
    }

    /// Notes a constant, if it stands for a principal.
    pub fn note_constant(&mut self, name: &ClarityName, value: &SymbolicExpression)
        ensures
            final(self)@ == with_constant(old(self)@, name@, *value),
    {
        let no_params: Parameters = OrderedMap::new();
        let no_bindings: Bindings = OrderedMap::new();
        match self.resolve_principal(value, &no_params, &no_bindings) {
            PrincipalReference::Any => {},
            reference => {
                self.principal_constants.insert(name.duplicate(), reference);
            },
        }
    }

    /// Notes a function and the place of its definition.
    fn note_function(
        &mut self,
        signature: &Vec<SymbolicExpression>,
        place: usize,
        places: &mut OrderedMap<ClarityName, usize>,
    ) -> (r: Result<(), StaticCheckError>)
        ensures
            match name_in(signature@) {
                Some(name) => {
                    &&& r is Ok
                    &&& final(self)@ == (AnalyzerV {
                        function_effects: if old(self)@.function_effects.contains_key(name) {
                            old(self)@.function_effects
                        } else {
                            old(self)@.function_effects.insert(name, EffectsV::none())
                        },
                        known_functions: old(self)@.known_functions.insert(name),
                        ..old(self)@
                    })
                    &&& final(places)@ == old(places)@.insert(name, place)
                },
                None => {
                    &&& r is Err
                    &&& r->Err_0@ == CheckErrorV::DefineFunctionBadSignature
                    &&& final(self)@ == old(self)@
                    &&& final(places)@ == old(places)@
                },
            },
    {
        if signature.len() == 0 {
            return Err(StaticCheckError::DefineFunctionBadSignature);
        }
        match signature[0].match_atom() {
            None => Err(StaticCheckError::DefineFunctionBadSignature),
            Some(name) => {
                if !self.function_effects.contains_key(name) {
                    self.function_effects.insert(name.duplicate(), FunctionEffects::default());
                }
                self.known_functions.insert(name.duplicate());
                places.insert(name.duplicate(), place);
                Ok(())
            },
        }
    }

    /// The first pass over a contract: notes its constants and functions, up to
    /// the first item that is refused.
    fn collect(
        &mut self,
        items: &Vec<TopLevel>,
        places: &mut OrderedMap<ClarityName, usize>,
    ) -> (r: Result<(), StaticCheckError>)
        requires
            old(places)@ == Map::<NameV, usize>::empty(),
        ensures
            collected(items@, old(self)@) == (
                CollectedV { analyzer: final(self)@, places: final(places)@ },
                match r {
                    Ok(_) => None,
                    Err(e) => Some(e@),
                },
            ),
    {
        let ghost start = self@;
        let ghost all = items@;
        let mut i: usize = 0;
        while i < items.len()
            invariant
                i <= items.len(),
                all == items@,
                start == old(self)@,
                collected(all.take(i as int), start) == (
                    CollectedV { analyzer: self@, places: places@ },
                    None::<CheckErrorV>,
                ),
            decreases items.len() - i,
        {
            proof {
                assert(all.take(i + 1).drop_last() =~= all.take(i as int));
                assert(all.take(i + 1).last() == all[i as int]);
            }
            let mut error: Option<StaticCheckError> = None;
            match &items[i] {
                TopLevel::Invalid(message) => {
                    error = Some(StaticCheckError::InvalidDefinition(message.duplicate()));
                },
                TopLevel::Expression(_) => {},
                TopLevel::Definition(definition) => match definition {
                    DefineFunctionsParsed::Constant { name, value } => {
                        self.note_constant(name, value);
                    },
                    DefineFunctionsParsed::PrivateFunction { signature, .. }
                    | DefineFunctionsParsed::ReadOnlyFunction { signature, .. }
                    | DefineFunctionsParsed::PublicFunction { signature, .. } => {
                        match self.note_function(signature, i, places) {
                            Ok(_) => {},
                            Err(e) => {
                                error = Some(e);
                            },
                        }
                    },
                    DefineFunctionsParsed::NonFungibleToken { .. }
                    | DefineFunctionsParsed::BoundedFungibleToken { .. }
                    | DefineFunctionsParsed::UnboundedFungibleToken { .. }
                    | DefineFunctionsParsed::DataMap { .. }
                    | DefineFunctionsParsed::PersistedVariable { .. }
                    | DefineFunctionsParsed::Trait
                    | DefineFunctionsParsed::UseTrait
                    | DefineFunctionsParsed::ImplTrait => {},
                },
            }
            if let Some(e) = error {
                proof {
                    lemma_collected_error(all, start, i + 1);
                }
                return Err(e);
            }
            i = i + 1;
        }
        assert(all.take(all.len() as int) =~= all);
        Ok(())
    }
}

/// Every noted place is that of the definition of a function.
proof fn lemma_places(items: Seq<TopLevel>, start: AnalyzerV)
    requires
        items.len() <= usize::MAX,
    ensures
        forall|f: NameV| #[trigger]
            collected(items, start).0.places.contains_key(f) ==> {
                &&& collected(items, start).0.places[f] < items.len()
                &&& function_in(items[collected(items, start).0.places[f] as int]) is Some
            },
    decreases items.len(),
{
    if items.len() > 0 {
        let before = items.drop_last();
        lemma_places(before, start);
        let c = collected(items, start).0;
        let c0 = collected(before, start).0;
        assert forall|f: NameV| #[trigger] c.places.contains_key(f) implies c.places[f]
            < items.len() && function_in(items[c.places[f] as int]) is Some by {
            if c0.places.contains_key(f) && c.places[f] == c0.places[f] {
                assert(items[c.places[f] as int] == before[c.places[f] as int]);
            }
        }
    }
}

/// Walking one more body.
proof fn lemma_body_walked(c: CollectedV, items: Seq<TopLevel>, done: Set<NameV>, f: NameV)
    requires
        !done.contains(f),
    ensures
        ({
            let before = bodies_walked(c, items, done);
            let found = body_trace(c.analyzer, items[c.places[f] as int]);
            bodies_walked(c, items, done.insert(f)) == (AnalyzerV {
                function_effects: before.function_effects.insert(
                    f,
                    effects_on_record(before.function_effects, f).plus(found.effects),
                ),
                call_graph: with_calls(before.call_graph, f, found.calls),
                ..before
            })
        }),
{
    let before = bodies_walked(c, items, done);
    let after = bodies_walked(c, items, done.insert(f));
    let found = body_trace(c.analyzer, items[c.places[f] as int]);
    let graph = with_calls(before.call_graph, f, found.calls);
    assert(after.function_effects =~= before.function_effects.insert(
        f,
        effects_on_record(before.function_effects, f).plus(found.effects),
    ));
    if found.calls == Set::<NameV>::empty() {
        assert(calls_from(c.analyzer.call_graph, f).union(found.calls) =~= calls_from(
            c.analyzer.call_graph,
            f,
        ));
    }
    assert(after.call_graph =~= graph);
}

/// A listing of part of the names, one name longer.
proof fn lemma_next_name(names: Seq<NameV>, i: int)
    requires
        0 <= i < names.len(),
    ensures
        names.take(i + 1).to_set() == names.take(i).to_set().insert(names[i]),
{
    assert(names.take(i + 1) =~= names.take(i).push(names[i]));
    assert forall|n: NameV| names.take(i + 1).to_set().contains(n)
        == names.take(i).to_set().insert(names[i]).contains(n) by {
        lemma_push_members(names.take(i), names[i], n);
    }
    assert(names.take(i + 1).to_set() =~= names.take(i).to_set().insert(names[i]));
}

impl EffectsAnalyzer {
    /// Walks the bodies of the functions.
    fn walk_bodies(&mut self, items: &Vec<TopLevel>, places: &OrderedMap<ClarityName, usize>)
        requires
            forall|f: NameV| #[trigger]
                places@.contains_key(f) ==> places@[f] < items@.len() && function_in(
                    items@[places@[f] as int],
                ) is Some,
        ensures
            final(self)@ == bodies_walked(
                CollectedV { analyzer: old(self)@, places: places@ },
                items@,
                places@.dom(),
            ),
    {
        let ghost c = CollectedV { analyzer: self@, places: places@ };
        let n = places.len();
        let ghost names = places.keys_in_order();
        let no_bindings: Bindings = OrderedMap::new();
        let mut i: usize = 0;
        proof {
            lemma_sorted_distinct::<ClarityName>(names);
            assert(names.take(0).to_set() =~= Set::empty());
            let walked = bodies_walked(c, items@, Set::empty());
            assert(walked.function_effects =~= self@.function_effects);
            assert(walked.call_graph =~= self@.call_graph);
        }
        while i < n
            invariant
                i <= n,
                n == names.len(),
                names == places.keys_in_order(),
                names.to_set() == places@.dom(),
                names.no_duplicates(),
                c == (CollectedV { analyzer: old(self)@, places: places@ }),
                no_bindings@ == Map::<NameV, PrincipalRefV>::empty(),
                forall|f: NameV| #[trigger]
                    places@.contains_key(f) ==> places@[f] < items@.len() && function_in(
                        items@[places@[f] as int],
                    ) is Some,
                self@ == bodies_walked(c, items@, names.take(i as int).to_set()),
            decreases n - i,
        {
            let name = places.key(i);
            let place = *places.value(i);
            let ghost done = names.take(i as int).to_set();
            proof {
                lemma_next_name(names, i as int);
                if done.contains(name@) {
                    let k = choose|k: int| 0 <= k < i && names.take(i as int)[k] == name@;
                    assert(names[k] == names[i as int]);
                }
                lemma_body_walked(c, items@, done, name@);
            }
            let ghost before = self@;
            match &items[place] {
                TopLevel::Definition(DefineFunctionsParsed::PrivateFunction { signature, body })
                | TopLevel::Definition(DefineFunctionsParsed::ReadOnlyFunction { signature, body })
                | TopLevel::Definition(
                    DefineFunctionsParsed::PublicFunction { signature, body },
                ) => {
                    let param_indices = Self::extract_param_indices(signature.as_slice());
                    let mut effects = match self.function_effects.remove(name) {
                        Some(effects) => effects,
                        None => FunctionEffects::default(),
                    };
                    proof {
                        assert(self@.scope(param_indices@) == c.analyzer.scope(param_indices@));
                    }
                    self.analyze_expr(body, name, &param_indices, &no_bindings, &mut effects);
                    self.function_effects.insert(name.duplicate(), effects);
                    proof {
                        let found = body_trace(c.analyzer, items@[c.places[name@] as int]);
                        assert(self@.function_effects =~= before.function_effects.insert(
                            name@,
                            effects_on_record(before.function_effects, name@).plus(found.effects),
                        ));
                    }
                },
                _ => {
                    assert(false);
                },
            }
            i = i + 1;
        }
        assert(names.take(n as int) =~= names);
    }

    /// Passes effects on along the calls inside the contract.
    pub fn propagate_call_effects(&mut self)
        ensures
            final(self)@ == (AnalyzerV {
                function_effects: propagated(old(self)@.function_effects, old(self)@.call_graph),
                ..old(self)@
            }),
    {
        propagate(&mut self.function_effects, &self.call_graph);
    }

    /// The effects of this contract and of all contracts that calls lead to.
    pub fn load_contract_effects(&self, store: &ContractStore) -> (r: Result<Contracts, LoadStop>)
        ensures
            result_view(r) == reached(self@.contract, self@.function_effects, store@),
    {
        collect_contract_effects_recursive(
            &self.contract_identifier,
            &self.function_effects,
            store,
        )
    }

    /// Replaces calls of other contracts by the effects of what they call.
    pub fn resolve_contract_calls(&mut self, store: &ContractStore) -> (r: Result<(), LoadStop>)
        ensures
            match calls_replaced(old(self)@.contract, old(self)@.function_effects, store@) {
                Ok(functions) => r is Ok && final(self)@ == (AnalyzerV {
                    function_effects: functions,
                    ..old(self)@
                }),
                Err(stop) => r is Err && r->Err_0@ == stop && final(self)@ == old(self)@,
            },
    {
        let contracts = match self.load_contract_effects(store) {
            Ok(contracts) => contracts,
            Err(stop) => {
                return Err(stop);
            },
        };
        let ghost functions = self@.function_effects;
        let n = self.function_effects.len();
        let ghost names = self.function_effects.keys_in_order();
        let no_args: [Option<QualifiedContractIdentifier>; 0] = [];
        let mut resolved: Functions = OrderedMap::new();
        let mut i: usize = 0;
        assert(contract_args(no_args@) =~= seq![]);
        while i < n
            invariant
                i <= n,
                n == names.len(),
                names == self.function_effects.keys_in_order(),
                names.to_set() == functions.dom(),
                functions == self@.function_effects,
                self@ == old(self)@,
                contract_args(no_args@) == Seq::<Option<ContractIdV>>::empty(),
                reached(self@.contract, functions, store@) == Ok::<ContractsV, StopV>(contracts@),
                forall|f: NameV| #[trigger]
                    resolved@.contains_key(f) <==> names.take(i as int).to_set().contains(f),
                forall|f: NameV| #[trigger]
                    resolved@.contains_key(f) ==> settled(
                        functions[f],
                        seq![],
                        contracts@,
                        ROUND_LIMIT as nat,
                    ) == Some(resolved@[f]),
            decreases n - i,
        {
            let name = self.function_effects.key(i);
            proof {
                lemma_next_name(names, i as int);
            }
            match settle(self.function_effects.value(i), &no_args, &contracts) {
                Some(effects) => {
                    resolved.insert(name.duplicate(), effects);
                },
                None => {
                    assert(functions.contains_key(name@));
                    return Err(LoadStop::Unsettled);
                },
            }
            i = i + 1;
        }
        proof {
            assert(names.take(n as int) =~= names);
            assert forall|f: NameV| #[trigger] functions.contains_key(f) implies settled(
                functions[f],
                seq![],
                contracts@,
                ROUND_LIMIT as nat,
            ) is Some by {
                assert(names.to_set().contains(f));
                assert(resolved@.contains_key(f));
            }
            let goal = functions_settled(functions, contracts@)->0;
            assert forall|f: NameV| resolved@.contains_key(f) == #[trigger] goal.contains_key(
                f,
            ) by {
                assert(names.to_set().contains(f) == functions.dom().contains(f));
            }
            assert(resolved@ =~= goal);
        }
        self.function_effects = resolved;
        Ok(())
    }

    /// Tells the purity of each function from its effects.
    pub fn update_purity(&mut self)
        ensures
            final(self)@ == (AnalyzerV {
                function_effects: all_judged(old(self)@.function_effects),
                ..old(self)@
            }),
    {
        let ghost functions = self@.function_effects;
        let n = self.function_effects.len();
        let ghost names = self.function_effects.keys_in_order();
        let mut judged: Functions = OrderedMap::new();
        let mut i: usize = 0;
        while i < n
            invariant
                i <= n,
                n == names.len(),
                names == self.function_effects.keys_in_order(),
                names.to_set() == functions.dom(),
                functions == self@.function_effects,
                self@ == old(self)@,
                forall|f: NameV| #[trigger]
                    judged@.contains_key(f) <==> names.take(i as int).to_set().contains(f),
                forall|f: NameV| #[trigger]
                    judged@.contains_key(f) ==> judged@[f] == functions[f].judged(),
            decreases n - i,
        {
            proof {
                lemma_next_name(names, i as int);
            }
            let effects = judge(self.function_effects.value(i).duplicate());
            judged.insert(self.function_effects.key(i).duplicate(), effects);
            i = i + 1;
        }
        proof {
            assert(names.take(n as int) =~= names);
            let goal = all_judged(functions);
            assert forall|f: NameV| judged@.contains_key(f) == #[trigger] goal.contains_key(
                f,
            ) by {
                assert(names.to_set().contains(f) == functions.dom().contains(f));
            }
            assert(judged@ =~= goal);
        }
        self.function_effects = judged;
    }

    /// Analyzes a contract and stores what it finds in it.
    ///
    /// The effects of other contracts come from the store. Where one is needed
    /// that has not been read yet, the analysis fails and names it.
    pub fn run(
        &mut self,
        contract_analysis: &mut ContractAnalysis,
        store: &ContractStore,
    ) -> (r: Result<(), StaticCheckError>)
        ensures
            analyzed(old(self)@, old(contract_analysis).expressions@, store@) == (
                final(self)@,
                match r {
                    Ok(_) => None,
                    Err(e) => Some(e@),
                },
            ),
            final(contract_analysis).function_effects@ == (match r {
                Ok(_) => final(self)@.function_effects,
                Err(_) => old(contract_analysis).function_effects@,
            }),
            *final(contract_analysis) == (ContractAnalysis {
                function_effects: final(contract_analysis).function_effects,
                ..*old(contract_analysis)
            }),
    {
        let mut places: OrderedMap<ClarityName, usize> = OrderedMap::new();
        match self.collect(&contract_analysis.expressions, &mut places) {
            Ok(_) => {},
            Err(e) => {
                return Err(e);
            },
        }
        proof {
            assert(contract_analysis.expressions@.len() == contract_analysis.expressions.len());
            lemma_places(contract_analysis.expressions@, old(self)@);
        }
        self.walk_bodies(&contract_analysis.expressions, &places);
        self.propagate_call_effects();
        match self.resolve_contract_calls(store) {
            Ok(_) => {},
            Err(stop) => {
                return Err(StaticCheckError::Load(stop));
            },
        }
        self.update_purity();
        contract_analysis.function_effects = self.function_effects.duplicate();
        Ok(())
    }
}

/// Effects with the purity that they deserve.
pub fn judge(effects: FunctionEffects) -> (r: FunctionEffects)
    ensures
        r@ == effects@.judged(),
{
    let mut r = effects;
    r.purity = if r.reads.is_empty() && r.writes.is_empty() && r.contract_calls.is_empty() {
        Purity::Pure
    } else {
        Purity::Impure
    };
    r
}

/// An item defines a function of this name.
pub open spec fn defines(item: TopLevel, f: NameV) -> bool {
    function_in(item) matches Some((signature, body)) && name_in(signature) == Some(f)
}

proof fn lemma_collected_names(items: Seq<TopLevel>, start: AnalyzerV, f: NameV)
    requires
        items.len() <= usize::MAX,
        collected(items, start).1 is None,
    ensures
        collected(items, start).0.places.contains_key(f) <==> exists|i: int|
            0 <= i < items.len() && #[trigger] defines(items[i], f),
        collected(items, start).0.places.contains_key(f) ==> defines(
            items[collected(items, start).0.places[f] as int],
            f,
        ),
        collected(items, start).0.analyzer.function_effects.contains_key(f)
            <==> start.function_effects.contains_key(f) || collected(
            items,
            start,
        ).0.places.contains_key(f),
    decreases items.len(),
{
    if items.len() > 0 {
        let before = items.drop_last();
        let last = items.len() - 1;
        lemma_collected_names(before, start, f);
        lemma_places(before, start);
        let c0 = collected(before, start).0;
        let c = collected(items, start).0;
        assert forall|i: int| 0 <= i < last implies #[trigger] before[i] == items[i] by {}
        if exists|i: int| 0 <= i < before.len() && #[trigger] defines(before[i], f) {
            let i = choose|i: int| 0 <= i < before.len() && #[trigger] defines(before[i], f);
            assert(defines(items[i], f));
        }
        if exists|i: int| 0 <= i < items.len() && #[trigger] defines(items[i], f) {
            let i = choose|i: int| 0 <= i < items.len() && #[trigger] defines(items[i], f);
            if i < last {
                assert(defines(before[i], f));
            }
        }
        if c.places.contains_key(f) && !defines(items[last], f) {
            assert(c.places[f] == c0.places[f]);
            assert(items[c.places[f] as int] == before[c.places[f] as int]);
        }
        if defines(items[last], f) {
            assert(c.places[f] == last as usize);
        }
    }
}

/// A successful analysis finds the effects of exactly the functions that the
/// contract defines, besides those that the analyzer knew before.
pub proof fn law_every_function_is_analyzed(
    start: AnalyzerV,
    items: Seq<TopLevel>,
    store: StoreV,
    f: NameV,
)
    requires
        items.len() <= usize::MAX,
        analyzed(start, items, store).1 is None,
    ensures
        analyzed(start, items, store).0.function_effects.contains_key(f)
            <==> start.function_effects.contains_key(f) || exists|i: int|
            0 <= i < items.len() && #[trigger] defines(items[i], f),
{
    lemma_collected_names(items, start, f);
}

/// After a successful analysis a function is pure exactly if it reads, writes and
/// calls nothing.
pub proof fn law_purity(start: AnalyzerV, items: Seq<TopLevel>, store: StoreV, f: NameV)
    requires
        analyzed(start, items, store).1 is None,
        analyzed(start, items, store).0.function_effects.contains_key(f),
    ensures
        analyzed(start, items, store).0.function_effects[f].purity == Purity::Pure
            <==> analyzed(start, items, store).0.function_effects[f].silent(),
{
}

/// The analyzer after the bodies of all functions have been walked.
pub open spec fn walked(start: AnalyzerV, items: Seq<TopLevel>) -> AnalyzerV {
    let c = collected(items, start).0;
    bodies_walked(c, items, c.places.dom())
}

/// After a successful analysis a function reads and writes whatever the body of a
/// function reads and writes that it calls, itself or through others. Its own
/// body is among these.
pub proof fn law_effects_of_reached_bodies(
    start: AnalyzerV,
    items: Seq<TopLevel>,
    store: StoreV,
    f: NameV,
    g: NameV,
)
    requires
        analyzed(start, items, store).1 is None,
        reaches(
            walked(start, items).function_effects,
            walked(start, items).call_graph,
            f,
            g,
        ),
    ensures
        analyzed(start, items, store).0.function_effects.contains_key(f),
        walked(start, items).function_effects[g].reads.subset_of(
            analyzed(start, items, store).0.function_effects[f].reads,
        ),
        walked(start, items).function_effects[g].writes.subset_of(
            analyzed(start, items, store).0.function_effects[f].writes,
        ),
{
    let a = walked(start, items);
    let passed_on = propagated(a.function_effects, a.call_graph);
    lemma_reached_known(a.function_effects, a.call_graph, f, g);
    assert forall|t: TargetV| a.function_effects[g].reads.contains(
        t,
    ) implies passed_on[f].reads.contains(t) by {
        assert(shows(a.function_effects[g], ItemV::Read(t)));
    }
    assert forall|t: TargetV| a.function_effects[g].writes.contains(
        t,
    ) implies passed_on[f].writes.contains(t) by {
        assert(shows(a.function_effects[g], ItemV::Write(t)));
    }
    let contracts = reached(a.contract, passed_on, store)->Ok_0;
    assert(functions_settled(passed_on, contracts) is Some);
    assert(passed_on.contains_key(f));
    law_settled_keeps(passed_on[f], seq![], contracts, ROUND_LIMIT as nat);
}

/// The effects of a function's own body are among those of the function.
pub proof fn law_effects_of_own_body(
    start: AnalyzerV,
    items: Seq<TopLevel>,
    store: StoreV,
    f: NameV,
)
    requires
        items.len() <= usize::MAX,
        analyzed(start, items, store).1 is None,
        collected(items, start).0.places.contains_key(f),
    ensures
        ({
            let c = collected(items, start).0;
            let found = body_trace(c.analyzer, items[c.places[f] as int]).effects;
            let effects = analyzed(start, items, store).0.function_effects[f];
            found.reads.subset_of(effects.reads) && found.writes.subset_of(effects.writes)
        }),
{
    let a = walked(start, items);
    lemma_collected_names(items, start, f);
    lemma_reaches_self(a.function_effects, a.call_graph, f);
    law_effects_of_reached_bodies(start, items, store, f, f);
}

/// The functions after effects are passed on along calls inside the contract, and
/// before calls of other contracts are replaced.
pub open spec fn passed_on(start: AnalyzerV, items: Seq<TopLevel>) -> FunctionsV {
    let a = walked(start, items);
    propagated(a.function_effects, a.call_graph)
}

/// After a successful analysis a function reads and writes whatever its literal
/// calls of other contracts lead to, however many calls that takes.
pub proof fn law_effects_of_called_contracts(
    start: AnalyzerV,
    items: Seq<TopLevel>,
    store: StoreV,
    f: NameV,
    writing: bool,
    t: TargetV,
    depth: nat,
)
    requires
        analyzed(start, items, store).1 is None,
        passed_on(start, items).contains_key(f),
        leads_to_access(
            reached(start.contract, passed_on(start, items), store)->Ok_0,
            passed_on(start, items)[f],
            writing,
            t,
            depth,
        ),
    ensures
        accesses(analyzed(start, items, store).0.function_effects[f], writing).contains(t),
{
    lemma_contract_stays(items, start);
    let functions = passed_on(start, items);
    let contracts = reached(start.contract, functions, store)->Ok_0;
    assert(functions_settled(functions, contracts) is Some);
    law_settled_effects_follow_calls(
        functions[f],
        seq![],
        contracts,
        ROUND_LIMIT as nat,
        writing,
        t,
        depth,
    );
}

/// An analysis makes nothing up: whatever a function reads or writes in the end, it
/// does without calls of other contracts, or a function of a contract that calls
/// lead to does, though perhaps on another's behalf.
pub proof fn law_effects_are_found(
    start: AnalyzerV,
    items: Seq<TopLevel>,
    store: StoreV,
    f: NameV,
    writing: bool,
    t: TargetV,
)
    requires
        analyzed(start, items, store).1 is None,
        passed_on(start, items).contains_key(f),
        accesses(analyzed(start, items, store).0.function_effects[f], writing).contains(t),
    ensures
        accesses(passed_on(start, items)[f], writing).contains(t) || stems_from(
            reached(start.contract, passed_on(start, items), store)->Ok_0,
            writing,
            t,
        ),
{
    lemma_contract_stays(items, start);
    let functions = passed_on(start, items);
    let contracts = reached(start.contract, functions, store)->Ok_0;
    assert(functions_settled(functions, contracts) is Some);
    law_settled_effects_are_found(
        functions[f],
        seq![],
        contracts,
        ROUND_LIMIT as nat,
        writing,
        t,
    );
}

/// Collecting functions does not change which contract is analyzed.
proof fn lemma_contract_stays(items: Seq<TopLevel>, start: AnalyzerV)
    ensures
        collected(items, start).0.analyzer.contract == start.contract,
    decreases items.len(),
{
    if items.len() > 0 {
        lemma_contract_stays(items.drop_last(), start);
    }
}

} // verus!
