//! Diagnostic hooks for auditing type-checker behaviors that are known to be
//! unsound, but that cannot be changed without a consensus change.
//!
//! Nothing is recorded until [`enable`] is called, so a type checker that calls
//! the hooks behaves exactly like one that does not until a tool opts in.

use vstd::prelude::*;

use crate::ordered::Data;

verus! {

/// A Clarity type.
#[derive(Debug, Clone, PartialEq, Eq)]
pub struct TypeSignature {
    /// The type as it is printed. Types that differ can be printed alike.
    pub text: String,
    /// How the type is built, in full. Types have the same structure exactly if they
    /// are the same.
    pub structure: String,
}

pub ghost struct TypeV {
    pub text: Seq<char>,
    pub structure: Seq<char>,
}

impl View for TypeSignature {
    type V = TypeV;

    open spec fn view(&self) -> TypeV {
        TypeV { text: self.text@, structure: self.structure@ }
    }
}

impl Data for TypeSignature {
    fn duplicate(&self) -> (r: Self) {
        TypeSignature { text: self.text.duplicate(), structure: self.structure.duplicate() }
    }

    fn same(&self, other: &Self) -> (b: bool) {
        self.text.same(&other.text) && self.structure.same(&other.structure)
    }
}

/// A stretch of source text.
#[derive(Debug, Clone, Copy, PartialEq, Eq)]
pub struct Span {
    pub start_line: u32,
    pub start_column: u32,
    pub end_line: u32,
    pub end_column: u32,
}

/// A type-checker behavior worth reporting.
#[derive(Debug, Clone, PartialEq, Eq)]
pub enum TypeAuditEvent {
    /// Two tuple types with different key sets were unified.
    ///
    /// The unification only checks that every key of the first operand exists
    /// in the second one, so `{a: uint}` and `{a: uint, b: uint}` unify to
    /// `{a: uint}` while the second operand still produces a runtime value with
    /// the extra key.
    TupleSupertypeKeyMismatch { a: TypeSignature, b: TypeSignature, result: TypeSignature },
    /// The result type computed for a `fold` does not account for the type of
    /// the initial value, which is what the fold returns on an empty sequence.
    ///
    /// `unified` is what the result type would be if the initial value were
    /// taken into account, or `None` if the two cannot be unified at all.
    FoldInitialTypeMismatch {
        initial: TypeSignature,
        result: TypeSignature,
        unified: Option<TypeSignature>,
        span: Span,
    },
}

/// Where the hooks record: whether recording is on, and what was recorded since
/// the last [`drain`].
#[derive(Debug)]
pub struct AuditLog {
    pub enabled: bool,
    pub events: Vec<TypeAuditEvent>,
}

impl AuditLog {
    /// A log with recording off and nothing in it.
    pub fn new() -> (log: Self)
        ensures
            !log.enabled,
            log.events@ == Seq::<TypeAuditEvent>::empty(),
    {
        AuditLog { enabled: false, events: Vec::new() }
    }
}

/// Start recording events. Events are kept until [`drain`] is called.
pub fn enable(log: &mut AuditLog)
    ensures
        final(log).enabled,
        final(log).events@ == old(log).events@,
{
    log.enabled = true;
}

/// Stop recording events and discard the ones not drained yet.
pub fn disable(log: &mut AuditLog)
    ensures
        !final(log).enabled,
        final(log).events@ == Seq::<TypeAuditEvent>::empty(),
{
    log.enabled = false;
    drain(log);
}

pub fn is_enabled(log: &AuditLog) -> (b: bool)
    ensures
        b == log.enabled,
{
    log.enabled
}

/// Take every event recorded since the last call.
pub fn drain(log: &mut AuditLog) -> (events: Vec<TypeAuditEvent>)
    ensures
        events@ == old(log).events@,
        final(log).events@ == Seq::<TypeAuditEvent>::empty(),
        final(log).enabled == old(log).enabled,
{
    let mut events: Vec<TypeAuditEvent> = Vec::new();
    std::mem::swap(&mut events, &mut log.events);
    events
}

/// Record an event. The closure is only evaluated when recording is enabled.
pub fn record<F: FnOnce() -> TypeAuditEvent>(log: &mut AuditLog, event: F)
    requires
        old(log).enabled ==> call_requires(event, ()),
    ensures
        final(log).enabled == old(log).enabled,
        !old(log).enabled ==> final(log).events@ == old(log).events@,
        old(log).enabled ==> exists|e: TypeAuditEvent| #[trigger]
            call_ensures(event, (), e) && final(log).events@ == old(log).events@.push(e),
{
    if !is_enabled(log) {
        return;
    }
    let e = event();
    log.events.push(e);
}

/// Called by the `fold` type-checkers once the result type is computed, with
/// the type that unifies the result type with that of the initial value, if
/// there is one.
///
/// A fold over an empty sequence returns its initial value, so the result type
/// must admit it. Records an event when unifying the two would change the
/// result type, or fail.
pub fn check_fold_result(
    log: &mut AuditLog,
    initial: &TypeSignature,
    result: &TypeSignature,
    unified: Option<TypeSignature>,
    span: &Span,
)
    ensures
        final(log).enabled == old(log).enabled,
        fold_result_coherent(result@, unified) || !old(log).enabled ==> final(log).events@ == old(
            log,
        ).events@,
        !fold_result_coherent(result@, unified) && old(log).enabled ==> {
            &&& final(log).events@.len() == old(log).events@.len() + 1
            &&& final(log).events@.drop_last() == old(log).events@
            &&& final(log).events@.last() matches TypeAuditEvent::FoldInitialTypeMismatch {
                initial: i,
                result: r,
                unified: u,
                span: s,
            } && i@ == initial@ && r@ == result@ && u == unified && s == *span
        },
{
    if !is_enabled(log) {
        return;
    }
    if let Some(t) = &unified {
        if t.same(result) {
            return;
        }
    }
    let event = TypeAuditEvent::FoldInitialTypeMismatch {
        initial: initial.duplicate(),
        result: result.duplicate(),
        unified,
        span: *span,
    };
    let ghost e = event;
    let mismatch = move || -> (r: TypeAuditEvent)
        ensures
            r == event,
    {
        event
    };
    record(log, mismatch);
    assert(log.events@ == old(log).events@.push(e));
    assert(log.events@.drop_last() =~= old(log).events@);
}

/// The result type of a fold already admits the initial value.
pub open spec fn fold_result_coherent(result: TypeV, unified: Option<TypeSignature>) -> bool {
    unified matches Some(t) && t@ == result
}

/// The result of a fold is as it should be exactly if it can be unified with the
/// initial value, and unifying them changes nothing.
pub proof fn law_coherent_results_stay(result: TypeV, unified: Option<TypeSignature>)
    ensures
        unified is None ==> !fold_result_coherent(result, unified),
        unified matches Some(t) ==> (fold_result_coherent(result, unified) <==> t.text@
            == result.text && t.structure@ == result.structure),
{
}

} // verus!
