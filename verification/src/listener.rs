//! Execution listener: a hook through which the lifecycle of an execution
//! (started, completed, failed) is reported to whoever registered for it.
//!
//! The registry holds at most one listener. Registering replaces the previous
//! listener; clearing removes it; emitting hands the event to the listener
//! that is registered at that moment, or to nobody. Its model keeps a ghost
//! record of the calls made, each a listener and the event it was called
//! with; the registry's invariant ties every entry of that record to a call
//! that was made.
//!
//! An [`ExecutionGuard`] reports `Started` when it is created and, when it is
//! finished, `Completed`, or `Failed` with the last error recorded on it.
use std::time::{Duration, Instant};
use vstd::prelude::*;

verus! {

/// Events reported during an execution.
#[derive(Debug, Clone, PartialEq, Eq)]
pub enum ExecutionEvent {
    /// An execute method began.
    Started {
        model_id: String,
        /// Which method was called (e.g. "execute", "execute_streaming").
        method: String,
    },
    /// An execute method completed successfully.
    Completed { model_id: String, method: String, latency_ms: u64 },
    /// An execute method failed.
    Failed { model_id: String, method: String, latency_ms: u64, error: String },
}

/// The event that closes an execution: `Failed` with the recorded error if
/// there is one, `Completed` otherwise.
pub open spec fn closing_event(
    model_id: String,
    method: String,
    latency_ms: u64,
    failure: Option<String>,
) -> ExecutionEvent {
    match failure {
        Some(error) => ExecutionEvent::Failed { model_id, method, latency_ms, error },
        None => ExecutionEvent::Completed { model_id, method, latency_ms },
    }
}

/// `listener` was called with `event` (the call returned normally).
pub open spec fn was_called_with<L: Fn(ExecutionEvent)>(listener: L, event: ExecutionEvent) -> bool {
    call_ensures(listener, (event,), ())
}

/// `listener` may be called with any event.
pub open spec fn accepts_every_event<L: Fn(ExecutionEvent)>(listener: L) -> bool {
    forall|e: ExecutionEvent| call_requires(listener, (e,))
}

/// The model of a [`ListenerRegistry`]: the registered listener, if any, and
/// a ghost record of the calls made so far, each a listener and the event it
/// was called with.
pub struct RegistryState<L> {
    pub listener: Option<L>,
    pub delivered: Seq<(L, ExecutionEvent)>,
}

impl<L: Fn(ExecutionEvent)> RegistryState<L> {
    /// The registered listener accepts every event, and every entry of the
    /// record stands for a call that was made.
    pub open spec fn wf(self) -> bool {
        &&& (self.listener matches Some(l) ==> accepts_every_event(l))
        &&& forall|k: int|
            0 <= k < self.delivered.len() ==> was_called_with(
                #[trigger] self.delivered[k].0,
                self.delivered[k].1,
            )
    }

    /// The state after `listener` is registered.
    pub open spec fn with_listener(self, listener: L) -> RegistryState<L> {
        RegistryState { listener: Some(listener), delivered: self.delivered }
    }

    /// The state after the listener is removed.
    pub open spec fn cleared(self) -> RegistryState<L> {
        RegistryState { listener: None, delivered: self.delivered }
    }

    /// The state after `event` is emitted: the record gains the call of the
    /// registered listener with it, if a listener is registered.
    pub open spec fn after_emit(self, event: ExecutionEvent) -> RegistryState<L> {
        match self.listener {
            Some(l) => RegistryState {
                listener: self.listener,
                delivered: self.delivered.push((l, event)),
            },
            None => self,
        }
    }

    /// If a listener is registered, it was called with `event`.
    pub open spec fn notified(self, event: ExecutionEvent) -> bool {
        self.listener matches Some(l) ==> was_called_with(l, event)
    }
}

/// Holds the listener that execution events are reported to.
pub struct ListenerRegistry<L: Fn(ExecutionEvent)> {
    listener: Option<L>,
    delivered: Ghost<Seq<(L, ExecutionEvent)>>,
}

impl<L: Fn(ExecutionEvent)> View for ListenerRegistry<L> {
    type V = RegistryState<L>;

    closed spec fn view(&self) -> RegistryState<L> {
        RegistryState { listener: self.listener, delivered: self.delivered@ }
    }
}

impl<L: Fn(ExecutionEvent)> ListenerRegistry<L> {
    #[verifier::type_invariant]
    closed spec fn calls_recorded(self) -> bool {
        self@.wf()
    }

    /// A registry with no listener, which has called nobody.
    pub fn new() -> (registry: Self)
        ensures
            registry@.listener is None,
            registry@.delivered == Seq::<(L, ExecutionEvent)>::empty(),
            registry@.wf(),
    {
        ListenerRegistry { listener: None, delivered: Ghost(Seq::empty()) }
    }
}

/// Register the execution listener.
///
/// Only one listener can be active at a time; calling this replaces any
/// previously registered listener.
pub fn set_execution_listener<L: Fn(ExecutionEvent)>(registry: &mut ListenerRegistry<L>, listener: L)
    requires
        accepts_every_event(listener),
    ensures
        final(registry)@ == old(registry)@.with_listener(listener),
        final(registry)@.wf(),
{
    proof {
        use_type_invariant(&*registry);
    }
    registry.listener = Some(listener);
}

/// Remove the currently registered execution listener.
pub fn clear_execution_listener<L: Fn(ExecutionEvent)>(registry: &mut ListenerRegistry<L>)
    ensures
        final(registry)@ == old(registry)@.cleared(),
        final(registry)@.wf(),
{
    proof {
        use_type_invariant(&*registry);
    }
    registry.listener = None;
}

/// Emit an execution event to the registered listener (if any): the listener
/// is called with it.
pub fn emit<L: Fn(ExecutionEvent)>(registry: &mut ListenerRegistry<L>, event: ExecutionEvent)
    ensures
        old(registry)@.notified(event),
        final(registry)@ == old(registry)@.after_emit(event),
        final(registry)@.wf(),
{
    proof {
        use_type_invariant(&*registry);
    }
    let ghost sent = event;
    let called = match &registry.listener {
        Some(l) => {
            l(event);
            true
        },
        None => false,
    };
    if called {
        let ghost l = registry.listener->0;
        registry.delivered = Ghost(registry.delivered@.push((l, sent)));
    }
}

/// The model of an [`ExecutionGuard`]: what it reports on, when it started,
/// and the error recorded on it, if any.
pub struct GuardState {
    pub model_id: String,
    pub method: String,
    pub start: Instant,
    pub failure: Option<String>,
}

impl GuardState {
    /// The state after `error` is recorded.
    pub open spec fn with_failure(self, error: String) -> GuardState {
        GuardState { failure: Some(error), ..self }
    }

    /// The event that finishing reports, for a measured latency.
    pub open spec fn closing(self, latency_ms: u64) -> ExecutionEvent {
        closing_event(self.model_id, self.method, latency_ms, self.failure)
    }

    /// The event that creating the guard reports.
    pub open spec fn opening(self) -> ExecutionEvent {
        ExecutionEvent::Started { model_id: self.model_id, method: self.method }
    }
}

#[verifier::external_type_specification]
#[verifier::external_body]
pub struct ExInstant(std::time::Instant);

/// Calls `Instant::now`. Nothing is claimed of the instant it returns.
#[verifier::external_body]
fn instant_now() -> Instant {
    Instant::now()
}

/// Calls `Instant::elapsed`. Nothing is claimed of the time that has passed.
#[verifier::external_body]
fn elapsed_since(start: &Instant) -> Duration {
    start.elapsed()
}

/// Calls `Duration::as_millis`. The whole milliseconds of a duration are not
/// stated: the duration itself is opaque here.
#[verifier::external_body]
fn whole_millis(d: &Duration) -> u128 {
    d.as_millis()
}

/// The event that closes an execution of `method` on `model_id` that took
/// `latency_ms`: `Failed` when an error was recorded, `Completed` otherwise.
pub fn closing_event_for(
    model_id: &String,
    method: &String,
    latency_ms: u64,
    error: Option<String>,
) -> (event: ExecutionEvent)
    ensures
        event == closing_event(*model_id, *method, latency_ms, error),
{
    match error {
        Some(err) => ExecutionEvent::Failed {
            model_id: model_id.clone(),
            method: method.clone(),
            latency_ms,
            error: err,
        },
        None => ExecutionEvent::Completed {
            model_id: model_id.clone(),
            method: method.clone(),
            latency_ms,
        },
    }
}

/// Reports `Started` on creation and `Completed` or `Failed` when finished.
///
/// Call [`set_failed`](ExecutionGuard::set_failed) before finishing to report
/// `Failed` instead of `Completed`.
pub struct ExecutionGuard {
    model_id: String,
    method: String,
    start: Instant,
    error: Option<String>,
}

impl View for ExecutionGuard {
    type V = GuardState;

    closed spec fn view(&self) -> GuardState {
        GuardState {
            model_id: self.model_id,
            method: self.method,
            start: self.start,
            failure: self.error,
        }
    }
}

impl ExecutionGuard {
    /// Create a new guard and immediately emit `ExecutionEvent::Started`
    /// to the registered listener.
    pub fn new<L: Fn(ExecutionEvent)>(
        registry: &mut ListenerRegistry<L>,
        model_id: String,
        method: String,
    ) -> (guard: Self)
        ensures
            guard@.model_id == model_id,
            guard@.method == method,
            guard@.failure is None,
            old(registry)@.notified(guard@.opening()),
            final(registry)@ == old(registry)@.after_emit(guard@.opening()),
            final(registry)@.wf(),
    {
        emit(
            registry,
            ExecutionEvent::Started { model_id: model_id.clone(), method: method.clone() },
        );
        let start = instant_now();
        ExecutionGuard { model_id, method, start, error: None }
    }

    /// Mark this execution as failed. The error message is included in the
    /// `Failed` event reported when the guard is finished; a later call
    /// replaces an earlier one.
    pub fn set_failed(&mut self, error: String)
        ensures
            final(self)@ == old(self)@.with_failure(error),
    {
        self.error = Some(error);
    }

    /// End the execution: emit `Failed` with the recorded error, or
    /// `Completed`, to the registered listener, with the milliseconds since
    /// the guard was created (truncated to 64 bits). Returns the latency it
    /// reported.
    pub fn finish<L: Fn(ExecutionEvent)>(self, registry: &mut ListenerRegistry<L>) -> (latency_ms:
        u64)
        ensures
            old(registry)@.notified(self@.closing(latency_ms)),
            final(registry)@ == old(registry)@.after_emit(self@.closing(latency_ms)),
            final(registry)@.wf(),
    {
        let elapsed = elapsed_since(&self.start);
        let millis = whole_millis(&elapsed);
        self.finish_after(registry, millis)
    }

    /// End the execution that took `elapsed_ms` whole milliseconds: emit
    /// `Failed` with the recorded error, or `Completed`, to the registered
    /// listener, with the latency truncated to 64 bits. Returns that latency.
    pub fn finish_after<L: Fn(ExecutionEvent)>(
        self,
        registry: &mut ListenerRegistry<L>,
        elapsed_ms: u128,
    ) -> (latency_ms: u64)
        ensures
            latency_ms == elapsed_ms as u64,
            old(registry)@.notified(self@.closing(latency_ms)),
            final(registry)@ == old(registry)@.after_emit(self@.closing(latency_ms)),
            final(registry)@.wf(),
    {
        let latency_ms = latency_from_millis(elapsed_ms);
        let ghost state = self@;
        let event = closing_event_for(&self.model_id, &self.method, latency_ms, self.error);
        assert(event == state.closing(latency_ms));
        emit(registry, event);
        latency_ms
    }
}

/// Whole milliseconds as a latency: truncated to 64 bits.
pub fn latency_from_millis(millis: u128) -> (ms: u64)
    ensures
        ms == millis as u64,
{
    #[verifier::truncate]
    (millis as u64)
}

/// The guard state after each error of `errors` is recorded in turn.
pub open spec fn after_failures(g: GuardState, errors: Seq<String>) -> GuardState
    decreases errors.len(),
{
    if errors.len() == 0 {
        g
    } else {
        after_failures(g, errors.drop_last()).with_failure(errors.last())
    }
}

/// Once a listener is registered, an emitted event is recorded as a call of
/// it, and of no other listener; in a well-formed state that record means
/// the call was made.
pub proof fn law_emit_reaches_registered_listener<L: Fn(ExecutionEvent)>(
    s: RegistryState<L>,
    l: L,
    e: ExecutionEvent,
)
    ensures
        s.with_listener(l).after_emit(e).delivered == s.delivered.push((l, e)),
        s.with_listener(l).after_emit(e).listener == Some(l),
        s.with_listener(l).after_emit(e).wf() ==> was_called_with(l, e),
{
    if s.with_listener(l).after_emit(e).wf() {
        let d = s.with_listener(l).after_emit(e).delivered;
        let k = d.len() - 1;
        assert(d[k] == (l, e));
        assert(was_called_with(d[k].0, d[k].1));
    }
}

/// After the listener is removed, emitting calls nobody.
pub proof fn law_cleared_registry_is_silent<L: Fn(ExecutionEvent)>(s: RegistryState<L>, e: ExecutionEvent)
    ensures
        s.cleared().after_emit(e) == s.cleared(),
        s.cleared().after_emit(e).delivered == s.delivered,
{
}

/// Only one listener is active: registering a second one replaces the first,
/// and what is emitted afterwards is recorded as a call of the second alone.
pub proof fn law_registration_replaces<L: Fn(ExecutionEvent)>(
    s: RegistryState<L>,
    first: L,
    second: L,
    e: ExecutionEvent,
)
    ensures
        s.with_listener(first).with_listener(second) == s.with_listener(second),
        s.with_listener(first).with_listener(second).after_emit(e).delivered == s.delivered.push(
            (second, e),
        ),
{
}

/// Recording errors keeps what the guard reports on and when it started,
/// and the last error wins.
pub proof fn lemma_after_failures(g: GuardState, errors: Seq<String>)
    ensures
        after_failures(g, errors).model_id == g.model_id,
        after_failures(g, errors).method == g.method,
        after_failures(g, errors).start == g.start,
        after_failures(g, errors).failure == if errors.len() == 0 {
            g.failure
        } else {
            Some(errors.last())
        },
    decreases errors.len(),
{
    if errors.len() > 0 {
        lemma_after_failures(g, errors.drop_last());
    }
}

/// A guard has the registered listener called twice, about the same model
/// and method: with `Started` when the guard is created, then, when it is
/// finished, with `Failed` carrying the last error recorded on it, or with
/// `Completed` if none was.
pub proof fn law_guard_reports_start_then_outcome<L: Fn(ExecutionEvent)>(
    s: RegistryState<L>,
    l: L,
    g0: GuardState,
    errors: Seq<String>,
    latency_ms: u64,
)
    requires
        s.listener == Some(l),
        g0.failure is None,
        s.after_emit(g0.opening()).after_emit(after_failures(g0, errors).closing(latency_ms)).wf(),
    ensures
        ({
            let outcome = if errors.len() == 0 {
                ExecutionEvent::Completed { model_id: g0.model_id, method: g0.method, latency_ms }
            } else {
                ExecutionEvent::Failed {
                    model_id: g0.model_id,
                    method: g0.method,
                    latency_ms,
                    error: errors.last(),
                }
            };
            let started = ExecutionEvent::Started { model_id: g0.model_id, method: g0.method };
            &&& s.after_emit(g0.opening()).after_emit(
                after_failures(g0, errors).closing(latency_ms),
            ).delivered == s.delivered.push((l, started)).push((l, outcome))
            &&& was_called_with(l, started)
            &&& was_called_with(l, outcome)
        }),
{
    lemma_after_failures(g0, errors);
    let end = s.after_emit(g0.opening()).after_emit(after_failures(g0, errors).closing(latency_ms));
    let n: int = s.delivered.len() as int;
    assert(end.delivered[n] == (l, g0.opening()));
    assert(end.delivered[n + 1] == (l, after_failures(g0, errors).closing(latency_ms)));
    assert(was_called_with(end.delivered[n].0, end.delivered[n].1));
    assert(was_called_with(end.delivered[n + 1].0, end.delivered[n + 1].1));
}

} // verus!
