//! A one-shot, multi-subscriber completion promise.
//!
//! A promise moves from `Pending` to exactly one terminal state,
//! `Resolved` or `Rejected`, and never back. Continuations registered
//! while pending are queued; settling the promise drains the matching
//! queue and hands every queued continuation back to the caller to run,
//! exactly once. A continuation registered after the promise has settled
//! the matching way is handed straight back for immediate execution; one
//! registered for the other outcome is handed back unused.
//!
//! The promise itself is a single-owner state machine; callers that need
//! to share one across threads wrap it in their own lock.

use vstd::prelude::*;

verus! {

/// The resolution state of a promise.
#[derive(Debug)]
pub enum PromiseResult<T> {
    Pending,
    Resolved(T),
    Rejected,
}

/// A one-shot completion future: continuations subscribe while it is
/// pending; settling it delivers each of them exactly once.
#[derive(Debug)]
pub struct Promise<T, C> {
    pub result: PromiseResult<T>,
    pub on_fulfilled: Vec<C>,
    pub on_rejected: Vec<C>,
}

/// What happened to a continuation handed to a registration call.
#[derive(Debug)]
pub enum Registration<C> {
    /// The promise is pending: the continuation is queued and will be
    /// handed back by the settling call.
    Enqueued,
    /// The promise already settled the matching way: run the returned
    /// continuation now, on this call stack.
    RunNow(C),
    /// The promise settled the other way: the continuation is handed
    /// back unused.
    Discarded(C),
}

/// The mathematical state of a promise: its result and the two queues.
pub struct PromiseView<T, C> {
    pub result: PromiseResult<T>,
    pub fulfilled: Seq<C>,
    pub rejected: Seq<C>,
}

impl<T, C> View for Promise<T, C> {
    type V = PromiseView<T, C>;

    open spec fn view(&self) -> PromiseView<T, C> {
        PromiseView {
            result: self.result,
            fulfilled: self.on_fulfilled@,
            rejected: self.on_rejected@,
        }
    }
}

/// What registering a fulfillment continuation does to a promise state.
pub open spec fn spec_when_resolved<T, C>(v: PromiseView<T, C>, c: C) -> (PromiseView<T, C>, Registration<C>) {
    match v.result {
        PromiseResult::Pending => (
            PromiseView { fulfilled: v.fulfilled.push(c), ..v },
            Registration::Enqueued,
        ),
        PromiseResult::Resolved(_) => (v, Registration::RunNow(c)),
        PromiseResult::Rejected => (v, Registration::Discarded(c)),
    }
}

/// What registering a rejection continuation does to a promise state.
pub open spec fn spec_or_else<T, C>(v: PromiseView<T, C>, c: C) -> (PromiseView<T, C>, Registration<C>) {
    match v.result {
        PromiseResult::Pending => (
            PromiseView { rejected: v.rejected.push(c), ..v },
            Registration::Enqueued,
        ),
        PromiseResult::Rejected => (v, Registration::RunNow(c)),
        PromiseResult::Resolved(_) => (v, Registration::Discarded(c)),
    }
}

/// What resolving does to a pending promise state: the fulfillment queue
/// is drained, in registration order, and returned for execution.
pub open spec fn spec_resolve<T, C>(v: PromiseView<T, C>, value: T) -> (PromiseView<T, C>, Seq<C>) {
    (
        PromiseView { result: PromiseResult::Resolved(value), fulfilled: Seq::empty(), ..v },
        v.fulfilled,
    )
}

/// What rejecting does to a pending promise state: the rejection queue
/// is drained, in registration order, and returned for execution.
pub open spec fn spec_reject<T, C>(v: PromiseView<T, C>) -> (PromiseView<T, C>, Seq<C>) {
    (PromiseView { result: PromiseResult::Rejected, rejected: Seq::empty(), ..v }, v.rejected)
}

impl<T, C> Promise<T, C> {
    /// A fresh, pending promise with no subscribers.
    pub fn new() -> (r: Promise<T, C>)
        ensures
            r@.result is Pending,
            r@.fulfilled == Seq::<C>::empty(),
            r@.rejected == Seq::<C>::empty(),
    {
        Promise { result: PromiseResult::Pending, on_fulfilled: Vec::new(), on_rejected: Vec::new() }
    }

    /// Whether the promise has not settled yet.
    pub fn is_pending(&self) -> (r: bool)
        ensures
            r == (self@.result is Pending),
    {
        matches!(self.result, PromiseResult::Pending)
    }

    /// Whether the promise has resolved.
    pub fn is_resolved(&self) -> (r: bool)
        ensures
            r == (self@.result is Resolved),
    {
        matches!(self.result, PromiseResult::Resolved(_))
    }

    /// Whether the promise has been rejected.
    pub fn is_rejected(&self) -> (r: bool)
        ensures
            r == (self@.result is Rejected),
    {
        matches!(self.result, PromiseResult::Rejected)
    }

    /// The value a resolved promise carries.
    pub fn resolved_value(&self) -> (r: &T)
        requires
            self@.result is Resolved,
        ensures
            self@.result == PromiseResult::Resolved(*r),
    {
        match &self.result {
            PromiseResult::Resolved(v) => v,
            _ => vstd::pervasive::unreached(),
        }
    }

    /// Registers a continuation for resolution. While the promise is
    /// pending it is queued; once resolved it is handed back to run
    /// immediately with the stored value; on a rejected promise it is
    /// handed back unused.
    pub fn when_resolved(&mut self, c: C) -> (r: Registration<C>)
        ensures
            (final(self)@, r) == spec_when_resolved(old(self)@, c),
    {
        match &self.result {
            PromiseResult::Pending => {
                self.on_fulfilled.push(c);
                Registration::Enqueued
            }
            PromiseResult::Resolved(_) => Registration::RunNow(c),
            PromiseResult::Rejected => Registration::Discarded(c),
        }
    }

    /// Registers a continuation for rejection, mirroring `when_resolved`.
    pub fn or_else(&mut self, c: C) -> (r: Registration<C>)
        ensures
            (final(self)@, r) == spec_or_else(old(self)@, c),
    {
        match &self.result {
            PromiseResult::Pending => {
                self.on_rejected.push(c);
                Registration::Enqueued
            }
            PromiseResult::Rejected => Registration::RunNow(c),
            PromiseResult::Resolved(_) => Registration::Discarded(c),
        }
    }

    /// Resolves a pending promise, storing the value and handing back
    /// every queued fulfillment continuation, in registration order, to
    /// be run exactly once by the caller. Settling an already settled
    /// promise is a caller error and is excluded by the precondition.
    pub fn resolve(&mut self, value: T) -> (drained: Vec<C>)
        requires
            old(self)@.result is Pending,
        ensures
            (final(self)@, drained@) == spec_resolve(old(self)@, value),
    {
        self.result = PromiseResult::Resolved(value);
        let mut drained: Vec<C> = Vec::new();
        core::mem::swap(&mut drained, &mut self.on_fulfilled);
        drained
    }

    /// Rejects a pending promise, handing back every queued rejection
    /// continuation, in registration order, to be run exactly once by
    /// the caller.
    pub fn reject(&mut self) -> (drained: Vec<C>)
        requires
            old(self)@.result is Pending,
        ensures
            (final(self)@, drained@) == spec_reject(old(self)@),
    {
        self.result = PromiseResult::Rejected;
        let mut drained: Vec<C> = Vec::new();
        core::mem::swap(&mut drained, &mut self.on_rejected);
        drained
    }
}

/// The gathering state for awaiting several promises in order: how many
/// results are expected and those collected so far. The owner awaits
/// one promise at a time; `next_step` decides whether to await the next
/// one or to deliver the completed results.
pub struct AllProgress<T> {
    pub expected: usize,
    pub results: Vec<T>,
}

/// What the owner of an `AllProgress` should do next.
pub enum AllStep<T> {
    /// Subscribe to the promise at this index and record its value.
    Pending(usize),
    /// Every awaited promise has resolved: deliver the results, in
    /// input order, with the gathering state left empty.
    Finished(Vec<T>),
}

impl<T> AllProgress<T> {
    /// Starts gathering `expected` results.
    pub fn new(expected: usize) -> (r: AllProgress<T>)
        ensures
            r.expected == expected,
            r.results@ == Seq::<T>::empty(),
    {
        AllProgress { expected, results: Vec::new() }
    }

    /// Records the value of the promise most recently awaited.
    pub fn record(&mut self, value: T)
        requires
            old(self).results@.len() < old(self).expected,
        ensures
            final(self).expected == old(self).expected,
            final(self).results@ == old(self).results@.push(value),
    {
        self.results.push(value);
    }

    /// Decides the next step: await the promise whose result is due
    /// next, or, exactly when as many results have arrived as were
    /// expected, hand them all over at once, in input order.
    pub fn next_step(&mut self) -> (r: AllStep<T>)
        requires
            old(self).results@.len() <= old(self).expected,
        ensures
            final(self).expected == old(self).expected,
            old(self).results@.len() == old(self).expected ==> {
                &&& r matches AllStep::Finished(v) && v@ == old(self).results@
                &&& final(self).results@ == Seq::<T>::empty()
            },
            old(self).results@.len() < old(self).expected ==> {
                &&& r matches AllStep::Pending(i) && i == old(self).results@.len()
                &&& final(self).results@ == old(self).results@
            },
    {
        if self.results.len() == self.expected {
            let mut v: Vec<T> = Vec::new();
            core::mem::swap(&mut v, &mut self.results);
            AllStep::Finished(v)
        } else {
            AllStep::Pending(self.results.len())
        }
    }
}

/// Resolution delivers continuations exactly once: resolving a pending
/// promise hands back precisely the continuations queued before it, the
/// queue is left empty, the promise can never satisfy `resolve`'s
/// precondition again, and a continuation registered after resolution is
/// handed back for immediate execution without being queued.
pub proof fn lemma_resolution_delivers_once<T, C>(v: PromiseView<T, C>, value: T, c: C)
    requires
        v.result is Pending,
    ensures
        spec_resolve(v, value).1 == v.fulfilled,
        spec_resolve(v, value).0.fulfilled == Seq::<C>::empty(),
        !(spec_resolve(v, value).0.result is Pending),
        spec_when_resolved(spec_resolve(v, value).0, c) == (
            spec_resolve(v, value).0,
            Registration::RunNow(c),
        ),
{
}

/// The mirror of `lemma_resolution_delivers_once` for rejection.
pub proof fn lemma_rejection_delivers_once<T, C>(v: PromiseView<T, C>, c: C)
    requires
        v.result is Pending,
    ensures
        spec_reject(v).1 == v.rejected,
        spec_reject(v).0.rejected == Seq::<C>::empty(),
        !(spec_reject(v).0.result is Pending),
        spec_or_else(spec_reject(v).0, c) == (spec_reject(v).0, Registration::RunNow(c)),
{
}

} // verus!
