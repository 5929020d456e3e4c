use vstd::prelude::*;
use std::collections::BTreeMap;
use crate::budget::ConcurrencyBudget;
use crate::error::DownloadError;
use crate::error::ErrorView;

verus! {

/// What the run has to do next.
#[derive(Clone, Copy, Debug, PartialEq, Eq, Structural)]
pub enum Action {
    /// Start the fetch task of the segment at `index`.
    Dispatch { index: usize },
    /// Wait until one of the running tasks reports back.
    Await,
    /// Every segment is stored: merge them.
    Merge,
    /// A segment could not be fetched: give the run up.
    Abort,
}

/// What happens to a run, one event at a time.
pub enum Event<T> {
    /// The run was asked what to do next.
    Poll,
    /// The task of the segment at `index` stored its bytes under `scratch`.
    Stored { index: nat, scratch: T },
    /// The task of the segment at `index` failed at every attempt.
    Exhausted { index: nat, attempts: nat, cause: Seq<char> },
}

/// The mathematical value of a [`Pipeline`].
pub struct PipelineState<T> {
    /// How many segments the manifest names.
    pub total: nat,
    /// How many fetch tasks may run at once.
    pub limit: nat,
    /// The segments before this index have been dispatched, in manifest order.
    pub dispatched: nat,
    /// Where each stored segment lies in scratch storage, by segment index.
    pub stored: Map<nat, T>,
    /// The failure that ended the run, if one did.
    pub failure: Option<ErrorView>,
}

impl<T> PipelineState<T> {
    /// A run over `total` segments with `limit` fetch tasks at once, before
    /// anything was dispatched.
    pub open spec fn start(total: nat, limit: nat) -> Self {
        PipelineState { total, limit, dispatched: 0, stored: Map::empty(), failure: None }
    }

    /// Whether the run ended because the segment at `index` was exhausted.
    pub open spec fn failed_at(self, index: nat) -> bool {
        self.failure matches Some(ErrorView::FetchExhausted { index: failed, .. }) && failed
            == index
    }

    /// The segments whose fetch task runs: dispatched, and neither stored nor
    /// exhausted.
    pub open spec fn in_flight(self) -> Set<nat> {
        Set::new(
            |i: nat| i < self.dispatched && !self.stored.contains_key(i) && !self.failed_at(i),
        )
    }

    /// What holds of a run at every moment. The last line is the bound on
    /// concurrency.
    pub open spec fn wf(self) -> bool {
        &&& self.dispatched <= self.total
        &&& forall|i: nat| self.stored.contains_key(i) ==> i < self.dispatched
        &&& self.failure matches Some(e) ==> (e matches ErrorView::FetchExhausted { index, .. }
            && index < self.dispatched && !self.stored.contains_key(index))
        &&& self.in_flight().finite()
        &&& self.in_flight().len() <= self.limit
    }

    /// Every segment has been stored.
    pub open spec fn is_complete(self) -> bool {
        forall|i: nat| i < self.total ==> self.stored.contains_key(i)
    }

    /// A further segment can be dispatched: the run has not failed, a
    /// segment is left and a permit is free.
    pub open spec fn can_dispatch(self) -> bool {
        &&& self.failure is None
        &&& self.dispatched < self.total
        &&& self.in_flight().len() < self.limit
    }

    /// What the run does next.
    pub open spec fn next_action(self) -> Action {
        if self.failure is Some {
            Action::Abort
        } else if self.is_complete() {
            Action::Merge
        } else if self.can_dispatch() {
            Action::Dispatch { index: self.dispatched as usize }
        } else {
            Action::Await
        }
    }

    /// The run after it was asked what to do next: where it answered
    /// `Dispatch`, that segment is in flight.
    pub open spec fn after_poll(self) -> Self {
        if self.can_dispatch() {
            PipelineState { dispatched: self.dispatched + 1, ..self }
        } else {
            self
        }
    }

    /// A report on the segment at `index` counts only while the run has not
    /// failed and that segment is in flight.
    pub open spec fn accepts(self, index: nat) -> bool {
        self.failure is None && self.in_flight().contains(index)
    }

    /// The run after the task of the segment at `index` reported `scratch`.
    pub open spec fn after_stored(self, index: nat, scratch: T) -> Self {
        if self.accepts(index) {
            PipelineState { stored: self.stored.insert(index, scratch), ..self }
        } else {
            self
        }
    }

    /// The run after the task of the segment at `index` gave up.
    pub open spec fn after_exhausted(self, index: nat, attempts: nat, cause: Seq<char>) -> Self {
        if self.accepts(index) {
            PipelineState {
                failure: Some(ErrorView::FetchExhausted { index, attempts, cause }),
                ..self
            }
        } else {
            self
        }
    }

    /// The run after one event.
    pub open spec fn step(self, event: Event<T>) -> Self {
        match event {
            Event::Poll => self.after_poll(),
            Event::Stored { index, scratch } => self.after_stored(index, scratch),
            Event::Exhausted { index, attempts, cause } => self.after_exhausted(
                index,
                attempts,
                cause,
            ),
        }
    }

    /// The run after a sequence of events, the first of them first.
    pub open spec fn run(self, events: Seq<Event<T>>) -> Self
        decreases events.len(),
    {
        if events.len() == 0 {
            self
        } else {
            self.run(events.drop_last()).step(events.last())
        }
    }

    /// The order in which the stored segments are merged: by ascending
    /// segment index.
    pub open spec fn merge_order(self) -> Seq<T> {
        Seq::new(self.total, |i: int| self.stored[i as nat])
    }
}

/// The assembled stream: what the scratch entries hold, one after the other
/// in the order given.
pub open spec fn assembled<T>(order: Seq<T>, content: spec_fn(T) -> Seq<u8>) -> Seq<u8> {
    order.map_values(content).flatten()
}

/// A run starts in a valid state, with nothing in flight.
pub proof fn lemma_start_wf<T>(total: nat, limit: nat)
    ensures
        PipelineState::<T>::start(total, limit).wf(),
        PipelineState::<T>::start(total, limit).in_flight() == Set::<nat>::empty(),
{
    assert(PipelineState::<T>::start(total, limit).in_flight() =~= Set::<nat>::empty());
}

/// No event leads out of the valid states, and none changes the number of
/// segments or the limit.
pub proof fn lemma_step_preserves_wf<T>(state: PipelineState<T>, event: Event<T>)
    requires
        state.wf(),
    ensures
        state.step(event).wf(),
        state.step(event).total == state.total,
        state.step(event).limit == state.limit,
{
    let after = state.step(event);
    match event {
        Event::Poll => {
            if state.can_dispatch() {
                assert(after.in_flight() =~= state.in_flight().insert(state.dispatched));
            }
        },
        Event::Stored { index, scratch } => {
            if state.accepts(index) {
                assert(after.in_flight() =~= state.in_flight().remove(index));
            }
        },
        Event::Exhausted { index, attempts, cause } => {
            if state.accepts(index) {
                assert(after.in_flight() =~= state.in_flight().remove(index));
            }
        },
    }
}

/// No sequence of events leads out of the valid states.
pub proof fn lemma_run_preserves_wf<T>(state: PipelineState<T>, events: Seq<Event<T>>)
    requires
        state.wf(),
    ensures
        state.run(events).wf(),
        state.run(events).total == state.total,
        state.run(events).limit == state.limit,
    decreases events.len(),
{
    if events.len() > 0 {
        lemma_run_preserves_wf(state, events.drop_last());
        lemma_step_preserves_wf(state.run(events.drop_last()), events.last());
    }
}

/// The bound on concurrency: whatever happens to a run and in whatever
/// order, never more than `limit` fetch tasks are in flight, however many
/// segments there are.
pub proof fn lemma_concurrency_bound<T>(total: nat, limit: nat, events: Seq<Event<T>>)
    ensures
        PipelineState::<T>::start(total, limit).run(events).in_flight().finite(),
        PipelineState::<T>::start(total, limit).run(events).in_flight().len() <= limit,
{
    lemma_start_wf::<T>(total, limit);
    lemma_run_preserves_wf(PipelineState::<T>::start(total, limit), events);
}

/// A run that waits has something to wait for, unless its limit is 0: with
/// a permit to give, `Await` is answered only while a fetch task is in
/// flight.
pub proof fn lemma_await_has_tasks_in_flight<T>(state: PipelineState<T>)
    requires
        state.wf(),
        state.limit > 0,
        state.next_action() == Action::Await,
    ensures
        state.in_flight().len() > 0,
{
    if state.dispatched == state.total {
        let missing = choose|i: nat| i < state.total && !state.stored.contains_key(i);
        assert(state.in_flight().contains(missing));
    }
}

/// What holds of every reported scratch entry holds of every stored one.
proof fn lemma_stored_as_reported<T>(
    state: PipelineState<T>,
    events: Seq<Event<T>>,
    holds: spec_fn(nat, T) -> bool,
)
    requires
        forall|i: nat| state.stored.contains_key(i) ==> holds(i, #[trigger] state.stored[i]),
        forall|k: int|
            0 <= k < events.len() ==> (#[trigger] events[k] matches Event::Stored {
                index,
                scratch,
            } ==> holds(index, scratch)),
    ensures
        forall|i: nat|
            state.run(events).stored.contains_key(i) ==> holds(
                i,
                #[trigger] state.run(events).stored[i],
            ),
    decreases events.len(),
{
    if events.len() > 0 {
        let earlier = events.drop_last();
        assert forall|k: int| 0 <= k < earlier.len() implies (#[trigger] earlier[k] matches Event::Stored {
            index,
            scratch,
        } ==> holds(index, scratch)) by {
            assert(earlier[k] == events[k]);
        }
        lemma_stored_as_reported(state, earlier, holds);
        assert(events.last() == events[events.len() - 1]);
    }
}

/// The order of completion never shows in the order of merging: once a run
/// is complete, its merge order lists the scratch entries by segment index,
/// whatever the order in which the tasks reported them.
pub proof fn lemma_merge_order_ignores_arrival_order<T>(
    total: nat,
    limit: nat,
    events: Seq<Event<T>>,
    scratch_of: spec_fn(nat) -> T,
)
    requires
        forall|k: int|
            0 <= k < events.len() ==> (#[trigger] events[k] matches Event::Stored {
                index,
                scratch,
            } ==> scratch == scratch_of(index)),
        PipelineState::<T>::start(total, limit).run(events).is_complete(),
    ensures
        PipelineState::<T>::start(total, limit).run(events).merge_order() == Seq::new(
            total,
            |i: int| scratch_of(i as nat),
        ),
{
    let start = PipelineState::<T>::start(total, limit);
    let end = start.run(events);
    lemma_start_wf::<T>(total, limit);
    lemma_run_preserves_wf(start, events);
    lemma_stored_as_reported(start, events, |i: nat, scratch: T| scratch == scratch_of(i));
    assert forall|i: int| 0 <= i < total implies end.merge_order()[i] == scratch_of(i as nat) by {
        assert(end.stored.contains_key(i as nat));
    }
    assert(end.merge_order() =~= Seq::new(total, |i: int| scratch_of(i as nat)));
}

/// The assembled stream holds the bytes of the segments in manifest order:
/// where each task stores the bytes of its own segment, the stream merged
/// from a complete run is their concatenation by segment index, whatever
/// the order in which the tasks finished.
pub proof fn lemma_assembled_stream_in_manifest_order<T>(
    total: nat,
    limit: nat,
    events: Seq<Event<T>>,
    content: spec_fn(T) -> Seq<u8>,
    bytes_of: spec_fn(nat) -> Seq<u8>,
)
    requires
        forall|k: int|
            0 <= k < events.len() ==> (#[trigger] events[k] matches Event::Stored {
                index,
                scratch,
            } ==> content(scratch) == bytes_of(index)),
        PipelineState::<T>::start(total, limit).run(events).is_complete(),
    ensures
        assembled(PipelineState::<T>::start(total, limit).run(events).merge_order(), content)
            == Seq::new(total, |i: int| bytes_of(i as nat)).flatten(),
{
    let start = PipelineState::<T>::start(total, limit);
    let end = start.run(events);
    lemma_start_wf::<T>(total, limit);
    lemma_run_preserves_wf(start, events);
    lemma_stored_as_reported(
        start,
        events,
        |i: nat, scratch: T| content(scratch) == bytes_of(i),
    );
    assert forall|i: int| 0 <= i < total implies content(end.merge_order()[i]) == bytes_of(
        i as nat,
    ) by {
        assert(end.stored.contains_key(i as nat));
    }
    assert(end.merge_order().map_values(content) =~= Seq::new(
        total,
        |i: int| bytes_of(i as nat),
    ));
}

/// A map keyed by `usize`, seen as keyed by the natural numbers.
pub open spec fn by_index<T>(m: Map<usize, T>) -> Map<nat, T> {
    Map::new(|i: nat| i <= usize::MAX && m.contains_key(i as usize), |i: nat| m[i as usize])
}

/// The state of one run: which segments were dispatched, which are stored
/// and where, and whether the run has failed.
pub struct Pipeline<T> {
    total: usize,
    dispatched: usize,
    budget: ConcurrencyBudget,
    stored: BTreeMap<usize, T>,
    failure: Option<DownloadError>,
}

impl<T> View for Pipeline<T> {
    type V = PipelineState<T>;

    closed spec fn view(&self) -> PipelineState<T> {
        PipelineState {
            total: self.total as nat,
            limit: self.budget.spec_limit(),
            dispatched: self.dispatched as nat,
            stored: by_index(self.stored@),
            failure: match self.failure {
                Some(e) => Some(e@),
                None => None,
            },
        }
    }
}

impl<T> Pipeline<T> {
    /// The state is one that a run can be in, and the permits held are
    /// those of the fetch tasks in flight.
    pub closed spec fn wf(&self) -> bool {
        &&& self@.wf()
        &&& self.budget.wf()
        &&& self.budget.spec_in_use() == self@.in_flight().len()
    }

    /// The value of a well-formed pipeline is a valid state of a run, so
    /// what is proved of valid states holds of it: above all, that no more
    /// than `limit` fetch tasks are in flight.
    pub proof fn lemma_view_is_valid(&self)
        requires
            self.wf(),
        ensures
            self@.wf(),
            self@.in_flight().len() <= self@.limit,
    {
    }

    /// A run over `total` segments with at most `limit` fetch tasks at once.
    pub fn new(total: usize, limit: usize) -> (pipeline: Self)
        ensures
            pipeline.wf(),
            pipeline@ == PipelineState::<T>::start(total as nat, limit as nat),
    {
        let pipeline = Pipeline {
            total,
            dispatched: 0,
            budget: ConcurrencyBudget::new(limit),
            stored: BTreeMap::new(),
            failure: None,
        };
        proof {
            assert(pipeline@.stored =~= Map::<nat, T>::empty());
            assert(pipeline@.in_flight() =~= Set::<nat>::empty());
        }
        pipeline
    }

    /// Says what the run has to do next. Where the answer is `Dispatch`, the
    /// segment counts as in flight from now on and holds a permit.
    pub fn next_action(&mut self) -> (action: Action)
        requires
            old(self).wf(),
        ensures
            final(self).wf(),
            action == old(self)@.next_action(),
            final(self)@ == old(self)@.after_poll(),
    {
        if self.failure.is_some() {
            return Action::Abort;
        }
        let ghost before = self@;
        if self.dispatched < self.total {
            assert(!before.stored.contains_key(before.dispatched));
            if self.budget.try_acquire() {
                let index = self.dispatched;
                self.dispatched = index + 1;
                proof {
                    assert(self@.in_flight() =~= before.in_flight().insert(index as nat));
                }
                Action::Dispatch { index }
            } else {
                Action::Await
            }
        } else if self.budget.in_use() == 0 {
            proof {
                assert forall|i: nat| i < before.total implies before.stored.contains_key(i) by {
                    if !before.stored.contains_key(i) {
                        assert(before.in_flight().contains(i));
                    }
                }
            }
            Action::Merge
        } else {
            proof {
                if before.is_complete() {
                    assert(before.in_flight() =~= Set::<nat>::empty());
                }
            }
            Action::Await
        }
    }

    /// Records that the task of the segment at `index` stored its bytes under
    /// `scratch`, and gives its permit back. A report on a segment that is
    /// not in flight, or one that comes after the run has failed, is
    /// dropped.
    pub fn record_stored(&mut self, index: usize, scratch: T) -> (accepted: bool)
        requires
            old(self).wf(),
        ensures
            final(self).wf(),
            accepted == old(self)@.accepts(index as nat),
            final(self)@ == old(self)@.after_stored(index as nat, scratch),
    {
        if self.failure.is_some() || index >= self.dispatched || self.stored.contains_key(&index) {
            return false;
        }
        let ghost before = self@;
        assert(before.in_flight().contains(index as nat));
        self.stored.insert(index, scratch);
        self.budget.release();
        proof {
            assert(self@.stored =~= before.stored.insert(index as nat, scratch));
            assert(self@.in_flight() =~= before.in_flight().remove(index as nat));
        }
        true
    }

    /// Records that every attempt to fetch the segment at `index` failed,
    /// which ends the run, and gives the task's permit back. A report on a
    /// segment that is not in flight, or one that comes after the run has
    /// failed, is dropped.
    pub fn record_exhausted(&mut self, index: usize, attempts: usize, cause: String) -> (accepted:
        bool)
        requires
            old(self).wf(),
        ensures
            final(self).wf(),
            accepted == old(self)@.accepts(index as nat),
            final(self)@ == old(self)@.after_exhausted(index as nat, attempts as nat, cause@),
    {
        if self.failure.is_some() || index >= self.dispatched || self.stored.contains_key(&index) {
            return false;
        }
        let ghost before = self@;
        assert(before.in_flight().contains(index as nat));
        self.failure = Some(DownloadError::FetchExhausted { index, attempts, cause });
        self.budget.release();
        proof {
            assert(self@.in_flight() =~= before.in_flight().remove(index as nat));
        }
        true
    }

    /// How many fetch tasks run.
    pub fn in_flight_count(&self) -> (n: usize)
        requires
            self.wf(),
        ensures
            n == self@.in_flight().len(),
            n <= self@.limit,
    {
        self.budget.in_use()
    }

    /// Whether every segment is stored.
    pub fn is_complete(&self) -> (complete: bool)
        requires
            self.wf(),
        ensures
            complete == self@.is_complete(),
    {
        let complete = self.failure.is_none() && self.dispatched == self.total
            && self.budget.in_use() == 0;
        proof {
            let state = self@;
            if complete {
                assert forall|i: nat| i < state.total implies state.stored.contains_key(i) by {
                    if !state.stored.contains_key(i) {
                        assert(state.in_flight().contains(i));
                    }
                }
            }
            if state.is_complete() {
                if state.total > 0 {
                    assert(state.stored.contains_key((state.total - 1) as nat));
                }
                assert(state.in_flight() =~= Set::<nat>::empty());
            }
        }
        complete
    }

    /// The failure that ended the run, if one did.
    pub fn into_failure(self) -> (failure: Option<DownloadError>)
        ensures
            match failure {
                Some(e) => self@.failure == Some(e@),
                None => self@.failure is None,
            },
    {
        self.failure
    }

    /// Once every segment is stored: where the segments lie in scratch
    /// storage, by ascending segment index, whatever the order in which they
    /// were reported.
    pub fn into_merge_order(self) -> (order: Option<Vec<T>>)
        requires
            self.wf(),
        ensures
            order is Some <==> self@.is_complete(),
            order matches Some(scratch) ==> scratch@ == self@.merge_order(),
    {
        if !self.is_complete() {
            return None;
        }
        let ghost state = self@;
        let total = self.total;
        let mut stored = self.stored;
        let mut order: Vec<T> = Vec::new();
        let mut index: usize = 0;
        assert forall|i: usize| i < total implies #[trigger] stored@.contains_key(i) && stored@[i]
            == state.stored[i as nat] by {
            assert(state.stored.contains_key(i as nat));
        }
        while index < total
            invariant
                index <= total,
                total == state.total,
                order@.len() == index,
                forall|i: int| 0 <= i < index ==> order@[i] == state.stored[i as nat],
                forall|i: usize|
                    index <= i < total ==> #[trigger] stored@.contains_key(i) && stored@[i]
                        == state.stored[i as nat],
            decreases total - index,
        {
            let scratch = stored.remove(&index);
            order.push(scratch.unwrap());
            index += 1;
        }
        assert(order@ =~= state.merge_order());
        Some(order)
    }
}

} // verus!
