//! Driving many items through embedding under a bound on how many are in
//! flight at once.
//!
//! The orchestrator holds the state of every item and decides what may start.
//! Its caller does the work: it asks for the next item to start, embeds it,
//! and reports how that ended. Results go to a buffer that is handed over at
//! the end (collect), or straight back to the caller for its sink (stream).

use crate::error::EmbedError;
use vstd::prelude::*;

verus! {

/// Where an item stands.
#[derive(Clone, Copy, Debug, PartialEq, Eq)]
pub enum ItemState {
    /// Found, not yet scheduled.
    Discovered,
    /// Waiting for a slot.
    Queued,
    /// Being embedded.
    InFlight,
    /// Embedded.
    Completed,
    /// Embedding failed.
    Failed,
}

/// The steps that an item may take: from discovered to queued, from queued
/// to in flight, and from in flight to completed or failed.
pub open spec fn is_step(from: ItemState, to: ItemState) -> bool {
    match (from, to) {
        (ItemState::Discovered, ItemState::Queued) => true,
        (ItemState::Queued, ItemState::InFlight) => true,
        (ItemState::InFlight, ItemState::Completed) => true,
        (ItemState::InFlight, ItemState::Failed) => true,
        _ => false,
    }
}

/// Every item stayed where it was or took one step.
pub open spec fn moved_forward(before: Seq<ItemState>, after: Seq<ItemState>) -> bool {
    &&& after.len() == before.len()
    &&& forall|i: int|
        0 <= i < before.len() ==> after[i] == before[i] || is_step(before[i], #[trigger] after[i])
}

/// The number of items in flight.
pub open spec fn in_flight_count(states: Seq<ItemState>) -> nat
    decreases states.len(),
{
    if states.len() == 0 {
        0
    } else {
        in_flight_count(states.drop_last()) + if states.last() is InFlight {
            1nat
        } else {
            0nat
        }
    }
}

/// Changing the state of one item changes the number in flight by what that
/// item adds to it.
pub proof fn lemma_in_flight_update(states: Seq<ItemState>, i: int, to: ItemState)
    requires
        0 <= i < states.len(),
    ensures
        in_flight_count(states.update(i, to)) + (if states[i] is InFlight {
            1nat
        } else {
            0nat
        }) == in_flight_count(states) + (if to is InFlight {
            1nat
        } else {
            0nat
        }),
    decreases states.len(),
{
    let after = states.update(i, to);
    if i == states.len() - 1 {
        assert(after.drop_last() =~= states.drop_last());
    } else {
        lemma_in_flight_update(states.drop_last(), i, to);
        assert(after.drop_last() =~= states.drop_last().update(i, to));
    }
}

/// Where no item is in flight the count is zero.
pub proof fn lemma_none_in_flight(states: Seq<ItemState>)
    requires
        forall|i: int| 0 <= i < states.len() ==> !(states[i] is InFlight),
    ensures
        in_flight_count(states) == 0,
    decreases states.len(),
{
    if states.len() > 0 {
        assert forall|i: int| 0 <= i < states.drop_last().len() implies !(
        states.drop_last()[i] is InFlight) by {
            assert(states.drop_last()[i] == states[i]);
        }
        lemma_none_in_flight(states.drop_last());
    }
}

/// What became of a report that an item was embedded.
#[derive(Debug, PartialEq)]
pub enum Completion<T> {
    /// The item was not in flight: nothing changed, the results come back.
    Rejected(Vec<T>),
    /// The results were added to the buffer.
    Buffered,
    /// The results are the caller's to hand to its sink.
    Deliver(Vec<T>),
}

/// The state of a run over a fixed set of items.
pub struct Orchestrator<T> {
    states: Vec<ItemState>,
    limit: usize,
    in_flight: usize,
    collected: Vec<T>,
    streaming: bool,
    failure: Option<EmbedError>,
}

/// The number of CPUs available to this process, as the outside function
/// `num_cpus::get` reports it. Nothing is claimed of the number: it depends
/// on the machine.
#[verifier::external_body]
fn cpu_count() -> usize {
    num_cpus::get()
}

/// The bound on items in flight used where the caller names none: the number
/// of available hardware threads, and at least one.
pub fn default_parallelism() -> (n: usize)
    ensures
        n >= 1,
{
    let n = cpu_count();
    bound_for(n)
}

/// The bound that a reported number of hardware threads stands for.
pub open spec fn bound_of(reported: usize) -> usize {
    if reported == 0 {
        1
    } else {
        reported
    }
}

/// The bound on items in flight for a machine that reports `reported`
/// hardware threads: that number, and one where it reports none, so that a
/// run can always start an item.
pub fn bound_for(reported: usize) -> (n: usize)
    ensures
        n == bound_of(reported),
        n >= 1,
{
    if reported == 0 {
        1
    } else {
        reported
    }
}

impl<T> Orchestrator<T> {
    /// The state of each item.
    pub closed spec fn states(&self) -> Seq<ItemState> {
        self.states@
    }

    /// The bound on items in flight.
    pub closed spec fn limit(&self) -> nat {
        self.limit as nat
    }

    /// The results buffered so far.
    pub closed spec fn collected(&self) -> Seq<T> {
        self.collected@
    }

    /// Whether results go to the caller's sink instead of the buffer.
    pub closed spec fn streaming(&self) -> bool {
        self.streaming
    }

    /// The error of the first item that failed.
    pub closed spec fn failure(&self) -> Option<EmbedError> {
        self.failure
    }

    /// The orchestrator is consistent: it counts the items in flight
    /// correctly, they are within the bound, and a streaming run buffers
    /// nothing.
    pub closed spec fn wf(&self) -> bool {
        &&& self.in_flight == in_flight_count(self.states@)
        &&& self.in_flight <= self.limit
        &&& self.limit >= 1
        &&& self.streaming ==> self.collected@.len() == 0
    }

    /// At no time are more items in flight than the bound allows.
    pub proof fn law_in_flight_within_bound(&self)
        requires
            self.wf(),
        ensures
            in_flight_count(self.states()) <= self.limit(),
            self.limit() >= 1,
            self.streaming() ==> self.collected().len() == 0,
    {
    }

    /// Some item waits for a slot.
    pub open spec fn has_queued(&self) -> bool {
        exists|i: int| 0 <= i < self.states().len() && self.states()[i] is Queued
    }

    /// An item may start: none has failed, a slot is free and an item waits.
    pub open spec fn can_start(&self) -> bool {
        &&& self.failure() is None
        &&& in_flight_count(self.states()) < self.limit()
        &&& self.has_queued()
    }

    /// The run is over: nothing is in flight and nothing more will start.
    pub open spec fn finished(&self) -> bool {
        &&& in_flight_count(self.states()) == 0
        &&& (self.failure() is Some || forall|i: int|
            0 <= i < self.states().len() ==> !(self.states()[i] is Queued) && !(
            self.states()[i] is Discovered))
    }

    /// A run over `item_count` discovered items with at most `limit` in
    /// flight. A bound of zero, under which nothing could start, is a
    /// configuration error.
    pub fn new(item_count: usize, limit: usize, streaming: bool) -> (r: Result<
        Orchestrator<T>,
        EmbedError,
    >)
        ensures
            limit == 0 ==> r matches Err(EmbedError::ConfigurationError),
            limit > 0 ==> (r matches Ok(o) && {
                &&& o.wf()
                &&& o.states() == Seq::new(item_count as nat, |i: int| ItemState::Discovered)
                &&& o.limit() == limit
                &&& o.streaming() == streaming
                &&& o.collected() == Seq::<T>::empty()
                &&& o.failure() is None
                &&& in_flight_count(o.states()) == 0
            }),
    {
        if limit == 0 {
            return Err(EmbedError::ConfigurationError);
        }
        Ok(Self::discovered(item_count, limit, streaming))
    }

    fn discovered(item_count: usize, limit: usize, streaming: bool) -> (o: Orchestrator<T>)
        requires
            limit >= 1,
        ensures
            o.wf(),
            o.states() == Seq::new(item_count as nat, |i: int| ItemState::Discovered),
            o.limit() == limit,
            o.streaming() == streaming,
            o.collected() == Seq::<T>::empty(),
            o.failure() is None,
            in_flight_count(o.states()) == 0,
    {
        let mut states: Vec<ItemState> = Vec::new();
        let mut i: usize = 0;
        while i < item_count
            invariant
                i <= item_count,
                states@ == Seq::new(i as nat, |k: int| ItemState::Discovered),
            decreases item_count - i,
        {
            states.push(ItemState::Discovered);
            assert(states@ =~= Seq::new((i + 1) as nat, |k: int| ItemState::Discovered));
            i += 1;
        }
        proof {
            lemma_none_in_flight(states@);
        }
        Orchestrator {
            states,
            limit,
            in_flight: 0,
            collected: Vec::new(),
            streaming,
            failure: None,
        }
    }

    /// A run whose bound is the number of available hardware threads.
    pub fn with_default_limit(item_count: usize, streaming: bool) -> (o: Orchestrator<T>)
        ensures
            o.wf(),
            o.states() == Seq::new(item_count as nat, |i: int| ItemState::Discovered),
            o.limit() >= 1,
            o.streaming() == streaming,
            o.collected() == Seq::<T>::empty(),
            o.failure() is None,
            in_flight_count(o.states()) == 0,
    {
        Self::discovered(item_count, default_parallelism(), streaming)
    }

    /// The number of items.
    pub fn len(&self) -> (n: usize)
        ensures
            n == self.states().len(),
    {
        self.states.len()
    }

    /// The state of item `index`; `None` where there is no such item.
    pub fn state(&self, index: usize) -> (s: Option<ItemState>)
        ensures
            index < self.states().len() ==> s == Some(self.states()[index as int]),
            index >= self.states().len() ==> s is None,
    {
        if index < self.states.len() {
            Some(self.states[index])
        } else {
            None
        }
    }

    /// The number of items in flight.
    pub fn in_flight(&self) -> (n: usize)
        requires
            self.wf(),
        ensures
            n == in_flight_count(self.states()),
            n <= self.limit(),
    {
        self.in_flight
    }

    /// Puts every discovered item in the queue.
    pub fn queue_all(&mut self)
        requires
            old(self).wf(),
        ensures
            final(self).wf(),
            final(self).states().len() == old(self).states().len(),
            forall|i: int|
                0 <= i < old(self).states().len() ==> final(self).states()[i] == if old(self).states()[i] is Discovered {
                    ItemState::Queued
                } else {
                    old(self).states()[i]
                },
            in_flight_count(final(self).states()) == in_flight_count(old(self).states()),
            moved_forward(old(self).states(), final(self).states()),
            final(self).limit() == old(self).limit(),
            final(self).streaming() == old(self).streaming(),
            final(self).collected() == old(self).collected(),
            final(self).failure() == old(self).failure(),
    {
        let mut i: usize = 0;
        while i < self.states.len()
            invariant
                i <= self.states@.len(),
                self.states@.len() == old(self).states@.len(),
                self.in_flight == in_flight_count(self.states@),
                self.in_flight == old(self).in_flight,
                self.limit == old(self).limit,
                self.streaming == old(self).streaming,
                self.collected == old(self).collected,
                self.failure == old(self).failure,
                forall|k: int|
                    0 <= k < i ==> self.states@[k] == if old(self).states@[k] is Discovered {
                        ItemState::Queued
                    } else {
                        old(self).states@[k]
                    },
                forall|k: int| i <= k < self.states@.len() ==> self.states@[k] == old(self).states@[k],
            decreases self.states@.len() - i,
        {
            let is_discovered = match self.states[i] {
                ItemState::Discovered => true,
                _ => false,
            };
            if is_discovered {
                proof {
                    lemma_in_flight_update(self.states@, i as int, ItemState::Queued);
                }
                self.states.set(i, ItemState::Queued);
            }
            i += 1;
        }
    }

    fn first_queued(&self) -> (r: Option<usize>)
        ensures
            match r {
                Some(i) => i < self.states@.len() && self.states@[i as int] is Queued && forall|
                    j: int,
                | 0 <= j < i ==> !(self.states@[j] is Queued),
                None => forall|j: int| 0 <= j < self.states@.len() ==> !(self.states@[j] is Queued),
            },
    {
        let mut i: usize = 0;
        while i < self.states.len()
            invariant
                i <= self.states@.len(),
                forall|j: int| 0 <= j < i ==> !(self.states@[j] is Queued),
            decreases self.states@.len() - i,
        {
            let is_queued = match self.states[i] {
                ItemState::Queued => true,
                _ => false,
            };
            if is_queued {
                return Some(i);
            }
            i += 1;
        }
        None
    }

    /// Starts the next item, if one may start.
    ///
    /// Where none has failed, a slot is free and an item waits, the first
    /// waiting item goes in flight and its index is returned. Otherwise
    /// nothing changes.
    pub fn start_next(&mut self) -> (r: Option<usize>)
        requires
            old(self).wf(),
        ensures
            final(self).wf(),
            moved_forward(old(self).states(), final(self).states()),
            old(self).can_start() <==> r is Some,
            r matches Some(i) ==> {
                &&& i < old(self).states().len()
                &&& old(self).states()[i as int] is Queued
                &&& forall|j: int| 0 <= j < i ==> !(old(self).states()[j] is Queued)
                &&& final(self).states() == old(self).states().update(
                    i as int,
                    ItemState::InFlight,
                )
            },
            r is Some ==> in_flight_count(final(self).states()) == in_flight_count(
                old(self).states(),
            ) + 1,
            r is None ==> final(self).states() == old(self).states(),
            final(self).limit() == old(self).limit(),
            final(self).streaming() == old(self).streaming(),
            final(self).collected() == old(self).collected(),
            final(self).failure() == old(self).failure(),
    {
        if self.failure.is_some() || self.in_flight >= self.limit {
            return None;
        }
        match self.first_queued() {
            None => None,
            Some(i) => {
                proof {
                    lemma_in_flight_update(self.states@, i as int, ItemState::InFlight);
                }
                self.states.set(i, ItemState::InFlight);
                self.in_flight = self.in_flight + 1;
                Some(i)
            },
        }
    }

    /// Takes in the results of an item that was embedded.
    ///
    /// An item in flight becomes completed and frees its slot. A collecting
    /// run appends its results to the buffer, behind those of the items that
    /// completed before; a streaming run hands them back for the sink. For
    /// any other item nothing changes and the results come back.
    pub fn complete(&mut self, index: usize, data: Vec<T>) -> (r: Completion<T>)
        requires
            old(self).wf(),
        ensures
            final(self).wf(),
            moved_forward(old(self).states(), final(self).states()),
            final(self).limit() == old(self).limit(),
            final(self).streaming() == old(self).streaming(),
            final(self).failure() == old(self).failure(),
            old(self).is_in_flight(index) ==> {
                &&& final(self).states() == old(self).states().update(
                    index as int,
                    ItemState::Completed,
                )
                &&& in_flight_count(final(self).states()) == in_flight_count(
                    old(self).states(),
                ) - 1
                &&& old(self).streaming() ==> r == Completion::Deliver(data) && final(self).collected() == old(self).collected()
                &&& !old(self).streaming() ==> r == Completion::<T>::Buffered && final(self).collected() == old(self).collected() + data@
            },
            !old(self).is_in_flight(index) ==> {
                &&& r == Completion::Rejected(data)
                &&& final(self).states() == old(self).states()
                &&& final(self).collected() == old(self).collected()
            },
    {
        let in_flight = index < self.states.len() && match self.states[index] {
            ItemState::InFlight => true,
            _ => false,
        };
        if !in_flight {
            return Completion::Rejected(data);
        }
        proof {
            lemma_in_flight_update(self.states@, index as int, ItemState::Completed);
        }
        self.states.set(index, ItemState::Completed);
        self.in_flight = self.in_flight - 1;
        if self.streaming {
            Completion::Deliver(data)
        } else {
            let mut data = data;
            self.collected.append(&mut data);
            Completion::Buffered
        }
    }

    /// Item `index` is in flight.
    pub open spec fn is_in_flight(&self, index: usize) -> bool {
        index < self.states().len() && self.states()[index as int] is InFlight
    }

    /// Takes in the failure of an item.
    ///
    /// An item in flight becomes failed and frees its slot; the run keeps the
    /// error of the first failure, and from then on nothing starts. For any
    /// other item nothing changes. The result says whether the item was in
    /// flight.
    pub fn fail(&mut self, index: usize, error: EmbedError) -> (r: bool)
        requires
            old(self).wf(),
        ensures
            final(self).wf(),
            moved_forward(old(self).states(), final(self).states()),
            r == old(self).is_in_flight(index),
            final(self).limit() == old(self).limit(),
            final(self).streaming() == old(self).streaming(),
            final(self).collected() == old(self).collected(),
            r ==> in_flight_count(final(self).states()) == in_flight_count(old(self).states())
                - 1,
            r ==> final(self).states() == old(self).states().update(
                index as int,
                ItemState::Failed,
            ) && final(self).failure() == match old(self).failure() {
                Some(first) => Some(first),
                None => Some(error),
            },
            !r ==> final(self).states() == old(self).states() && final(self).failure() == old(self).failure(),
    {
        let in_flight = index < self.states.len() && match self.states[index] {
            ItemState::InFlight => true,
            _ => false,
        };
        if !in_flight {
            return false;
        }
        proof {
            lemma_in_flight_update(self.states@, index as int, ItemState::Failed);
        }
        self.states.set(index, ItemState::Failed);
        self.in_flight = self.in_flight - 1;
        if self.failure.is_none() {
            self.failure = Some(error);
        }
        true
    }

    /// Whether the run is over.
    pub fn is_finished(&self) -> (r: bool)
        requires
            self.wf(),
        ensures
            r == self.finished(),
    {
        if self.in_flight != 0 {
            return false;
        }
        if self.failure.is_some() {
            return true;
        }
        let mut i: usize = 0;
        while i < self.states.len()
            invariant
                i <= self.states@.len(),
                self.failure is None,
                self.in_flight == 0,
                self.wf(),
                forall|j: int|
                    0 <= j < i ==> !(self.states@[j] is Queued) && !(self.states@[j] is Discovered),
            decreases self.states@.len() - i,
        {
            let waits = match self.states[i] {
                ItemState::Queued => true,
                ItemState::Discovered => true,
                _ => false,
            };
            if waits {
                assert(self.states()[i as int] is Queued || self.states()[i as int] is Discovered);
                return false;
            }
            i += 1;
        }
        true
    }

    /// Ends a run that is over.
    ///
    /// A run in which an item failed fails with the error of the first
    /// failure. Otherwise a collecting run gives its buffer, which holds the
    /// results of every item, and a streaming run gives nothing.
    pub fn finish(self) -> (r: Result<Option<Vec<T>>, EmbedError>)
        requires
            self.wf(),
            self.finished(),
        ensures
            match self.failure() {
                Some(e) => r == Err::<Option<Vec<T>>, EmbedError>(e),
                None => if self.streaming() {
                    r == Ok::<Option<Vec<T>>, EmbedError>(None)
                } else {
                    r matches Ok(Some(all)) && all@ == self.collected()
                },
            },
    {
        match self.failure {
            Some(e) => Err(e),
            None => if self.streaming {
                Ok(None)
            } else {
                Ok(Some(self.collected))
            },
        }
    }
}

/// Records on their way to a sink, held back until there are enough of them.
pub struct FlushBuffer<T> {
    held: Vec<T>,
    threshold: usize,
}

impl<T> FlushBuffer<T> {
    /// The records held back.
    pub closed spec fn held(&self) -> Seq<T> {
        self.held@
    }

    /// The number of records from which on the buffer is flushed.
    pub closed spec fn threshold(&self) -> nat {
        self.threshold as nat
    }

    /// Whether records held back together with a new batch are flushed:
    /// there is at least one record, and no fewer than the threshold.
    pub open spec fn flushes(&self, batch: Seq<T>) -> bool {
        self.held().len() + batch.len() > 0 && self.held().len() + batch.len()
            >= self.threshold()
    }

    /// An empty buffer that is flushed once it holds `buffer_size` records.
    pub fn new(buffer_size: usize) -> (b: FlushBuffer<T>)
        ensures
            b.held() == Seq::<T>::empty(),
            b.threshold() == buffer_size,
    {
        FlushBuffer { held: Vec::new(), threshold: buffer_size }
    }

    /// Adds a batch of records.
    ///
    /// Where the buffer then holds as many records as its threshold, all of
    /// them come back for the sink, oldest first, and the buffer is empty.
    /// Otherwise they are held back.
    pub fn push(&mut self, batch: Vec<T>) -> (r: Option<Vec<T>>)
        ensures
            final(self).threshold() == old(self).threshold(),
            old(self).flushes(batch@) ==> (r matches Some(out) && out@ == old(self).held()
                + batch@ && final(self).held() == Seq::<T>::empty()),
            !old(self).flushes(batch@) ==> r is None && final(self).held() == old(self).held()
                + batch@,
    {
        let mut batch = batch;
        let enough = batch.len() >= self.threshold || self.held.len() >= self.threshold
            - batch.len();
        let any = batch.len() > 0 || self.held.len() > 0;
        if enough && any {
            let mut out: Vec<T> = Vec::new();
            out.append(&mut self.held);
            out.append(&mut batch);
            Some(out)
        } else {
            self.held.append(&mut batch);
            None
        }
    }

    /// Ends the stream: the records still held back, for the sink.
    pub fn drain(self) -> (rest: Vec<T>)
        ensures
            rest@ == self.held(),
    {
        self.held
    }
}

} // verus!
