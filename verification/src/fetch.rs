//! Dispatch of range reads under a fan-out bound.
//!
//! The queue decides; whoever drives it performs the reads and reports
//! how each one ended. Reads are handed out in plan order while fewer than
//! the bound are in flight, and a completion makes room for the next.

use crate::error::ErrorCode;
use crate::reader::RangeRead;
use vstd::prelude::*;

verus! {

/// Mathematical model of the state of one planned read.
pub enum Slot {
    /// Not handed out yet.
    Waiting,
    /// Handed out, not reported back.
    InFlight,
    /// Reported back with these bytes.
    Fetched(Seq<u8>),
    /// Reported back as failed, or reported back after the part had failed.
    Abandoned,
}

/// The number of reads in flight among `slots[..upto]`.
pub open spec fn count_in_flight(slots: Seq<Slot>, upto: int) -> nat
    decreases upto,
{
    if upto <= 0 {
        0
    } else if slots[upto - 1] is InFlight {
        count_in_flight(slots, upto - 1) + 1
    } else {
        count_in_flight(slots, upto - 1)
    }
}

/// Mathematical model of a fetch queue.
pub struct FetchView {
    /// The plan, in the order in which reads are handed out.
    pub reads: Seq<RangeRead>,
    /// The most reads that may be in flight at once.
    pub fan_out: nat,
    /// How many reads of the plan have been handed out.
    pub issued: nat,
    pub slots: Seq<Slot>,
    /// The first failure reported, if any.
    pub failure: Option<ErrorCode>,
}

impl FetchView {
    /// The reads handed out and not yet reported back.
    pub open spec fn outstanding(self) -> nat {
        count_in_flight(self.slots, self.slots.len() as int)
    }

    /// The bound that the queue keeps: the fan-out, or the size of the
    /// plan where that is smaller.
    pub open spec fn bound(self) -> nat {
        if self.fan_out <= self.reads.len() {
            self.fan_out
        } else {
            self.reads.len()
        }
    }

    /// What holds of a queue from its start on: the reads handed out are
    /// those at the front of the plan, and no more are in flight than the
    /// fan-out allows.
    pub open spec fn wf(self) -> bool {
        &&& self.fan_out >= 1
        &&& self.slots.len() == self.reads.len()
        &&& self.issued <= self.reads.len()
        &&& forall|i: int|
            0 <= i < self.slots.len() ==> (i < self.issued <==> !(#[trigger] self.slots[i]
                is Waiting))
        &&& self.outstanding() <= self.fan_out
    }

    /// The queue before anything is handed out.
    pub open spec fn start(reads: Seq<RangeRead>, fan_out: nat) -> FetchView {
        FetchView {
            reads,
            fan_out: if fan_out == 0 {
                1
            } else {
                fan_out
            },
            issued: 0,
            slots: Seq::new(reads.len(), |i: int| Slot::Waiting),
            failure: None,
        }
    }

    /// Whether the next read of the plan may be handed out now.
    pub open spec fn can_dispatch(self) -> bool {
        &&& self.failure is None
        &&& self.issued < self.reads.len()
        &&& self.outstanding() < self.fan_out
    }

    /// The queue after the next read has been handed out.
    pub open spec fn dispatch(self) -> FetchView {
        FetchView {
            issued: self.issued + 1,
            slots: self.slots.update(self.issued as int, Slot::InFlight),
            ..self
        }
    }

    /// Whether a report on `slot` is expected.
    pub open spec fn awaits(self, slot: int) -> bool {
        0 <= slot < self.slots.len() && self.slots[slot] is InFlight
    }

    /// The queue after the read in `slot` came back with `data`. Once the
    /// part has failed the bytes are not kept.
    pub open spec fn complete(self, slot: int, data: Seq<u8>) -> FetchView {
        if !self.awaits(slot) {
            self
        } else if self.failure is Some {
            FetchView { slots: self.slots.update(slot, Slot::Abandoned), ..self }
        } else {
            FetchView { slots: self.slots.update(slot, Slot::Fetched(data)), ..self }
        }
    }

    /// The queue after the read in `slot` failed for good. The first
    /// failure reported is the one the part fails with.
    pub open spec fn fail(self, slot: int, error: ErrorCode) -> FetchView {
        if !self.awaits(slot) {
            self
        } else {
            FetchView {
                slots: self.slots.update(slot, Slot::Abandoned),
                failure: match self.failure {
                    Some(first) => Some(first),
                    None => Some(error),
                },
                ..self
            }
        }
    }

    /// Whether every read of the plan came back with its bytes.
    pub open spec fn all_fetched(self) -> bool {
        forall|i: int| 0 <= i < self.slots.len() ==> #[trigger] self.slots[i] is Fetched
    }

    /// The fetched chunks in plan order, each under its leaf.
    pub open spec fn chunks(self) -> Seq<(usize, Seq<u8>)> {
        Seq::new(self.reads.len(), |i: int| (self.reads[i].leaf, self.slots[i]->Fetched_0))
    }
}

/// Replacing one slot changes the count by what left and what came.
pub proof fn lemma_count_update(slots: Seq<Slot>, at: int, slot: Slot, upto: int)
    requires
        0 <= at < slots.len(),
        0 <= upto <= slots.len(),
    ensures
        count_in_flight(slots.update(at, slot), upto) == count_in_flight(slots, upto) - (if at
            < upto && slots[at] is InFlight {
            1int
        } else {
            0int
        }) + (if at < upto && slot is InFlight {
            1int
        } else {
            0int
        }),
    decreases upto,
{
    if upto > 0 {
        lemma_count_update(slots, at, slot, upto - 1);
    }
}

/// No more reads are in flight than slots were looked at.
pub proof fn lemma_count_bound(slots: Seq<Slot>, upto: int)
    requires
        0 <= upto,
    ensures
        count_in_flight(slots, upto) <= upto,
    decreases upto,
{
    if upto > 0 {
        lemma_count_bound(slots, upto - 1);
    }
}

/// Slots that are all waiting hold no read in flight.
proof fn lemma_count_none(slots: Seq<Slot>, upto: int)
    requires
        0 <= upto <= slots.len(),
        forall|i: int| 0 <= i < slots.len() ==> !(#[trigger] slots[i] is InFlight),
    ensures
        count_in_flight(slots, upto) == 0,
    decreases upto,
{
    if upto > 0 {
        lemma_count_none(slots, upto - 1);
    }
}

impl FetchView {
    /// The queue starts well formed.
    pub proof fn lemma_start_wf(reads: Seq<RangeRead>, fan_out: nat)
        ensures
            Self::start(reads, fan_out).wf(),
            Self::start(reads, fan_out).outstanding() == 0,
    {
        let s = Self::start(reads, fan_out);
        lemma_count_none(s.slots, s.slots.len() as int);
    }

    /// Handing out a read that may be handed out keeps the queue well
    /// formed and adds one read in flight.
    pub proof fn lemma_dispatch_wf(self)
        requires
            self.wf(),
            self.can_dispatch(),
        ensures
            self.dispatch().wf(),
            self.dispatch().outstanding() == self.outstanding() + 1,
    {
        lemma_count_update(
            self.slots,
            self.issued as int,
            Slot::InFlight,
            self.slots.len() as int,
        );
    }

    /// A report that a read came back keeps the queue well formed, and
    /// frees one place where the report was expected.
    pub proof fn lemma_complete_wf(self, slot: int, data: Seq<u8>)
        requires
            self.wf(),
        ensures
            self.complete(slot, data).wf(),
            self.complete(slot, data).outstanding() == if self.awaits(slot) {
                self.outstanding() - 1
            } else {
                self.outstanding() as int
            },
    {
        if self.awaits(slot) {
            lemma_count_update(self.slots, slot, Slot::Abandoned, self.slots.len() as int);
            lemma_count_update(self.slots, slot, Slot::Fetched(data), self.slots.len() as int);
        }
    }

    /// A report that a read failed keeps the queue well formed, and frees
    /// one place where the report was expected.
    pub proof fn lemma_fail_wf(self, slot: int, error: ErrorCode)
        requires
            self.wf(),
        ensures
            self.fail(slot, error).wf(),
            self.fail(slot, error).outstanding() == if self.awaits(slot) {
                self.outstanding() - 1
            } else {
                self.outstanding() as int
            },
    {
        if self.awaits(slot) {
            lemma_count_update(self.slots, slot, Slot::Abandoned, self.slots.len() as int);
        }
    }

    /// In a well-formed queue no more reads are in flight than the
    /// fan-out allows, nor more than the plan holds.
    pub proof fn lemma_outstanding_bounded(self)
        requires
            self.wf(),
        ensures
            self.outstanding() <= self.bound(),
    {
        lemma_count_bound(self.slots, self.slots.len() as int);
    }
}

/// What can happen to a queue.
pub enum FetchEvent {
    /// The driver asks for the next read.
    Dispatch,
    /// The read in `slot` came back with `data`.
    Completed { slot: int, data: Seq<u8> },
    /// The read in `slot` failed for good.
    Failed { slot: int, error: ErrorCode },
}

impl FetchView {
    /// The queue after `event`. A request that cannot be served and a
    /// report that is not expected change nothing.
    pub open spec fn step(self, event: FetchEvent) -> FetchView {
        match event {
            FetchEvent::Dispatch => if self.can_dispatch() {
                self.dispatch()
            } else {
                self
            },
            FetchEvent::Completed { slot, data } => self.complete(slot, data),
            FetchEvent::Failed { slot, error } => self.fail(slot, error),
        }
    }

    /// The queue after the first `upto` of `events`.
    pub open spec fn run(self, events: Seq<FetchEvent>, upto: int) -> FetchView
        decreases upto,
    {
        if upto <= 0 {
            self
        } else {
            self.run(events, upto - 1).step(events[upto - 1])
        }
    }

    /// Whatever happens to a queue, and in whatever order, at no time are
    /// more of its reads in flight than its fan-out allows, nor more than
    /// its plan holds.
    pub proof fn lemma_fan_out_is_never_exceeded(
        reads: Seq<RangeRead>,
        fan_out: nat,
        events: Seq<FetchEvent>,
        upto: int,
    )
        requires
            0 <= upto <= events.len(),
        ensures
            Self::start(reads, fan_out).run(events, upto).wf(),
            Self::start(reads, fan_out).run(events, upto).outstanding() <= Self::start(
                reads,
                fan_out,
            ).bound(),
            Self::start(reads, fan_out).run(events, upto).reads == reads,
            Self::start(reads, fan_out).run(events, upto).fan_out == Self::start(
                reads,
                fan_out,
            ).fan_out,
        decreases upto,
    {
        let start = Self::start(reads, fan_out);
        if upto <= 0 {
            Self::lemma_start_wf(reads, fan_out);
        } else {
            Self::lemma_fan_out_is_never_exceeded(reads, fan_out, events, upto - 1);
            let before = start.run(events, upto - 1);
            match events[upto - 1] {
                FetchEvent::Dispatch => {
                    if before.can_dispatch() {
                        before.lemma_dispatch_wf();
                    }
                },
                FetchEvent::Completed { slot, data } => {
                    before.lemma_complete_wf(slot, data);
                },
                FetchEvent::Failed { slot, error } => {
                    before.lemma_fail_wf(slot, error);
                },
            }
        }
        start.run(events, upto).lemma_outstanding_bounded();
    }
}

/// The state of one planned read.
#[derive(Debug)]
pub enum SlotState {
    Waiting,
    InFlight,
    Fetched(Vec<u8>),
    Abandoned,
}

impl View for SlotState {
    type V = Slot;

    open spec fn view(&self) -> Slot {
        match self {
            SlotState::Waiting => Slot::Waiting,
            SlotState::InFlight => Slot::InFlight,
            SlotState::Fetched(data) => Slot::Fetched(data@),
            SlotState::Abandoned => Slot::Abandoned,
        }
    }
}

/// The slots of a queue, each by its model.
pub open spec fn slot_views(slots: Seq<SlotState>) -> Seq<Slot> {
    slots.map_values(|slot: SlotState| slot@)
}

/// Where a fetch stands.
#[derive(Clone, Copy, Debug, PartialEq, Eq, Structural)]
pub enum FetchStatus {
    /// Reads are waiting or in flight, and none has failed.
    Running,
    /// Every read came back with its bytes.
    Fetched,
    /// A read failed: the part has failed with this error.
    Failed(ErrorCode),
}

impl FetchView {
    /// Where the fetch stands: failed as soon as one read has failed, fetched
    /// once every read came back with its bytes, running otherwise.
    pub open spec fn status(self) -> FetchStatus {
        match self.failure {
            Some(e) => FetchStatus::Failed(e),
            None => if self.all_fetched() {
                FetchStatus::Fetched
            } else {
                FetchStatus::Running
            },
        }
    }
}

/// The reads of one part on their way: which were handed out, which came
/// back, and whether the part has failed.
#[derive(Debug)]
pub struct FetchQueue {
    reads: Vec<RangeRead>,
    fan_out: usize,
    issued: usize,
    in_flight: usize,
    slots: Vec<SlotState>,
    failure: Option<ErrorCode>,
}

impl View for FetchQueue {
    type V = FetchView;

    closed spec fn view(&self) -> FetchView {
        FetchView {
            reads: self.reads@,
            fan_out: self.fan_out as nat,
            issued: self.issued as nat,
            slots: slot_views(self.slots@),
            failure: self.failure,
        }
    }
}

impl FetchQueue {
    /// What every queue satisfies from its creation on.
    pub closed spec fn wf(&self) -> bool {
        &&& self@.wf()
        &&& self.in_flight == self@.outstanding()
    }

    /// A queue over the plan `reads` that keeps at most `fan_out` reads in
    /// flight, and at least one.
    pub fn new(reads: Vec<RangeRead>, fan_out: usize) -> (queue: FetchQueue)
        ensures
            queue.wf(),
            queue@ == FetchView::start(reads@, fan_out as nat),
    {
        let mut slots: Vec<SlotState> = Vec::new();
        let mut i: usize = 0;
        while i < reads.len()
            invariant
                i <= reads.len(),
                slots@.len() == i,
                forall|j: int| 0 <= j < i ==> #[trigger] slots@[j] is Waiting,
            decreases reads.len() - i,
        {
            slots.push(SlotState::Waiting);
            i = i + 1;
        }
        let queue = FetchQueue {
            reads,
            fan_out: if fan_out == 0 {
                1
            } else {
                fan_out
            },
            issued: 0,
            in_flight: 0,
            slots,
            failure: None,
        };
        proof {
            assert(queue@.slots =~= FetchView::start(reads@, fan_out as nat).slots);
            FetchView::lemma_start_wf(reads@, fan_out as nat);
        }
        queue
    }

    /// Hands out the next read of the plan, with the slot to report it
    /// under, if the bound leaves room and the part has not failed.
    pub fn dispatch(&mut self) -> (next: Option<(usize, RangeRead)>)
        requires
            old(self).wf(),
        ensures
            final(self).wf(),
            match next {
                Some((slot, read)) => {
                    &&& old(self)@.can_dispatch()
                    &&& slot == old(self)@.issued
                    &&& read == old(self)@.reads[slot as int]
                    &&& final(self)@ == old(self)@.dispatch()
                },
                None => !old(self)@.can_dispatch() && final(self)@ == old(self)@,
            },
    {
        if self.failure.is_some() || self.issued >= self.reads.len() || self.in_flight
            >= self.fan_out {
            return None;
        }
        let slot = self.issued;
        proof {
            old(self)@.lemma_dispatch_wf();
        }
        self.slots.set(slot, SlotState::InFlight);
        self.issued = self.issued + 1;
        self.in_flight = self.in_flight + 1;
        proof {
            assert(self@.slots =~= old(self)@.dispatch().slots);
        }
        Some((slot, self.reads[slot]))
    }

    /// Reports that the read in `slot` came back with `data`. A report
    /// that is not expected changes nothing and yields `false`.
    pub fn complete(&mut self, slot: usize, data: Vec<u8>) -> (expected: bool)
        requires
            old(self).wf(),
        ensures
            final(self).wf(),
            expected == old(self)@.awaits(slot as int),
            final(self)@ == old(self)@.complete(slot as int, data@),
    {
        if slot >= self.slots.len() {
            return false;
        }
        match &self.slots[slot] {
            SlotState::InFlight => {},
            _ => {
                return false;
            },
        }
        proof {
            old(self)@.lemma_complete_wf(slot as int, data@);
        }
        if self.failure.is_some() {
            self.slots.set(slot, SlotState::Abandoned);
        } else {
            self.slots.set(slot, SlotState::Fetched(data));
        }
        self.in_flight = self.in_flight - 1;
        proof {
            assert(self@.slots =~= old(self)@.complete(slot as int, data@).slots);
        }
        true
    }

    /// Reports that the read in `slot` failed for good. A report that is
    /// not expected changes nothing and yields `false`.
    pub fn fail(&mut self, slot: usize, error: ErrorCode) -> (expected: bool)
        requires
            old(self).wf(),
        ensures
            final(self).wf(),
            expected == old(self)@.awaits(slot as int),
            final(self)@ == old(self)@.fail(slot as int, error),
    {
        if slot >= self.slots.len() {
            return false;
        }
        match &self.slots[slot] {
            SlotState::InFlight => {},
            _ => {
                return false;
            },
        }
        proof {
            old(self)@.lemma_fail_wf(slot as int, error);
        }
        self.slots.set(slot, SlotState::Abandoned);
        if self.failure.is_none() {
            self.failure = Some(error);
        }
        self.in_flight = self.in_flight - 1;
        proof {
            assert(self@.slots =~= old(self)@.fail(slot as int, error).slots);
        }
        true
    }

    /// The number of reads handed out and not yet reported back. It never
    /// exceeds the fan-out, nor the size of the plan.
    pub fn in_flight(&self) -> (n: usize)
        requires
            self.wf(),
        ensures
            n == self@.outstanding(),
            n <= self@.bound(),
    {
        proof {
            self@.lemma_outstanding_bounded();
        }
        self.in_flight
    }

    /// The most reads that this queue keeps in flight at once.
    pub fn fan_out(&self) -> (n: usize)
        ensures
            n == self@.fan_out,
    {
        self.fan_out
    }

    /// Where the fetch stands.
    pub fn status(&self) -> (status: FetchStatus)
        requires
            self.wf(),
        ensures
            status == self@.status(),
    {
        if let Some(e) = self.failure {
            return FetchStatus::Failed(e);
        }
        let mut i: usize = 0;
        while i < self.slots.len()
            invariant
                i <= self.slots.len(),
                self.failure is None,
                forall|j: int| 0 <= j < i ==> #[trigger] self@.slots[j] is Fetched,
            decreases self.slots.len() - i,
        {
            match &self.slots[i] {
                SlotState::Fetched(_) => {},
                _ => {
                    proof {
                        assert(!(self@.slots[i as int] is Fetched));
                    }
                    return FetchStatus::Running;
                },
            }
            i = i + 1;
        }
        FetchStatus::Fetched
    }

    /// Ends the fetch: the chunks in plan order, each under its leaf, once
    /// every read came back; the first failure once the part has failed;
    /// `None` while the fetch is running.
    pub fn finish(self) -> (res: Option<Result<Vec<(usize, Vec<u8>)>, ErrorCode>>)
        requires
            self.wf(),
        ensures
            match self@.status() {
                FetchStatus::Running => res is None,
                FetchStatus::Failed(e) => res == Some(
                    Err::<Vec<(usize, Vec<u8>)>, ErrorCode>(e),
                ),
                FetchStatus::Fetched => {
                    &&& res matches Some(Ok(chunks))
                    &&& chunks@.len() == self@.reads.len()
                    &&& forall|i: int|
                        0 <= i < chunks@.len() ==> {
                            &&& (#[trigger] chunks@[i]).0 == self@.reads[i].leaf
                            &&& chunks@[i].1@ == self@.slots[i]->Fetched_0
                        }
                },
            },
    {
        if let Some(e) = self.failure {
            return Some(Err(e));
        }
        let ghost model = self@;
        let reads = self.reads;
        let mut chunks: Vec<(usize, Vec<u8>)> = Vec::new();
        let ghost states = self.slots@;
        for slot in it: self.slots
            invariant
                states == it.seq(),
                model == self@,
                model.failure is None,
                model.slots == slot_views(states),
                model.reads == reads@,
                reads@.len() == states.len(),
                chunks@.len() == it.index(),
                forall|j: int| 0 <= j < it.index() ==> #[trigger] model.slots[j] is Fetched,
                forall|j: int|
                    0 <= j < chunks@.len() ==> {
                        &&& (#[trigger] chunks@[j]).0 == reads@[j].leaf
                        &&& chunks@[j].1@ == model.slots[j]->Fetched_0
                    },
        {
            let ghost at = chunks@.len() as int;
            match slot {
                SlotState::Fetched(data) => {
                    let leaf = reads[chunks.len()].leaf;
                    chunks.push((leaf, data));
                },
                _ => {
                    proof {
                        assert(!(model.slots[at] is Fetched));
                    }
                    return None;
                },
            }
        }
        Some(Ok(chunks))
    }
}

} // verus!
