//! The driver: the table of in-flight operations and the queue of
//! submissions that are due.
//!
//! An operation that is submitted gets a slot in the table, and the slot owns
//! the operation's buffer from then on. The slot is given up, and the buffer
//! with it, only once the kernel's completion for it has been taken in: to
//! the task that waited, or, if that task has gone away meanwhile, to
//! whoever takes in the completion.
use crate::buf::fixed::plumbing::{any_checked_out, Registry};
use crate::buf::fixed::registry::FixedBufRegistry;
use crate::buf::{Buffer, BufferView, RawParts};
use crate::error::Error;
use crate::runtime::driver::op::{
    entry_of, entry_views, ops_wf, Direction, EntryView, Lifecycle, Link, Op, OpView, Request,
    SubmissionEntry,
};
use vstd::prelude::*;

pub mod op;

verus! {

/// What a slot of the table is, to a contract.
#[verifier::ext_equal]
pub struct SlotView {
    /// The buffer that the slot owns.
    pub buffer: Option<BufferView>,
    /// Which way the bytes of the buffer go.
    pub direction: Direction,
    /// What the kernel reported; absent until it has.
    pub result: Option<i32>,
    /// The task that waits; absent once that task has gone away.
    pub waiter: Option<u64>,
}

impl SlotView {
    /// The buffer is well formed, and a slot that holds a result has a
    /// task waiting for it.
    pub open spec fn wf(self) -> bool {
        &&& self.buffer matches Some(b) ==> b.wf()
        &&& self.result is Some ==> self.waiter is Some
    }

    /// Where the operation of the slot stands.
    pub open spec fn lifecycle(self) -> Lifecycle {
        if self.result is Some {
            Lifecycle::Completed
        } else if self.waiter is None {
            Lifecycle::CancelledPendingCompletion
        } else {
            Lifecycle::Submitted
        }
    }
}

/// The buffer of an operation once the kernel has reported `result`: where
/// the kernel stored into the buffer, the bytes it reports count as written.
pub open spec fn settled(buffer: Option<BufferView>, direction: Direction, result: i32) -> Option<
    BufferView,
> {
    match buffer {
        Some(b) => if direction == Direction::IntoBuffer && result > 0 {
            Some(b.filled(result as usize))
        } else {
            Some(b)
        },
        None => None,
    }
}

/// The lowest index from `from` on at which `slots` has no operation.
pub open spec fn first_vacant(slots: Seq<Option<SlotView>>, from: int) -> int
    decreases slots.len() - from,
{
    if from < 0 || from >= slots.len() || slots[from] is None {
        from
    } else {
        first_vacant(slots, from + 1)
    }
}

/// The table with `slot` at `id`: in place of what was there, or behind
/// the last slot.
pub open spec fn placed(slots: Seq<Option<SlotView>>, id: int, slot: Option<SlotView>) -> Seq<
    Option<SlotView>,
> {
    if 0 <= id < slots.len() {
        slots.update(id, slot)
    } else {
        slots.push(slot)
    }
}

/// What a driver is, to a contract.
#[verifier::ext_equal]
pub struct DriverView {
    /// The table of operations, by identifier.
    pub slots: Seq<Option<SlotView>>,
    /// The entries that are due to the kernel, in the order of submission.
    pub queue: Seq<EntryView>,
    /// The registration of buffers that is in force.
    pub fixed_buffers: Option<u64>,
    /// How many registrations there have been.
    pub registrations: u64,
}

impl DriverView {
    /// Every slot is well formed, and the registration in force is one that
    /// has been made.
    pub open spec fn wf(self) -> bool {
        &&& forall|i: int|
            0 <= i < self.slots.len() ==> ((#[trigger] self.slots[i]) matches Some(s) ==> s.wf())
        &&& self.fixed_buffers matches Some(id) ==> id < self.registrations
    }

    /// There is an operation under `id`.
    pub open spec fn occupied(self, id: int) -> bool {
        0 <= id < self.slots.len() && self.slots[id] is Some
    }

    /// There is an operation under `id` whose completion has not been seen.
    pub open spec fn in_flight(self, id: int) -> bool {
        self.occupied(id) && self.slots[id]->0.result is None
    }

    /// The identifier that the next submission gets.
    pub open spec fn free_id(self) -> int {
        first_vacant(self.slots, 0)
    }

    /// The driver takes the operation: its buffer, if it is of a registered
    /// collection, is of the registration in force.
    pub open spec fn admits(self, op: OpView) -> bool {
        op.buffer matches Some(b) ==> (b.user_data matches Some(info) ==> self.fixed_buffers
            == Some(info.registry))
    }

    /// The driver after `op` was submitted for the task `waiter`: the
    /// operation has the lowest vacant slot, which owns its buffer, and its
    /// entry is the last in the queue.
    pub open spec fn submitted(self, op: OpView, waiter: u64, link: bool) -> DriverView {
        DriverView {
            slots: placed(
                self.slots,
                self.free_id(),
                Some(
                    SlotView {
                        buffer: op.buffer,
                        direction: op.direction,
                        result: None,
                        waiter: Some(waiter),
                    },
                ),
            ),
            queue: self.queue.push(entry_of(self.free_id() as u64, op, link)),
            fixed_buffers: self.fixed_buffers,
            registrations: self.registrations,
        }
    }

    /// The driver takes every operation of the sequence.
    pub open spec fn admits_all(self, ops: Seq<OpView>) -> bool {
        forall|i: int| 0 <= i < ops.len() ==> self.admits(#[trigger] ops[i])
    }

    /// The driver after the operations `ops` were submitted as a chain for
    /// the task `waiter`: one after the other in their order, each but the
    /// last marked for the kernel to hold back the one that follows.
    pub open spec fn submitted_chain(self, ops: Seq<OpView>, waiter: u64) -> DriverView
        decreases ops.len(),
    {
        if ops.len() == 0 {
            self
        } else {
            self.submitted(ops[0], waiter, ops.len() > 1).submitted_chain(ops.drop_first(), waiter)
        }
    }

    /// The identifiers that the operations `ops` get when they are submitted
    /// as a chain, in the order of the operations.
    pub open spec fn chain_ids(self, ops: Seq<OpView>, waiter: u64) -> Seq<int>
        decreases ops.len(),
    {
        if ops.len() == 0 {
            Seq::<int>::empty()
        } else {
            seq![self.free_id()] + self.submitted(ops[0], waiter, ops.len() > 1).chain_ids(
                ops.drop_first(),
                waiter,
            )
        }
    }

    /// The driver after the queue was handed to the kernel.
    pub open spec fn flushed(self) -> DriverView {
        DriverView {
            slots: self.slots,
            queue: Seq::empty(),
            fixed_buffers: self.fixed_buffers,
            registrations: self.registrations,
        }
    }

    /// The driver with `slot` in place of what slot `id` held.
    pub open spec fn with_slot(self, id: int, slot: Option<SlotView>) -> DriverView {
        DriverView {
            slots: self.slots.update(id, slot),
            queue: self.queue,
            fixed_buffers: self.fixed_buffers,
            registrations: self.registrations,
        }
    }

    /// The driver after the completion tagged `user_data` came in with
    /// `result`. An operation in flight whose task waits keeps its slot, now
    /// with the result; one whose task has gone away gives up its slot. A
    /// completion for anything else changes nothing.
    pub open spec fn completed(self, user_data: u64, result: i32) -> DriverView {
        if !self.in_flight(user_data as int) {
            self
        } else {
            let s = self.slots[user_data as int]->0;
            if s.waiter is None {
                self.with_slot(user_data as int, None)
            } else {
                self.with_slot(
                    user_data as int,
                    Some(
                        SlotView {
                            buffer: settled(s.buffer, s.direction, result),
                            direction: s.direction,
                            result: Some(result),
                            waiter: s.waiter,
                        },
                    ),
                )
            }
        }
    }

    /// The driver after the task that waited for `id` went away. An
    /// operation in flight keeps its slot and its buffer and loses its
    /// waiter; one that has completed gives up its slot.
    pub open spec fn detached(self, id: int) -> DriverView {
        if !self.occupied(id) {
            self
        } else {
            let s = self.slots[id]->0;
            if s.result is Some {
                self.with_slot(id, None)
            } else {
                self.with_slot(
                    id,
                    Some(
                        SlotView {
                            buffer: s.buffer,
                            direction: s.direction,
                            result: None,
                            waiter: None,
                        },
                    ),
                )
            }
        }
    }

    /// The driver after the result of `id` was collected: a completed
    /// operation gives up its slot, and nothing else changes.
    pub open spec fn taken(self, id: int) -> DriverView {
        if self.occupied(id) && self.slots[id]->0.result is Some {
            self.with_slot(id, None)
        } else {
            self
        }
    }
}

/// One entry of the kernel's completion queue: the tag of the submission it
/// answers, and what the kernel reports of it.
#[derive(Clone, Copy, Debug, PartialEq, Eq, Structural)]
pub struct CompletionEntry {
    pub user_data: u64,
    pub result: i32,
}

impl DriverView {
    /// The task that the completion `entry` wakes, if it wakes one: the one
    /// that waits for the operation in flight that the entry answers.
    pub open spec fn wakes(self, entry: CompletionEntry) -> Option<u64> {
        if self.in_flight(entry.user_data as int) {
            self.slots[entry.user_data as int]->0.waiter
        } else {
            None
        }
    }

    /// The buffer that the driver lets go of with the completion `entry`, if
    /// it does: the one of the operation in flight that the entry answers,
    /// where no task waits for it any more.
    pub open spec fn drops(self, entry: CompletionEntry) -> Option<BufferView> {
        if self.in_flight(entry.user_data as int)
            && self.slots[entry.user_data as int]->0.waiter is None {
            settled(
                self.slots[entry.user_data as int]->0.buffer,
                self.slots[entry.user_data as int]->0.direction,
                entry.result,
            )
        } else {
            None
        }
    }

    /// The driver after the completions `entries` were taken in, in their
    /// order.
    pub open spec fn drained(self, entries: Seq<CompletionEntry>) -> DriverView
        decreases entries.len(),
    {
        if entries.len() == 0 {
            self
        } else {
            self.drained(entries.drop_last()).completed(
                entries.last().user_data,
                entries.last().result,
            )
        }
    }

    /// The tasks that taking in `entries` wakes, in the order of the
    /// entries.
    pub open spec fn woken(self, entries: Seq<CompletionEntry>) -> Seq<u64>
        decreases entries.len(),
    {
        if entries.len() == 0 {
            Seq::empty()
        } else {
            let earlier = self.woken(entries.drop_last());
            match self.drained(entries.drop_last()).wakes(entries.last()) {
                Some(task) => earlier.push(task),
                None => earlier,
            }
        }
    }

    /// The buffers that the driver lets go of while taking in `entries`, in
    /// the order of the entries.
    pub open spec fn dropped(self, entries: Seq<CompletionEntry>) -> Seq<BufferView>
        decreases entries.len(),
    {
        if entries.len() == 0 {
            Seq::empty()
        } else {
            let earlier = self.dropped(entries.drop_last());
            match self.drained(entries.drop_last()).drops(entries.last()) {
                Some(buffer) => earlier.push(buffer),
                None => earlier,
            }
        }
    }
}

/// What can happen to a driver.
pub enum Event {
    /// An operation is submitted for a task.
    Submit { op: OpView, waiter: u64 },
    /// A chain of operations is submitted for a task.
    SubmitLinked { ops: Seq<OpView>, waiter: u64 },
    /// The queue is handed to the kernel.
    Flush,
    /// A completion comes in.
    Complete { user_data: u64, result: i32 },
    /// The task that waited for an operation goes away.
    Detach { id: usize },
    /// The task that waited for an operation collects the result.
    Take { id: usize },
    /// A collection of buffers is registered.
    Register,
    /// The registration `registration` is to be revoked; `busy` tells whether
    /// a buffer of that collection is checked out.
    Unregister { registration: u64, busy: bool },
}

impl DriverView {
    /// The driver after `event`.
    pub open spec fn after(self, event: Event) -> DriverView {
        match event {
            Event::Submit { op, waiter } => if self.admits(op) {
                self.submitted(op, waiter, false)
            } else {
                self
            },
            Event::SubmitLinked { ops, waiter } => if self.admits_all(ops) {
                self.submitted_chain(ops, waiter)
            } else {
                self
            },
            Event::Flush => self.flushed(),
            Event::Complete { user_data, result } => self.completed(user_data, result),
            Event::Detach { id } => self.detached(id as int),
            Event::Take { id } => self.taken(id as int),
            Event::Register => if self.fixed_buffers is None && self.registrations < u64::MAX {
                DriverView {
                    slots: self.slots,
                    queue: self.queue,
                    fixed_buffers: Some(self.registrations),
                    registrations: (self.registrations + 1) as u64,
                }
            } else {
                self
            },
            Event::Unregister { registration, busy } => if self.fixed_buffers == Some(registration)
                && !busy {
                DriverView {
                    slots: self.slots,
                    queue: self.queue,
                    fixed_buffers: None,
                    registrations: self.registrations,
                }
            } else {
                self
            },
        }
    }

    /// With `event`, the driver lets go of the buffer of the operation `id`:
    /// the operation gives up its slot, and its buffer is handed over.
    pub open spec fn lets_go(self, event: Event, id: int) -> bool {
        match event {
            Event::Complete { user_data, .. } => user_data == id && self.in_flight(id)
                && self.slots[id]->0.waiter is None,
            Event::Detach { id: i } => i == id && self.occupied(id)
                && self.slots[id]->0.result is Some,
            Event::Take { id: i } => i == id && self.occupied(id)
                && self.slots[id]->0.result is Some,
            _ => false,
        }
    }

    /// The driver after a run of events.
    pub open spec fn after_all(self, events: Seq<Event>) -> DriverView
        decreases events.len(),
    {
        if events.len() == 0 {
            self
        } else {
            self.after_all(events.drop_last()).after(events.last())
        }
    }
}

/// What an event brings along is well formed.
pub open spec fn event_wf(event: Event) -> bool {
    match event {
        Event::Submit { op, .. } => op.wf(),
        Event::SubmitLinked { ops, .. } => ops_wf(ops),
        _ => true,
    }
}

/// The lowest vacant index from `from` on lies at or behind `from` and at or
/// before the end of the table, no operation is under it, and one is under
/// every index between `from` and it.
pub proof fn lemma_first_vacant(slots: Seq<Option<SlotView>>, from: int)
    requires
        0 <= from <= slots.len(),
    ensures
        from <= first_vacant(slots, from) <= slots.len(),
        first_vacant(slots, from) < slots.len() ==> slots[first_vacant(slots, from)] is None,
        forall|i: int| from <= i < first_vacant(slots, from) ==> (#[trigger] slots[i]) is Some,
    decreases slots.len() - from,
{
    if from < slots.len() && slots[from] is Some {
        lemma_first_vacant(slots, from + 1);
    }
}

/// A submission leaves every operation that is in the table as it is, and
/// the registration in force with it.
pub proof fn lemma_submitted_keeps(d: DriverView, op: OpView, waiter: u64, link: bool, id: int)
    requires
        d.occupied(id),
    ensures
        d.submitted(op, waiter, link).occupied(id),
        d.submitted(op, waiter, link).slots[id] == d.slots[id],
        d.submitted(op, waiter, link).occupied(d.free_id()),
        d.free_id() != id,
{
    lemma_first_vacant(d.slots, 0);
}

/// A chain of submissions leaves every operation that is in the table as it
/// is, and does not touch the registration in force.
pub proof fn lemma_chain_keeps(d: DriverView, ops: Seq<OpView>, waiter: u64)
    ensures
        d.submitted_chain(ops, waiter).fixed_buffers == d.fixed_buffers,
        d.submitted_chain(ops, waiter).registrations == d.registrations,
        forall|id: int|
            d.occupied(id) ==> #[trigger] d.submitted_chain(ops, waiter).occupied(id)
                && d.submitted_chain(ops, waiter).slots[id] == d.slots[id],
    decreases ops.len(),
{
    if ops.len() > 0 {
        let next = d.submitted(ops[0], waiter, ops.len() > 1);
        lemma_chain_keeps(next, ops.drop_first(), waiter);
        assert forall|id: int| d.occupied(id) implies #[trigger] d.submitted_chain(
            ops,
            waiter,
        ).occupied(id) && d.submitted_chain(ops, waiter).slots[id] == d.slots[id] by {
            lemma_submitted_keeps(d, ops[0], waiter, ops.len() > 1, id);
            assert(next.occupied(id));
        }
    }
}

/// A chain of well-formed operations leaves a well-formed driver well formed.
pub proof fn lemma_chain_wf(d: DriverView, ops: Seq<OpView>, waiter: u64)
    requires
        d.wf(),
        ops_wf(ops),
    ensures
        d.submitted_chain(ops, waiter).wf(),
    decreases ops.len(),
{
    if ops.len() > 0 {
        lemma_first_vacant(d.slots, 0);
        let next = d.submitted(ops[0], waiter, ops.len() > 1);
        assert(ops[0].wf());
        assert(next.wf());
        let rest = ops.drop_first();
        assert forall|i: int| 0 <= i < rest.len() implies (#[trigger] rest[i]).wf() by {
            assert(ops[i + 1].wf());
        }
        lemma_chain_wf(next, rest, waiter);
    }
}

/// Whatever happens to a well-formed driver, it stays well formed.
pub proof fn lemma_after_wf(d: DriverView, event: Event)
    requires
        d.wf(),
        event_wf(event),
    ensures
        d.after(event).wf(),
{
    match event {
        Event::Submit { op, waiter } => {
            lemma_first_vacant(d.slots, 0);
        },
        Event::SubmitLinked { ops, waiter } => {
            lemma_chain_wf(d, ops, waiter);
        },
        Event::Complete { user_data, result } => {
            if d.in_flight(user_data as int) {
                let s = d.slots[user_data as int]->0;
                assert(s.wf());
                if let Some(b) = s.buffer {
                    if result > 0 {
                        crate::buf::lemma_filled(b, result as usize);
                    }
                }
            }
        },
        Event::Detach { id } => {
            if d.occupied(id as int) {
                assert(d.slots[id as int]->0.wf());
            }
        },
        _ => {},
    }
}

/// An operation in flight keeps its slot and its buffer for as long as no
/// completion for it comes in, whatever else happens meanwhile and whether
/// or not its task goes away: no event of the run makes the driver let go of
/// the buffer, and after the run the slot still owns it, unchanged.
pub proof fn lemma_held_until_completion(d: DriverView, events: Seq<Event>, id: int)
    requires
        d.in_flight(id),
        forall|k: int|
            0 <= k < events.len() ==> !((#[trigger] events[k]) matches Event::Complete {
                user_data,
                ..
            } && user_data == id),
    ensures
        d.after_all(events).in_flight(id),
        d.after_all(events).slots[id]->0.buffer == d.slots[id]->0.buffer,
        d.after_all(events).slots[id]->0.direction == d.slots[id]->0.direction,
        forall|k: int|
            0 <= k < events.len() ==> !d.after_all(#[trigger] events.take(k)).lets_go(
                events[k],
                id,
            ),
    decreases events.len(),
{
    if events.len() > 0 {
        let earlier = events.drop_last();
        let last = events.last();
        lemma_held_until_completion(d, earlier, id);
        let before = d.after_all(earlier);
        match last {
            Event::Submit { op, waiter } => {
                lemma_submitted_keeps(before, op, waiter, false, id);
            },
            Event::SubmitLinked { ops, waiter } => {
                lemma_chain_keeps(before, ops, waiter);
                assert(before.submitted_chain(ops, waiter).occupied(id));
            },
            _ => {},
        }
        assert(events[events.len() - 1] == last);
        assert forall|k: int| 0 <= k < events.len() implies !d.after_all(
            #[trigger] events.take(k),
        ).lets_go(events[k], id) by {
            if k < events.len() - 1 {
                assert(earlier.take(k) =~= events.take(k));
                assert(earlier[k] == events[k]);
            } else {
                assert(events.take(k) =~= earlier);
            }
        }
    }
}

/// A task that waits for an operation in flight goes away, and then the
/// completion for that operation comes in: the driver keeps the buffer when
/// the task goes away, and lets go of it with the completion and not before.
pub proof fn lemma_cancel_then_complete(d: DriverView, id: usize, result: i32)
    requires
        d.in_flight(id as int),
    ensures
        !d.lets_go(Event::Detach { id }, id as int),
        d.detached(id as int).in_flight(id as int),
        d.detached(id as int).slots[id as int]->0.lifecycle()
            == Lifecycle::CancelledPendingCompletion,
        d.detached(id as int).slots[id as int]->0.buffer == d.slots[id as int]->0.buffer,
        d.detached(id as int).lets_go(Event::Complete { user_data: id as u64, result }, id as int),
        !d.detached(id as int).completed(id as u64, result).occupied(id as int),
{
}

/// A registration that has been made and is not in force is never in force
/// again, whatever happens: from then on the driver takes no operation
/// whose buffer was checked out under it.
pub proof fn lemma_revoked_for_good(d: DriverView, events: Seq<Event>, registration: u64)
    requires
        registration < d.registrations,
        d.fixed_buffers != Some(registration),
    ensures
        registration < d.after_all(events).registrations,
        d.after_all(events).fixed_buffers != Some(registration),
        forall|op: OpView|
            (op.buffer matches Some(b) && b.user_data matches Some(info) && info.registry
                == registration) ==> !#[trigger] d.after_all(events).admits(op),
    decreases events.len(),
{
    if events.len() > 0 {
        lemma_revoked_for_good(d, events.drop_last(), registration);
        if let Event::SubmitLinked { ops, waiter } = events.last() {
            lemma_chain_keeps(d.after_all(events.drop_last()), ops, waiter);
        }
    }
}

/// The entries of a chain stand at the end of the queue in the order of its
/// operations, behind the entries that were queued before, which are
/// untouched. Each bears the request and the identifier of its operation,
/// and each but the last is marked for the kernel to hold back the one that
/// follows.
pub proof fn lemma_linked_order(d: DriverView, ops: Seq<OpView>, waiter: u64)
    ensures
        d.chain_ids(ops, waiter).len() == ops.len(),
        d.submitted_chain(ops, waiter).queue.len() == d.queue.len() + ops.len(),
        d.submitted_chain(ops, waiter).queue.subrange(0, d.queue.len() as int) == d.queue,
        forall|i: int|
            0 <= i < ops.len() ==> (#[trigger] d.submitted_chain(ops, waiter).queue[d.queue.len()
                + i]) == entry_of(d.chain_ids(ops, waiter)[i] as u64, ops[i], i + 1 < ops.len()),
    decreases ops.len(),
{
    let n = d.queue.len() as int;
    if ops.len() == 0 {
        assert(d.queue.subrange(0, n) =~= d.queue);
    } else {
        let next = d.submitted(ops[0], waiter, ops.len() > 1);
        let rest = ops.drop_first();
        lemma_linked_order(next, rest, waiter);
        let after = d.submitted_chain(ops, waiter);
        assert(after == next.submitted_chain(rest, waiter));
        assert(next.queue.subrange(0, n) =~= d.queue);
        assert(after.queue.subrange(0, n) =~= after.queue.subrange(0, n + 1).subrange(0, n));
        assert forall|i: int| 0 <= i < ops.len() implies (#[trigger] after.queue[n + i])
            == entry_of(d.chain_ids(ops, waiter)[i] as u64, ops[i], i + 1 < ops.len()) by {
            if i == 0 {
                assert(after.queue[n] == after.queue.subrange(0, n + 1)[n]);
                assert(next.queue[n] == entry_of(d.free_id() as u64, ops[0], ops.len() > 1));
            } else {
                assert(after.queue[(n + 1) + (i - 1)] == entry_of(
                    next.chain_ids(rest, waiter)[i - 1] as u64,
                    rest[i - 1],
                    (i - 1) + 1 < rest.len(),
                ));
                assert(rest[i - 1] == ops[i]);
            }
        }
    }
}

/// The operations of a chain get identifiers of their own: no two of them
/// share one, and none gets the identifier of an operation that was in the
/// table before.
pub proof fn lemma_chain_ids_distinct(d: DriverView, ops: Seq<OpView>, waiter: u64)
    ensures
        d.chain_ids(ops, waiter).len() == ops.len(),
        forall|i: int|
            0 <= i < ops.len() ==> !d.occupied(#[trigger] d.chain_ids(ops, waiter)[i])
                && d.submitted_chain(ops, waiter).occupied(d.chain_ids(ops, waiter)[i]),
        forall|i: int, j: int|
            #![trigger d.chain_ids(ops, waiter)[i], d.chain_ids(ops, waiter)[j]]
            0 <= i < j < ops.len() ==> d.chain_ids(ops, waiter)[i] != d.chain_ids(ops, waiter)[j],
    decreases ops.len(),
{
    if ops.len() > 0 {
        let next = d.submitted(ops[0], waiter, ops.len() > 1);
        let rest = ops.drop_first();
        lemma_first_vacant(d.slots, 0);
        lemma_chain_ids_distinct(next, rest, waiter);
        lemma_chain_keeps(next, rest, waiter);
        let ids = d.chain_ids(ops, waiter);
        assert(next.occupied(d.free_id()));
        assert forall|i: int| 0 <= i < ops.len() implies !d.occupied(#[trigger] ids[i])
            && d.submitted_chain(ops, waiter).occupied(ids[i]) by {
            if i > 0 {
                assert(ids[i] == next.chain_ids(rest, waiter)[i - 1]);
                assert(!next.occupied(next.chain_ids(rest, waiter)[i - 1]));
            }
        }
        assert forall|i: int, j: int| 0 <= i < j < ops.len() implies #[trigger] ids[i]
            != #[trigger] ids[j] by {
            assert(ids[j] == next.chain_ids(rest, waiter)[j - 1]);
            assert(!next.occupied(next.chain_ids(rest, waiter)[j - 1]));
            if i > 0 {
                assert(ids[i] == next.chain_ids(rest, waiter)[i - 1]);
            }
        }
    }
}

/// One operation in the table.
#[derive(Debug)]
struct OpSlot {
    parts: Option<RawParts>,
    direction: Direction,
    result: Option<i32>,
    waiter: Option<u64>,
}

impl View for OpSlot {
    type V = SlotView;

    closed spec fn view(&self) -> SlotView {
        SlotView {
            buffer: match self.parts {
                Some(p) => Some(p@.reconstruct()),
                None => None,
            },
            direction: self.direction,
            result: self.result,
            waiter: self.waiter,
        }
    }
}

impl OpSlot {
    spec fn wf(&self) -> bool {
        &&& self.parts matches Some(p) ==> p@.wf()
        &&& self.result is Some ==> self.waiter is Some
    }
}

spec fn slot_views(slots: Seq<Option<OpSlot>>) -> Seq<Option<SlotView>> {
    Seq::new(
        slots.len(),
        |i: int|
            match slots[i] {
                Some(s) => Some(s@),
                None => None,
            },
    )
}

/// A copy of `v`.
fn copy_of(v: &Vec<usize>) -> (c: Vec<usize>)
    ensures
        c@ == v@,
{
    let n: usize = v.len();
    let mut c: Vec<usize> = Vec::new();
    let mut i: usize = 0;
    while i < n
        invariant
            i <= n,
            n == v@.len(),
            c@.len() == i,
            forall|j: int| 0 <= j < i ==> #[trigger] c@[j] == v@[j],
        decreases n - i,
    {
        c.push(v[i]);
        i += 1;
    }
    assert(c@ =~= v@);
    c
}

/// The entry for an operation whose buffer was taken apart into `parts`.
fn make_entry(
    user_data: u64,
    request: Request,
    direction: Direction,
    parts: &Option<RawParts>,
    link: bool,
) -> (entry: SubmissionEntry)
    requires
        parts matches Some(p) ==> p@.wf(),
    ensures
        entry@ == entry_of(
            user_data,
            OpView {
                request,
                direction,
                buffer: match parts {
                    Some(p) => Some(p@.reconstruct()),
                    None => None,
                },
            },
            link,
        ),
{
    match parts {
        None => SubmissionEntry {
            user_data,
            request,
            addrs: Vec::new(),
            lens: Vec::new(),
            buf_index: None,
            link,
        },
        Some(p) => {
            proof {
                crate::buf::lemma_parts_round_trip(p@);
            }
            let lens: Vec<usize> = match direction {
                Direction::FromBuffer => copy_of(&p.len),
                Direction::IntoBuffer => copy_of(&p.cap),
            };
            let buf_index: Option<u16> = match p.user_data {
                Some(info) => Some(info.index),
                None => None,
            };
            SubmissionEntry { user_data, request, addrs: copy_of(&p.ptr), lens, buf_index, link }
        },
    }
}

/// What became of a submission that the driver did not take.
#[derive(Debug)]
pub struct Rejected {
    /// Why it was not taken.
    pub error: Error,
    /// The operation, as it was handed in.
    pub op: Op,
}

/// What became of a chained submission that the driver did not take.
#[derive(Debug)]
pub struct RejectedLink {
    /// Why it was not taken.
    pub error: Error,
    /// The chain, as it was handed in.
    pub link: Link,
}

/// What taking in a completion led to.
#[derive(Debug, PartialEq, Eq)]
pub enum Completion {
    /// The operation has its result; the task named here is to be woken.
    Wake(u64),
    /// No task waited any more: the operation gave up its slot, and its
    /// buffer is handed over to be released.
    Dropped(Option<Buffer>),
    /// No operation in flight bears the tag.
    Stray,
}

/// What detaching a task from its operation led to.
#[derive(Debug, PartialEq, Eq)]
pub enum Detached {
    /// The operation is still in flight: it keeps its slot and its buffer
    /// until its completion comes in.
    Pending,
    /// The operation had completed: it gave up its slot, and its buffer is
    /// handed over to be released.
    Dropped(Option<Buffer>),
    /// There is no operation under the identifier.
    Unknown,
}

/// What taking in a batch of completions led to.
#[derive(Debug)]
pub struct Drained {
    /// The tasks to wake, in the order of their completions.
    pub woken: Vec<u64>,
    /// The buffers of operations whose tasks had gone away, to be released.
    pub dropped: Vec<Buffer>,
}

/// What the buffers of a batch are, to a contract.
pub open spec fn buffer_views(buffers: Seq<Buffer>) -> Seq<BufferView> {
    buffers.map_values(|b: Buffer| b@)
}

/// The table of in-flight operations and the queue of entries that are due
/// to the kernel.
#[derive(Debug)]
pub struct Driver {
    slots: Vec<Option<OpSlot>>,
    queue: Vec<SubmissionEntry>,
    fixed_buffers: Option<u64>,
    registrations: u64,
}

impl View for Driver {
    type V = DriverView;

    closed spec fn view(&self) -> DriverView {
        DriverView {
            slots: slot_views(self.slots@),
            queue: entry_views(self.queue@),
            fixed_buffers: self.fixed_buffers,
            registrations: self.registrations,
        }
    }
}

impl Driver {
    /// What holds of every driver.
    pub closed spec fn wf(&self) -> bool {
        &&& forall|i: int|
            0 <= i < self.slots@.len() ==> ((#[trigger] self.slots@[i]) matches Some(s) ==> s.wf())
        &&& self.fixed_buffers matches Some(id) ==> id < self.registrations
    }

    /// What [`Driver::wf`] says of the driver as contracts see it.
    pub proof fn lemma_wf(&self)
        requires
            self.wf(),
        ensures
            self@.wf(),
    {
        assert forall|i: int| 0 <= i < self@.slots.len() implies ((
        #[trigger] self@.slots[i]) matches Some(s) ==> s.wf()) by {
            if let Some(s) = self.slots@[i] {
                assert(s.wf());
                if let Some(p) = s.parts {
                    crate::buf::lemma_parts_round_trip(p@);
                }
            }
        }
    }

    /// A driver with no operation, nothing queued and no buffers registered.
    pub fn new() -> (driver: Driver)
        ensures
            driver.wf(),
            driver@ == (DriverView {
                slots: Seq::empty(),
                queue: Seq::empty(),
                fixed_buffers: None,
                registrations: 0,
            }),
    {
        Driver { slots: Vec::new(), queue: Vec::new(), fixed_buffers: None, registrations: 0 }
    }

    /// A driver like a new one, but which numbers its registrations from
    /// `registrations` on. It is for a driver that takes the place of an
    /// earlier one, so that no buffer of an earlier registration passes for
    /// one of its own.
    pub fn starting_at(registrations: u64) -> (driver: Driver)
        ensures
            driver.wf(),
            driver@ == (DriverView {
                slots: Seq::empty(),
                queue: Seq::empty(),
                fixed_buffers: None,
                registrations,
            }),
    {
        Driver { slots: Vec::new(), queue: Vec::new(), fixed_buffers: None, registrations }
    }

    /// How many registrations the driver has numbered.
    pub fn registrations(&self) -> (n: u64)
        ensures
            n == self@.registrations,
    {
        self.registrations
    }

    /// The registration of buffers that is in force, if there is one.
    pub fn fixed_buffers(&self) -> (id: Option<u64>)
        ensures
            id == self@.fixed_buffers,
    {
        self.fixed_buffers
    }

    /// The number of entries that are due to the kernel.
    pub fn queued(&self) -> (n: usize)
        ensures
            n == self@.queue.len(),
    {
        self.queue.len()
    }

    /// Where the operation `id` stands, if there is one. An operation in the
    /// table has been submitted, so it is never reported as merely built.
    pub fn lifecycle(&self, id: usize) -> (state: Option<Lifecycle>)
        ensures
            state == if self@.occupied(id as int) {
                Some(self@.slots[id as int]->0.lifecycle())
            } else {
                None
            },
    {
        if id >= self.slots.len() {
            return None;
        }
        match &self.slots[id] {
            None => None,
            Some(slot) => {
                if slot.result.is_some() {
                    Some(Lifecycle::Completed)
                } else if slot.waiter.is_none() {
                    Some(Lifecycle::CancelledPendingCompletion)
                } else {
                    Some(Lifecycle::Submitted)
                }
            },
        }
    }

    /// The lowest identifier under which there is no operation.
    fn vacant(&self) -> (id: usize)
        ensures
            id == self@.free_id(),
            id <= self.slots@.len(),
            id < self.slots@.len() ==> self.slots@[id as int] is None,
    {
        let n: usize = self.slots.len();
        let mut i: usize = 0;
        while i < n
            invariant
                i <= n,
                n == self.slots@.len(),
                first_vacant(self@.slots, 0) == first_vacant(self@.slots, i as int),
            decreases n - i,
        {
            if self.slots[i].is_none() {
                return i;
            }
            i += 1;
        }
        i
    }

    /// Tells whether the driver takes `op`.
    fn admits(&self, op: &Op) -> (b: bool)
        ensures
            b == self@.admits(op@),
    {
        match op.registry_info() {
            None => true,
            Some(info) => match self.fixed_buffers {
                None => false,
                Some(id) => id == info.registry,
            },
        }
    }

    /// Gives `op` a slot and queues its entry.
    fn enqueue(&mut self, op: Op, waiter: u64, link: bool) -> (id: usize)
        requires
            old(self).wf(),
            op.wf(),
        ensures
            final(self).wf(),
            id == old(self)@.free_id(),
            final(self)@ == old(self)@.submitted(op@, waiter, link),
    {
        let id: usize = self.vacant();
        let (request, direction, buffer) = op.into_parts();
        let parts: Option<RawParts> = match buffer {
            Some(b) => {
                proof {
                    crate::buf::lemma_round_trip(b@);
                }
                Some(b.decompose())
            },
            None => None,
        };
        let entry = make_entry(id as u64, request, direction, &parts, link);
        let slot = OpSlot { parts, direction, result: None, waiter: Some(waiter) };
        assert(slot@.buffer == op@.buffer);
        if id < self.slots.len() {
            self.slots[id] = Some(slot);
        } else {
            self.slots.push(Some(slot));
        }
        self.queue.push(entry);
        proof {
            let want = old(self)@.submitted(op@, waiter, link);
            assert(self@.slots =~= want.slots);
            assert(self@.queue =~= want.queue);
        }
        id
    }

    /// Submits `op` for the task `waiter`: the operation gets the lowest
    /// vacant identifier and a slot that owns its buffer, and its entry is
    /// queued behind those that are due already.
    ///
    /// An operation is not taken, and nothing changes, if its buffer was
    /// checked out of a collection whose registration is not in force.
    pub fn submit(&mut self, op: Op, waiter: u64) -> (r: Result<usize, Rejected>)
        requires
            old(self).wf(),
            op.wf(),
        ensures
            final(self).wf(),
            r is Ok <==> old(self)@.admits(op@),
            r matches Ok(id) ==> {
                &&& id == old(self)@.free_id()
                &&& final(self)@ == old(self)@.submitted(op@, waiter, false)
            },
            r matches Err(e) ==> {
                &&& e.error == Error::InvalidatedBuffer
                &&& e.op == op
                &&& final(self)@ == old(self)@
            },
    {
        if !self.admits(&op) {
            return Err(Rejected { error: Error::InvalidatedBuffer, op });
        }
        Ok(self.enqueue(op, waiter, false))
    }

    /// Tells whether the driver takes every operation of `link`.
    fn admits_chain(&self, link: &Link) -> (b: bool)
        ensures
            b == self@.admits_all(link@),
    {
        let n: usize = link.len();
        let mut i: usize = 0;
        while i < n
            invariant
                i <= n,
                n == link@.len(),
                forall|j: int| 0 <= j < i ==> self@.admits(#[trigger] link@[j]),
            decreases n - i,
        {
            match link.get(i) {
                Some(op) => {
                    if !self.admits(op) {
                        return false;
                    }
                },
                None => {},
            }
            i += 1;
        }
        true
    }

    /// Submits the operations of `link` for the task `waiter`, each but the
    /// last marked so that the kernel starts the one that follows only once
    /// it has completed. Their entries are queued next to each other in the
    /// order of the chain, and the identifiers come back in that order.
    ///
    /// The chain is not taken, and nothing changes, if the driver would not
    /// take one of its operations alone.
    pub fn submit_linked(&mut self, link: Link, waiter: u64) -> (r: Result<
        Vec<usize>,
        RejectedLink,
    >)
        requires
            old(self).wf(),
            link.wf(),
        ensures
            final(self).wf(),
            r is Ok <==> old(self)@.admits_all(link@),
            r matches Ok(ids) ==> {
                &&& ids@.len() == link@.len()
                &&& forall|i: int|
                    0 <= i < ids@.len() ==> (#[trigger] ids@[i]) as int == old(self)@.chain_ids(
                        link@,
                        waiter,
                    )[i]
                &&& final(self)@ == old(self)@.submitted_chain(link@, waiter)
            },
            r matches Err(e) ==> {
                &&& e.error == Error::InvalidatedBuffer
                &&& e.link == link
                &&& final(self)@ == old(self)@
            },
    {
        if !self.admits_chain(&link) {
            return Err(RejectedLink { error: Error::InvalidatedBuffer, link });
        }
        let ghost chain: Seq<OpView> = link@;
        let mut ops: Vec<Op> = link.into_ops();
        let n: usize = ops.len();
        let mut stack: Vec<Op> = Vec::new();
        while ops.len() > 0
            invariant
                n == chain.len(),
                ops@.len() + stack@.len() == n,
                forall|j: int| 0 <= j < ops@.len() ==> (#[trigger] ops@[j])@ == chain[j],
                forall|j: int| 0 <= j < ops@.len() ==> (#[trigger] ops@[j]).wf(),
                forall|j: int|
                    0 <= j < stack@.len() ==> (#[trigger] stack@[j])@ == chain[n - 1 - j],
                forall|j: int| 0 <= j < stack@.len() ==> (#[trigger] stack@[j]).wf(),
            decreases ops@.len(),
        {
            match ops.pop() {
                Some(op) => {
                    stack.push(op);
                },
                None => {},
            }
        }
        let mut ids: Vec<usize> = Vec::new();
        proof {
            assert(chain.skip(0) =~= chain);
            assert(ids@.map_values(|id: usize| id as int) + self@.chain_ids(chain, waiter)
                =~= self@.chain_ids(chain, waiter));
        }
        while stack.len() > 0
            invariant
                n == chain.len(),
                stack@.len() <= n,
                ids@.len() == n - stack@.len(),
                self.wf(),
                forall|j: int|
                    0 <= j < stack@.len() ==> (#[trigger] stack@[j])@ == chain[n - 1 - j],
                forall|j: int| 0 <= j < stack@.len() ==> (#[trigger] stack@[j]).wf(),
                old(self)@.submitted_chain(chain, waiter) == self@.submitted_chain(
                    chain.skip(n - stack@.len()),
                    waiter,
                ),
                old(self)@.chain_ids(chain, waiter) == ids@.map_values(|id: usize| id as int)
                    + self@.chain_ids(chain.skip(n - stack@.len()), waiter),
            decreases stack@.len(),
        {
            let ghost k: int = n - stack@.len();
            let ghost before = self@;
            let ghost had = ids@.map_values(|id: usize| id as int);
            match stack.pop() {
                Some(op) => {
                    let more: bool = stack.len() > 0;
                    proof {
                        assert(op@ == chain[k]);
                        assert(chain.skip(k)[0] == chain[k]);
                        assert(chain.skip(k).drop_first() =~= chain.skip(k + 1));
                        assert(more == (chain.skip(k).len() > 1));
                    }
                    let id: usize = self.enqueue(op, waiter, more);
                    ids.push(id);
                    proof {
                        assert(ids@.map_values(|id: usize| id as int) =~= had.push(id as int));
                        assert(had + (seq![before.free_id()] + self@.chain_ids(
                            chain.skip(k + 1),
                            waiter,
                        )) =~= had.push(id as int) + self@.chain_ids(chain.skip(k + 1), waiter));
                    }
                },
                None => {},
            }
        }
        proof {
            let views = ids@.map_values(|id: usize| id as int);
            assert(chain.skip(n as int) =~= Seq::<OpView>::empty());
            assert(views + Seq::<int>::empty() =~= views);
            assert forall|i: int| 0 <= i < ids@.len() implies (#[trigger] ids@[i]) as int == old(
                self,
            )@.chain_ids(chain, waiter)[i] by {
                assert(views[i] == ids@[i] as int);
            }
        }
        Ok(ids)
    }

    /// Hands over the entries that are due to the kernel, in the order in
    /// which they were submitted, and leaves the queue empty.
    pub fn flush(&mut self) -> (batch: Vec<SubmissionEntry>)
        requires
            old(self).wf(),
        ensures
            final(self).wf(),
            entry_views(batch@) == old(self)@.queue,
            final(self)@ == old(self)@.flushed(),
    {
        let mut batch: Vec<SubmissionEntry> = Vec::new();
        core::mem::swap(&mut self.queue, &mut batch);
        proof {
            assert(self@.queue =~= Seq::<EntryView>::empty());
            assert(self@.slots =~= old(self)@.slots);
        }
        batch
    }

    /// Takes in the completion tagged `user_data`, which reports `result`.
    ///
    /// Where the operation is in flight and its task waits, its slot now
    /// holds the result, and the task is to be woken. Where the task has
    /// gone away, the slot is given up and the buffer, which the slot has
    /// kept until now, is handed over to be released. Where the kernel
    /// stored into the buffer, the bytes it reports count as written. A
    /// completion that matches no operation in flight changes nothing.
    pub fn complete(&mut self, user_data: u64, result: i32) -> (done: Completion)
        requires
            old(self).wf(),
        ensures
            final(self).wf(),
            final(self)@ == old(self)@.completed(user_data, result),
            done is Stray <==> !old(self)@.in_flight(user_data as int),
            done matches Completion::Wake(task) ==> old(self)@.slots[user_data as int]->0.waiter
                == Some(task),
            done matches Completion::Dropped(buffer) ==> {
                &&& old(self)@.slots[user_data as int]->0.waiter is None
                &&& buffer is Some <==> old(self)@.slots[user_data as int]->0.buffer is Some
                &&& buffer matches Some(b) ==> b.wf() && Some(b@) == settled(
                    old(self)@.slots[user_data as int]->0.buffer,
                    old(self)@.slots[user_data as int]->0.direction,
                    result,
                )
            },
    {
        if user_data >= self.slots.len() as u64 {
            return Completion::Stray;
        }
        let id: usize = user_data as usize;
        let mut held: Option<OpSlot> = None;
        core::mem::swap(&mut self.slots[id], &mut held);
        let slot: OpSlot = match held {
            None => {
                assert(self.slots@ =~= old(self).slots@);
                return Completion::Stray;
            },
            Some(slot) => slot,
        };
        if slot.result.is_some() {
            self.slots[id] = Some(slot);
            assert(self.slots@ =~= old(self).slots@);
            return Completion::Stray;
        }
        let OpSlot { parts, direction, result: _, waiter } = slot;
        let parts: Option<RawParts> = match parts {
            None => None,
            Some(mut p) => {
                proof {
                    crate::buf::lemma_parts_round_trip(p@);
                }
                match direction {
                    Direction::IntoBuffer => {
                        if result > 0 {
                            p.fill(result as usize);
                        }
                    },
                    Direction::FromBuffer => {},
                }
                Some(p)
            },
        };
        match waiter {
            Some(task) => {
                self.slots[id] = Some(OpSlot { parts, direction, result: Some(result), waiter });
                proof {
                    assert(self@.slots =~= old(self)@.completed(user_data, result).slots);
                }
                Completion::Wake(task)
            },
            None => {
                proof {
                    assert(self@.slots =~= old(self)@.completed(user_data, result).slots);
                }
                let buffer: Option<Buffer> = match parts {
                    Some(p) => Some(Buffer::reconstruct(p)),
                    None => None,
                };
                Completion::Dropped(buffer)
            },
        }
    }

    /// Takes in the completions that the kernel has posted, one after the
    /// other as [`Driver::complete`] does, and tells which tasks to wake and
    /// which buffers to release.
    pub fn drain(&mut self, entries: &Vec<CompletionEntry>) -> (out: Drained)
        requires
            old(self).wf(),
        ensures
            final(self).wf(),
            final(self)@ == old(self)@.drained(entries@),
            out.woken@ == old(self)@.woken(entries@),
            buffer_views(out.dropped@) == old(self)@.dropped(entries@),
            forall|i: int| 0 <= i < out.dropped@.len() ==> (#[trigger] out.dropped@[i]).wf(),
    {
        let n: usize = entries.len();
        let mut woken: Vec<u64> = Vec::new();
        let mut dropped: Vec<Buffer> = Vec::new();
        let mut i: usize = 0;
        while i < n
            invariant
                i <= n,
                n == entries@.len(),
                self.wf(),
                self@ == old(self)@.drained(entries@.take(i as int)),
                woken@ == old(self)@.woken(entries@.take(i as int)),
                buffer_views(dropped@) == old(self)@.dropped(entries@.take(i as int)),
                forall|j: int| 0 <= j < dropped@.len() ==> (#[trigger] dropped@[j]).wf(),
            decreases n - i,
        {
            let entry: CompletionEntry = entries[i];
            proof {
                let next = entries@.take(i + 1);
                assert(next.drop_last() =~= entries@.take(i as int));
                assert(next.last() == entry);
            }
            let ghost before = dropped@;
            match self.complete(entry.user_data, entry.result) {
                Completion::Wake(task) => {
                    woken.push(task);
                },
                Completion::Dropped(Some(buffer)) => {
                    dropped.push(buffer);
                    proof {
                        assert(buffer_views(dropped@) =~= buffer_views(before).push(buffer@));
                    }
                },
                Completion::Dropped(None) => {},
                Completion::Stray => {},
            }
            i += 1;
        }
        proof {
            assert(entries@.take(n as int) =~= entries@);
        }
        Drained { woken, dropped }
    }

    /// Detaches the task that waited for `id` from the operation.
    ///
    /// An operation that is still in flight keeps its slot and its buffer:
    /// the kernel may use the buffer until it reports the completion, so
    /// only [`Driver::complete`] gives the two up. An operation that had
    /// completed gives up its slot at once, and its buffer is handed over
    /// to be released.
    pub fn detach(&mut self, id: usize) -> (done: Detached)
        requires
            old(self).wf(),
        ensures
            final(self).wf(),
            final(self)@ == old(self)@.detached(id as int),
            done is Unknown <==> !old(self)@.occupied(id as int),
            done is Pending <==> old(self)@.in_flight(id as int),
            done matches Detached::Dropped(buffer) ==> {
                &&& buffer is Some <==> old(self)@.slots[id as int]->0.buffer is Some
                &&& buffer matches Some(b) ==> b.wf() && Some(b@) == old(
                    self,
                )@.slots[id as int]->0.buffer
            },
    {
        if id >= self.slots.len() {
            return Detached::Unknown;
        }
        let mut held: Option<OpSlot> = None;
        core::mem::swap(&mut self.slots[id], &mut held);
        let slot: OpSlot = match held {
            None => {
                assert(self.slots@ =~= old(self).slots@);
                return Detached::Unknown;
            },
            Some(slot) => slot,
        };
        let OpSlot { parts, direction, result, waiter: _ } = slot;
        if result.is_some() {
            proof {
                assert(self@.slots =~= old(self)@.detached(id as int).slots);
            }
            let buffer: Option<Buffer> = match parts {
                Some(p) => Some(Buffer::reconstruct(p)),
                None => None,
            };
            Detached::Dropped(buffer)
        } else {
            self.slots[id] = Some(OpSlot { parts, direction, result, waiter: None });
            proof {
                assert(self@.slots =~= old(self)@.detached(id as int).slots);
            }
            Detached::Pending
        }
    }

    /// Collects the result of the operation `id` for the task that waited.
    ///
    /// If the operation has completed, it gives up its slot, and the
    /// result and the buffer are handed over. If it has not, or there is
    /// no such operation, nothing changes and nothing is handed over.
    pub fn take(&mut self, id: usize) -> (out: Option<(i32, Option<Buffer>)>)
        requires
            old(self).wf(),
        ensures
            final(self).wf(),
            final(self)@ == old(self)@.taken(id as int),
            out is Some <==> old(self)@.occupied(id as int)
                && old(self)@.slots[id as int]->0.result is Some,
            out matches Some((result, buffer)) ==> {
                &&& Some(result) == old(self)@.slots[id as int]->0.result
                &&& buffer is Some <==> old(self)@.slots[id as int]->0.buffer is Some
                &&& buffer matches Some(b) ==> b.wf() && Some(b@) == old(
                    self,
                )@.slots[id as int]->0.buffer
            },
    {
        if id >= self.slots.len() {
            return None;
        }
        let mut held: Option<OpSlot> = None;
        core::mem::swap(&mut self.slots[id], &mut held);
        let slot: OpSlot = match held {
            None => {
                assert(self.slots@ =~= old(self).slots@);
                return None;
            },
            Some(slot) => slot,
        };
        match slot.result {
            None => {
                self.slots[id] = Some(slot);
                assert(self.slots@ =~= old(self).slots@);
                None
            },
            Some(result) => {
                proof {
                    assert(self@.slots =~= old(self)@.taken(id as int).slots);
                }
                let buffer: Option<Buffer> = match slot.parts {
                    Some(p) => Some(Buffer::reconstruct(p)),
                    None => None,
                };
                Some((result, buffer))
            },
        }
    }

    /// Makes the table `inner` the registered collection of this driver.
    ///
    /// There can be one registered collection at a time: while one is in
    /// force the call fails and changes nothing, as it does when the driver
    /// has no registration number left to give.
    pub fn register_buffers(&mut self, inner: Registry) -> (r: Result<FixedBufRegistry, Error>)
        requires
            old(self).wf(),
            inner.wf(),
        ensures
            final(self).wf(),
            r is Ok <==> old(self)@.fixed_buffers is None && old(self)@.registrations < u64::MAX,
            r matches Ok(registry) ==> {
                &&& registry.wf()
                &&& registry.id() == old(self)@.registrations
                &&& registry.slots() == inner@
                &&& final(self)@ == old(self)@.after(Event::Register)
            },
            r matches Err(e) ==> {
                &&& final(self)@ == old(self)@
                &&& e == if old(self)@.fixed_buffers is Some {
                    Error::AlreadyRegistered
                } else {
                    Error::RegistrationsExhausted
                }
            },
    {
        if self.fixed_buffers.is_some() {
            return Err(Error::AlreadyRegistered);
        }
        if self.registrations == u64::MAX {
            return Err(Error::RegistrationsExhausted);
        }
        let id: u64 = self.registrations;
        self.registrations = id + 1;
        self.fixed_buffers = Some(id);
        Ok(FixedBufRegistry::new(inner, id))
    }

    /// Ends the registration of `registry` with this driver.
    ///
    /// The call fails and changes nothing if `registry` is not the
    /// collection that is registered, or if any of its buffers is still
    /// checked out, be it held by the application or by an operation in
    /// flight. Once it has succeeded, no operation is taken any more that
    /// uses a buffer of the collection.
    pub fn unregister_buffers(&mut self, registry: &FixedBufRegistry) -> (r: Result<(), Error>)
        requires
            old(self).wf(),
            registry.wf(),
        ensures
            final(self).wf(),
            r is Ok <==> old(self)@.fixed_buffers == Some(registry.id()) && !any_checked_out(
                registry.slots(),
            ),
            r is Ok ==> final(self)@ == old(self)@.after(
                Event::Unregister { registration: registry.id(), busy: false },
            ),
            r matches Err(e) ==> {
                &&& final(self)@ == old(self)@
                &&& e == if old(self)@.fixed_buffers != Some(registry.id()) {
                    Error::NotRegistered
                } else {
                    Error::Busy
                }
            },
    {
        match self.fixed_buffers {
            None => {
                return Err(Error::NotRegistered);
            },
            Some(id) => {
                if id != registry.registration() {
                    return Err(Error::NotRegistered);
                }
            },
        }
        if registry.has_checked_out() {
            return Err(Error::Busy);
        }
        self.fixed_buffers = None;
        Ok(())
    }
}

} // verus!
