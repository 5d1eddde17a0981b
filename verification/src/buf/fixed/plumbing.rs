//! The table behind a registered collection of buffers.
use crate::buf::{Buffer, BufferView};
use vstd::prelude::*;

verus! {

/// One region as the kernel is told of it at registration: where it starts
/// and how long it is.
#[derive(Clone, Copy, Debug, PartialEq, Eq, Structural)]
pub struct Iovec {
    pub iov_base: usize,
    pub iov_len: usize,
}

/// Whether a registered buffer is at hand.
#[derive(Clone, Copy, Debug, PartialEq, Eq, Structural)]
pub enum BufState {
    /// The buffer is not in use; `init_len` bytes of it are written.
    Free { init_len: usize },
    /// The buffer is checked out; whoever holds it keeps track of how much
    /// of it is written.
    CheckedOut,
}

/// One entry of the table.
#[derive(Clone, Copy, Debug, PartialEq, Eq, Structural)]
pub struct Slot {
    pub iovec: Iovec,
    pub state: BufState,
}

/// The most slots that a table can have: a slot's index travels as a `u16`.
pub const MAX_SLOTS: usize = 65535;

/// No slot of the table claims more written bytes than its region holds, and
/// every index fits a `u16`.
pub open spec fn slots_wf(slots: Seq<Slot>) -> bool {
    &&& slots.len() <= MAX_SLOTS
    &&& forall|i: int|
        0 <= i < slots.len() ==> ((#[trigger] slots[i]).state matches BufState::Free { init_len }
            ==> init_len <= slots[i].iovec.iov_len)
}

/// Slot `index` exists and is checked out.
pub open spec fn is_checked_out(slots: Seq<Slot>, index: int) -> bool {
    0 <= index < slots.len() && slots[index].state is CheckedOut
}

/// Slot `index` exists and is free.
pub open spec fn is_free(slots: Seq<Slot>, index: int) -> bool {
    0 <= index < slots.len() && slots[index].state is Free
}

/// Some slot of the table is checked out.
pub open spec fn any_checked_out(slots: Seq<Slot>) -> bool {
    exists|i: int| is_checked_out(slots, i)
}

/// The table with slot `index` marked as checked out.
pub open spec fn checked_out(slots: Seq<Slot>, index: int) -> Seq<Slot> {
    slots.update(index, Slot { iovec: slots[index].iovec, state: BufState::CheckedOut })
}

/// The table with slot `index` free again, `init_len` bytes of it written.
pub open spec fn checked_in(slots: Seq<Slot>, index: int, init_len: usize) -> Seq<Slot> {
    slots.update(index, Slot { iovec: slots[index].iovec, state: BufState::Free { init_len } })
}

/// The slot that a buffer is registered as: its first region, free, with as
/// many bytes written as the buffer has.
pub open spec fn slot_of(buf: BufferView) -> Slot {
    Slot {
        iovec: Iovec { iov_base: buf.regions[0].base, iov_len: buf.regions[0].capacity },
        state: BufState::Free { init_len: buf.regions[0].init_len },
    }
}

/// How many of `count` offered buffers a table takes under `limit`.
pub open spec fn taken(count: int, limit: int) -> int {
    let bound = if limit < MAX_SLOTS {
        limit
    } else {
        MAX_SLOTS as int
    };
    if count < bound {
        count
    } else {
        bound
    }
}

/// The table that registering `bufs` under `limit` gives: one slot for each
/// of the first buffers, in their order, and nothing for those past the limit.
pub open spec fn registered(bufs: Seq<BufferView>, limit: int) -> Seq<Slot> {
    Seq::new(taken(bufs.len() as int, limit) as nat, |i: int| slot_of(bufs[i]))
}

/// Of the buffers offered, a table has the first ones in their order, as
/// many as the limit lets it: where more are offered than the limit, and the
/// limit is one that indices can name, exactly as many as the limit.
pub proof fn lemma_registered(bufs: Seq<BufferView>, limit: int)
    requires
        0 <= limit,
    ensures
        registered(bufs, limit).len() <= bufs.len(),
        registered(bufs, limit).len() <= limit,
        registered(bufs, limit).len() <= MAX_SLOTS,
        bufs.len() <= limit && bufs.len() <= MAX_SLOTS ==> registered(bufs, limit).len()
            == bufs.len(),
        bufs.len() > limit && limit <= MAX_SLOTS ==> registered(bufs, limit).len() == limit,
        forall|i: int|
            0 <= i < registered(bufs, limit).len() ==> #[trigger] registered(bufs, limit)[i]
                == slot_of(bufs[i]),
{
}

/// What can be asked of a table.
pub enum Call {
    /// Check out the buffer at `index`.
    CheckOut { index: usize },
    /// Return the buffer at `index`, with `init_len` bytes written.
    CheckIn { index: usize, init_len: usize },
}

/// The table does what `call` asks.
pub open spec fn granted(slots: Seq<Slot>, call: Call) -> bool {
    match call {
        Call::CheckOut { index } => is_free(slots, index as int),
        Call::CheckIn { index, init_len } => is_checked_out(slots, index as int) && init_len
            <= slots[index as int].iovec.iov_len,
    }
}

/// The table after `call`: changed as asked where the call is granted, and
/// unchanged where it is not.
pub open spec fn after(slots: Seq<Slot>, call: Call) -> Seq<Slot> {
    if !granted(slots, call) {
        slots
    } else {
        match call {
            Call::CheckOut { index } => checked_out(slots, index as int),
            Call::CheckIn { index, init_len } => checked_in(slots, index as int, init_len),
        }
    }
}

/// The table after a run of calls, in whatever order tasks made them.
pub open spec fn after_all(slots: Seq<Slot>, calls: Seq<Call>) -> Seq<Slot>
    decreases calls.len(),
{
    if calls.len() == 0 {
        slots
    } else {
        after(after_all(slots, calls.drop_last()), calls.last())
    }
}

/// How many holders the buffer at `index` has after a run of calls: one if it
/// was checked out to begin with, one more for each check-out of it that was
/// granted, one less for each return of it that was granted.
pub open spec fn holders(slots: Seq<Slot>, calls: Seq<Call>, index: int) -> int
    decreases calls.len(),
{
    if calls.len() == 0 {
        if is_checked_out(slots, index) {
            1
        } else {
            0
        }
    } else {
        let before = after_all(slots, calls.drop_last());
        let earlier = holders(slots, calls.drop_last(), index);
        match calls.last() {
            Call::CheckOut { index: i } => if i == index && granted(before, calls.last()) {
                earlier + 1
            } else {
                earlier
            },
            Call::CheckIn { index: i, .. } => if i == index && granted(before, calls.last()) {
                earlier - 1
            } else {
                earlier
            },
        }
    }
}

/// Whatever calls are made in whatever order, a buffer never has more than
/// one holder: it has exactly one while its slot is checked out and none
/// while it is free, and the table stays well formed.
pub proof fn lemma_one_holder(slots: Seq<Slot>, calls: Seq<Call>, index: int)
    requires
        slots_wf(slots),
    ensures
        slots_wf(after_all(slots, calls)),
        after_all(slots, calls).len() == slots.len(),
        holders(slots, calls, index) == if is_checked_out(after_all(slots, calls), index) {
            1int
        } else {
            0int
        },
    decreases calls.len(),
{
    if calls.len() > 0 {
        lemma_one_holder(slots, calls.drop_last(), index);
    }
}

/// A buffer that is checked out is not checked out again before it has been
/// returned: a check-out of it is granted only while it has no holder.
pub proof fn lemma_check_out_excludes(slots: Seq<Slot>, calls: Seq<Call>, index: usize)
    requires
        slots_wf(slots),
        granted(after_all(slots, calls), Call::CheckOut { index }),
    ensures
        holders(slots, calls, index as int) == 0,
        holders(slots, calls.push(Call::CheckOut { index }), index as int) == 1,
{
    lemma_one_holder(slots, calls, index as int);
    let more = calls.push(Call::CheckOut { index });
    assert(more.drop_last() =~= calls);
    lemma_one_holder(slots, more, index as int);
}

/// The number of regions that the kernel takes in one registration.
pub open spec fn spec_max_buffers() -> usize {
    1024
}

/// Reads the constant `libc::UIO_MAXIOV`, the kernel's bound on the number of
/// regions in one vector. The `libc` crate gives it the value 1024 wherever
/// it defines it.
#[verifier::external_body]
fn uio_maxiov() -> (n: usize)
    ensures
        n == 1024,
{
    libc::UIO_MAXIOV as usize
}

/// The number of regions that the kernel takes in one registration.
#[verifier::when_used_as_spec(spec_max_buffers)]
pub fn max_buffers() -> (n: usize)
    ensures
        n == spec_max_buffers(),
{
    let n: usize = uio_maxiov();
    if n < MAX_SLOTS {
        n
    } else {
        MAX_SLOTS
    }
}

/// The table of a registered collection: for each buffer its region and
/// whether it is at hand.
#[derive(Debug)]
pub struct Registry {
    slots: Vec<Slot>,
}

impl View for Registry {
    type V = Seq<Slot>;

    closed spec fn view(&self) -> Seq<Slot> {
        self.slots@
    }
}

impl Registry {
    /// What holds of every table.
    pub open spec fn wf(&self) -> bool {
        slots_wf(self@)
    }

    /// A table of the given buffers, all free, each registered as its first
    /// region. It takes as many as the kernel does in one registration and
    /// silently leaves out the rest.
    pub fn new(bufs: Vec<Buffer>) -> (registry: Registry)
        requires
            forall|i: int| 0 <= i < bufs@.len() ==> (#[trigger] bufs@[i]).wf(),
        ensures
            registry.wf(),
            registry@ == registered(bufs@.map_values(|b: Buffer| b@), max_buffers() as int),
    {
        Registry::with_limit(bufs, max_buffers())
    }

    /// A table of the first `limit` of the given buffers, all free, each
    /// registered as its first region. Those past the limit are silently
    /// left out.
    pub fn with_limit(bufs: Vec<Buffer>, limit: usize) -> (registry: Registry)
        requires
            forall|i: int| 0 <= i < bufs@.len() ==> (#[trigger] bufs@[i]).wf(),
        ensures
            registry.wf(),
            registry@ == registered(bufs@.map_values(|b: Buffer| b@), limit as int),
    {
        let bound: usize = if limit < MAX_SLOTS {
            limit
        } else {
            MAX_SLOTS
        };
        let count: usize = if bufs.len() < bound {
            bufs.len()
        } else {
            bound
        };
        let ghost views: Seq<BufferView> = bufs@.map_values(|b: Buffer| b@);
        let mut slots: Vec<Slot> = Vec::new();
        let mut i: usize = 0;
        while i < count
            invariant
                i <= count,
                count <= bufs@.len(),
                count <= MAX_SLOTS,
                views == bufs@.map_values(|b: Buffer| b@),
                forall|j: int| 0 <= j < bufs@.len() ==> (#[trigger] bufs@[j]).wf(),
                slots@.len() == i,
                forall|j: int| 0 <= j < i ==> #[trigger] slots@[j] == slot_of(views[j]),
            decreases count - i,
        {
            let buf: &Buffer = &bufs[i];
            assert(bufs@[i as int].wf());
            assert(views[i as int] == buf@);
            let slot: Slot = match buf.region(0) {
                Some(r) => Slot {
                    iovec: Iovec { iov_base: r.base, iov_len: r.capacity },
                    state: BufState::Free { init_len: r.init_len },
                },
                None => Slot {
                    iovec: Iovec { iov_base: 0, iov_len: 0 },
                    state: BufState::Free { init_len: 0 },
                },
            };
            slots.push(slot);
            i += 1;
        }
        let registry = Registry { slots };
        proof {
            assert(registry@ =~= registered(views, limit as int));
            assert forall|j: int| 0 <= j < registry@.len() implies ((
            #[trigger] registry@[j]).state matches BufState::Free { init_len } ==> init_len
                <= registry@[j].iovec.iov_len) by {
                assert(bufs@[j].wf());
                assert(views[j] == bufs@[j]@);
                assert(views[j].regions[0].wf());
            }
        }
        registry
    }

    /// The number of slots.
    pub fn len(&self) -> (n: usize)
        ensures
            n == self@.len(),
    {
        self.slots.len()
    }

    /// The slot at `index`.
    pub fn slot(&self, index: usize) -> (s: Option<Slot>)
        ensures
            s == if index < self@.len() {
                Some(self@[index as int])
            } else {
                None
            },
    {
        if index < self.slots.len() {
            Some(self.slots[index])
        } else {
            None
        }
    }

    /// The regions of the table in slot order, as the kernel takes them at
    /// registration.
    pub fn iovecs(&self) -> (v: Vec<Iovec>)
        ensures
            v@ == self@.map_values(|s: Slot| s.iovec),
    {
        let n: usize = self.slots.len();
        let mut v: Vec<Iovec> = Vec::new();
        let mut i: usize = 0;
        while i < n
            invariant
                i <= n,
                n == self.slots@.len(),
                v@.len() == i,
                forall|j: int| 0 <= j < i ==> #[trigger] v@[j] == self.slots@[j].iovec,
            decreases n - i,
        {
            v.push(self.slots[i].iovec);
            i += 1;
        }
        assert(v@ =~= self@.map_values(|s: Slot| s.iovec));
        v
    }

    /// Tells whether any buffer of the table is checked out.
    pub fn has_checked_out(&self) -> (b: bool)
        ensures
            b == any_checked_out(self@),
    {
        let n: usize = self.slots.len();
        let mut i: usize = 0;
        while i < n
            invariant
                i <= n,
                n == self.slots@.len(),
                forall|j: int| 0 <= j < i ==> !is_checked_out(self@, j),
            decreases n - i,
        {
            match self.slots[i].state {
                BufState::CheckedOut => {
                    assert(is_checked_out(self@, i as int));
                    return true;
                },
                BufState::Free { .. } => {},
            }
            i += 1;
        }
        false
    }

    /// If the buffer at `index` is free, marks it as checked out and gives
    /// its region and the number of bytes written in it. If there is no
    /// such buffer or it is checked out already, nothing changes.
    pub fn check_out(&mut self, index: usize) -> (out: Option<(Iovec, usize)>)
        requires
            old(self).wf(),
        ensures
            final(self).wf(),
            out is Some <==> is_free(old(self)@, index as int),
            out matches Some((iovec, init_len)) ==> {
                &&& iovec == old(self)@[index as int].iovec
                &&& old(self)@[index as int].state == (BufState::Free { init_len })
                &&& init_len <= iovec.iov_len
                &&& final(self)@ == checked_out(old(self)@, index as int)
            },
            out is None ==> final(self)@ == old(self)@,
    {
        if index >= self.slots.len() {
            return None;
        }
        let slot: Slot = self.slots[index];
        match slot.state {
            BufState::CheckedOut => None,
            BufState::Free { init_len } => {
                self.slots[index] = Slot { iovec: slot.iovec, state: BufState::CheckedOut };
                Some((slot.iovec, init_len))
            },
        }
    }

    /// Marks the buffer at `index` as free again and records that `init_len`
    /// bytes of it are written.
    pub fn check_in(&mut self, index: usize, init_len: usize)
        requires
            old(self).wf(),
            is_checked_out(old(self)@, index as int),
            init_len <= old(self)@[index as int].iovec.iov_len,
        ensures
            final(self).wf(),
            final(self)@ == checked_in(old(self)@, index as int, init_len),
    {
        let iovec: Iovec = self.slots[index].iovec;
        self.slots[index] = Slot { iovec, state: BufState::Free { init_len } };
    }
}

} // verus!
