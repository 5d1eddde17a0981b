//! Operations as values: what is asked of the kernel, before it is submitted.
use crate::buf::fixed::registry::RegistryInfo;
use crate::buf::{Buffer, BufferView};
use vstd::prelude::*;

verus! {

/// Which way the bytes of an operation's buffer go.
#[derive(Clone, Copy, Debug, PartialEq, Eq, Structural)]
pub enum Direction {
    /// The kernel reads the written part of the buffer, as for a write to a
    /// file.
    FromBuffer,
    /// The kernel stores into the buffer up to its capacity, as for a read
    /// from a file.
    IntoBuffer,
}

/// What the kernel is asked to do. The driver passes it on as it stands.
#[derive(Clone, Copy, Debug, PartialEq, Eq, Structural)]
pub struct Request {
    pub opcode: u8,
    pub fd: i32,
    pub offset: u64,
}

/// Where an operation stands.
#[derive(Clone, Copy, Debug, PartialEq, Eq, Structural)]
pub enum Lifecycle {
    /// Built, and not yet known to the driver or the kernel.
    Created,
    /// Handed to the driver for the kernel; no completion has been seen.
    Submitted,
    /// The task that waited has gone away, and no completion has been seen:
    /// the operation keeps its buffer until one is.
    CancelledPendingCompletion,
    /// The completion has been seen; the result and the buffer are at hand.
    Completed,
}

/// What an operation is, to a contract.
#[verifier::ext_equal]
pub struct OpView {
    pub request: Request,
    pub direction: Direction,
    pub buffer: Option<BufferView>,
}

impl OpView {
    /// The buffer of the operation, if it has one, is well formed.
    pub open spec fn wf(self) -> bool {
        self.buffer matches Some(b) ==> b.wf()
    }
}

/// An operation that has been built and not yet submitted. It owns its
/// buffer, if it has one.
#[derive(Debug)]
pub struct Op {
    request: Request,
    direction: Direction,
    buffer: Option<Buffer>,
}

impl View for Op {
    type V = OpView;

    closed spec fn view(&self) -> OpView {
        OpView {
            request: self.request,
            direction: self.direction,
            buffer: match self.buffer {
                Some(b) => Some(b@),
                None => None,
            },
        }
    }
}

impl Op {
    /// What holds of every operation.
    pub open spec fn wf(&self) -> bool {
        self@.wf()
    }

    /// The operation that asks `request` of the kernel, over `buffer`.
    pub fn new(request: Request, direction: Direction, buffer: Option<Buffer>) -> (op: Op)
        requires
            buffer matches Some(b) ==> b.wf(),
        ensures
            op.wf(),
            op@ == (OpView {
                request,
                direction,
                buffer: match buffer {
                    Some(b) => Some(b@),
                    None => None,
                },
            }),
    {
        Op { request, direction, buffer }
    }

    /// Where the operation stands: it has been built, and that is all.
    pub fn lifecycle(&self) -> (state: Lifecycle)
        ensures
            state == Lifecycle::Created,
    {
        Lifecycle::Created
    }

    /// What the operation asks of the kernel.
    pub fn request(&self) -> (request: Request)
        ensures
            request == self@.request,
    {
        self.request
    }

    /// Which way the bytes of the buffer go.
    pub fn direction(&self) -> (direction: Direction)
        ensures
            direction == self@.direction,
    {
        self.direction
    }

    /// The side channel of the operation's buffer: set where the buffer was
    /// checked out of a registered collection.
    pub fn registry_info(&self) -> (info: Option<RegistryInfo>)
        ensures
            info == match self@.buffer {
                Some(b) => b.user_data,
                None => None,
            },
    {
        match &self.buffer {
            Some(b) => b.user_data(),
            None => None,
        }
    }

    /// Takes the operation apart again, to have its buffer back.
    pub fn into_parts(self) -> (parts: (Request, Direction, Option<Buffer>))
        requires
            self.wf(),
        ensures
            parts.0 == self@.request,
            parts.1 == self@.direction,
            parts.2 is Some <==> self@.buffer is Some,
            parts.2 matches Some(b) ==> b.wf() && Some(b@) == self@.buffer,
    {
        (self.request, self.direction, self.buffer)
    }

    /// Chains `next` behind this operation: the kernel starts `next` only
    /// once this one has completed, though both are submitted together.
    pub fn link(self, next: Op) -> (chain: Link)
        requires
            self.wf(),
            next.wf(),
        ensures
            chain.wf(),
            chain@ == seq![self@, next@],
    {
        let mut ops: Vec<Op> = Vec::new();
        ops.push(self);
        ops.push(next);
        let chain = Link { ops };
        assert(chain@ =~= seq![self@, next@]);
        chain
    }
}

/// What the operations of a batch are, to a contract.
pub open spec fn op_views(ops: Seq<Op>) -> Seq<OpView> {
    ops.map_values(|op: Op| op@)
}

/// Every operation of the sequence is well formed.
pub open spec fn ops_wf(ops: Seq<OpView>) -> bool {
    forall|i: int| 0 <= i < ops.len() ==> (#[trigger] ops[i]).wf()
}

/// Two or more operations of which the kernel starts each only once the one
/// before it has completed. The chain holds for this one submission.
#[derive(Debug)]
pub struct Link {
    ops: Vec<Op>,
}

impl View for Link {
    type V = Seq<OpView>;

    closed spec fn view(&self) -> Seq<OpView> {
        op_views(self.ops@)
    }
}

impl Link {
    /// What holds of every chain: it has at least two operations, and each
    /// is well formed.
    pub open spec fn wf(&self) -> bool {
        self@.len() >= 2 && ops_wf(self@)
    }

    /// Chains `next` behind the last operation of this chain.
    pub fn link(self, next: Op) -> (chain: Link)
        requires
            self.wf(),
            next.wf(),
        ensures
            chain.wf(),
            chain@ == self@.push(next@),
    {
        let mut ops: Vec<Op> = self.ops;
        ops.push(next);
        let chain = Link { ops };
        assert(chain@ =~= self@.push(next@));
        chain
    }

    /// The number of operations in the chain.
    pub fn len(&self) -> (n: usize)
        ensures
            n == self@.len(),
    {
        self.ops.len()
    }

    /// The operation at `index` of the chain, counted in the order in which
    /// the kernel is to start them.
    pub fn get(&self, index: usize) -> (op: Option<&Op>)
        ensures
            op is Some <==> index < self@.len(),
            op matches Some(o) ==> o@ == self@[index as int],
    {
        if index < self.ops.len() {
            Some(&self.ops[index])
        } else {
            None
        }
    }

    /// Takes the chain apart again, into its operations in their order.
    pub fn into_ops(self) -> (ops: Vec<Op>)
        requires
            self.wf(),
        ensures
            op_views(ops@) == self@,
            forall|i: int| 0 <= i < ops@.len() ==> (#[trigger] ops@[i]).wf(),
    {
        let ops: Vec<Op> = self.ops;
        assert forall|i: int| 0 <= i < ops@.len() implies (#[trigger] ops@[i]).wf() by {
            assert(self@[i].wf());
        }
        ops
    }
}

/// What a submission entry is, to a contract.
#[verifier::ext_equal]
pub struct EntryView {
    pub user_data: u64,
    pub request: Request,
    pub addrs: Seq<usize>,
    pub lens: Seq<usize>,
    pub buf_index: Option<u16>,
    pub link: bool,
}

/// One entry for the kernel's submission queue.
#[derive(Debug, PartialEq, Eq)]
pub struct SubmissionEntry {
    /// The tag that the completion will carry.
    pub user_data: u64,
    /// What is asked.
    pub request: Request,
    /// Where each region of the buffer starts.
    pub addrs: Vec<usize>,
    /// How many bytes of each region the kernel may touch.
    pub lens: Vec<usize>,
    /// The slot of the buffer in the registered collection, if it is of one.
    pub buf_index: Option<u16>,
    /// The kernel starts the entry that follows only once this one has
    /// completed.
    pub link: bool,
}

impl View for SubmissionEntry {
    type V = EntryView;

    open spec fn view(&self) -> EntryView {
        EntryView {
            user_data: self.user_data,
            request: self.request,
            addrs: self.addrs@,
            lens: self.lens@,
            buf_index: self.buf_index,
            link: self.link,
        }
    }
}

/// What the entries of a batch are, to a contract.
pub open spec fn entry_views(batch: Seq<SubmissionEntry>) -> Seq<EntryView> {
    batch.map_values(|e: SubmissionEntry| e@)
}

/// The entry that submits `op` under the tag `user_data`. The kernel is told
/// of every region of the buffer. Of a buffer that it reads it may touch the
/// written part; of a buffer that it stores into, all of it.
pub open spec fn entry_of(user_data: u64, op: OpView, link: bool) -> EntryView {
    match op.buffer {
        None => EntryView {
            user_data,
            request: op.request,
            addrs: Seq::empty(),
            lens: Seq::empty(),
            buf_index: None,
            link,
        },
        Some(b) => EntryView {
            user_data,
            request: op.request,
            addrs: b.decompose().ptr,
            lens: match op.direction {
                Direction::FromBuffer => b.decompose().len,
                Direction::IntoBuffer => b.decompose().cap,
            },
            buf_index: match b.user_data {
                Some(info) => Some(info.index),
                None => None,
            },
            link,
        },
    }
}

} // verus!
