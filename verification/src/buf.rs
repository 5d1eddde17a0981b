//! Buffers: one handle type over one or more memory regions.
//!
//! A [`Buffer`] owns its regions. To lend them to the kernel it is taken apart
//! with [`Buffer::decompose`]; once the kernel is done, the same parts, with
//! the lengths the kernel reported, are put together again with
//! [`Buffer::reconstruct`].
use crate::buf::fixed::registry::{FixedBuf, FixedBufView, RegistryInfo};
use vstd::prelude::*;

pub mod fixed;

verus! {

/// One contiguous piece of memory: where it starts, how much of it has been
/// written, and how much there is.
#[derive(Clone, Copy, Debug, PartialEq, Eq, Structural)]
pub struct Region {
    pub base: usize,
    pub init_len: usize,
    pub capacity: usize,
}

impl Region {
    /// The written part lies within the region.
    pub open spec fn wf(self) -> bool {
        self.init_len <= self.capacity
    }
}

/// What a buffer is, to a contract.
#[verifier::ext_equal]
pub struct BufferView {
    pub regions: Seq<Region>,
    pub user_data: Option<RegistryInfo>,
}

/// What the raw parts of a buffer are, to a contract.
#[verifier::ext_equal]
pub struct RawPartsView {
    pub ptr: Seq<usize>,
    pub len: Seq<usize>,
    pub cap: Seq<usize>,
    pub user_data: Option<RegistryInfo>,
}

impl BufferView {
    /// The buffer that stands for a checked-out buffer: its one region, and
    /// where it came from as the side channel.
    pub open spec fn of_fixed(buf: FixedBufView) -> BufferView {
        BufferView {
            regions: seq![
                Region {
                    base: buf.iovec.iov_base,
                    init_len: buf.init_len,
                    capacity: buf.iovec.iov_len,
                },
            ],
            user_data: Some(buf.registry_info),
        }
    }

    /// The buffer stands for a checked-out buffer: it has one region and a
    /// side channel.
    pub open spec fn is_fixed(self) -> bool {
        self.regions.len() == 1 && self.user_data is Some
    }

    /// The checked-out buffer that this buffer stands for.
    pub open spec fn as_fixed(self) -> FixedBufView {
        FixedBufView {
            iovec: crate::buf::fixed::plumbing::Iovec {
                iov_base: self.regions[0].base,
                iov_len: self.regions[0].capacity,
            },
            init_len: self.regions[0].init_len,
            registry_info: self.user_data->0,
        }
    }

    /// The buffer after `n` bytes were stored from the start of its first
    /// region on.
    pub open spec fn filled(self, n: usize) -> BufferView {
        self.decompose().filled(n).reconstruct()
    }

    /// There is at least one region, and each is well formed.
    pub open spec fn wf(self) -> bool {
        &&& self.regions.len() >= 1
        &&& forall|i: int| 0 <= i < self.regions.len() ==> (#[trigger] self.regions[i]).wf()
    }

    /// The raw parts of this buffer: region by region the address, the
    /// written length and the capacity, and the side channel unchanged.
    pub open spec fn decompose(self) -> RawPartsView {
        RawPartsView {
            ptr: Seq::new(self.regions.len(), |i: int| self.regions[i].base),
            len: Seq::new(self.regions.len(), |i: int| self.regions[i].init_len),
            cap: Seq::new(self.regions.len(), |i: int| self.regions[i].capacity),
            user_data: self.user_data,
        }
    }
}

/// How many bytes the regions before region `i` hold.
pub open spec fn capacity_before(cap: Seq<usize>, i: int) -> int
    decreases i,
{
    if i <= 0 {
        0
    } else {
        capacity_before(cap, i - 1) + cap[i - 1]
    }
}

/// The written length of a region of capacity `cap`, of which `len` bytes
/// were written before, once `avail` bytes have arrived at its start: the
/// bytes that fit are written, and what was written before stays so.
pub open spec fn written(len: usize, cap: usize, avail: int) -> usize {
    let got: usize = if avail <= 0 {
        0
    } else if avail >= cap {
        cap
    } else {
        avail as usize
    };
    if got > len {
        got
    } else {
        len
    }
}

impl RawPartsView {
    /// The parts after `n` bytes were stored from the start of the first
    /// region on: each region takes what fits, the next one the rest.
    pub open spec fn filled(self, n: usize) -> RawPartsView {
        RawPartsView {
            ptr: self.ptr,
            len: Seq::new(
                self.len.len(),
                |i: int| written(self.len[i], self.cap[i], n - capacity_before(self.cap, i)),
            ),
            cap: self.cap,
            user_data: self.user_data,
        }
    }

    /// The three sequences describe the same regions, at least one, and no
    /// written length exceeds its capacity.
    pub open spec fn wf(self) -> bool {
        &&& self.ptr.len() >= 1
        &&& self.len.len() == self.ptr.len()
        &&& self.cap.len() == self.ptr.len()
        &&& forall|i: int| 0 <= i < self.ptr.len() ==> #[trigger] self.len[i] <= self.cap[i]
    }

    /// The buffer these parts make up.
    pub open spec fn reconstruct(self) -> BufferView {
        BufferView {
            regions: Seq::new(
                self.ptr.len(),
                |i: int| Region { base: self.ptr[i], init_len: self.len[i], capacity: self.cap[i] },
            ),
            user_data: self.user_data,
        }
    }
}

/// A buffer taken apart for the kernel: per region the address, the written
/// length and the capacity, and the side channel of the buffer it came from.
#[derive(Debug, PartialEq, Eq)]
pub struct RawParts {
    pub ptr: Vec<usize>,
    pub len: Vec<usize>,
    pub cap: Vec<usize>,
    pub user_data: Option<RegistryInfo>,
}

impl View for RawParts {
    type V = RawPartsView;

    open spec fn view(&self) -> RawPartsView {
        RawPartsView {
            ptr: self.ptr@,
            len: self.len@,
            cap: self.cap@,
            user_data: self.user_data,
        }
    }
}

impl RawParts {
    /// Tells whether these parts can be put together into a buffer.
    pub fn is_valid(&self) -> (ok: bool)
        ensures
            ok == self@.wf(),
    {
        let n: usize = self.ptr.len();
        if n == 0 || self.len.len() != n || self.cap.len() != n {
            return false;
        }
        let mut i: usize = 0;
        while i < n
            invariant
                i <= n,
                n == self.ptr@.len(),
                n == self.len@.len(),
                n == self.cap@.len(),
                forall|j: int| 0 <= j < i ==> #[trigger] self.len@[j] <= self.cap@[j],
            decreases n - i,
        {
            if self.len[i] > self.cap[i] {
                return false;
            }
            i += 1;
        }
        true
    }

    /// Records that `n` bytes were stored from the start of the first region
    /// on, as a completed read reports it.
    pub fn fill(&mut self, n: usize)
        requires
            old(self)@.wf(),
        ensures
            final(self)@ == old(self)@.filled(n),
            final(self)@.wf(),
    {
        let count: usize = self.len.len();
        let mut rest: usize = n;
        let mut i: usize = 0;
        while i < count
            invariant
                i <= count,
                count == old(self)@.ptr.len(),
                old(self)@.wf(),
                self.ptr@ == old(self)@.ptr,
                self.cap@ == old(self)@.cap,
                self.user_data == old(self)@.user_data,
                self.len@.len() == count,
                rest as int == if n >= capacity_before(self.cap@, i as int) {
                    n - capacity_before(self.cap@, i as int)
                } else {
                    0
                },
                forall|j: int|
                    0 <= j < i ==> #[trigger] self.len@[j] == written(
                        old(self)@.len[j],
                        self.cap@[j],
                        n - capacity_before(self.cap@, j),
                    ),
                forall|j: int| i <= j < count ==> #[trigger] self.len@[j] == old(self)@.len[j],
            decreases count - i,
        {
            let cap: usize = self.cap[i];
            let got: usize = if rest >= cap {
                cap
            } else {
                rest
            };
            assert(capacity_before(self.cap@, i + 1) == capacity_before(self.cap@, i as int) + cap);
            if got > self.len[i] {
                self.len[i] = got;
            }
            rest = rest - got;
            i += 1;
        }
        proof {
            assert(self@.len =~= old(self)@.filled(n).len);
            assert forall|j: int| 0 <= j < self@.ptr.len() implies #[trigger] self@.len[j]
                <= self@.cap[j] by {
                assert(old(self)@.len[j] <= old(self)@.cap[j]);
            }
        }
    }
}

/// A handle that owns one or more memory regions.
#[derive(Debug, PartialEq, Eq)]
pub struct Buffer {
    regions: Vec<Region>,
    user_data: Option<RegistryInfo>,
}

impl View for Buffer {
    type V = BufferView;

    closed spec fn view(&self) -> BufferView {
        BufferView { regions: self.regions@, user_data: self.user_data }
    }
}

impl Buffer {
    /// Every buffer that this crate hands out is well formed.
    pub open spec fn wf(&self) -> bool {
        self@.wf()
    }

    /// A buffer over the given regions, with no side channel. There is none
    /// if no region is given or one claims more written bytes than it holds.
    pub fn new(regions: Vec<Region>) -> (buf: Option<Buffer>)
        ensures
            buf is Some <==> (BufferView { regions: regions@, user_data: None }).wf(),
            buf matches Some(b) ==> b.wf() && b@ == (BufferView {
                regions: regions@,
                user_data: None,
            }),
    {
        let n: usize = regions.len();
        if n == 0 {
            return None;
        }
        let mut i: usize = 0;
        while i < n
            invariant
                i <= n,
                n == regions@.len(),
                forall|j: int| 0 <= j < i ==> (#[trigger] regions@[j]).wf(),
            decreases n - i,
        {
            if regions[i].init_len > regions[i].capacity {
                assert(!regions@[i as int].wf());
                return None;
            }
            i += 1;
        }
        Some(Buffer { regions, user_data: None })
    }

    /// The buffer that stands for a checked-out buffer.
    pub fn from_fixed(buf: FixedBuf) -> (b: Buffer)
        requires
            buf.wf(),
        ensures
            b.wf(),
            b@ == BufferView::of_fixed(buf@),
            b@.is_fixed(),
            b@.as_fixed() == buf@,
    {
        let (ptr, len, cap, info) = buf.into_raw_parts();
        let parts = RawParts { ptr, len, cap, user_data: Some(info) };
        let b = Buffer::reconstruct(parts);
        proof {
            assert(b@.regions =~= BufferView::of_fixed(buf@).regions);
        }
        b
    }

    /// The checked-out buffer that this buffer stands for, or the buffer
    /// itself if it stands for none.
    pub fn into_fixed(self) -> (r: Result<FixedBuf, Buffer>)
        requires
            self.wf(),
        ensures
            r is Ok <==> self@.is_fixed(),
            r matches Ok(buf) ==> buf.wf() && buf@ == self@.as_fixed(),
            r matches Err(b) ==> b == self,
    {
        if self.regions.len() != 1 {
            return Err(self);
        }
        match self.user_data {
            None => Err(self),
            Some(info) => {
                assert(self@.regions[0].wf());
                let parts = self.decompose();
                Ok(FixedBuf::from_raw_parts(parts.ptr, parts.len, parts.cap, info))
            },
        }
    }

    /// The number of regions.
    pub fn len(&self) -> (n: usize)
        ensures
            n == self@.regions.len(),
    {
        self.regions.len()
    }

    /// The region at `index`.
    pub fn region(&self, index: usize) -> (r: Option<Region>)
        ensures
            r == if index < self@.regions.len() {
                Some(self@.regions[index as int])
            } else {
                None
            },
    {
        if index < self.regions.len() {
            Some(self.regions[index])
        } else {
            None
        }
    }

    /// The side channel: set for a buffer checked out of a registered
    /// collection, absent for any other.
    pub fn user_data(&self) -> (d: Option<RegistryInfo>)
        ensures
            d == self@.user_data,
    {
        self.user_data
    }

    /// The buffer after `n` bytes were stored from the start of its first
    /// region on.
    pub fn fill(self, n: usize) -> (buf: Buffer)
        requires
            self.wf(),
        ensures
            buf@ == self@.filled(n),
            buf.wf(),
    {
        let mut parts = self.decompose();
        parts.fill(n);
        Buffer::reconstruct(parts)
    }

    /// Takes the buffer apart into what the kernel is handed.
    pub fn decompose(self) -> (parts: RawParts)
        requires
            self.wf(),
        ensures
            parts@ == self@.decompose(),
            parts@.wf(),
    {
        let n: usize = self.regions.len();
        let mut ptr: Vec<usize> = Vec::new();
        let mut len: Vec<usize> = Vec::new();
        let mut cap: Vec<usize> = Vec::new();
        let mut i: usize = 0;
        while i < n
            invariant
                i <= n,
                n == self.regions@.len(),
                self@.wf(),
                ptr@.len() == i,
                len@.len() == i,
                cap@.len() == i,
                forall|j: int| 0 <= j < i ==> #[trigger] ptr@[j] == self.regions@[j].base,
                forall|j: int| 0 <= j < i ==> #[trigger] len@[j] == self.regions@[j].init_len,
                forall|j: int| 0 <= j < i ==> #[trigger] cap@[j] == self.regions@[j].capacity,
            decreases n - i,
        {
            let r: Region = self.regions[i];
            ptr.push(r.base);
            len.push(r.init_len);
            cap.push(r.capacity);
            i += 1;
        }
        let parts = RawParts { ptr, len, cap, user_data: self.user_data };
        proof {
            assert(parts@.ptr =~= self@.decompose().ptr);
            assert(parts@.len =~= self@.decompose().len);
            assert(parts@.cap =~= self@.decompose().cap);
            assert forall|j: int| 0 <= j < parts@.ptr.len() implies #[trigger] parts@.len[j]
                <= parts@.cap[j] by {
                assert(self@.regions[j].wf());
            }
        }
        parts
    }

    /// Puts a buffer together from raw parts. It is meant for the parts that
    /// [`Buffer::decompose`] gave, with the lengths that the kernel left.
    pub fn reconstruct(parts: RawParts) -> (buf: Buffer)
        requires
            parts@.wf(),
        ensures
            buf@ == parts@.reconstruct(),
            buf.wf(),
    {
        let n: usize = parts.ptr.len();
        let mut regions: Vec<Region> = Vec::new();
        let mut i: usize = 0;
        while i < n
            invariant
                i <= n,
                parts@.wf(),
                n == parts.ptr@.len(),
                regions@.len() == i,
                forall|j: int|
                    0 <= j < i ==> #[trigger] regions@[j] == (Region {
                        base: parts.ptr@[j],
                        init_len: parts.len@[j],
                        capacity: parts.cap@[j],
                    }),
            decreases n - i,
        {
            let region =
                Region { base: parts.ptr[i], init_len: parts.len[i], capacity: parts.cap[i] };
            regions.push(region);
            i += 1;
        }
        let buf = Buffer { regions, user_data: parts.user_data };
        proof {
            assert(buf@.regions =~= parts@.reconstruct().regions);
        }
        buf
    }
}

/// Taking a buffer apart and putting the parts together again gives the
/// buffer back, whatever its regions and side channel are.
pub proof fn lemma_round_trip(b: BufferView)
    ensures
        b.decompose().reconstruct() == b,
        b.wf() ==> b.decompose().wf(),
{
    assert(b.decompose().reconstruct().regions =~= b.regions);
    if b.wf() {
        let p = b.decompose();
        assert forall|i: int| 0 <= i < p.ptr.len() implies #[trigger] p.len[i] <= p.cap[i] by {
            assert(b.regions[i].wf());
        }
    }
}

/// Putting valid parts together and taking the buffer apart again gives the
/// parts back.
pub proof fn lemma_parts_round_trip(p: RawPartsView)
    requires
        p.wf(),
    ensures
        p.reconstruct().wf(),
        p.reconstruct().decompose() == p,
{
    assert(p.reconstruct().decompose().ptr =~= p.ptr);
    assert(p.reconstruct().decompose().len =~= p.len);
    assert(p.reconstruct().decompose().cap =~= p.cap);
}

/// Storing bytes into a well-formed buffer leaves it well formed, with the
/// same regions at the same places: only written lengths change, and none
/// gets smaller.
pub proof fn lemma_filled(b: BufferView, n: usize)
    requires
        b.wf(),
    ensures
        b.filled(n).wf(),
        b.filled(n).user_data == b.user_data,
        b.filled(n).regions.len() == b.regions.len(),
        forall|i: int|
            0 <= i < b.regions.len() ==> {
                &&& (#[trigger] b.filled(n).regions[i]).base == b.regions[i].base
                &&& b.filled(n).regions[i].capacity == b.regions[i].capacity
                &&& b.filled(n).regions[i].init_len >= b.regions[i].init_len
            },
{
    assert forall|i: int| 0 <= i < b.regions.len() implies (#[trigger] b.filled(n).regions[i]).wf()
        && b.filled(n).regions[i].init_len >= b.regions[i].init_len by {
        assert(b.regions[i].wf());
    }
}

} // verus!
