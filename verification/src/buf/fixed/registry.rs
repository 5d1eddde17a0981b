//! A collection of buffers registered with the kernel, and the buffers that
//! it lends.
use crate::buf::fixed::plumbing::{
    after_all, any_checked_out, checked_in, checked_out, holders, is_checked_out, is_free,
    lemma_one_holder, max_buffers, registered, slots_wf, BufState, Call, Iovec, Registry, Slot,
};
use crate::buf::{Buffer, BufferView};
use crate::error::Error;
use crate::runtime::context::Context;
use crate::runtime::driver::{DriverView, Event};
use vstd::prelude::*;

verus! {

/// The side channel of a buffer that was checked out of a registered
/// collection: which registration it belongs to, and which slot it is.
#[derive(Clone, Copy, Debug, PartialEq, Eq, Structural)]
pub struct RegistryInfo {
    pub registry: u64,
    pub index: u16,
}

/// What a checked-out buffer is, to a contract.
pub struct FixedBufView {
    pub iovec: Iovec,
    pub init_len: usize,
    pub registry_info: RegistryInfo,
}

impl FixedBufView {
    /// No more bytes are written than the region holds.
    pub open spec fn wf(self) -> bool {
        self.init_len <= self.iovec.iov_len
    }

    /// The raw parts of the buffer: one address, one written length, one
    /// capacity, and where it came from.
    pub open spec fn raw_parts(self) -> (Seq<usize>, Seq<usize>, Seq<usize>, RegistryInfo) {
        (
            seq![self.iovec.iov_base],
            seq![self.init_len],
            seq![self.iovec.iov_len],
            self.registry_info,
        )
    }

    /// The buffer that raw parts make up: the first address, written length
    /// and capacity count.
    pub open spec fn from_raw_parts(
        ptr: Seq<usize>,
        len: Seq<usize>,
        cap: Seq<usize>,
        user_data: RegistryInfo,
    ) -> FixedBufView {
        FixedBufView {
            iovec: Iovec { iov_base: ptr[0], iov_len: cap[0] },
            init_len: len[0],
            registry_info: user_data,
        }
    }
}

/// A buffer checked out of a registered collection. Whoever holds it is the
/// only one to use its slot until it is released.
#[derive(Debug)]
pub struct FixedBuf {
    iovec: Iovec,
    init_len: usize,
    registry_info: RegistryInfo,
}

impl View for FixedBuf {
    type V = FixedBufView;

    closed spec fn view(&self) -> FixedBufView {
        FixedBufView {
            iovec: self.iovec,
            init_len: self.init_len,
            registry_info: self.registry_info,
        }
    }
}

impl FixedBuf {
    /// What holds of every checked-out buffer.
    pub open spec fn wf(&self) -> bool {
        self@.wf()
    }

    /// The number of bytes written in the buffer.
    pub fn bytes_init(&self) -> (n: usize)
        ensures
            n == self@.init_len,
    {
        self.init_len
    }

    /// The number of bytes that the buffer holds.
    pub fn bytes_total(&self) -> (n: usize)
        ensures
            n == self@.iovec.iov_len,
    {
        self.iovec.iov_len
    }

    /// The registration and the slot that the buffer came from.
    pub fn registry_info(&self) -> (info: RegistryInfo)
        ensures
            info == self@.registry_info,
    {
        self.registry_info
    }

    /// Takes the buffer apart: its address, its written length, its
    /// capacity, and where it came from.
    pub fn into_raw_parts(self) -> (parts: (Vec<usize>, Vec<usize>, Vec<usize>, RegistryInfo))
        ensures
            (parts.0@, parts.1@, parts.2@, parts.3) == self@.raw_parts(),
    {
        let mut ptr: Vec<usize> = Vec::new();
        let mut len: Vec<usize> = Vec::new();
        let mut cap: Vec<usize> = Vec::new();
        ptr.push(self.iovec.iov_base);
        len.push(self.init_len);
        cap.push(self.iovec.iov_len);
        proof {
            assert(ptr@ =~= seq![self.iovec.iov_base]);
            assert(len@ =~= seq![self.init_len]);
            assert(cap@ =~= seq![self.iovec.iov_len]);
        }
        (ptr, len, cap, self.registry_info)
    }

    /// Puts a checked-out buffer together from raw parts. It is meant for the
    /// parts that [`FixedBuf::into_raw_parts`] gave, with the written length
    /// that the kernel left.
    pub fn from_raw_parts(
        ptr: Vec<usize>,
        len: Vec<usize>,
        cap: Vec<usize>,
        user_data: RegistryInfo,
    ) -> (buf: FixedBuf)
        requires
            ptr@.len() >= 1,
            len@.len() >= 1,
            cap@.len() >= 1,
            len@[0] <= cap@[0],
        ensures
            buf@ == FixedBufView::from_raw_parts(ptr@, len@, cap@, user_data),
            buf.wf(),
    {
        let iovec = Iovec { iov_base: ptr[0], iov_len: cap[0] };
        FixedBuf { iovec, init_len: len[0], registry_info: user_data }
    }

    /// Gives the buffer back to the collection it was checked out of: its
    /// slot is free again and keeps the buffer's written length. A
    /// collection that did not lend this buffer hands it back unchanged.
    pub fn release(self, registry: &mut FixedBufRegistry) -> (r: Result<(), FixedBuf>)
        requires
            self.wf(),
            old(registry).wf(),
        ensures
            final(registry).wf(),
            final(registry).id() == old(registry).id(),
            r is Ok <==> old(registry).lent(self@),
            r is Ok ==> final(registry).slots() == checked_in(
                old(registry).slots(),
                self@.registry_info.index as int,
                self@.init_len,
            ),
            r matches Err(buf) ==> buf@ == self@ && final(registry).slots() == old(
                registry,
            ).slots(),
    {
        let index: usize = self.registry_info.index as usize;
        if self.registry_info.registry != registry.id {
            return Err(self);
        }
        match registry.inner.slot(index) {
            None => Err(self),
            Some(slot) => {
                match slot.state {
                    BufState::Free { .. } => Err(self),
                    BufState::CheckedOut => {
                        if slot.iovec.iov_base != self.iovec.iov_base || slot.iovec.iov_len
                            != self.iovec.iov_len {
                            Err(self)
                        } else {
                            registry.inner.check_in(index, self.init_len);
                            Ok(())
                        }
                    },
                }
            },
        }
    }
}

/// Taking a checked-out buffer apart and putting the parts together again
/// gives the buffer back.
pub proof fn lemma_fixed_round_trip(b: FixedBufView)
    ensures
        ({
            let (ptr, len, cap, user_data) = b.raw_parts();
            FixedBufView::from_raw_parts(ptr, len, cap, user_data)
        }) == b,
{
}

/// An indexed collection of buffers registered with the kernel.
///
/// The buffers are reached by their indices with
/// [`FixedBufRegistry::check_out`]. A buffer that is checked out is not
/// handed out a second time until it has been released.
#[derive(Debug)]
pub struct FixedBufRegistry {
    id: u64,
    inner: Registry,
}

impl FixedBufRegistry {
    /// The number of the registration that made this collection.
    pub closed spec fn id(&self) -> u64 {
        self.id
    }

    /// The table of the collection.
    pub closed spec fn slots(&self) -> Seq<Slot> {
        self.inner@
    }

    /// What holds of every collection.
    pub closed spec fn wf(&self) -> bool {
        self.inner.wf()
    }

    /// The buffer `buf` is one that this collection lent and has not got
    /// back: it names this registration, its slot is checked out, and its
    /// region is that slot's.
    pub open spec fn lent(&self, buf: FixedBufView) -> bool {
        &&& buf.registry_info.registry == self.id()
        &&& is_checked_out(self.slots(), buf.registry_info.index as int)
        &&& self.slots()[buf.registry_info.index as int].iovec == buf.iovec
    }

    /// The buffer that checking out the free slot `index` gives.
    pub open spec fn buffer_at(&self, index: int) -> FixedBufView {
        FixedBufView {
            iovec: self.slots()[index].iovec,
            init_len: self.slots()[index].state->init_len,
            registry_info: RegistryInfo { registry: self.id(), index: index as u16 },
        }
    }

    /// What [`FixedBufRegistry::wf`] says of the table.
    pub proof fn lemma_wf(&self)
        requires
            self.wf(),
        ensures
            crate::buf::fixed::plumbing::slots_wf(self.slots()),
    {
    }

    /// The collection over the table `inner`, made by registration `id`.
    pub fn new(inner: Registry, id: u64) -> (registry: FixedBufRegistry)
        requires
            inner.wf(),
        ensures
            registry.wf(),
            registry.id() == id,
            registry.slots() == inner@,
    {
        FixedBufRegistry { id, inner }
    }

    /// The number of the registration that made this collection.
    pub fn registration(&self) -> (id: u64)
        ensures
            id == self.id(),
    {
        self.id
    }

    /// The number of buffers in the collection.
    pub fn len(&self) -> (n: usize)
        ensures
            n == self.slots().len(),
    {
        self.inner.len()
    }

    /// The regions of the collection in index order, as the kernel takes
    /// them at registration.
    pub fn iovecs(&self) -> (v: Vec<Iovec>)
        ensures
            v@ == self.slots().map_values(|s: Slot| s.iovec),
    {
        self.inner.iovecs()
    }

    /// Returns the buffer at `index` for use by the application, unless
    /// there is no such buffer or it is in use already.
    ///
    /// The buffer carries its slot's region and written length. Its slot
    /// stays checked out until the buffer is given back: an operation that
    /// uses the buffer owns it while it is in flight and returns it when
    /// it has completed, so nobody shares the buffer meanwhile.
    pub fn check_out(&mut self, index: usize) -> (out: Option<Buffer>)
        requires
            old(self).wf(),
        ensures
            final(self).wf(),
            final(self).id() == old(self).id(),
            out is Some <==> is_free(old(self).slots(), index as int),
            out matches Some(buf) ==> {
                &&& buf.wf()
                &&& buf@ == BufferView::of_fixed(old(self).buffer_at(index as int))
                &&& final(self).slots() == checked_out(old(self).slots(), index as int)
                &&& final(self).lent(old(self).buffer_at(index as int))
            },
            out is None ==> final(self).slots() == old(self).slots(),
    {
        let (iovec, init_len) = match self.inner.check_out(index) {
            Some(found) => found,
            None => {
                return None;
            },
        };
        let registry_info = RegistryInfo { registry: self.id, index: index as u16 };
        let buf = FixedBuf { iovec, init_len, registry_info };
        Some(Buffer::from_fixed(buf))
    }

    /// Takes back a buffer that was checked out of this collection: its
    /// slot is free again and keeps the buffer's written length. Any other
    /// buffer is handed back unchanged.
    pub fn check_in(&mut self, buf: Buffer) -> (r: Result<(), Buffer>)
        requires
            old(self).wf(),
            buf.wf(),
        ensures
            final(self).wf(),
            final(self).id() == old(self).id(),
            r is Ok <==> buf@.is_fixed() && old(self).lent(buf@.as_fixed()),
            r is Ok ==> final(self).slots() == checked_in(
                old(self).slots(),
                buf@.as_fixed().registry_info.index as int,
                buf@.as_fixed().init_len,
            ),
            r matches Err(b) ==> b@ == buf@ && b.wf() && final(self).slots() == old(self).slots(),
    {
        match buf.into_fixed() {
            Err(buf) => Err(buf),
            Ok(fixed) => match fixed.release(self) {
                Ok(()) => Ok(()),
                Err(fixed) => {
                    let back = Buffer::from_fixed(fixed);
                    proof {
                        assert(back@.regions =~= buf@.regions);
                    }
                    Err(back)
                },
            },
        }
    }

    /// Tells whether any buffer of the collection is checked out.
    pub fn has_checked_out(&self) -> (b: bool)
        ensures
            b == crate::buf::fixed::plumbing::any_checked_out(self.slots()),
    {
        self.inner.has_checked_out()
    }
}

/// Why registering fails in the context `ctx`, if it does: there is no
/// driver bound, or the driver has a registration in force, or it has no
/// registration number left to give.
pub open spec fn register_error(ctx: Option<DriverView>) -> Option<Error> {
    match ctx {
        None => Some(Error::NoContext),
        Some(d) => if d.fixed_buffers is Some {
            Some(Error::AlreadyRegistered)
        } else if d.registrations == u64::MAX {
            Some(Error::RegistrationsExhausted)
        } else {
            None
        },
    }
}

/// Registers buffers with the driver that is bound to `ctx`, and gives the
/// collection of them.
///
/// The collection takes as many buffers from `bufs` as the kernel does in one
/// registration. Any in excess of that are silently dropped.
///
/// The registration lasts until it is revoked with [`unregister`]. Dropping
/// the collection does not revoke it.
///
/// # Errors
///
/// The call fails, and changes nothing, if no driver is bound to `ctx`, if a
/// collection of buffers is registered with that driver at the time, or if
/// the driver has no registration number left to give.
pub fn register(ctx: &mut Context, bufs: Vec<Buffer>) -> (r: Result<FixedBufRegistry, Error>)
    requires
        old(ctx).wf(),
        forall|i: int| 0 <= i < bufs@.len() ==> (#[trigger] bufs@[i]).wf(),
    ensures
        final(ctx).wf(),
        r is Ok <==> register_error(old(ctx)@) is None,
        r matches Ok(registry) ==> {
            &&& registry.wf()
            &&& registry.id() == old(ctx)@->0.registrations
            &&& registry.slots() == registered(
                bufs@.map_values(|b: Buffer| b@),
                max_buffers() as int,
            )
            &&& final(ctx)@ == Some(old(ctx)@->0.after(Event::Register))
        },
        r matches Err(e) ==> final(ctx)@ == old(ctx)@ && Some(e) == register_error(old(ctx)@),
{
    let registry_inner = Registry::new(bufs);
    match ctx.handle() {
        None => Err(Error::NoContext),
        Some(driver) => driver.register_buffers(registry_inner),
    }
}

/// How revoking the registration `registration` ends, for a collection with
/// the table `slots`, in the context `ctx`: it takes a bound driver with
/// that very registration in force, and every buffer of the collection
/// given back.
pub open spec fn unregister_outcome(ctx: Option<DriverView>, registration: u64, slots: Seq<Slot>)
    -> Result<(), Error> {
    match ctx {
        None => Err(Error::NoContext),
        Some(d) => if d.fixed_buffers != Some(registration) {
            Err(Error::NotRegistered)
        } else if any_checked_out(slots) {
            Err(Error::Busy)
        } else {
            Ok(())
        },
    }
}

/// While a buffer that was checked out of the registered collection has not
/// been given back, revoking the registration fails as busy; once the buffer
/// is back, and no other is out, it succeeds.
pub proof fn lemma_unregister_waits(
    d: DriverView,
    registration: u64,
    slots: Seq<Slot>,
    index: usize,
    init_len: usize,
)
    requires
        d.fixed_buffers == Some(registration),
        !any_checked_out(slots),
        is_free(slots, index as int),
    ensures
        unregister_outcome(Some(d), registration, checked_out(slots, index as int)) == Err::<
            (),
            Error,
        >(Error::Busy),
        unregister_outcome(
            Some(d),
            registration,
            checked_in(checked_out(slots, index as int), index as int, init_len),
        ) == Ok::<(), Error>(()),
{
    let out = checked_out(slots, index as int);
    assert(is_checked_out(out, index as int));
    let back = checked_in(out, index as int, init_len);
    assert forall|i: int| !is_checked_out(back, i) by {
        if 0 <= i < back.len() && i != index {
            assert(!is_checked_out(slots, i));
        }
    }
}

/// Whatever buffers were checked out and given back in whatever order,
/// revoking the registration in force succeeds exactly when no buffer of the
/// collection has a holder.
pub proof fn lemma_unregister_when_idle(
    d: DriverView,
    registration: u64,
    slots: Seq<Slot>,
    calls: Seq<Call>,
)
    requires
        d.fixed_buffers == Some(registration),
        slots_wf(slots),
    ensures
        unregister_outcome(Some(d), registration, after_all(slots, calls)) is Ok <==> forall|
            i: int,
        |
            0 <= i < slots.len() ==> holders(slots, calls, i) == 0,
{
    let now = after_all(slots, calls);
    lemma_one_holder(slots, calls, 0);
    if any_checked_out(now) {
        let i = choose|i: int| is_checked_out(now, i);
        lemma_one_holder(slots, calls, i);
        assert(holders(slots, calls, i) == 1);
    } else {
        assert forall|i: int| 0 <= i < slots.len() implies holders(slots, calls, i) == 0 by {
            lemma_one_holder(slots, calls, i);
            assert(!is_checked_out(now, i));
        }
    }
}

/// Revokes the registration of `registry` with the driver that is bound to
/// `ctx`.
///
/// Once this has succeeded, no operation is taken any more that uses a
/// buffer checked out of `registry`.
///
/// # Errors
///
/// The call fails, and changes nothing, if no driver is bound to `ctx`, if
/// `registry` is not the collection registered with that driver, or if any
/// buffer checked out of `registry` has not been given back.
pub fn unregister(ctx: &mut Context, registry: &FixedBufRegistry) -> (r: Result<(), Error>)
    requires
        old(ctx).wf(),
        registry.wf(),
    ensures
        final(ctx).wf(),
        r == unregister_outcome(old(ctx)@, registry.id(), registry.slots()),
        r is Ok ==> final(ctx)@ == Some(
            old(ctx)@->0.after(Event::Unregister { registration: registry.id(), busy: false }),
        ),
        r is Err ==> final(ctx)@ == old(ctx)@,
{
    match ctx.handle() {
        None => Err(Error::NoContext),
        Some(driver) => match driver.unregister_buffers(registry) {
            Ok(()) => Ok(()),
            Err(e) => Err(e),
        },
    }
}

} // verus!
