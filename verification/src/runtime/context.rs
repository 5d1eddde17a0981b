//! The context of a reactor thread: the place where its driver is bound.
use crate::error::Error;
use crate::runtime::driver::op::{Link, Op};
use crate::runtime::driver::{Driver, DriverView, Rejected, RejectedLink};
use vstd::prelude::*;

verus! {

/// The context of one reactor thread. At most one driver is bound to it at a
/// time, and what needs a driver is handed the context.
#[derive(Debug)]
pub struct Context {
    driver: Option<Driver>,
}

impl View for Context {
    type V = Option<DriverView>;

    closed spec fn view(&self) -> Option<DriverView> {
        match self.driver {
            Some(d) => Some(d@),
            None => None,
        }
    }
}

impl Context {
    /// What holds of every context: the driver that is bound, if any, is
    /// well formed.
    pub closed spec fn wf(&self) -> bool {
        self.driver matches Some(d) ==> d.wf()
    }

    /// What [`Context::wf`] says of the context as contracts see it.
    pub proof fn lemma_wf(&self)
        requires
            self.wf(),
        ensures
            self@ matches Some(d) ==> d.wf(),
    {
        if let Some(d) = self.driver {
            d.lemma_wf();
        }
    }

    /// A context with no driver bound.
    pub fn new() -> (ctx: Context)
        ensures
            ctx.wf(),
            ctx@ is None,
    {
        Context { driver: None }
    }

    /// Tells whether a driver is bound.
    pub fn is_set(&self) -> (b: bool)
        ensures
            b == (self@ is Some),
    {
        self.driver.is_some()
    }

    /// Binds `driver`, unless one is bound already: then nothing changes and
    /// `driver` is handed back.
    pub fn set_handle(&mut self, driver: Driver) -> (r: Result<(), Driver>)
        requires
            old(self).wf(),
            driver.wf(),
        ensures
            final(self).wf(),
            r is Ok <==> old(self)@ is None,
            r is Ok ==> final(self)@ == Some(driver@),
            r matches Err(d) ==> d == driver && final(self)@ == old(self)@,
    {
        if self.driver.is_some() {
            return Err(driver);
        }
        self.driver = Some(driver);
        Ok(())
    }

    /// Unbinds the driver and hands it over, if one is bound.
    pub fn unset_driver(&mut self) -> (driver: Option<Driver>)
        requires
            old(self).wf(),
        ensures
            final(self).wf(),
            final(self)@ is None,
            driver is Some <==> old(self)@ is Some,
            driver matches Some(d) ==> d.wf() && Some(d@) == old(self)@,
    {
        self.driver.take()
    }

    /// The driver that is bound, to work with.
    pub fn handle(&mut self) -> (handle: Option<&mut Driver>)
        requires
            old(self).wf(),
        ensures
            handle is Some <==> old(self)@ is Some,
            handle matches Some(d) ==> {
                &&& d.wf()
                &&& Some(d@) == old(self)@
                &&& final(self)@ == Some(final(d)@)
                &&& final(d).wf() ==> final(self).wf()
            },
            handle is None ==> final(self)@ is None && final(self).wf(),
    {
        self.driver.as_mut()
    }

    /// Submits `op` for the task `waiter` to the driver that is bound, as
    /// [`Driver::submit`] does. With no driver bound the operation is handed
    /// back at once.
    pub fn submit(&mut self, op: Op, waiter: u64) -> (r: Result<usize, Rejected>)
        requires
            old(self).wf(),
            op.wf(),
        ensures
            final(self).wf(),
            r is Ok <==> (old(self)@ matches Some(d) && d.admits(op@)),
            r matches Ok(id) ==> {
                &&& id == old(self)@->0.free_id()
                &&& final(self)@ == Some(old(self)@->0.submitted(op@, waiter, false))
            },
            r matches Err(e) ==> {
                &&& e.op == op
                &&& final(self)@ == old(self)@
                &&& e.error == if old(self)@ is None {
                    Error::NoContext
                } else {
                    Error::InvalidatedBuffer
                }
            },
    {
        match self.handle() {
            None => Err(Rejected { error: Error::NoContext, op }),
            Some(driver) => driver.submit(op, waiter),
        }
    }

    /// Submits the operations of `link` for the task `waiter` to the driver
    /// that is bound, as [`Driver::submit_linked`] does. With no driver
    /// bound the chain is handed back at once.
    pub fn submit_linked(&mut self, link: Link, waiter: u64) -> (r: Result<
        Vec<usize>,
        RejectedLink,
    >)
        requires
            old(self).wf(),
            link.wf(),
        ensures
            final(self).wf(),
            r is Ok <==> (old(self)@ matches Some(d) && d.admits_all(link@)),
            r matches Ok(ids) ==> {
                &&& ids@.len() == link@.len()
                &&& forall|i: int|
                    0 <= i < ids@.len() ==> (#[trigger] ids@[i]) as int == old(self)@->0.chain_ids(
                        link@,
                        waiter,
                    )[i]
                &&& final(self)@ == Some(old(self)@->0.submitted_chain(link@, waiter))
            },
            r matches Err(e) ==> {
                &&& e.link == link
                &&& final(self)@ == old(self)@
                &&& e.error == if old(self)@ is None {
                    Error::NoContext
                } else {
                    Error::InvalidatedBuffer
                }
            },
    {
        match self.handle() {
            None => Err(RejectedLink { error: Error::NoContext, link }),
            Some(driver) => driver.submit_linked(link, waiter),
        }
    }
}

} // verus!
