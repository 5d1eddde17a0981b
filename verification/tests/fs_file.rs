use tokio_uring::buf::fixed::plumbing::Iovec;
use tokio_uring::buf::fixed::registry::{register, unregister, FixedBufRegistry};
use tokio_uring::buf::{Buffer, Region};
use tokio_uring::error::Error;
use tokio_uring::runtime::context::Context;
use tokio_uring::runtime::driver::op::{Direction, Lifecycle, Op, Request, SubmissionEntry};
use tokio_uring::runtime::driver::{Completion, CompletionEntry, Detached, Driver};

const HELLO: &[u8] = b"hello world...";

const READV: u8 = 1;
const WRITEV: u8 = 2;
const READ_FIXED: u8 = 4;
const WRITE_FIXED: u8 = 5;
const OPENAT: u8 = 18;

const EFAULT: i32 = 14;
const ECANCELED: i32 = 125;

/// A stand-in for the kernel and for the memory of the process. It takes
/// batches of entries, runs them when told to, and posts completions. It
/// starts chains in their order and everything else last submitted first.
struct Machine {
    memory: Vec<(usize, Vec<u8>)>,
    file: Vec<u8>,
    registered: Vec<Iovec>,
    backlog: Vec<Vec<SubmissionEntry>>,
}

impl Machine {
    fn new(file: &[u8]) -> Machine {
        Machine { memory: Vec::new(), file: file.to_vec(), registered: Vec::new(), backlog: Vec::new() }
    }

    fn reserve(&mut self, capacity: usize) -> usize {
        let base = 0x10000 * (self.memory.len() + 1);
        self.memory.push((base, vec![0; capacity]));
        base
    }

    fn free(&mut self, base: usize) {
        let at = self.memory.iter().position(|(b, _)| *b == base).expect("double free");
        self.memory[at].1 = Vec::new();
        self.memory[at].0 = 0;
    }

    fn bytes(&self, base: usize) -> &Vec<u8> {
        &self.memory.iter().find(|(b, _)| *b == base).expect("use after free").1
    }

    fn bytes_mut(&mut self, base: usize) -> &mut Vec<u8> {
        &mut self.memory.iter_mut().find(|(b, _)| *b == base).expect("use after free").1
    }

    fn owned(&mut self, capacity: usize) -> Buffer {
        let base = self.reserve(capacity);
        Buffer::new(vec![Region { base, init_len: 0, capacity }]).unwrap()
    }

    fn owned_with(&mut self, content: &[u8]) -> Buffer {
        let base = self.reserve(content.len());
        self.bytes_mut(base).copy_from_slice(content);
        Buffer::new(vec![Region { base, init_len: content.len(), capacity: content.len() }])
            .unwrap()
    }

    fn put_slice(&mut self, buf: Buffer, content: &[u8]) -> Buffer {
        let base = buf.region(0).unwrap().base;
        self.bytes_mut(base)[..content.len()].copy_from_slice(content);
        buf.fill(content.len())
    }

    fn content(&self, buf: &Buffer, index: usize) -> Vec<u8> {
        let r = buf.region(index).unwrap();
        self.bytes(r.base)[..r.init_len].to_vec()
    }

    fn release(&mut self, buf: Buffer) {
        let mut i = 0;
        while let Some(r) = buf.region(i) {
            self.free(r.base);
            i += 1;
        }
    }

    fn submit(&mut self, batch: Vec<SubmissionEntry>) {
        let mut chain: Vec<SubmissionEntry> = Vec::new();
        for entry in batch {
            let more = entry.link;
            chain.push(entry);
            if !more {
                self.backlog.push(chain);
                chain = Vec::new();
            }
        }
        if !chain.is_empty() {
            self.backlog.push(chain);
        }
    }

    fn execute(&mut self, entry: &SubmissionEntry) -> i32 {
        let fixed = entry.request.opcode == READ_FIXED || entry.request.opcode == WRITE_FIXED;
        if fixed {
            let known = match entry.buf_index {
                Some(i) => self.registered.get(i as usize).copied(),
                None => None,
            };
            match known {
                Some(iovec) if entry.addrs == vec![iovec.iov_base] => {}
                _ => return -EFAULT,
            }
        }
        let mut at = entry.request.offset as usize;
        let mut moved = 0;
        match entry.request.opcode {
            READV | READ_FIXED => {
                for (addr, len) in entry.addrs.iter().zip(entry.lens.iter()) {
                    let left = self.file.len().saturating_sub(at);
                    let n = left.min(*len);
                    let chunk = self.file[at..at + n].to_vec();
                    self.bytes_mut(*addr)[..n].copy_from_slice(&chunk);
                    at += n;
                    moved += n;
                }
                moved as i32
            }
            WRITEV | WRITE_FIXED => {
                for (addr, len) in entry.addrs.iter().zip(entry.lens.iter()) {
                    let chunk = self.bytes(*addr)[..*len].to_vec();
                    if self.file.len() < at + chunk.len() {
                        self.file.resize(at + chunk.len(), 0);
                    }
                    self.file[at..at + chunk.len()].copy_from_slice(&chunk);
                    at += chunk.len();
                    moved += chunk.len();
                }
                moved as i32
            }
            _ => 0,
        }
    }

    fn run(&mut self) -> Vec<CompletionEntry> {
        let mut posted = Vec::new();
        let mut backlog = Vec::new();
        std::mem::swap(&mut backlog, &mut self.backlog);
        for chain in backlog.into_iter().rev() {
            let mut broken = false;
            for entry in chain.iter() {
                let result = if broken { -ECANCELED } else { self.execute(entry) };
                if result < 0 {
                    broken = true;
                }
                posted.push(CompletionEntry { user_data: entry.user_data, result });
            }
        }
        posted
    }
}

fn op(opcode: u8, direction: Direction, buf: Buffer, offset: u64) -> Op {
    Op::new(Request { opcode, fd: 3, offset }, direction, Some(buf))
}

/// One turn of the reactor: what is queued goes to the kernel, what the
/// kernel posts comes in, and buffers that nobody waits for are released.
fn turn(driver: &mut Driver, machine: &mut Machine) -> Vec<u64> {
    machine.submit(driver.flush());
    let posted = machine.run();
    let out = driver.drain(&posted);
    for buf in out.dropped {
        machine.release(buf);
    }
    out.woken
}

/// Submits an operation and waits for it.
fn run_to_end(driver: &mut Driver, machine: &mut Machine, op: Op) -> (i32, Buffer) {
    let task = 1;
    let id = driver.submit(op, task).unwrap();
    assert!(driver.take(id).is_none());
    let woken = turn(driver, machine);
    assert!(woken.contains(&task));
    let (result, buffer) = driver.take(id).unwrap();
    (result, buffer.unwrap())
}

fn read_hello(driver: &mut Driver, machine: &mut Machine) {
    let buf = machine.owned(1024);
    let (n, buf) = run_to_end(driver, machine, op(READV, Direction::IntoBuffer, buf, 0));
    assert_eq!(n as usize, HELLO.len());
    assert_eq!(machine.content(&buf, 0), HELLO);
    machine.release(buf);
}

fn fixed_buffers(
    ctx: &mut Context,
    machine: &mut Machine,
    capacities: &[usize],
) -> FixedBufRegistry {
    let bufs: Vec<Buffer> = capacities.iter().map(|c| machine.owned(*c)).collect();
    let registry = register(ctx, bufs).unwrap();
    machine.registered = registry.iovecs();
    registry
}

#[test]
fn basic_read() {
    let mut driver = Driver::new();
    let mut machine = Machine::new(HELLO);
    read_hello(&mut driver, &mut machine);
}

#[test]
fn basic_write() {
    let mut driver = Driver::new();
    let mut machine = Machine::new(b"");
    let buf = machine.owned_with(HELLO);
    let (n, _) = run_to_end(&mut driver, &mut machine, op(WRITEV, Direction::FromBuffer, buf, 0));
    assert_eq!(n as usize, HELLO.len());
    assert_eq!(machine.file, HELLO);
}

#[test]
fn vectored_read() {
    let mut driver = Driver::new();
    let mut machine = Machine::new(HELLO);
    let first = machine.reserve(5);
    let second = machine.reserve(9);
    let bufs = Buffer::new(vec![
        Region { base: first, init_len: 0, capacity: 5 },
        Region { base: second, init_len: 0, capacity: 9 },
    ])
    .unwrap();
    let (n, bufs) =
        run_to_end(&mut driver, &mut machine, op(READV, Direction::IntoBuffer, bufs, 0));
    assert_eq!(n as usize, HELLO.len());
    assert_eq!(machine.content(&bufs, 1)[0], b' ');
    assert_eq!(machine.content(&bufs, 0), b"hello");
    assert_eq!(machine.content(&bufs, 1), b" world...");
}

#[test]
fn vectored_write() {
    let mut driver = Driver::new();
    let mut machine = Machine::new(b"");
    let buf1 = "hello".to_owned().into_bytes();
    let buf2 = " world...".to_owned().into_bytes();
    let first = machine.reserve(buf1.len());
    let second = machine.reserve(buf2.len());
    machine.bytes_mut(first).copy_from_slice(&buf1);
    machine.bytes_mut(second).copy_from_slice(&buf2);
    let bufs = Buffer::new(vec![
        Region { base: first, init_len: buf1.len(), capacity: buf1.len() },
        Region { base: second, init_len: buf2.len(), capacity: buf2.len() },
    ])
    .unwrap();
    run_to_end(&mut driver, &mut machine, op(WRITEV, Direction::FromBuffer, bufs, 0));
    assert_eq!(machine.file, HELLO);
}

#[test]
fn cancel_read() {
    let mut driver = Driver::new();
    let mut machine = Machine::new(HELLO);

    // The read is started and its task goes away before the kernel has run.
    let buf = machine.owned(1024);
    let base = buf.region(0).unwrap().base;
    let id = driver.submit(op(READV, Direction::IntoBuffer, buf, 0), 1).unwrap();
    machine.submit(driver.flush());
    assert_eq!(driver.detach(id), Detached::Pending);
    assert_eq!(driver.lifecycle(id), Some(Lifecycle::CancelledPendingCompletion));
    assert_eq!(machine.bytes(base).len(), 1024);

    // The kernel stores into the first buffer while the second read runs.
    read_hello(&mut driver, &mut machine);
    assert_eq!(driver.lifecycle(id), None);
    assert_eq!(machine.memory[0].0, 0);
}

#[test]
fn drop_open() {
    let mut driver = Driver::new();
    let mut machine = Machine::new(b"");
    let dropped = Op::new(Request { opcode: OPENAT, fd: -100, offset: 0 }, Direction::FromBuffer, None);
    assert_eq!(dropped.lifecycle(), Lifecycle::Created);
    drop(dropped);

    let opened = Op::new(Request { opcode: OPENAT, fd: -100, offset: 0 }, Direction::FromBuffer, None);
    let id = driver.submit(opened, 1).unwrap();
    assert_eq!(driver.detach(id), Detached::Pending);

    let buf = machine.owned_with(HELLO);
    run_to_end(&mut driver, &mut machine, op(WRITEV, Direction::FromBuffer, buf, 0));
    assert_eq!(driver.lifecycle(id), None);
    assert_eq!(machine.file, HELLO);
}

#[test]
fn read_fixed() {
    let mut ctx = Context::new();
    assert!(ctx.set_handle(Driver::new()).is_ok());
    let mut machine = Machine::new(HELLO);
    let mut buffers = fixed_buffers(&mut ctx, &mut machine, &[6, 1024]);
    let driver = ctx.handle().unwrap();

    let fixed_buf = buffers.check_out(0).unwrap();
    assert_eq!(fixed_buf.region(0).unwrap().capacity, 6);
    let (n, buf) =
        run_to_end(driver, &mut machine, op(READ_FIXED, Direction::IntoBuffer, fixed_buf, 0));

    assert_eq!(n, 6);
    assert_eq!(machine.content(&buf, 0), &HELLO[..6]);

    let fixed_buf = buffers.check_out(1).unwrap();
    assert_eq!(fixed_buf.region(0).unwrap().capacity, 1024);
    let (n, buf) =
        run_to_end(driver, &mut machine, op(READ_FIXED, Direction::IntoBuffer, fixed_buf, 6));

    assert_eq!(n as usize, HELLO.len() - 6);
    assert_eq!(machine.content(&buf, 0), &HELLO[6..]);
}

#[test]
fn write_fixed() {
    let mut ctx = Context::new();
    assert!(ctx.set_handle(Driver::new()).is_ok());
    let mut machine = Machine::new(b"");
    let mut buffers = fixed_buffers(&mut ctx, &mut machine, &[6, 1024]);
    let driver = ctx.handle().unwrap();

    let fixed_buf = buffers.check_out(0).unwrap();
    let buf = machine.put_slice(fixed_buf, &HELLO[..6]);

    let (n, _) = run_to_end(driver, &mut machine, op(WRITE_FIXED, Direction::FromBuffer, buf, 0));
    assert_eq!(n, 6);

    let fixed_buf = buffers.check_out(1).unwrap();
    let buf = machine.put_slice(fixed_buf, &HELLO[6..]);

    let (n, _) = run_to_end(driver, &mut machine, op(WRITE_FIXED, Direction::FromBuffer, buf, 6));
    assert_eq!(n as usize, HELLO.len() - 6);

    assert_eq!(machine.file, HELLO);
}

#[test]
fn write_linked() {
    let mut driver = Driver::new();
    let mut machine = Machine::new(b"");

    let write1 = op(WRITEV, Direction::FromBuffer, machine.owned_with(HELLO), 0);
    let write2 = op(WRITEV, Direction::FromBuffer, machine.owned_with(HELLO), HELLO.len() as u64);

    let ids = driver.submit_linked(write1.link(write2), 1).unwrap();
    turn(&mut driver, &mut machine);

    let (res1, _) = driver.take(ids[0]).unwrap();
    let (res2, _) = driver.take(ids[1]).unwrap();

    assert!(res1 >= 0);
    assert!(res2 >= 0);

    assert_eq!(machine.file, [HELLO, HELLO].concat());
}

#[test]
fn linked_writes_keep_their_order_among_others() {
    let mut driver = Driver::new();
    let mut machine = Machine::new(b"");

    // Two writes to the same place: the one the kernel starts last wins.
    let early = op(WRITEV, Direction::FromBuffer, machine.owned_with(b"aaaa"), 0);
    let late = op(WRITEV, Direction::FromBuffer, machine.owned_with(b"bbbb"), 0);
    driver.submit_linked(early.link(late), 1).unwrap();
    turn(&mut driver, &mut machine);
    assert_eq!(machine.file, b"bbbb");

    // Without the chain this kernel starts the later submission first.
    let early = op(WRITEV, Direction::FromBuffer, machine.owned_with(b"cccc"), 0);
    let late = op(WRITEV, Direction::FromBuffer, machine.owned_with(b"dddd"), 0);
    driver.submit(early, 1).unwrap();
    driver.submit(late, 1).unwrap();
    turn(&mut driver, &mut machine);
    assert_eq!(machine.file, b"cccc");
}

#[test]
fn a_fixed_slot_is_free_again_after_its_read() {
    let mut ctx = Context::new();
    assert!(ctx.set_handle(Driver::new()).is_ok());
    let mut machine = Machine::new(HELLO);
    let mut buffers = fixed_buffers(&mut ctx, &mut machine, &[6, 1024]);

    let fixed_buf = buffers.check_out(0).unwrap();
    let driver = ctx.handle().unwrap();
    let (n, buf) =
        run_to_end(driver, &mut machine, op(READ_FIXED, Direction::IntoBuffer, fixed_buf, 0));
    assert_eq!(n, 6);
    assert!(buffers.check_out(0).is_none());
    assert!(buffers.check_in(buf).is_ok());

    let again = buffers.check_out(0).unwrap();
    assert_eq!(again.region(0).unwrap().init_len, 6);
    assert_eq!(machine.content(&again, 0), &HELLO[..6]);
}

#[test]
fn unregister_waits_for_a_cancelled_read() {
    let mut ctx = Context::new();
    assert!(ctx.set_handle(Driver::new()).is_ok());
    let mut machine = Machine::new(HELLO);
    let mut buffers = fixed_buffers(&mut ctx, &mut machine, &[6, 1024]);

    let fixed_buf = buffers.check_out(1).unwrap();
    let driver = ctx.handle().unwrap();
    let id = driver.submit(op(READ_FIXED, Direction::IntoBuffer, fixed_buf, 0), 1).unwrap();
    machine.submit(driver.flush());
    assert_eq!(driver.detach(id), Detached::Pending);
    assert_eq!(unregister(&mut ctx, &buffers), Err(Error::Busy));

    let posted = machine.run();
    assert_eq!(posted.len(), 1);
    assert_eq!(unregister(&mut ctx, &buffers), Err(Error::Busy));
    let driver = ctx.handle().unwrap();
    let released = match driver.complete(posted[0].user_data, posted[0].result) {
        Completion::Dropped(Some(buf)) => buf,
        other => panic!("the buffer was not handed over: {:?}", other),
    };
    assert_eq!(released.region(0).unwrap().init_len, HELLO.len());
    assert_eq!(unregister(&mut ctx, &buffers), Err(Error::Busy));
    assert!(buffers.check_in(released).is_ok());
    assert_eq!(unregister(&mut ctx, &buffers), Ok(()));

    let again = buffers.check_out(1).unwrap();
    assert_eq!(again.region(0).unwrap().init_len, HELLO.len());
}
