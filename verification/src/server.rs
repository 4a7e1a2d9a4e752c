//! The event loop's side of the bargain: connection identities, the events
//! the loop delivers, and the order in which queued regions become writes.
//! Sockets are not opened here. This is the part of the loop that decides
//! what is written and in which order; whoever owns the sockets carries the
//! writes out.

use crate::encoder::PacketWriteInfo;
use crate::packets::{queues_of, Broadcast};
use std::collections::VecDeque;
use vstd::prelude::*;

verus! {

/// The identity of a connection. Two of them are the same connection exactly
/// when they are equal.
#[derive(Debug, Copy, Clone, PartialEq, Eq, Hash, Structural)]
pub struct Fd(pub usize);

/// What the event loop reports.
#[derive(Debug)]
pub enum ServerEvent<'a> {
    AddPlayer { fd: Fd },
    RemovePlayer { fd: Fd },
    RecvData { fd: Fd, data: &'a [u8] },
    SentData { fd: Fd },
}

impl<'a> ServerEvent<'a> {
    /// The connection that the event is about.
    pub fn fd(&self) -> (fd: Fd)
        ensures
            fd == match *self {
                ServerEvent::AddPlayer { fd } => fd,
                ServerEvent::RemovePlayer { fd } => fd,
                ServerEvent::RecvData { fd, .. } => fd,
                ServerEvent::SentData { fd } => fd,
            },
    {
        match self {
            ServerEvent::AddPlayer { fd } => *fd,
            ServerEvent::RemovePlayer { fd } => *fd,
            ServerEvent::RecvData { fd, .. } => *fd,
            ServerEvent::SentData { fd } => *fd,
        }
    }
}

/// The queues of one connection, ready to be flushed.
pub struct RefreshItems<'a> {
    pub write: &'a Vec<VecDeque<PacketWriteInfo>>,
    pub fd: Fd,
}

/// One write to carry out: `len` bytes at offset `start_ptr` of the ring of
/// `shard`, to the connection `fd`.
#[derive(Debug, Copy, Clone, PartialEq, Eq, Structural)]
pub struct WriteOp {
    pub fd: Fd,
    pub shard: usize,
    pub start_ptr: usize,
    pub len: u32,
}

/// The writes of one shard's queue, in the queue's order.
pub open spec fn shard_writes(fd: Fd, shard: nat, queue: Seq<PacketWriteInfo>) -> Seq<WriteOp> {
    Seq::new(
        queue.len(),
        |i: int|
            WriteOp { fd, shard: shard as usize, start_ptr: queue[i].start_ptr, len: queue[i].len },
    )
}

/// The writes of all the shards of one queue: shard after shard, each in its
/// queue's order.
pub open spec fn queue_writes(fd: Fd, queues: Seq<Seq<PacketWriteInfo>>) -> Seq<WriteOp>
    decreases queues.len(),
{
    if queues.len() == 0 {
        Seq::empty()
    } else {
        queue_writes(fd, queues.drop_last()) + shard_writes(
            fd,
            (queues.len() - 1) as nat,
            queues.last(),
        )
    }
}

/// The writes of one connection: what is queued for it alone comes before
/// what is queued for everyone.
pub open spec fn connection_writes(
    fd: Fd,
    own: Seq<Seq<PacketWriteInfo>>,
    global: Seq<Seq<PacketWriteInfo>>,
) -> Seq<WriteOp> {
    queue_writes(fd, own) + queue_writes(fd, global)
}

/// The writes of a flush: connection after connection, in the order in which
/// the connections were handed over.
pub open spec fn flush_writes(writers: Seq<RefreshItems<'_>>, global: Seq<Seq<PacketWriteInfo>>) -> Seq<
    WriteOp,
>
    decreases writers.len(),
{
    if writers.len() == 0 {
        Seq::empty()
    } else {
        flush_writes(writers.drop_last(), global) + connection_writes(
            writers.last().fd,
            queues_of(*writers.last().write),
            global,
        )
    }
}

/// What the loop holds: the sizes of the registered buffers, once they are
/// registered, and the writes that were issued and not yet submitted.
pub struct ServerView {
    pub buffers: Option<Seq<usize>>,
    pub queued: Seq<WriteOp>,
}

/// The deciding half of the event loop.
pub struct Server {
    buffers: Option<Vec<usize>>,
    queued: Vec<WriteOp>,
}

impl View for Server {
    type V = ServerView;

    closed spec fn view(&self) -> ServerView {
        ServerView {
            buffers: match self.buffers {
                Some(buffers) => Some(buffers@),
                None => None,
            },
            queued: self.queued@,
        }
    }
}

impl Server {
    /// A loop with no buffers registered and nothing to submit.
    pub fn new() -> (server: Server)
        ensures
            server@ == (ServerView { buffers: None, queued: Seq::empty() }),
    {
        Server { buffers: None, queued: Vec::new() }
    }

    /// Whether the buffers have been registered.
    pub fn is_registered(&self) -> (registered: bool)
        ensures
            registered == self@.buffers is Some,
    {
        self.buffers.is_some()
    }

    /// Registers the shards' buffers, given by their sizes in shard order.
    /// This happens once, before the first flush.
    pub fn allocate_buffers(&mut self, buffers: &[usize])
        requires
            old(self)@.buffers is None,
        ensures
            final(self)@ == (ServerView { buffers: Some(buffers@), ..old(self)@ }),
    {
        let mut sizes: Vec<usize> = Vec::new();
        sizes.extend_from_slice(buffers);
        assert(sizes@ =~= buffers@);
        self.buffers = Some(sizes);
    }

    /// Issues the writes of a flush. Each connection's writes stand together,
    /// its own regions before the regions of `global`, and every queue is
    /// read front to back. The queues are left as they are: reporting the
    /// writes as sent is up to the caller.
    pub fn write_all(&mut self, global: &Broadcast, writers: Vec<RefreshItems<'_>>)
        requires
            old(self)@.buffers is Some,
        ensures
            final(self)@ == (ServerView {
                queued: old(self)@.queued + flush_writes(writers@, global@.queues),
                ..old(self)@
            }),
    {
        let mut i: usize = 0;
        while i < writers.len()
            invariant
                i <= writers@.len(),
                self@.buffers == old(self)@.buffers,
                self@.queued == old(self)@.queued + flush_writes(
                    writers@.take(i as int),
                    global@.queues,
                ),
            decreases writers@.len() - i,
        {
            let fd = writers[i].fd;
            let ghost before = self@.queued;
            self.issue(fd, writers[i].write);
            self.issue(fd, global.get_write());
            proof {
                assert(writers@.take(i + 1).drop_last() =~= writers@.take(i as int));
                assert(self@.queued =~= old(self)@.queued + flush_writes(
                    writers@.take(i + 1),
                    global@.queues,
                ));
            }
            i += 1;
        }
        assert(writers@.take(i as int) =~= writers@);
    }

    /// Issues the writes of one queue to one connection.
    fn issue(&mut self, fd: Fd, to_write: &Vec<VecDeque<PacketWriteInfo>>)
        ensures
            final(self)@ == (ServerView {
                queued: old(self)@.queued + queue_writes(fd, queues_of(*to_write)),
                ..old(self)@
            }),
    {
        let ghost queues = queues_of(*to_write);
        let mut shard: usize = 0;
        while shard < to_write.len()
            invariant
                shard <= to_write@.len(),
                queues == queues_of(*to_write),
                self@.buffers == old(self)@.buffers,
                self@.queued == old(self)@.queued + queue_writes(fd, queues.take(shard as int)),
            decreases to_write@.len() - shard,
        {
            let queue = &to_write[shard];
            let ghost before = self@.queued;
            let mut j: usize = 0;
            while j < queue.len()
                invariant
                    j <= queue@.len(),
                    self@.buffers == old(self)@.buffers,
                    self@.queued == before + shard_writes(fd, shard as nat, queue@).take(j as int),
                decreases queue@.len() - j,
            {
                let entry = queue[j];
                self.queued.push(
                    WriteOp { fd, shard, start_ptr: entry.start_ptr, len: entry.len },
                );
                proof {
                    let writes = shard_writes(fd, shard as nat, queue@);
                    assert(writes.take(j + 1) =~= writes.take(j as int).push(writes[j as int]));
                }
                j += 1;
            }
            proof {
                let writes = shard_writes(fd, shard as nat, queue@);
                assert(writes.take(j as int) =~= writes);
                assert(queues.take(shard + 1).drop_last() =~= queues.take(shard as int));
                assert(self@.queued =~= old(self)@.queued + queue_writes(
                    fd,
                    queues.take(shard + 1),
                ));
            }
            shard += 1;
        }
        assert(queues.take(shard as int) =~= queues);
    }

    /// Hands over the writes that were issued since the last call, in the
    /// order in which they were issued, for submission in one go.
    pub fn submit_events(&mut self) -> (writes: Vec<WriteOp>)
        ensures
            writes@ == old(self)@.queued,
            final(self)@ == (ServerView { queued: Seq::empty(), ..old(self)@ }),
    {
        let mut writes: Vec<WriteOp> = Vec::new();
        std::mem::swap(&mut writes, &mut self.queued);
        writes
    }
}

} // verus!
