//! The outbound queue of one target: per shard an ordered list of regions
//! that wait to be written, and one count of the writes that are in flight.

use crate::buf::{Compose, IoBuf, IoBufView};
use crate::encoder::{
    append_packet_without_compression, compresses, deflated_result, frame_region, plain_result,
    uncompressed_result, written, EncodeError, PacketWriteInfo,
};
use crate::ring::RingView;
use std::collections::VecDeque;
use vstd::prelude::*;

verus! {

/// Whether a region that starts where `last` ends is merged into `last`. The
/// merged length has to fit the length field.
pub open spec fn coalesces(last: PacketWriteInfo, writer: PacketWriteInfo) -> bool {
    last.end() == writer.start_ptr && last.len + writer.len <= u32::MAX
}

/// `last` grown by the region that follows it.
pub open spec fn merged(last: PacketWriteInfo, writer: PacketWriteInfo) -> PacketWriteInfo {
    PacketWriteInfo { start_ptr: last.start_ptr, len: (last.len + writer.len) as u32 }
}

/// A shard's queue after `writer` has been pushed: the last entry grows where
/// the new region continues it, otherwise the region becomes a new entry.
pub open spec fn pushed(queue: Seq<PacketWriteInfo>, writer: PacketWriteInfo) -> Seq<
    PacketWriteInfo,
> {
    if queue.len() > 0 && coalesces(queue.last(), writer) {
        queue.drop_last().push(merged(queue.last(), writer))
    } else {
        queue.push(writer)
    }
}

/// The number of entries in all the queues together.
pub open spec fn total_entries(queues: Seq<Seq<PacketWriteInfo>>) -> nat
    decreases queues.len(),
{
    if queues.len() == 0 {
        0
    } else {
        total_entries(queues.drop_last()) + queues.last().len()
    }
}

/// The entries of the first shards are no more than the entries of all.
pub proof fn lemma_total_entries_prefix(queues: Seq<Seq<PacketWriteInfo>>, n: int)
    requires
        0 <= n <= queues.len(),
    ensures
        total_entries(queues.take(n)) <= total_entries(queues),
        n < queues.len() ==> total_entries(queues.take(n + 1)) == total_entries(queues.take(n))
            + queues[n].len(),
    decreases queues.len(),
{
    if n == queues.len() {
        assert(queues.take(n) =~= queues);
    } else {
        assert(queues.drop_last().take(n) =~= queues.take(n));
        lemma_total_entries_prefix(queues.drop_last(), n);
        assert(queues.take(n + 1).drop_last() =~= queues.take(n));
    }
}

/// What a queue holds: the entries of each shard in the order in which they
/// are sent, and the number of writes in flight.
pub struct PacketsView {
    pub queues: Seq<Seq<PacketWriteInfo>>,
    pub number_sending: nat,
}

impl PacketsView {
    /// The number of shards that the queue has a list for.
    pub open spec fn shards(self) -> nat {
        self.queues.len()
    }

    /// A queue with `shards` empty shards and nothing in flight.
    pub open spec fn fresh(shards: nat) -> PacketsView {
        PacketsView {
            queues: Seq::new(shards, |i: int| Seq::<PacketWriteInfo>::empty()),
            number_sending: 0,
        }
    }

    /// Whether any shard has an entry.
    pub open spec fn has_pending(self) -> bool {
        exists|i: int| 0 <= i < self.queues.len() && #[trigger] self.queues[i].len() > 0
    }

    /// Whether a batch may be prepared: nothing is in flight and something
    /// waits.
    pub open spec fn can_send(self) -> bool {
        self.number_sending == 0 && self.has_pending()
    }

    /// The queue after `writer` has been pushed to `shard`.
    pub open spec fn push(self, shard: nat, writer: PacketWriteInfo) -> PacketsView {
        PacketsView {
            queues: self.queues.update(shard as int, pushed(self.queues[shard as int], writer)),
            ..self
        }
    }

    /// The queue after a batch has been prepared: every entry is in flight.
    pub open spec fn prepare_for_send(self) -> PacketsView {
        PacketsView { number_sending: total_entries(self.queues), ..self }
    }

    /// The queue after `count` writes have been reported as done.
    pub open spec fn sent(self, count: nat) -> PacketsView {
        PacketsView { number_sending: (self.number_sending - count) as nat, ..self }
    }

    /// The queue with every shard emptied.
    pub open spec fn clear(self) -> PacketsView {
        PacketsView {
            queues: Seq::new(self.queues.len(), |i: int| Seq::<PacketWriteInfo>::empty()),
            ..self
        }
    }

    /// The queue with the entries of `other` behind its own, shard for shard.
    /// Shards that `other` does not have stay as they are.
    pub open spec fn extend(self, other: PacketsView) -> PacketsView {
        PacketsView {
            queues: Seq::new(
                self.queues.len(),
                |i: int|
                    if i < other.queues.len() {
                        self.queues[i] + other.queues[i]
                    } else {
                        self.queues[i]
                    },
            ),
            ..self
        }
    }
}

/// The entries of each shard of a list of queues.
pub open spec fn queues_of(to_write: Vec<VecDeque<PacketWriteInfo>>) -> Seq<Seq<PacketWriteInfo>> {
    Seq::new(to_write@.len(), |i: int| to_write@[i]@)
}

/// A queue and a buffer after `data` has been appended raw: the ring holds
/// the bytes, and the queue of the buffer's shard has their region.
pub open spec fn raw_appended(packets: PacketsView, buf: IoBufView, data: Seq<u8>) -> (
    PacketsView,
    IoBufView,
) {
    (
        packets.push(buf.index, frame_region(buf.ring, data)),
        IoBufView { ring: buf.ring.append(data), ..buf },
    )
}

/// Whether a call that framed a packet for `shard` did what `expected` says.
/// Where a frame was written, the ring holds it and the shard's queue has its
/// region. Where the packet was refused, the call returned the error and left
/// the ring and the queue as they were.
pub open spec fn queued(
    before: PacketsView,
    after: PacketsView,
    ring_before: RingView,
    ring_after: RingView,
    shard: nat,
    result: Result<(), EncodeError>,
    expected: Result<(RingView, PacketWriteInfo), EncodeError>,
) -> bool {
    match expected {
        Ok((ring, info)) => {
            &&& result is Ok
            &&& ring_after == ring
            &&& after == before.push(shard, info)
        },
        Err(error) => {
            &&& result == Err::<(), EncodeError>(error)
            &&& ring_after == ring_before
            &&& after == before
        },
    }
}

/// Whether a call that framed `pkt` with the buffer and the scratch buffer of
/// `shard` left queue, buffers and scratch buffers as it should.
///
/// Only the ring and the scratch buffer of `shard` may have changed. A packet
/// that is not compressed leaves the scratch buffers alone and is framed as
/// `uncompressed_result` says. A packet that is compressed is either refused
/// because the compressor failed, or framed from the stream that the
/// compressor left in the shard's scratch buffer.
pub open spec fn appended(
    before: PacketsView,
    after: PacketsView,
    bufs_before: Seq<IoBufView>,
    bufs_after: Seq<IoBufView>,
    scratch_before: Seq<Seq<u8>>,
    scratch_after: Seq<Seq<u8>>,
    shard: int,
    pkt: Seq<u8>,
    result: Result<(), EncodeError>,
) -> bool {
    let buf = bufs_before[shard];
    let ring = bufs_after[shard].ring;
    let stream = scratch_after[shard];
    &&& bufs_after == bufs_before.update(shard, IoBufView { ring, ..buf })
    &&& scratch_after == scratch_before.update(shard, stream)
    &&& if compresses(buf.threshold, pkt.len()) {
        ||| queued(
            before,
            after,
            buf.ring,
            ring,
            buf.index,
            result,
            Err(EncodeError::CompressionFailed),
        )
        ||| stream.len() > 0 && queued(
            before,
            after,
            buf.ring,
            ring,
            buf.index,
            result,
            written(buf.ring, deflated_result(pkt.len(), stream)),
        )
    } else {
        &&& stream == scratch_before[shard]
        &&& queued(
            before,
            after,
            buf.ring,
            ring,
            buf.index,
            result,
            written(buf.ring, uncompressed_result(buf.threshold, pkt)),
        )
    }
}

/// The regions that wait to be written to one target.
pub struct Packets {
    to_write: Vec<VecDeque<PacketWriteInfo>>,
    number_sending: usize,
}

impl View for Packets {
    type V = PacketsView;

    closed spec fn view(&self) -> PacketsView {
        PacketsView {
            queues: queues_of(self.to_write),
            number_sending: self.number_sending as nat,
        }
    }
}

impl Packets {
    /// A queue for `shards` shards with nothing in it.
    pub fn new(shards: usize) -> (packets: Packets)
        ensures
            packets@ == PacketsView::fresh(shards as nat),
    {
        let mut to_write: Vec<VecDeque<PacketWriteInfo>> = Vec::new();
        let mut i: usize = 0;
        while i < shards
            invariant
                i <= shards,
                to_write@.len() == i,
                forall|k: int| 0 <= k < i ==> (#[trigger] to_write@[k])@ == Seq::<
                    PacketWriteInfo,
                >::empty(),
            decreases shards - i,
        {
            to_write.push(VecDeque::new());
            i += 1;
        }
        assert(queues_of(to_write) =~= PacketsView::fresh(shards as nat).queues);
        Packets { to_write, number_sending: 0 }
    }

    /// The number of writes in flight.
    pub fn number_sending(&self) -> (count: usize)
        ensures
            count == self@.number_sending,
    {
        self.number_sending
    }

    /// The queues, shard by shard.
    pub fn get_write(&self) -> (to_write: &Vec<VecDeque<PacketWriteInfo>>)
        ensures
            queues_of(*to_write) == self@.queues,
    {
        &self.to_write
    }

    /// The queues, shard by shard, to be changed in place.
    pub fn get_write_mut(&mut self) -> (to_write: &mut Vec<VecDeque<PacketWriteInfo>>)
        ensures
            queues_of(*to_write) == old(self)@.queues,
            final(self)@ == (PacketsView { queues: queues_of(*final(to_write)), ..old(self)@ }),
    {
        &mut self.to_write
    }

    /// Whether a batch may be prepared now.
    pub fn can_send(&self) -> (ready: bool)
        ensures
            ready == self@.can_send(),
    {
        if self.number_sending != 0 {
            return false;
        }
        let mut i: usize = 0;
        while i < self.to_write.len()
            invariant
                i <= self.to_write@.len(),
                self.number_sending == 0,
                forall|k: int| 0 <= k < i ==> (#[trigger] self.to_write@[k])@.len() == 0,
            decreases self.to_write@.len() - i,
        {
            if self.to_write[i].len() != 0 {
                assert(self@.queues[i as int].len() > 0);
                return true;
            }
            i += 1;
        }
        false
    }

    /// Reports `d_count` writes of the batch in flight as done.
    pub fn set_successfully_sent(&mut self, d_count: usize)
        requires
            old(self)@.number_sending > 0,
            d_count <= old(self)@.number_sending,
        ensures
            final(self)@ == old(self)@.sent(d_count as nat),
    {
        self.number_sending = self.number_sending - d_count;
    }

    /// Puts every queued entry in flight and returns how many there are. No
    /// batch may be in flight already, and the count has to fit its type.
    pub fn prepare_for_send(&mut self) -> (count: usize)
        requires
            old(self)@.number_sending == 0,
            total_entries(old(self)@.queues) <= usize::MAX,
        ensures
            count == total_entries(old(self)@.queues),
            final(self)@ == old(self)@.prepare_for_send(),
    {
        let ghost queues = queues_of(self.to_write);
        let mut count: usize = 0;
        let mut i: usize = 0;
        while i < self.to_write.len()
            invariant
                i <= self.to_write@.len(),
                queues == queues_of(self.to_write),
                total_entries(queues) <= usize::MAX,
                count == total_entries(queues.take(i as int)),
            decreases self.to_write@.len() - i,
        {
            proof {
                lemma_total_entries_prefix(queues, i as int);
                lemma_total_entries_prefix(queues, i + 1);
            }
            count += self.to_write[i].len();
            i += 1;
        }
        assert(queues.take(i as int) =~= queues);
        self.number_sending = count;
        count
    }

    /// The number of queued entries, where it fits its type.
    fn count_entries(&self) -> (count: Option<usize>)
        ensures
            match count {
                Some(n) => n == total_entries(self@.queues),
                None => total_entries(self@.queues) > usize::MAX,
            },
    {
        let ghost queues = queues_of(self.to_write);
        let mut count: usize = 0;
        let mut i: usize = 0;
        while i < self.to_write.len()
            invariant
                i <= self.to_write@.len(),
                queues == queues_of(self.to_write),
                count == total_entries(queues.take(i as int)),
            decreases self.to_write@.len() - i,
        {
            proof {
                lemma_total_entries_prefix(queues, i as int);
                lemma_total_entries_prefix(queues, i + 1);
            }
            match count.checked_add(self.to_write[i].len()) {
                Some(sum) => {
                    count = sum;
                },
                None => {
                    return None;
                },
            }
            i += 1;
        }
        assert(queues.take(i as int) =~= queues);
        Some(count)
    }

    /// Prepares a batch where one may be prepared, and says so where not:
    /// while a batch is in flight, or where the entries are more than can be
    /// counted, nothing changes and `None` comes back.
    pub fn try_prepare_for_send(&mut self) -> (count: Option<usize>)
        ensures
            match count {
                Some(n) => {
                    &&& old(self)@.number_sending == 0
                    &&& n == total_entries(old(self)@.queues)
                    &&& final(self)@ == old(self)@.prepare_for_send()
                },
                None => {
                    &&& old(self)@.number_sending != 0 || total_entries(old(self)@.queues)
                        > usize::MAX
                    &&& final(self)@ == old(self)@
                },
            },
    {
        if self.number_sending != 0 {
            return None;
        }
        match self.count_entries() {
            Some(_) => Some(self.prepare_for_send()),
            None => None,
        }
    }

    /// Reports `d_count` finished writes where that many are in flight, and
    /// says so where not: with nothing in flight, or fewer than `d_count`,
    /// nothing changes and `false` comes back.
    pub fn try_set_successfully_sent(&mut self, d_count: usize) -> (done: bool)
        ensures
            done == (old(self)@.number_sending > 0 && d_count <= old(self)@.number_sending),
            done ==> final(self)@ == old(self)@.sent(d_count as nat),
            !done ==> final(self)@ == old(self)@,
    {
        if self.number_sending == 0 || d_count > self.number_sending {
            return false;
        }
        self.set_successfully_sent(d_count);
        true
    }

    /// Puts the entries of `other` behind this queue's own, shard for shard
    /// and in their order. Entries are not merged on the way.
    pub fn extend(&mut self, other: &Packets)
        ensures
            final(self)@ == old(self)@.extend(other@),
    {
        let shards = if self.to_write.len() < other.to_write.len() {
            self.to_write.len()
        } else {
            other.to_write.len()
        };
        let mut i: usize = 0;
        while i < shards
            invariant
                i <= shards,
                shards <= other.to_write@.len(),
                shards <= self.to_write@.len(),
                self.to_write@.len() == old(self).to_write@.len(),
                self.number_sending == old(self).number_sending,
                forall|k: int|
                    0 <= k < i ==> (#[trigger] self.to_write@[k])@ == old(self).to_write@[k]@
                        + other.to_write@[k]@,
                forall|k: int|
                    i <= k < self.to_write@.len() ==> (#[trigger] self.to_write@[k])@ == old(
                        self,
                    ).to_write@[k]@,
            decreases shards - i,
        {
            let from = &other.to_write[i];
            let mut j: usize = 0;
            while j < from.len()
                invariant
                    j <= from@.len(),
                    i < shards,
                    shards <= self.to_write@.len(),
                    from@ == other.to_write@[i as int]@,
                    self.to_write@.len() == old(self).to_write@.len(),
                    self.number_sending == old(self).number_sending,
                    self.to_write@[i as int]@ == old(self).to_write@[i as int]@ + from@.take(
                        j as int,
                    ),
                    forall|k: int|
                        0 <= k < i ==> (#[trigger] self.to_write@[k])@ == old(self).to_write@[k]@
                            + other.to_write@[k]@,
                    forall|k: int|
                        i < k < self.to_write@.len() ==> (#[trigger] self.to_write@[k])@ == old(
                            self,
                        ).to_write@[k]@,
                decreases from@.len() - j,
            {
                let entry = from[j];
                self.to_write[i].push_back(entry);
                assert(from@.take(j + 1) =~= from@.take(j as int).push(entry));
                j += 1;
            }
            assert(from@.take(j as int) =~= from@);
            i += 1;
        }
        assert(queues_of(self.to_write) =~= old(self)@.extend(other@).queues);
    }

    /// Empties every shard's queue. What is in flight stays in flight.
    pub fn clear(&mut self)
        ensures
            final(self)@ == old(self)@.clear(),
    {
        let mut i: usize = 0;
        while i < self.to_write.len()
            invariant
                i <= self.to_write@.len(),
                self.to_write@.len() == old(self).to_write@.len(),
                self.number_sending == old(self).number_sending,
                forall|k: int| 0 <= k < i ==> (#[trigger] self.to_write@[k])@ == Seq::<
                    PacketWriteInfo,
                >::empty(),
            decreases self.to_write@.len() - i,
        {
            self.to_write[i].clear();
            i += 1;
        }
        assert(queues_of(self.to_write) =~= old(self)@.clear().queues);
    }

    /// Queues a region for the shard of `buf`. A region that starts where the
    /// shard's last entry ends is merged into that entry.
    pub fn push(&mut self, writer: PacketWriteInfo, buf: &IoBuf)
        requires
            buf@.index < old(self)@.shards(),
        ensures
            final(self)@ == old(self)@.push(buf@.index, writer),
    {
        let idx = buf.index();
        let ghost before = self.to_write@[idx as int]@;
        let queue = &mut self.to_write[idx];
        match queue.pop_back() {
            Some(last) => {
                let contiguous = match last.start_ptr.checked_add(last.len as usize) {
                    Some(end) => end == writer.start_ptr,
                    None => false,
                };
                match last.len.checked_add(writer.len) {
                    Some(len) if contiguous => {
                        queue.push_back(PacketWriteInfo { start_ptr: last.start_ptr, len });
                    },
                    _ => {
                        queue.push_back(last);
                        queue.push_back(writer);
                    },
                }
            },
            None => {
                queue.push_back(writer);
            },
        }
        assert(self.to_write@[idx as int]@ =~= pushed(before, writer));
        assert(queues_of(self.to_write) =~= old(self)@.push(buf@.index, writer).queues);
    }
}

/// The queue of what goes to every connection. It is a queue like any other,
/// set apart by its type so that it cannot be taken for a connection's own.
pub struct Broadcast(pub Packets);

impl View for Broadcast {
    type V = PacketsView;

    closed spec fn view(&self) -> PacketsView {
        self.0@
    }
}

impl Broadcast {
    /// The queues, shard by shard.
    pub fn get_write(&self) -> (to_write: &Vec<VecDeque<PacketWriteInfo>>)
        ensures
            queues_of(*to_write) == self@.queues,
    {
        self.0.get_write()
    }
}

impl From<Packets> for Broadcast {
    fn from(packets: Packets) -> (broadcast: Broadcast)
        ensures
            broadcast@ == packets@,
    {
        Broadcast(packets)
    }
}

impl vstd::std_specs::convert::FromSpecImpl<Packets> for Broadcast {
    open spec fn obeys_from_spec() -> bool {
        true
    }

    open spec fn from_spec(packets: Packets) -> Broadcast {
        Broadcast(packets)
    }
}

impl std::ops::Deref for Broadcast {
    type Target = Packets;

    fn deref(&self) -> (packets: &Packets)
        ensures
            packets@ == self@,
    {
        &self.0
    }
}

impl std::ops::DerefMut for Broadcast {
    fn deref_mut(&mut self) -> (packets: &mut Packets)
        ensures
            packets@ == old(self)@,
            final(self)@ == final(packets)@,
    {
        &mut self.0
    }
}

impl Packets {
    /// Copies `data` into the ring of `buf` as it is, with no frame around
    /// it, and queues the region for the shard of `buf`.
    pub fn append_raw(&mut self, data: &[u8], buf: &mut IoBuf)
        requires
            old(buf)@.index < old(self)@.shards(),
            data@.len() <= old(buf)@.ring.capacity(),
            data@.len() <= u32::MAX,
        ensures
            (final(self)@, final(buf)@) == raw_appended(old(self)@, old(buf)@, data@),
    {
        let start_ptr = buf.buf_mut().append(data);
        let writer = PacketWriteInfo { start_ptr, len: data.len() as u32 };
        self.push(writer, buf);
    }

    /// Frames `pkt` without compression, whatever the threshold of `buf` is,
    /// and queues the frame for the shard of `buf`. The threshold is switched
    /// off for the call and is back in force when the call returns, also when
    /// the packet is refused. A refused packet leaves the ring and the queue
    /// as they were.
    ///
    /// `pkt` is the packet as it goes on the wire: its id, then its body.
    pub fn append_pre_compression_packet(&mut self, pkt: &[u8], buf: &mut IoBuf) -> (result: Result<
        (),
        EncodeError,
    >)
        requires
            old(buf)@.index < old(self)@.shards(),
        ensures
            final(buf)@.threshold == old(buf)@.threshold,
            final(buf)@.index == old(buf)@.index,
            queued(
                old(self)@,
                final(self)@,
                old(buf)@.ring,
                final(buf)@.ring,
                old(buf)@.index,
                result,
                written(old(buf)@.ring, plain_result(pkt@)),
            ),
    {
        let compression = buf.enc().compression_threshold();
        buf.enc_mut().set_compression(None);
        let result = append_packet_without_compression(pkt, buf.buf_mut());
        buf.enc_mut().set_compression(compression);
        match result {
            Ok(info) => {
                self.push(info, buf);
                Ok(())
            },
            Err(error) => Err(error),
        }
    }

    /// Frames `pkt` under the threshold of the buffer of `shard`, compressed
    /// where the threshold asks for it, and queues the frame for that
    /// buffer's shard. Buffer, compressor and scratch buffer are those of
    /// `shard`, and nothing of another shard is touched. A refused packet
    /// leaves the ring and the queue as they were.
    ///
    /// A packet that is compressed leaves the compressor's stream in the
    /// shard's scratch buffer, and the frame is built from that stream,
    /// whatever the compressor made of the packet.
    ///
    /// `pkt` is the packet as it goes on the wire: its id, then its body.
    pub fn append(&mut self, pkt: &[u8], compose: &mut Compose, shard: usize) -> (result: Result<
        (),
        EncodeError,
    >)
        requires
            shard < old(compose).bufs@.len(),
            shard < old(compose).compressor.shards(),
            shard < old(compose).scratch@.len(),
            old(compose).bufs@[shard as int].index < old(self)@.shards(),
        ensures
            final(compose).compressor@ == old(compose).compressor@.update(
                shard as int,
                final(compose).compressor@[shard as int],
            ),
            appended(
                old(self)@,
                final(self)@,
                old(compose).bufs@,
                final(compose).bufs@,
                old(compose).scratch@,
                final(compose).scratch@,
                shard as int,
                pkt@,
                result,
            ),
    {
        let buf = compose.bufs.get_mut(shard);
        let scratch = compose.scratch.get_mut(shard);
        let compressor = compose.compressor.get_mut(shard);
        let result = buf.append_packet(pkt, scratch, compressor);
        match result {
            Ok(info) => {
                self.push(info, buf);
                Ok(())
            },
            Err(error) => Err(error),
        }
    }
}

} // verus!
