//! What holds of the queue over whole runs of calls, stated over the views
//! that the contracts of the calls use.

use crate::buf::IoBufView;
use crate::encoder::{frame_region, PacketWriteInfo};
use crate::packets::{coalesces, pushed, raw_appended, total_entries, PacketsView};
use crate::S2C_BUFFER_SIZE;
use vstd::prelude::*;

verus! {

/// The lengths of the payloads together.
pub open spec fn total_len(payloads: Seq<Seq<u8>>) -> nat
    decreases payloads.len(),
{
    if payloads.len() == 0 {
        0
    } else {
        total_len(payloads.drop_last()) + payloads.last().len()
    }
}

/// A queue and a buffer after the payloads have been appended raw, one after
/// the other.
pub open spec fn raw_appended_all(packets: PacketsView, buf: IoBufView, payloads: Seq<Seq<u8>>) -> (
    PacketsView,
    IoBufView,
)
    decreases payloads.len(),
{
    if payloads.len() == 0 {
        (packets, buf)
    } else {
        let (packets, buf) = raw_appended_all(packets, buf, payloads.drop_last());
        raw_appended(packets, buf, payloads.last())
    }
}

/// Whether each payload, appended raw after those before it, lands right
/// behind the one before it.
pub open spec fn lands_contiguous(packets: PacketsView, buf: IoBufView, payloads: Seq<Seq<u8>>) -> bool {
    forall|k: int|
        0 <= k < payloads.len() ==> {
            let ring = (#[trigger] raw_appended_all(packets, buf, payloads.take(k))).1.ring;
            ring.start_of(payloads[k].len()) == ring.head
        }
}

/// Raw payloads that are appended to a fresh queue through a fresh buffer,
/// each landing right behind the one before it, leave one entry in the queue
/// of the buffer's shard. The entry starts at the start of the ring and is as
/// long as all the payloads together. The queues of the other shards stay
/// empty.
pub proof fn lemma_contiguous_appends_coalesce(
    shards: nat,
    threshold: Option<u32>,
    index: nat,
    payloads: Seq<Seq<u8>>,
)
    requires
        index < shards,
        payloads.len() > 0,
        forall|k: int| 0 <= k < payloads.len() ==> (#[trigger] payloads[k]).len() <= S2C_BUFFER_SIZE,
        lands_contiguous(
            PacketsView::fresh(shards),
            IoBufView::fresh(threshold, index),
            payloads,
        ),
    ensures
        total_len(payloads) <= S2C_BUFFER_SIZE,
        raw_appended_all(
            PacketsView::fresh(shards),
            IoBufView::fresh(threshold, index),
            payloads,
        ).0.queues == PacketsView::fresh(shards).queues.update(
            index as int,
            seq![PacketWriteInfo { start_ptr: 0, len: total_len(payloads) as u32 }],
        ),
        raw_appended_all(
            PacketsView::fresh(shards),
            IoBufView::fresh(threshold, index),
            payloads,
        ).1.ring.head == total_len(payloads),
    decreases payloads.len(),
{
    let packets = PacketsView::fresh(shards);
    let buf = IoBufView::fresh(threshold, index);
    let rest = payloads.drop_last();
    let last = payloads.last();
    assert(payloads.take(payloads.len() - 1) =~= rest);
    let before = raw_appended_all(packets, buf, rest);
    assert(before.1.ring.start_of(last.len()) == before.1.ring.head);
    if rest.len() == 0 {
        assert(total_len(rest) == 0);
        assert(before == (packets, buf));
        let after = raw_appended(packets, buf, last);
        assert(after.0.queues =~= packets.queues.update(
            index as int,
            seq![PacketWriteInfo { start_ptr: 0, len: total_len(payloads) as u32 }],
        ));
    } else {
        assert forall|k: int| 0 <= k < rest.len() implies {
            let ring = (#[trigger] raw_appended_all(packets, buf, rest.take(k))).1.ring;
            ring.start_of(rest[k].len()) == ring.head
        } by {
            assert(rest.take(k) =~= payloads.take(k));
        }
        lemma_contiguous_appends_coalesce(shards, threshold, index, rest);
        lemma_raw_appended_all_keeps(packets, buf, rest);
        let queue = before.0.queues[index as int];
        let writer = frame_region(before.1.ring, last);
        assert(queue =~= seq![PacketWriteInfo { start_ptr: 0, len: total_len(rest) as u32 }]);
        assert(!before.1.ring.wraps(last.len()));
        assert(coalesces(queue.last(), writer));
        assert(pushed(queue, writer) =~= seq![
            PacketWriteInfo { start_ptr: 0, len: total_len(payloads) as u32 },
        ]);
        let after = raw_appended(before.0, before.1, last);
        assert(after.0.queues =~= packets.queues.update(
            index as int,
            seq![PacketWriteInfo { start_ptr: 0, len: total_len(payloads) as u32 }],
        ));
    }
}

/// Appending raw changes neither the shard of the buffer, nor its threshold,
/// nor the size of its ring, nor the number of shards of the queue, nor what
/// is in flight.
pub proof fn lemma_raw_appended_all_keeps(
    packets: PacketsView,
    buf: IoBufView,
    payloads: Seq<Seq<u8>>,
)
    requires
        buf.index < packets.shards(),
        forall|k: int|
            0 <= k < payloads.len() ==> (#[trigger] payloads[k]).len() <= buf.ring.capacity(),
    ensures
        raw_appended_all(packets, buf, payloads).1.index == buf.index,
        raw_appended_all(packets, buf, payloads).1.threshold == buf.threshold,
        raw_appended_all(packets, buf, payloads).1.ring.capacity() == buf.ring.capacity(),
        raw_appended_all(packets, buf, payloads).0.shards() == packets.shards(),
        raw_appended_all(packets, buf, payloads).0.number_sending == packets.number_sending,
    decreases payloads.len(),
{
    if payloads.len() > 0 {
        lemma_raw_appended_all_keeps(packets, buf, payloads.drop_last());
    }
}

/// A raw payload on its way to one shard.
pub struct RawWrite {
    pub shard: nat,
    pub data: Seq<u8>,
}

/// A queue and the buffers of the shards after the writes have been appended
/// raw, one after the other, each through the buffer of its shard.
pub open spec fn raw_written(packets: PacketsView, bufs: Seq<IoBufView>, writes: Seq<RawWrite>) -> (
    PacketsView,
    Seq<IoBufView>,
)
    decreases writes.len(),
{
    if writes.len() == 0 {
        (packets, bufs)
    } else {
        let (packets, bufs) = raw_written(packets, bufs, writes.drop_last());
        let shard = writes.last().shard as int;
        let (packets, buf) = raw_appended(packets, bufs[shard], writes.last().data);
        (packets, bufs.update(shard, buf))
    }
}

/// Those of the writes that go to `shard`, in their order.
pub open spec fn writes_to(writes: Seq<RawWrite>, shard: nat) -> Seq<RawWrite>
    decreases writes.len(),
{
    if writes.len() == 0 {
        Seq::empty()
    } else if writes.last().shard == shard {
        writes_to(writes.drop_last(), shard).push(writes.last())
    } else {
        writes_to(writes.drop_last(), shard)
    }
}

/// Whether there is one buffer for each shard of the queue, each with the
/// index of its shard.
pub open spec fn one_buffer_per_shard(packets: PacketsView, bufs: Seq<IoBufView>) -> bool {
    &&& bufs.len() == packets.shards()
    &&& forall|i: int| 0 <= i < bufs.len() ==> (#[trigger] bufs[i]).index == i
}

/// Raw writes keep one buffer per shard.
pub proof fn lemma_raw_written_keeps(
    packets: PacketsView,
    bufs: Seq<IoBufView>,
    writes: Seq<RawWrite>,
)
    requires
        one_buffer_per_shard(packets, bufs),
        forall|k: int| 0 <= k < writes.len() ==> (#[trigger] writes[k]).shard < bufs.len(),
    ensures
        one_buffer_per_shard(
            raw_written(packets, bufs, writes).0,
            raw_written(packets, bufs, writes).1,
        ),
        raw_written(packets, bufs, writes).1.len() == bufs.len(),
    decreases writes.len(),
{
    if writes.len() > 0 {
        lemma_raw_written_keeps(packets, bufs, writes.drop_last());
    }
}

/// No write to one shard shows in another: after any run of raw writes, the
/// queue and the buffer of a shard are what the writes to that shard alone
/// would have left. Regions of different shards are never merged, wherever
/// they lie in their rings.
pub proof fn lemma_shards_are_independent(
    packets: PacketsView,
    bufs: Seq<IoBufView>,
    writes: Seq<RawWrite>,
    shard: nat,
)
    requires
        one_buffer_per_shard(packets, bufs),
        forall|k: int| 0 <= k < writes.len() ==> (#[trigger] writes[k]).shard < bufs.len(),
        shard < bufs.len(),
    ensures
        raw_written(packets, bufs, writes).0.queues[shard as int] == raw_written(
            packets,
            bufs,
            writes_to(writes, shard),
        ).0.queues[shard as int],
        raw_written(packets, bufs, writes).1[shard as int] == raw_written(
            packets,
            bufs,
            writes_to(writes, shard),
        ).1[shard as int],
    decreases writes.len(),
{
    if writes.len() > 0 {
        let rest = writes.drop_last();
        lemma_shards_are_independent(packets, bufs, rest, shard);
        lemma_raw_written_keeps(packets, bufs, rest);
        lemma_writes_to_in_range(rest, shard, bufs.len());
        lemma_raw_written_keeps(packets, bufs, writes_to(rest, shard));
        if writes.last().shard == shard {
            assert(writes_to(writes, shard).drop_last() =~= writes_to(rest, shard));
        }
    }
}

/// The writes to one shard are among the writes.
pub proof fn lemma_writes_to_in_range(writes: Seq<RawWrite>, shard: nat, shards: nat)
    requires
        forall|k: int| 0 <= k < writes.len() ==> (#[trigger] writes[k]).shard < shards,
    ensures
        forall|k: int|
            0 <= k < writes_to(writes, shard).len() ==> (#[trigger] writes_to(
                writes,
                shard,
            )[k]).shard < shards,
    decreases writes.len(),
{
    if writes.len() > 0 {
        let rest = writes_to(writes.drop_last(), shard);
        lemma_writes_to_in_range(writes.drop_last(), shard, shards);
        assert forall|k: int| 0 <= k < writes_to(writes, shard).len() implies (#[trigger] writes_to(
            writes,
            shard,
        )[k]).shard < shards by {
            if k < rest.len() {
                assert(writes_to(writes, shard)[k] == rest[k]);
            } else {
                assert(writes_to(writes, shard)[k] == writes.last());
                assert(writes[writes.len() - 1].shard < shards);
            }
        }
    }
}

/// The queues have no entry at all exactly when none of them has one.
pub proof fn lemma_total_entries_zero(queues: Seq<Seq<PacketWriteInfo>>)
    ensures
        total_entries(queues) == 0 <==> forall|i: int|
            0 <= i < queues.len() ==> (#[trigger] queues[i]).len() == 0,
    decreases queues.len(),
{
    if queues.len() > 0 {
        lemma_total_entries_zero(queues.drop_last());
        if total_entries(queues) == 0 {
            assert forall|i: int| 0 <= i < queues.len() implies (#[trigger] queues[i]).len()
                == 0 by {
                if i < queues.len() - 1 {
                    assert(queues.drop_last()[i] == queues[i]);
                }
            }
        } else if queues.last().len() == 0 {
            let i = choose|i: int|
                0 <= i < queues.drop_last().len() && (#[trigger] queues.drop_last()[i]).len() != 0;
            assert(queues[i].len() != 0);
        }
    }
}

/// Once a batch has been prepared, no other can be: `can_send` is false
/// right after `prepare_for_send`, whatever the queues hold.
pub proof fn lemma_prepared_cannot_send(packets: PacketsView)
    ensures
        !packets.prepare_for_send().can_send(),
{
    lemma_total_entries_zero(packets.queues);
}

/// The reports together.
pub open spec fn total_reported(counts: Seq<nat>) -> nat
    decreases counts.len(),
{
    if counts.len() == 0 {
        0
    } else {
        total_reported(counts.drop_last()) + counts.last()
    }
}

/// A queue after the reports of finished writes, one after the other.
pub open spec fn sent_all(packets: PacketsView, counts: Seq<nat>) -> PacketsView
    decreases counts.len(),
{
    if counts.len() == 0 {
        packets
    } else {
        sent_all(packets, counts.drop_last()).sent(counts.last())
    }
}

/// Whether each report, made after those before it, finds writes in flight
/// and reports no more than are in flight.
pub open spec fn reports_in_order(packets: PacketsView, counts: Seq<nat>) -> bool
    decreases counts.len(),
{
    counts.len() == 0 || {
        let before = sent_all(packets, counts.drop_last());
        &&& reports_in_order(packets, counts.drop_last())
        &&& before.number_sending > 0
        &&& counts.last() <= before.number_sending
    }
}

/// Reports in order bring what is in flight down by their sum, never below
/// zero, and leave the queues alone.
pub proof fn lemma_reports_count_down(packets: PacketsView, counts: Seq<nat>)
    requires
        reports_in_order(packets, counts),
    ensures
        total_reported(counts) <= packets.number_sending,
        sent_all(packets, counts).number_sending == packets.number_sending - total_reported(
            counts,
        ),
        sent_all(packets, counts).queues == packets.queues,
    decreases counts.len(),
{
    if counts.len() > 0 {
        lemma_reports_count_down(packets, counts.drop_last());
    }
}

/// Reports that each count at least one write, and together no more than are
/// in flight, are in order.
pub proof fn lemma_positive_reports_in_order(packets: PacketsView, counts: Seq<nat>)
    requires
        forall|k: int| 0 <= k < counts.len() ==> #[trigger] counts[k] > 0,
        total_reported(counts) <= packets.number_sending,
    ensures
        reports_in_order(packets, counts),
    decreases counts.len(),
{
    if counts.len() > 0 {
        lemma_positive_reports_in_order(packets, counts.drop_last());
        lemma_reports_count_down(packets, counts.drop_last());
    }
}

/// A prepared batch whose writes have all been reported, in any number of
/// reports, leaves nothing in flight, and a queue that holds an entry can
/// send again. Until the last write is reported it cannot.
pub proof fn lemma_drained_can_send(packets: PacketsView, counts: Seq<nat>)
    requires
        packets.number_sending == 0,
        packets.has_pending(),
        reports_in_order(packets.prepare_for_send(), counts),
    ensures
        total_reported(counts) <= total_entries(packets.queues),
        total_reported(counts) == total_entries(packets.queues) ==> sent_all(
            packets.prepare_for_send(),
            counts,
        ).can_send(),
        total_reported(counts) < total_entries(packets.queues) ==> !sent_all(
            packets.prepare_for_send(),
            counts,
        ).can_send(),
{
    lemma_reports_count_down(packets.prepare_for_send(), counts);
    let done = sent_all(packets.prepare_for_send(), counts);
    let i = choose|i: int| 0 <= i < packets.queues.len() && (#[trigger] packets.queues[i]).len() > 0;
    assert(done.queues[i].len() > 0);
}

/// Clearing twice is clearing once, and a cleared queue has no entry.
pub proof fn lemma_clear_idempotent(packets: PacketsView)
    ensures
        packets.clear().clear() == packets.clear(),
        !packets.clear().has_pending(),
        packets.clear().number_sending == packets.number_sending,
{
    assert(packets.clear().clear().queues =~= packets.clear().queues);
}

/// Clearing a queue that has no entry changes nothing.
pub proof fn lemma_clear_of_empty(packets: PacketsView)
    requires
        !packets.has_pending(),
    ensures
        packets.clear() == packets,
{
    assert forall|i: int| 0 <= i < packets.queues.len() implies packets.queues[i]
        =~= Seq::<PacketWriteInfo>::empty() by {
        if packets.queues[i].len() > 0 {
            assert(packets.has_pending());
        }
    }
    assert(packets.clear().queues =~= packets.queues);
}

} // verus!
