//! The buffers of the shards. Each shard owns one encoder and one ring, and
//! nothing of a shard is ever touched through another shard's index.

use crate::compress::Compressors;
use crate::encoder::{
    applied, compresses, deflated_result, uncompressed_result, written, CompressionThreshold,
    EncodeError, PacketEncoder, PacketWriteInfo,
};
use crate::ring::{Ring, RingView};
use crate::server::{Server, ServerView};
use crate::S2C_BUFFER_SIZE;
use libdeflater::Compressor;
use vstd::prelude::*;

verus! {

/// What a shard's buffer holds: the compression threshold of its encoder, its
/// ring, and the shard it belongs to.
pub struct IoBufView {
    pub threshold: CompressionThreshold,
    pub ring: RingView,
    pub index: nat,
}

impl IoBufView {
    /// A buffer as it is made: an untouched ring of `S2C_BUFFER_SIZE` bytes.
    pub open spec fn fresh(threshold: CompressionThreshold, index: nat) -> IoBufView {
        IoBufView { threshold, ring: RingView::fresh(S2C_BUFFER_SIZE as nat), index }
    }
}

/// The buffer of one shard.
#[derive(Debug)]
pub struct IoBuf {
    /// The encoding state of the shard.
    enc: PacketEncoder,
    buf: Ring,
    index: usize,
}

impl View for IoBuf {
    type V = IoBufView;

    closed spec fn view(&self) -> IoBufView {
        IoBufView { threshold: self.enc.threshold(), ring: self.buf@, index: self.index as nat }
    }
}

impl IoBuf {
    /// The buffer of shard `index`, with an encoder set to `threshold` and a
    /// ring of its own.
    pub fn new(threshold: CompressionThreshold, index: usize) -> (buf: IoBuf)
        ensures
            buf@ == IoBufView::fresh(threshold, index as nat),
    {
        IoBuf { enc: PacketEncoder::new(threshold), buf: Ring::new(S2C_BUFFER_SIZE), index }
    }

    pub fn enc(&self) -> (enc: &PacketEncoder)
        ensures
            enc.threshold() == self@.threshold,
    {
        &self.enc
    }

    pub fn enc_mut(&mut self) -> (enc: &mut PacketEncoder)
        ensures
            enc.threshold() == old(self)@.threshold,
            final(self)@ == (IoBufView { threshold: final(enc).threshold(), ..old(self)@ }),
    {
        &mut self.enc
    }

    pub fn index(&self) -> (index: usize)
        ensures
            index == self@.index,
    {
        self.index
    }

    pub fn buf_mut(&mut self) -> (ring: &mut Ring)
        ensures
            ring@ == old(self)@.ring,
            final(self)@ == (IoBufView { ring: final(ring)@, ..old(self)@ }),
    {
        &mut self.buf
    }
}

impl IoBuf {
    /// Frames a packet with this shard's encoder and appends the frame to
    /// this shard's ring, as `PacketEncoder::append_packet` does.
    pub fn append_packet(
        &mut self,
        pkt: &[u8],
        scratch: &mut Vec<u8>,
        compressor: &mut Compressor,
    ) -> (result: Result<PacketWriteInfo, EncodeError>)
        ensures
            final(self)@.threshold == old(self)@.threshold,
            final(self)@.index == old(self)@.index,
            !compresses(old(self)@.threshold, pkt@.len()) ==> final(scratch)@ == old(scratch)@,
            !compresses(old(self)@.threshold, pkt@.len()) ==> applied(
                old(self)@.ring,
                final(self)@.ring,
                result,
                written(old(self)@.ring, uncompressed_result(old(self)@.threshold, pkt@)),
            ),
            compresses(old(self)@.threshold, pkt@.len()) ==> {
                ||| result == Err::<PacketWriteInfo, EncodeError>(EncodeError::CompressionFailed)
                    && final(self)@.ring == old(self)@.ring
                ||| final(scratch)@.len() > 0 && applied(
                    old(self)@.ring,
                    final(self)@.ring,
                    result,
                    written(old(self)@.ring, deflated_result(pkt@.len(), final(scratch)@)),
                )
            },
    {
        self.enc.append_packet(pkt, &mut self.buf, scratch, compressor)
    }
}

/// The buffers of all the shards, made once and kept for good.
#[derive(Debug)]
pub struct IoBufs {
    locals: Vec<IoBuf>,
}

impl View for IoBufs {
    type V = Seq<IoBufView>;

    closed spec fn view(&self) -> Seq<IoBufView> {
        Seq::new(self.locals@.len(), |i: int| self.locals@[i]@)
    }
}

impl IoBufs {
    /// Makes one buffer per shard, each with the index of its shard, and
    /// registers the rings with the event loop before anything is written to
    /// them.
    pub fn init(threshold: CompressionThreshold, shards: usize, server_def: &mut Server) -> (bufs:
        IoBufs)
        requires
            old(server_def)@.buffers is None,
        ensures
            bufs@ == Seq::new(shards as nat, |i: int| IoBufView::fresh(threshold, i as nat)),
            final(server_def)@ == (ServerView {
                buffers: Some(Seq::new(shards as nat, |i: int| S2C_BUFFER_SIZE)),
                ..old(server_def)@
            }),
    {
        let mut locals: Vec<IoBuf> = Vec::new();
        let mut sizes: Vec<usize> = Vec::new();
        let mut i: usize = 0;
        while i < shards
            invariant
                i <= shards,
                locals@.len() == i,
                sizes@.len() == i,
                forall|k: int|
                    0 <= k < i ==> (#[trigger] locals@[k])@ == IoBufView::fresh(threshold, k as nat),
                forall|k: int| 0 <= k < i ==> #[trigger] sizes@[k] == S2C_BUFFER_SIZE,
            decreases shards - i,
        {
            let mut local = IoBuf::new(threshold, i);
            sizes.push(local.buf_mut().capacity());
            locals.push(local);
            i += 1;
        }
        assert(sizes@ =~= Seq::new(shards as nat, |i: int| S2C_BUFFER_SIZE));
        server_def.allocate_buffers(sizes.as_slice());
        let bufs = IoBufs { locals };
        assert(bufs@ =~= Seq::new(shards as nat, |i: int| IoBufView::fresh(threshold, i as nat)));
        bufs
    }

    /// The number of shards.
    pub fn len(&self) -> (n: usize)
        ensures
            n == self@.len(),
    {
        self.locals.len()
    }

    /// The buffer of one shard.
    pub fn get(&self, shard: usize) -> (buf: &IoBuf)
        requires
            shard < self@.len(),
        ensures
            buf@ == self@[shard as int],
    {
        &self.locals[shard]
    }

    /// The buffer of one shard, to be written to.
    pub fn get_mut(&mut self, shard: usize) -> (buf: &mut IoBuf)
        requires
            shard < old(self)@.len(),
        ensures
            buf@ == old(self)@[shard as int],
            final(self)@ == old(self)@.update(shard as int, final(buf)@),
    {
        &mut self.locals[shard]
    }
}

/// One scratch buffer per shard. A shard's compressor leaves the stream of
/// the packet it compressed last in the shard's scratch buffer.
pub struct Scratches {
    locals: Vec<Vec<u8>>,
}

impl View for Scratches {
    type V = Seq<Seq<u8>>;

    closed spec fn view(&self) -> Seq<Seq<u8>> {
        Seq::new(self.locals@.len(), |i: int| self.locals@[i]@)
    }
}

impl Scratches {
    /// `shards` empty scratch buffers.
    pub fn new(shards: usize) -> (scratches: Scratches)
        ensures
            scratches@ == Seq::new(shards as nat, |i: int| Seq::<u8>::empty()),
    {
        let mut locals: Vec<Vec<u8>> = Vec::new();
        let mut i: usize = 0;
        while i < shards
            invariant
                i <= shards,
                locals@.len() == i,
                forall|k: int| 0 <= k < i ==> (#[trigger] locals@[k])@ == Seq::<u8>::empty(),
            decreases shards - i,
        {
            locals.push(Vec::new());
            i += 1;
        }
        let scratches = Scratches { locals };
        assert(scratches@ =~= Seq::new(shards as nat, |i: int| Seq::<u8>::empty()));
        scratches
    }

    /// The number of shards.
    pub fn len(&self) -> (n: usize)
        ensures
            n == self@.len(),
    {
        self.locals.len()
    }

    /// The scratch buffer of one shard.
    pub fn get(&self, shard: usize) -> (scratch: &Vec<u8>)
        requires
            shard < self@.len(),
        ensures
            scratch@ == self@[shard as int],
    {
        &self.locals[shard]
    }

    /// The scratch buffer of one shard, to be written to.
    pub fn get_mut(&mut self, shard: usize) -> (scratch: &mut Vec<u8>)
        requires
            shard < old(self)@.len(),
        ensures
            scratch@ == old(self)@[shard as int],
            final(self)@ == old(self)@.update(shard as int, final(scratch)@),
    {
        &mut self.locals[shard]
    }
}

/// All that a packet needs on its way into a queue: the buffers, the
/// compressors and the scratch buffers of the shards. A packet uses the three
/// of one shard.
pub struct Compose {
    pub bufs: IoBufs,
    pub compressor: Compressors,
    pub scratch: Scratches,
}

} // verus!
