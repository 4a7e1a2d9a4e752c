//! The zlib compressors, one per shard, and what is taken on trust about the
//! `libdeflater` crate that provides them.

use libdeflater::{CompressionError, CompressionLvl, Compressor};
use vstd::prelude::*;

verus! {

/// `libdeflater::Compressor`: an allocated libdeflate compressor. Nothing of
/// its inside is visible here.
#[verifier::external_type_specification]
#[verifier::external_body]
pub struct ExCompressor(Compressor);

/// `libdeflater::CompressionLvl`: a compression level that libdeflate accepts.
#[verifier::external_type_specification]
#[verifier::external_body]
pub struct ExCompressionLvl(CompressionLvl);

/// `libdeflater::CompressionError`: its only variant reports an output buffer
/// that was too small.
#[verifier::external_type_specification]
#[verifier::external_body]
pub struct ExCompressionError(CompressionError);

/// `libdeflater::Compressor::new` allocates a compressor for the level.
/// Nothing is claimed of the compressor it returns.
pub assume_specification[ Compressor::new ](lvl: CompressionLvl) -> (compressor: Compressor)
;

/// `libdeflater::Compressor::zlib_compress_bound` gives the size of an output
/// buffer. Nothing is claimed of the number it returns.
pub assume_specification[ Compressor::zlib_compress_bound ](
    compressor: &mut Compressor,
    n_bytes: usize,
) -> (bound: usize)
;

/// `libdeflater::Compressor::zlib_compress` writes a zlib stream of the input
/// to the front of the output buffer. Claimed: on success the count it
/// returns is not zero and not more than the buffer holds. The buffer keeps
/// its length. Which bytes it wrote is not stated.
pub assume_specification[ Compressor::zlib_compress ](
    compressor: &mut Compressor,
    in_raw_data: &[u8],
    out_zlib_data: &mut [u8],
) -> (count: Result<usize, CompressionError>)
    ensures
        final(out_zlib_data)@.len() == old(out_zlib_data)@.len(),
        count matches Ok(n) ==> 0 < n <= old(out_zlib_data)@.len(),
;

/// One compressor per shard, reused from packet to packet.
pub struct Compressors {
    compressors: Vec<Compressor>,
}

impl View for Compressors {
    type V = Seq<Compressor>;

    /// The compressors in shard order.
    closed spec fn view(&self) -> Seq<Compressor> {
        self.compressors@
    }
}

impl Compressors {
    /// The number of shards that have a compressor.
    pub open spec fn shards(&self) -> nat {
        self@.len()
    }

    /// Allocates `shards` compressors of the given level.
    pub fn new(level: CompressionLvl, shards: usize) -> (compressors: Compressors)
        ensures
            compressors.shards() == shards,
    {
        let mut compressors: Vec<Compressor> = Vec::new();
        let mut i: usize = 0;
        while i < shards
            invariant
                i <= shards,
                compressors@.len() == i,
            decreases shards - i,
        {
            compressors.push(Compressor::new(level));
            i += 1;
        }
        Compressors { compressors }
    }

    /// The number of shards that have a compressor.
    pub fn len(&self) -> (n: usize)
        ensures
            n == self.shards(),
    {
        self.compressors.len()
    }

    /// The compressor of one shard, to compress with. The compressors of
    /// the other shards are out of reach through it.
    pub fn get_mut(&mut self, shard: usize) -> (compressor: &mut Compressor)
        requires
            shard < old(self).shards(),
        ensures
            *compressor == old(self)@[shard as int],
            final(self)@ == old(self)@.update(shard as int, *final(compressor)),
    {
        &mut self.compressors[shard]
    }
}

} // verus!
