//! Packet framing: length prefixes, the three frame layouts of the protocol,
//! and the encoder that writes frames into a shard's ring.

use crate::ring::{Ring, RingView};
use crate::MAX_PACKET_SIZE;
use libdeflater::Compressor;
use vstd::prelude::*;

verus! {

/// Packets at most this long stay uncompressed; `None` turns the compressed
/// frame format off altogether.
pub type CompressionThreshold = Option<u32>;

/// A region of a shard's ring that is ready to be sent: the offset of its
/// first byte and its length.
#[derive(Debug, Clone, Copy, PartialEq, Eq, Structural)]
pub struct PacketWriteInfo {
    pub start_ptr: usize,
    pub len: u32,
}

impl PacketWriteInfo {
    /// The offset just behind the region.
    pub open spec fn end(self) -> int {
        self.start_ptr + self.len
    }
}

/// Why a packet was not written.
#[derive(Debug, Clone, Copy, PartialEq, Eq, Structural)]
pub enum EncodeError {
    /// The packet is longer than the protocol allows.
    PacketTooLarge,
    /// The compressor reported that it could not compress the packet.
    CompressionFailed,
    /// The frame is longer than the whole ring.
    RingTooSmall,
}

/// The variable-length encoding of a number: seven bits per byte, lowest
/// first, the top bit set on every byte but the last.
pub open spec fn var_int_bytes(value: nat) -> Seq<u8>
    decreases value,
{
    if value < 128 {
        seq![value as u8]
    } else {
        seq![(value % 128 + 128) as u8] + var_int_bytes(value / 128)
    }
}

/// The frame of a packet while compression is off: its length, then the
/// packet.
pub open spec fn plain_frame(data: Seq<u8>) -> Seq<u8> {
    var_int_bytes(data.len()) + data
}

/// The frame of a packet that stays uncompressed while compression is on: the
/// length of what follows, a zero in place of the uncompressed length, then
/// the packet.
pub open spec fn stored_frame(data: Seq<u8>) -> Seq<u8> {
    var_int_bytes(data.len() + 1) + seq![0u8] + data
}

/// The frame of a compressed packet: the length of what follows, the length
/// the packet had before compression, then the compressed stream.
pub open spec fn deflated_frame(data_len: nat, stream: Seq<u8>) -> Seq<u8> {
    var_int_bytes(var_int_bytes(data_len).len() + stream.len()) + var_int_bytes(data_len) + stream
}

/// Whether a packet of `data_len` bytes is compressed under `threshold`.
pub open spec fn compresses(threshold: CompressionThreshold, data_len: nat) -> bool {
    threshold matches Some(t) && data_len > t
}

/// A length prefix is one to five bytes long, and shorter for small numbers.
pub proof fn lemma_var_int_len(value: nat)
    ensures
        1 <= var_int_bytes(value).len(),
        value < 0x80 ==> var_int_bytes(value).len() == 1,
        value < 0x4000 ==> var_int_bytes(value).len() <= 2,
        value < 0x20_0000 ==> var_int_bytes(value).len() <= 3,
        value < 0x1000_0000 ==> var_int_bytes(value).len() <= 4,
        value < 0x8_0000_0000 ==> var_int_bytes(value).len() <= 5,
    decreases value,
{
    if value >= 128 {
        lemma_var_int_len(value / 128);
    }
}

/// Appends the length prefix for `value` to `out`.
pub fn write_var_int(value: u32, out: &mut Vec<u8>)
    ensures
        final(out)@ == old(out)@ + var_int_bytes(value as nat),
{
    let ghost before = out@;
    let mut rest: u32 = value;
    while rest >= 128
        invariant
            before + var_int_bytes(value as nat) == out@ + var_int_bytes(rest as nat),
        decreases rest,
    {
        let byte: u8 = (rest % 128 + 128) as u8;
        proof {
            assert(out@.push(byte) + var_int_bytes((rest / 128) as nat) =~= out@ + var_int_bytes(
                rest as nat,
            ));
        }
        out.push(byte);
        rest = rest / 128;
    }
    proof {
        assert(out@.push(rest as u8) =~= out@ + var_int_bytes(rest as nat));
    }
    out.push(rest as u8);
}

/// The frame of a packet while compression is off, or why there is none: a
/// packet may be `MAX_PACKET_SIZE` bytes long and no longer.
pub open spec fn plain_result(data: Seq<u8>) -> Result<Seq<u8>, EncodeError> {
    if data.len() <= MAX_PACKET_SIZE {
        Ok(plain_frame(data))
    } else {
        Err(EncodeError::PacketTooLarge)
    }
}

/// The frame of a packet that stays uncompressed while compression is on, or
/// why there is none: the packet and the zero before it may together be
/// `MAX_PACKET_SIZE` bytes long and no longer.
pub open spec fn stored_result(data: Seq<u8>) -> Result<Seq<u8>, EncodeError> {
    if data.len() + 1 <= MAX_PACKET_SIZE {
        Ok(stored_frame(data))
    } else {
        Err(EncodeError::PacketTooLarge)
    }
}

/// Whether a compressed packet is within the protocol's limits: the length
/// before compression fits the prefix that carries it, and that prefix and
/// the stream are together no longer than a packet may be.
pub open spec fn deflated_fits(data_len: nat, stream_len: nat) -> bool {
    data_len <= i32::MAX && var_int_bytes(data_len).len() + stream_len <= MAX_PACKET_SIZE
}

/// The frame of a packet of `data_len` bytes that was compressed to `stream`,
/// or why there is none.
pub open spec fn deflated_result(data_len: nat, stream: Seq<u8>) -> Result<Seq<u8>, EncodeError> {
    if deflated_fits(data_len, stream.len()) {
        Ok(deflated_frame(data_len, stream))
    } else {
        Err(EncodeError::PacketTooLarge)
    }
}

/// The frame of a packet that is not compressed: plain while compression is
/// off, stored while it is on.
pub open spec fn uncompressed_result(threshold: CompressionThreshold, data: Seq<u8>) -> Result<
    Seq<u8>,
    EncodeError,
> {
    if threshold is None {
        plain_result(data)
    } else {
        stored_result(data)
    }
}

/// Whether `frame` holds the bytes, or the error, of `expected`.
pub open spec fn frame_is(
    frame: Result<Vec<u8>, EncodeError>,
    expected: Result<Seq<u8>, EncodeError>,
) -> bool {
    match expected {
        Ok(bytes) => frame is Ok && frame->Ok_0@ == bytes,
        Err(error) => frame is Err && frame->Err_0 == error,
    }
}

/// Frames a packet for a connection without compression.
pub fn encode_plain(data: &[u8]) -> (frame: Result<Vec<u8>, EncodeError>)
    ensures
        frame_is(frame, plain_result(data@)),
{
    if data.len() > MAX_PACKET_SIZE {
        return Err(EncodeError::PacketTooLarge);
    }
    let mut frame: Vec<u8> = Vec::new();
    write_var_int(data.len() as u32, &mut frame);
    frame.extend_from_slice(data);
    assert(frame@ =~= plain_frame(data@));
    Ok(frame)
}

/// Frames a packet that is sent as it is on a connection with compression.
pub fn encode_stored(data: &[u8]) -> (frame: Result<Vec<u8>, EncodeError>)
    ensures
        frame_is(frame, stored_result(data@)),
{
    if data.len() >= MAX_PACKET_SIZE {
        return Err(EncodeError::PacketTooLarge);
    }
    let mut frame: Vec<u8> = Vec::new();
    write_var_int((data.len() + 1) as u32, &mut frame);
    frame.push(0);
    frame.extend_from_slice(data);
    assert(frame@ =~= stored_frame(data@));
    Ok(frame)
}

/// Frames a packet of `data_len` bytes from the stream that the compressor
/// made of it.
pub fn encode_deflated(data_len: usize, stream: &[u8]) -> (frame: Result<Vec<u8>, EncodeError>)
    ensures
        frame_is(frame, deflated_result(data_len as nat, stream@)),
{
    if data_len > i32::MAX as usize {
        return Err(EncodeError::PacketTooLarge);
    }
    let mut inner: Vec<u8> = Vec::new();
    write_var_int(data_len as u32, &mut inner);
    proof {
        lemma_var_int_len(data_len as nat);
    }
    if stream.len() > MAX_PACKET_SIZE - inner.len() {
        return Err(EncodeError::PacketTooLarge);
    }
    let mut frame: Vec<u8> = Vec::new();
    write_var_int((inner.len() + stream.len()) as u32, &mut frame);
    frame.extend_from_slice(inner.as_slice());
    frame.extend_from_slice(stream);
    assert(frame@ =~= deflated_frame(data_len as nat, stream@));
    Ok(frame)
}

/// The region that a frame takes up once it is appended to a ring.
pub open spec fn frame_region(ring: RingView, frame: Seq<u8>) -> PacketWriteInfo {
    PacketWriteInfo { start_ptr: ring.start_of(frame.len()) as usize, len: frame.len() as u32 }
}

/// What becomes of a ring that is handed a frame: the ring with the frame
/// appended and the frame's region, or the error that kept the frame out. A
/// frame longer than the whole ring is kept out.
pub open spec fn written(ring: RingView, frame: Result<Seq<u8>, EncodeError>) -> Result<
    (RingView, PacketWriteInfo),
    EncodeError,
> {
    match frame {
        Ok(bytes) => if bytes.len() <= ring.capacity() {
            Ok((ring.append(bytes), frame_region(ring, bytes)))
        } else {
            Err(EncodeError::RingTooSmall)
        },
        Err(error) => Err(error),
    }
}

/// Whether a call that found the ring as `before`, left it as `after` and
/// returned `result` did what `expected` says. On an error the ring is as it
/// was.
pub open spec fn applied(
    before: RingView,
    after: RingView,
    result: Result<PacketWriteInfo, EncodeError>,
    expected: Result<(RingView, PacketWriteInfo), EncodeError>,
) -> bool {
    match expected {
        Ok((ring, info)) => result == Ok::<PacketWriteInfo, EncodeError>(info) && after == ring,
        Err(error) => result == Err::<PacketWriteInfo, EncodeError>(error) && after == before,
    }
}

/// Appends a finished frame, or its error, to the ring.
fn write_frame(frame: Result<Vec<u8>, EncodeError>, buf: &mut Ring) -> (result: Result<
    PacketWriteInfo,
    EncodeError,
>)
    requires
        frame matches Ok(bytes) ==> bytes@.len() <= u32::MAX,
    ensures
        applied(
            old(buf)@,
            final(buf)@,
            result,
            written(
                old(buf)@,
                match frame {
                    Ok(bytes) => Ok(bytes@),
                    Err(error) => Err(error),
                },
            ),
        ),
{
    match frame {
        Ok(bytes) => {
            if bytes.len() > buf.capacity() {
                return Err(EncodeError::RingTooSmall);
            }
            let start = buf.append(bytes.as_slice());
            Ok(PacketWriteInfo { start_ptr: start, len: bytes.len() as u32 })
        },
        Err(error) => Err(error),
    }
}

/// Frames a packet without compression and appends the frame to the ring.
/// `pkt` is the packet as it goes on the wire: its id, then its body.
pub fn append_packet_without_compression(pkt: &[u8], buf: &mut Ring) -> (result: Result<
    PacketWriteInfo,
    EncodeError,
>)
    ensures
        applied(old(buf)@, final(buf)@, result, written(old(buf)@, plain_result(pkt@))),
{
    let frame = encode_plain(pkt);
    proof {
        lemma_var_int_len(pkt@.len());
    }
    write_frame(frame, buf)
}

/// The framing state of one shard: whether, and from which size on, packets
/// are compressed.
#[derive(Debug)]
pub struct PacketEncoder {
    threshold: CompressionThreshold,
}

impl PacketEncoder {
    /// The threshold in force.
    pub closed spec fn threshold(&self) -> CompressionThreshold {
        self.threshold
    }

    pub fn new(threshold: CompressionThreshold) -> (encoder: PacketEncoder)
        ensures
            encoder.threshold() == threshold,
    {
        PacketEncoder { threshold }
    }

    pub fn compression_threshold(&self) -> (threshold: CompressionThreshold)
        ensures
            threshold == self.threshold(),
    {
        self.threshold
    }

    pub fn set_compression(&mut self, threshold: CompressionThreshold)
        ensures
            final(self).threshold() == threshold,
    {
        self.threshold = threshold;
    }

    /// Frames a packet under the threshold in force and appends the frame to
    /// the ring. `pkt` is the packet as it goes on the wire: its id, then its
    /// body.
    ///
    /// A packet that is not compressed leaves `scratch` alone. One that is
    /// compressed leaves the compressor's stream in `scratch`, and the frame
    /// is built from that stream, whatever the compressor made of the packet.
    pub fn append_packet(
        &self,
        pkt: &[u8],
        buf: &mut Ring,
        scratch: &mut Vec<u8>,
        compressor: &mut Compressor,
    ) -> (result: Result<PacketWriteInfo, EncodeError>)
        ensures
            !compresses(self.threshold(), pkt@.len()) ==> final(scratch)@ == old(scratch)@,
            !compresses(self.threshold(), pkt@.len()) ==> applied(
                old(buf)@,
                final(buf)@,
                result,
                written(old(buf)@, uncompressed_result(self.threshold(), pkt@)),
            ),
            compresses(self.threshold(), pkt@.len()) ==> {
                ||| result == Err::<PacketWriteInfo, EncodeError>(EncodeError::CompressionFailed)
                    && final(buf)@ == old(buf)@
                ||| final(scratch)@.len() > 0 && applied(
                    old(buf)@,
                    final(buf)@,
                    result,
                    written(old(buf)@, deflated_result(pkt@.len(), final(scratch)@)),
                )
            },
    {
        match self.threshold {
            None => append_packet_without_compression(pkt, buf),
            Some(threshold) => {
                if pkt.len() > threshold as usize {
                    let bound = compressor.zlib_compress_bound(pkt.len());
                    scratch.clear();
                    scratch.resize(bound, 0);
                    match compressor.zlib_compress(pkt, scratch.as_mut_slice()) {
                        Ok(n) => {
                            scratch.truncate(n);
                            let frame = encode_deflated(pkt.len(), scratch.as_slice());
                            proof {
                                lemma_var_int_len(pkt@.len());
                                lemma_var_int_len(
                                    var_int_bytes(pkt@.len()).len() + scratch@.len(),
                                );
                            }
                            write_frame(frame, buf)
                        },
                        Err(_) => Err(EncodeError::CompressionFailed),
                    }
                } else {
                    let frame = encode_stored(pkt);
                    proof {
                        lemma_var_int_len(pkt@.len() + 1);
                    }
                    write_frame(frame, buf)
                }
            },
        }
    }
}

} // verus!
