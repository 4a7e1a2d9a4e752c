use netcore::encoder::{
    append_packet_without_compression, encode_deflated, encode_plain, encode_stored,
    write_var_int, EncodeError, PacketWriteInfo,
};
use netcore::ring::Ring;
use netcore::{MAX_PACKET_SIZE, MINECRAFT_VERSION, PROTOCOL_VERSION, S2C_BUFFER_SIZE};
use valence_protocol::{Encode, VarInt};

fn var_int(value: u32) -> Vec<u8> {
    let mut out = Vec::new();
    write_var_int(value, &mut out);
    out
}

#[test]
fn constants_are_those_of_the_protocol() {
    assert_eq!(PROTOCOL_VERSION, 763);
    assert_eq!(MINECRAFT_VERSION, "1.20.1");
    assert_eq!(MAX_PACKET_SIZE, 2097152);
    assert_eq!(S2C_BUFFER_SIZE, 134217728);
    assert_eq!(PROTOCOL_VERSION, valence_protocol::PROTOCOL_VERSION);
    assert_eq!(MINECRAFT_VERSION, valence_protocol::MINECRAFT_VERSION);
    assert_eq!(MAX_PACKET_SIZE, valence_protocol::MAX_PACKET_SIZE as usize);
}

#[test]
fn var_int_of_small_numbers_is_one_byte() {
    assert_eq!(var_int(0), vec![0x00]);
    assert_eq!(var_int(1), vec![0x01]);
    assert_eq!(var_int(2), vec![0x02]);
    assert_eq!(var_int(127), vec![0x7f]);
}

#[test]
fn var_int_carries_seven_bits_a_byte() {
    assert_eq!(var_int(128), vec![0x80, 0x01]);
    assert_eq!(var_int(255), vec![0xff, 0x01]);
    assert_eq!(var_int(300), vec![0xac, 0x02]);
    assert_eq!(var_int(16383), vec![0xff, 0x7f]);
    assert_eq!(var_int(16384), vec![0x80, 0x80, 0x01]);
    assert_eq!(var_int(25565), vec![0xdd, 0xc7, 0x01]);
    assert_eq!(var_int(2097151), vec![0xff, 0xff, 0x7f]);
    assert_eq!(var_int(2097152), vec![0x80, 0x80, 0x80, 0x01]);
    assert_eq!(var_int(268435455), vec![0xff, 0xff, 0xff, 0x7f]);
    assert_eq!(var_int(268435456), vec![0x80, 0x80, 0x80, 0x80, 0x01]);
    assert_eq!(var_int(2147483647), vec![0xff, 0xff, 0xff, 0xff, 0x07]);
    assert_eq!(var_int(u32::MAX), vec![0xff, 0xff, 0xff, 0xff, 0x0f]);
}

#[test]
fn var_int_is_appended_behind_what_is_there() {
    let mut out = vec![9, 9];
    write_var_int(300, &mut out);
    write_var_int(0, &mut out);
    assert_eq!(out, vec![9, 9, 0xac, 0x02, 0x00]);
}

#[test]
fn var_int_agrees_with_the_protocol_crate() {
    let mut values: Vec<u32> = (0..70000).collect();
    for shift in 0..32 {
        let bit = 1u32 << shift;
        values.extend([bit - 1, bit, bit + 1]);
    }
    values.extend([u32::MAX, u32::MAX - 1, i32::MAX as u32, i32::MIN as u32]);
    for value in values {
        let mut theirs = Vec::new();
        VarInt(value as i32).encode(&mut theirs).unwrap();
        assert_eq!(var_int(value), theirs, "value {value}");
        assert_eq!(var_int(value).len(), VarInt(value as i32).written_size());
    }
}

#[test]
fn plain_frame_is_the_length_and_the_packet() {
    assert_eq!(encode_plain(&[]), Ok(vec![0]));
    assert_eq!(encode_plain(&[7, 8, 9]), Ok(vec![3, 7, 8, 9]));
    let data = vec![5u8; 200];
    let mut expected = vec![0xc8, 0x01];
    expected.extend_from_slice(&data);
    assert_eq!(encode_plain(&data), Ok(expected));
}

#[test]
fn plain_frame_takes_a_packet_of_the_largest_size() {
    let data = vec![1u8; MAX_PACKET_SIZE];
    let frame = encode_plain(&data).unwrap();
    assert_eq!(frame.len(), MAX_PACKET_SIZE + 4);
    assert_eq!(&frame[..4], &[0x80, 0x80, 0x80, 0x01]);
    assert_eq!(&frame[4..], &data[..]);
}

#[test]
fn plain_frame_refuses_a_packet_one_byte_too_long() {
    let data = vec![1u8; MAX_PACKET_SIZE + 1];
    assert_eq!(encode_plain(&data), Err(EncodeError::PacketTooLarge));
}

#[test]
fn stored_frame_has_a_zero_before_the_packet() {
    assert_eq!(encode_stored(&[]), Ok(vec![1, 0]));
    assert_eq!(encode_stored(&[7, 8, 9]), Ok(vec![4, 0, 7, 8, 9]));
    let data = vec![5u8; 127];
    let mut expected = vec![0x80, 0x01, 0x00];
    expected.extend_from_slice(&data);
    assert_eq!(encode_stored(&data), Ok(expected));
}

#[test]
fn stored_frame_counts_the_zero_against_the_limit() {
    let data = vec![1u8; MAX_PACKET_SIZE - 1];
    let frame = encode_stored(&data).unwrap();
    assert_eq!(frame.len(), MAX_PACKET_SIZE + 4);
    assert_eq!(&frame[..5], &[0x80, 0x80, 0x80, 0x01, 0x00]);
    let data = vec![1u8; MAX_PACKET_SIZE];
    assert_eq!(encode_stored(&data), Err(EncodeError::PacketTooLarge));
}

#[test]
fn deflated_frame_carries_both_lengths() {
    assert_eq!(
        encode_deflated(300, &[1, 2, 3]),
        Ok(vec![5, 0xac, 0x02, 1, 2, 3])
    );
    assert_eq!(encode_deflated(5, &[]), Ok(vec![1, 5]));
    let stream = vec![3u8; 126];
    let mut expected = vec![0x80, 0x01, 0xac, 0x02];
    expected.extend_from_slice(&stream);
    assert_eq!(encode_deflated(300, &stream), Ok(expected));
}

#[test]
fn deflated_frame_counts_the_inner_length_against_the_limit() {
    let stream = vec![1u8; MAX_PACKET_SIZE - 2];
    let frame = encode_deflated(300, &stream).unwrap();
    assert_eq!(frame.len(), 4 + 2 + MAX_PACKET_SIZE - 2);
    assert_eq!(&frame[..6], &[0x80, 0x80, 0x80, 0x01, 0xac, 0x02]);
    let stream = vec![1u8; MAX_PACKET_SIZE - 1];
    assert_eq!(encode_deflated(300, &stream), Err(EncodeError::PacketTooLarge));
    assert!(encode_deflated(100, &stream).is_ok());
}

#[test]
fn deflated_frame_refuses_a_length_that_the_prefix_cannot_carry() {
    assert_eq!(
        encode_deflated(i32::MAX as usize, &[1]),
        Ok(vec![6, 0xff, 0xff, 0xff, 0xff, 0x07, 1])
    );
    assert_eq!(
        encode_deflated(i32::MAX as usize + 1, &[1]),
        Err(EncodeError::PacketTooLarge)
    );
    assert_eq!(encode_deflated(usize::MAX, &[1]), Err(EncodeError::PacketTooLarge));
}

#[test]
fn a_frame_lands_in_the_ring_and_its_region_is_returned() {
    let mut ring = Ring::new(16);
    let first = append_packet_without_compression(&[7, 8, 9], &mut ring);
    assert_eq!(first, Ok(PacketWriteInfo { start_ptr: 0, len: 4 }));
    let second = append_packet_without_compression(&[1], &mut ring);
    assert_eq!(second, Ok(PacketWriteInfo { start_ptr: 4, len: 2 }));
    assert_eq!(&ring.as_slice()[..6], &[3, 7, 8, 9, 1, 1]);
    assert_eq!(ring.head(), 6);
}

#[test]
fn a_frame_that_does_not_fit_behind_the_last_one_wraps() {
    let mut ring = Ring::new(8);
    append_packet_without_compression(&[1; 5], &mut ring).unwrap();
    let info = append_packet_without_compression(&[2; 3], &mut ring).unwrap();
    assert_eq!(info, PacketWriteInfo { start_ptr: 0, len: 4 });
    assert_eq!(ring.as_slice(), &[3, 2, 2, 2, 1, 1, 0, 0]);
}

#[test]
fn a_frame_longer_than_the_ring_is_refused() {
    let mut ring = Ring::new(3);
    ring.append(&[5, 5]);
    let result = append_packet_without_compression(&[7, 8, 9], &mut ring);
    assert_eq!(result, Err(EncodeError::RingTooSmall));
    assert_eq!(ring.as_slice(), &[5, 5, 0]);
    assert_eq!(ring.head(), 2);

    let mut ring = Ring::new(4);
    let result = append_packet_without_compression(&[7, 8, 9], &mut ring);
    assert_eq!(result, Ok(PacketWriteInfo { start_ptr: 0, len: 4 }));
}

#[test]
fn a_packet_that_is_too_long_leaves_the_ring_alone() {
    let mut ring = Ring::new(16);
    ring.append(&[5, 5]);
    let data = vec![1u8; MAX_PACKET_SIZE + 1];
    let result = append_packet_without_compression(&data, &mut ring);
    assert_eq!(result, Err(EncodeError::PacketTooLarge));
    assert_eq!(ring.head(), 2);
    assert_eq!(&ring.as_slice()[..3], &[5, 5, 0]);
}
