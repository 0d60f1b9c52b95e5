use azalea_reflection_proxy::plugin::Frame;
use azalea_reflection_proxy::relay::{
    declared_frame_length, decode_frame, encode_frame, require_plain, LocalBuffer, RelayError,
    MAX_LOCAL_FRAME_BYTES,
};
use azalea_reflection_proxy::wire::{
    byte_to_float, float_byte, read_be_u32, read_be_u64, take_varint, take_varint_at, to_signed,
    to_unsigned, write_be_u32, write_be_u64, write_varint,
};

#[test]
fn declared_frame_length_rejects_overlong_varints() {
    assert_eq!(declared_frame_length(&[0x7f]).unwrap(), Some(127));
    assert_eq!(declared_frame_length(&[0x80, 0x40]).unwrap(), Some(8_192));
    assert!(declared_frame_length(&[0x80; 5]).is_err());
}

#[test]
fn declared_frame_length_waits_for_the_rest() {
    assert_eq!(declared_frame_length(&[]), Ok(None));
    assert_eq!(declared_frame_length(&[0x80; 4]), Ok(None));
    assert_eq!(declared_frame_length(&[0x80; 6]), Err(RelayError::LengthVarInt));
    // The fifth byte keeps only four bits.
    assert_eq!(
        declared_frame_length(&[0xff, 0xff, 0xff, 0xff, 0x7f]),
        Ok(Some(0xffff_ffff))
    );
}

#[test]
fn varints_are_written_in_groups_of_seven_bits() {
    let cases: Vec<(u32, Vec<u8>)> = vec![
        (0, vec![0]),
        (127, vec![0x7f]),
        (128, vec![0x80, 0x01]),
        (300, vec![0xac, 0x02]),
        (25_565, vec![0xdd, 0xc7, 0x01]),
        (0xffff_ffff, vec![0xff, 0xff, 0xff, 0xff, 0x0f]),
    ];
    for (n, bytes) in cases {
        let mut out = vec![9];
        write_varint(&mut out, n);
        assert_eq!(out[1..], bytes[..]);
        assert_eq!(take_varint(&bytes), Some((n, bytes.len())));
        assert_eq!(take_varint_at(&out, 1), Some((n, bytes.len())));
    }
}

#[test]
fn varints_end_after_five_bytes() {
    assert_eq!(take_varint(&[]), None);
    assert_eq!(take_varint(&[0x80, 0x80]), None);
    assert_eq!(take_varint(&[0x81, 0x80, 0x80, 0x80, 0x80, 1]), Some((1, 5)));
}

#[test]
fn integers_are_big_endian() {
    let mut out = Vec::new();
    write_be_u32(&mut out, 0x0102_0304);
    write_be_u64(&mut out, 0x1112_1314_1516_1718);
    assert_eq!(out, vec![1, 2, 3, 4, 0x11, 0x12, 0x13, 0x14, 0x15, 0x16, 0x17, 0x18]);
    assert_eq!(read_be_u32(&out, 0), 0x0102_0304);
    assert_eq!(read_be_u64(&out, 4), 0x1112_1314_1516_1718);
}

#[test]
fn signs_follow_twos_complement() {
    for n in [0, 1, -1, i32::MAX, i32::MIN, -12] {
        assert_eq!(to_unsigned(n), n as u32);
        assert_eq!(to_signed(n as u32), n);
    }
}

#[test]
fn bytes_are_floats_and_back() {
    for n in 0..=255u8 {
        assert_eq!(byte_to_float(n), (n as f32).to_bits());
        assert_eq!(float_byte(byte_to_float(n)), n);
    }
}

#[test]
fn floats_are_cut_down_to_bytes() {
    for x in [
        0.0f32,
        -0.0,
        0.99,
        1.5,
        2.999,
        254.9,
        255.0,
        256.0,
        1e9,
        -3.0,
        f32::NAN,
        f32::INFINITY,
        f32::NEG_INFINITY,
        f32::MIN_POSITIVE,
    ] {
        assert_eq!(float_byte(x.to_bits()), x as u8);
    }
}

#[test]
fn frames_survive_the_wire() {
    let frame = Frame { packet_id: 300, body: vec![1, 2, 3] };
    let raw = encode_frame(&frame);
    assert_eq!(raw, vec![0xac, 0x02, 1, 2, 3]);
    assert_eq!(decode_frame(raw), Ok(frame));
}

#[test]
fn a_cut_packet_id_is_refused() {
    assert_eq!(decode_frame(vec![]), Err(RelayError::PacketId));
    assert_eq!(decode_frame(vec![0x80]), Err(RelayError::PacketId));
    assert_eq!(decode_frame(vec![7]), Ok(Frame { packet_id: 7, body: vec![] }));
}

#[test]
fn local_packets_come_out_whole() {
    let mut buffer = LocalBuffer::new();
    buffer.push_chunk(&[3, 10]);
    assert_eq!(buffer.next_packet(), Ok(None));
    buffer.push_chunk(&[11, 12, 1, 42, 2]);
    assert_eq!(buffer.next_packet(), Ok(Some(vec![10, 11, 12])));
    assert_eq!(buffer.next_packet(), Ok(Some(vec![42])));
    assert_eq!(buffer.next_packet(), Ok(None));
    buffer.push_chunk(&[5, 6, 0]);
    assert_eq!(buffer.next_packet(), Ok(Some(vec![5, 6])));
    assert_eq!(buffer.next_packet(), Ok(Some(vec![])));
    assert_eq!(buffer.next_packet(), Ok(None));
}

#[test]
fn a_length_beyond_the_limit_is_refused_at_once() {
    let mut buffer = LocalBuffer::new();
    let mut head = Vec::new();
    write_varint(&mut head, MAX_LOCAL_FRAME_BYTES as u32 + 1);
    buffer.push_chunk(&head);
    assert_eq!(
        buffer.next_packet(),
        Err(RelayError::TooLong { length: MAX_LOCAL_FRAME_BYTES + 1 })
    );
    let mut buffer = LocalBuffer::new();
    let mut head = Vec::new();
    write_varint(&mut head, MAX_LOCAL_FRAME_BYTES as u32);
    buffer.push_chunk(&head);
    assert_eq!(buffer.next_packet(), Ok(None));
    let mut buffer = LocalBuffer::new();
    buffer.push_chunk(&[0xff; 5]);
    assert_eq!(buffer.next_packet(), Err(RelayError::LengthVarInt));
}

#[test]
fn the_longest_packet_waits_for_its_last_byte() {
    let mut buffer = LocalBuffer::new();
    let mut head = Vec::new();
    write_varint(&mut head, MAX_LOCAL_FRAME_BYTES as u32);
    buffer.push_chunk(&head);
    let longest = vec![7; MAX_LOCAL_FRAME_BYTES];
    buffer.push_chunk(&longest[1..]);
    assert_eq!(buffer.next_packet(), Ok(None));
    buffer.push_chunk(&[7, 1, 9]);
    assert_eq!(buffer.next_packet(), Ok(Some(longest)));
    assert_eq!(buffer.next_packet(), Ok(Some(vec![9])));
    assert_eq!(buffer.next_packet(), Ok(None));
}

#[test]
fn only_plain_connections_are_read_locally() {
    assert_eq!(require_plain(false, false), Ok(()));
    assert_eq!(require_plain(true, false), Err(RelayError::NotPlain));
    assert_eq!(require_plain(false, true), Err(RelayError::NotPlain));
}
