use rust_ore::errors::PacketError;
use rust_ore::mc_packet::MCPacket;
use rust_ore::util::write_varint;

fn sample_frame() -> Vec<u8> {
    let mut packet = MCPacket::new(0x00);
    packet.write_varint(754);
    packet.write_string("localhost");
    packet.write_varint(2);
    packet.finalize()
}

#[test]
fn frame_round_trip() {
    let wire = sample_frame();
    let mut buf = wire.clone();
    let packet = MCPacket::parse(&mut buf).expect("complete frame must parse");
    assert!(buf.is_empty());
    assert_eq!(packet.id, 0x00);
    assert_eq!(packet.length as usize, 1 + packet.data.len());
    let mut expected = MCPacket::new(0x00);
    expected.write_varint(754);
    expected.write_string("localhost");
    expected.write_varint(2);
    assert_eq!(packet.data, expected.data);
}

#[test]
fn frame_declared_length_recomputed() {
    let mut packet = MCPacket::new(0x02);
    packet.length = 12345;
    packet.write_varint(7);
    let wire = packet.finalize();
    assert_eq!(wire[0] as usize, wire.len() - 1, "length is recomputed, never trusted");
}

#[test]
fn frame_split_across_reads_matches_single_submission() {
    let wire = sample_frame();

    let mut whole = wire.clone();
    let complete = MCPacket::parse(&mut whole).expect("single submission parses");

    for cut in 0..wire.len() {
        let mut buf: Vec<u8> = wire[..cut].to_vec();
        let before = buf.clone();
        match MCPacket::parse(&mut buf) {
            Err(PacketError::NeedMoreData) => {}
            other => panic!("prefix of {} bytes must need more data, got {:?}", cut, other),
        }
        assert_eq!(buf, before, "an incomplete frame must not consume");

        buf.extend_from_slice(&wire[cut..]);
        let packet = MCPacket::parse(&mut buf).expect("resubmission must parse");
        assert!(buf.is_empty());
        assert_eq!(packet.id, complete.id);
        assert_eq!(packet.data, complete.data);
        assert_eq!(packet.length, complete.length);
    }
}

#[test]
fn frame_trailing_bytes_stay_buffered() {
    let first = sample_frame();
    let second = {
        let mut p = MCPacket::new(0x01);
        p.write_varlong(-1);
        p.finalize()
    };
    let mut buf = first.clone();
    buf.extend_from_slice(&second);
    let a = MCPacket::parse(&mut buf).expect("first frame parses");
    assert_eq!(a.id, 0x00);
    let b = MCPacket::parse(&mut buf).expect("second frame parses");
    assert_eq!(b.id, 0x01);
    assert!(buf.is_empty());
}

#[test]
fn frame_negative_length_is_malformed() {
    let mut buf: Vec<u8> = Vec::new();
    write_varint(-2, &mut buf);
    buf.push(0x00);
    let before = buf.clone();
    assert!(matches!(MCPacket::parse(&mut buf), Err(PacketError::Malformed)));
    assert_eq!(buf, before);
}

#[test]
fn frame_zero_length_cannot_hold_an_id() {
    let mut buf: Vec<u8> = vec![0x00];
    assert!(matches!(MCPacket::parse(&mut buf), Err(PacketError::Malformed)));
}

#[test]
fn frame_empty_buffer_needs_more_data() {
    let mut buf: Vec<u8> = Vec::new();
    assert!(matches!(MCPacket::parse(&mut buf), Err(PacketError::NeedMoreData)));
}

#[test]
fn frame_overlong_length_prefix_is_malformed() {
    let mut buf: Vec<u8> = vec![0x80, 0x80, 0x80, 0x80, 0x80, 0x01];
    assert!(matches!(MCPacket::parse(&mut buf), Err(PacketError::Malformed)));
}

#[test]
fn packet_cursor_reads_fields_in_order() {
    let mut packet = MCPacket::new(0x00);
    packet.write_varint(754);
    packet.write_string("localhost");
    packet.data.push(0xDD);
    packet.data.push(0x63);
    packet.write_varint(2);

    assert_eq!(packet.read_varint(), Ok(754));
    assert_eq!(packet.read_string().unwrap(), "localhost");
    assert_eq!(packet.read_unsigned_short(), Ok(25565));
    assert_eq!(packet.read_varint(), Ok(2));
    assert_eq!(packet.read_varint(), Err(PacketError::Truncated));
}

#[test]
fn packet_new_is_empty() {
    let packet = MCPacket::new(0x42);
    assert_eq!(packet.id, 0x42);
    assert_eq!(packet.length, 0);
    assert!(packet.data.is_empty());
}

#[test]
fn packet_varlong_cursor_round_trip() {
    let mut packet = MCPacket::new(0x00);
    packet.write_varlong(i64::MIN);
    packet.write_varlong(9223372036854775807);
    assert_eq!(packet.read_varlong(), Ok(i64::MIN));
    assert_eq!(packet.read_varlong(), Ok(9223372036854775807));
}
