use rust_ore::errors::PacketError;
use rust_ore::util::read_string;
use rust_ore::util::read_u16;
use rust_ore::util::read_varint;
use rust_ore::util::read_varlong;
use rust_ore::util::write_string;
use rust_ore::util::write_varint;
use rust_ore::util::write_varlong;

fn varint_round_trip(v: i32) -> usize {
    let mut buf: Vec<u8> = Vec::new();
    write_varint(v, &mut buf);
    let len = buf.len();
    let got = read_varint(&mut buf).expect("round trip must decode");
    assert_eq!(got, v);
    assert!(buf.is_empty());
    len
}

fn varlong_round_trip(v: i64) -> usize {
    let mut buf: Vec<u8> = Vec::new();
    write_varlong(v, &mut buf);
    let len = buf.len();
    let got = read_varlong(&mut buf).expect("round trip must decode");
    assert_eq!(got, v);
    assert!(buf.is_empty());
    len
}

#[test]
fn varint_round_trip_boundaries() {
    assert_eq!(varint_round_trip(0), 1);
    assert_eq!(varint_round_trip(1), 1);
    assert_eq!(varint_round_trip(127), 1);
    assert_eq!(varint_round_trip(128), 2);
    assert_eq!(varint_round_trip(255), 2);
    assert_eq!(varint_round_trip(754), 2);
    assert_eq!(varint_round_trip(25565), 3);
    assert_eq!(varint_round_trip(2147483647), 5);
    assert_eq!(varint_round_trip(-1), 5);
    assert_eq!(varint_round_trip(i32::MIN), 5);
}

#[test]
fn varint_known_encodings() {
    let mut buf: Vec<u8> = Vec::new();
    write_varint(0, &mut buf);
    assert_eq!(buf, vec![0x00]);

    let mut buf: Vec<u8> = Vec::new();
    write_varint(128, &mut buf);
    assert_eq!(buf, vec![0x80, 0x01]);

    let mut buf: Vec<u8> = Vec::new();
    write_varint(255, &mut buf);
    assert_eq!(buf, vec![0xFF, 0x01]);

    let mut buf: Vec<u8> = Vec::new();
    write_varint(-1, &mut buf);
    assert_eq!(buf, vec![0xFF, 0xFF, 0xFF, 0xFF, 0x0F]);

    let mut buf: Vec<u8> = Vec::new();
    write_varint(2147483647, &mut buf);
    assert_eq!(buf, vec![0xFF, 0xFF, 0xFF, 0xFF, 0x07]);

    let mut buf: Vec<u8> = Vec::new();
    write_varint(i32::MIN, &mut buf);
    assert_eq!(buf, vec![0x80, 0x80, 0x80, 0x80, 0x08]);
}

#[test]
fn varlong_round_trip_boundaries() {
    assert_eq!(varlong_round_trip(0), 1);
    assert_eq!(varlong_round_trip(1), 1);
    assert_eq!(varlong_round_trip(9223372036854775807), 9);
    assert_eq!(varlong_round_trip(-1), 10);
    assert_eq!(varlong_round_trip(i64::MIN), 10);
}

#[test]
fn varint_truncated_mid_group() {
    let mut buf: Vec<u8> = vec![0x80];
    assert_eq!(read_varint(&mut buf), Err(PacketError::Truncated));
    assert_eq!(buf, vec![0x80], "a failed read must not consume");

    let mut buf: Vec<u8> = Vec::new();
    assert_eq!(read_varint(&mut buf), Err(PacketError::Truncated));

    let mut buf: Vec<u8> = vec![0x80, 0x80, 0x80, 0x80];
    assert_eq!(read_varint(&mut buf), Err(PacketError::Truncated));
    assert_eq!(buf.len(), 4);
}

#[test]
fn varint_overlong() {
    let mut buf: Vec<u8> = vec![0x80, 0x80, 0x80, 0x80, 0x80];
    assert_eq!(read_varint(&mut buf), Err(PacketError::Overlong));
    assert_eq!(buf.len(), 5, "a failed read must not consume");

    let mut buf: Vec<u8> = vec![0x80, 0x80, 0x80, 0x80, 0x80, 0x01];
    assert_eq!(read_varint(&mut buf), Err(PacketError::Overlong));
    assert_eq!(buf.len(), 6);
}

#[test]
fn varlong_truncated_and_overlong() {
    let mut buf: Vec<u8> = vec![0x80; 9];
    assert_eq!(read_varlong(&mut buf), Err(PacketError::Truncated));

    let mut buf: Vec<u8> = vec![0x80; 10];
    assert_eq!(read_varlong(&mut buf), Err(PacketError::Overlong));
    assert_eq!(buf.len(), 10);
}

#[test]
fn varint_accepts_non_canonical_zero() {
    let mut buf: Vec<u8> = vec![0x80, 0x00, 0x42];
    assert_eq!(read_varint(&mut buf), Ok(0));
    assert_eq!(buf, vec![0x42]);
}

#[test]
fn varint_leaves_trailing_bytes() {
    let mut buf: Vec<u8> = Vec::new();
    write_varint(300, &mut buf);
    buf.push(0x99);
    assert_eq!(read_varint(&mut buf), Ok(300));
    assert_eq!(buf, vec![0x99]);
}

fn string_round_trip(s: &str) {
    let mut buf: Vec<u8> = Vec::new();
    write_string(s, &mut buf);
    let got = read_string(&mut buf).expect("round trip must decode");
    assert_eq!(got, s);
    assert!(buf.is_empty());
}

#[test]
fn string_round_trips() {
    string_round_trip("");
    string_round_trip("Alice");
    string_round_trip("localhost");
    string_round_trip("h\u{e9}llo w\u{f6}rld \u{2713}");
    string_round_trip("\u{1F600}\u{1F600}");
}

#[test]
fn string_invalid_utf8() {
    let mut buf: Vec<u8> = Vec::new();
    write_varint(2, &mut buf);
    buf.push(0xFF);
    buf.push(0xFE);
    let before = buf.clone();
    assert_eq!(read_string(&mut buf), Err(PacketError::InvalidText));
    assert_eq!(buf, before, "a failed read must not consume");
}

#[test]
fn string_truncated_body() {
    let mut buf: Vec<u8> = Vec::new();
    write_varint(5, &mut buf);
    buf.push(b'h');
    buf.push(b'i');
    assert_eq!(read_string(&mut buf), Err(PacketError::Truncated));
    assert_eq!(buf.len(), 3);
}

#[test]
fn string_negative_length_is_malformed() {
    let mut buf: Vec<u8> = Vec::new();
    write_varint(-1, &mut buf);
    buf.push(b'x');
    assert_eq!(read_string(&mut buf), Err(PacketError::Malformed));
}

#[test]
fn u16_little_endian_read() {
    let mut buf: Vec<u8> = vec![0x34, 0x12, 0x77];
    assert_eq!(read_u16(&mut buf), Ok(0x1234));
    assert_eq!(buf, vec![0x77]);

    let mut buf: Vec<u8> = vec![0xDD, 0x63];
    assert_eq!(read_u16(&mut buf), Ok(25565));

    let mut buf: Vec<u8> = vec![0xDD];
    assert_eq!(read_u16(&mut buf), Err(PacketError::Truncated));
    assert_eq!(buf, vec![0xDD]);
}
