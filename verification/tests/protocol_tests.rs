use futuapi::protocol::{
    route_message, APIProtoHeader, Conn, FutuEncoder, ReconnectBackoff, Route, HEADER_LENGTH,
};
use futuapi::ProtoId;

fn hex(bytes: &[u8]) -> String {
    let mut s = String::new();
    for b in bytes {
        s.push_str(&format!("{:02x}", b));
    }
    s
}

fn sample_header() -> APIProtoHeader {
    let mut h = APIProtoHeader::new();
    h.proto_id = 3203;
    h.proto_fmt_type = 1;
    h.proto_ver = 2;
    h.serial_no = 0x0102_0304;
    h.body_len = 0xAABB_CCDD;
    for i in 0..20 {
        h.body_sha1[i] = i as u8 + 100;
    }
    h.reserved = [9, 8, 7, 6, 5, 4, 3, 2];
    h
}

#[test]
fn test_sha1() {
    let e = FutuEncoder::new(ProtoId::NoProto, 0, String::from("abcd").into_bytes());
    let frame = e.encode_to_vec();
    let mut head = frame[..HEADER_LENGTH].to_vec();
    let h = APIProtoHeader::from_bytes(&mut head);
    assert_eq!(hex(&h.body_sha1), "81fe8bfe87576c3ecb22426f8e57847382917acf");
    assert_eq!(hex(&frame[16..36]), "81fe8bfe87576c3ecb22426f8e57847382917acf");
}

#[test]
fn sha1_of_empty_body() {
    let e = FutuEncoder::new(ProtoId::KeepAlive, 1, Vec::new());
    let frame = e.encode_to_vec();
    assert_eq!(hex(&frame[16..36]), "da39a3ee5e6b4b0d3255bfef95601890afd80709");
}

#[test]
fn new_header_has_flag_and_zeros() {
    let h = APIProtoHeader::new();
    assert_eq!(h.header_flag, [b'F', b'T']);
    assert!(h.check_header_flag());
    assert_eq!(h.proto_id, 0);
    assert_eq!(h.proto_fmt_type, 0);
    assert_eq!(h.proto_ver, 0);
    assert_eq!(h.serial_no, 0);
    assert_eq!(h.body_len, 0);
    assert_eq!(h.body_sha1, [0u8; 20]);
    assert_eq!(h.reserved, [0u8; 8]);
    assert_eq!(h.encoded_bytes(), 44);
}

#[test]
fn default_header_is_all_zero() {
    let h = APIProtoHeader::default();
    assert_eq!(h.header_flag, [0, 0]);
    assert!(!h.check_header_flag());
    assert_eq!(h.as_bytes(), [0u8; 44]);
}

#[test]
fn header_flag_check_rejects_other_flags() {
    let mut h = APIProtoHeader::new();
    h.header_flag = [b'F', b'X'];
    assert!(!h.check_header_flag());
    h.header_flag = [b'f', b't'];
    assert!(!h.check_header_flag());
}

#[test]
fn as_bytes_layout_is_little_endian() {
    let h = sample_header();
    let b = h.as_bytes();
    assert_eq!(b.len(), 44);
    assert_eq!(&b[0..2], b"FT");
    assert_eq!(&b[2..6], &[0x83, 0x0c, 0x00, 0x00]);
    assert_eq!(b[6], 1);
    assert_eq!(b[7], 2);
    assert_eq!(&b[8..12], &[0x04, 0x03, 0x02, 0x01]);
    assert_eq!(&b[12..16], &[0xDD, 0xCC, 0xBB, 0xAA]);
    for i in 0..20 {
        assert_eq!(b[16 + i], i as u8 + 100);
    }
    assert_eq!(&b[36..44], &[9, 8, 7, 6, 5, 4, 3, 2]);
}

#[test]
fn from_bytes_reads_fields_and_leaves_reserved_zero() {
    let mut b = sample_header().as_bytes().to_vec();
    let before = b.clone();
    let h = APIProtoHeader::from_bytes(&mut b);
    assert_eq!(b, before);
    assert!(h.check_header_flag());
    assert_eq!(h.proto_id, 3203);
    assert_eq!(h.proto_fmt_type, 1);
    assert_eq!(h.proto_ver, 2);
    assert_eq!(h.serial_no, 0x0102_0304);
    assert_eq!(h.body_len, 0xAABB_CCDD);
    assert_eq!(h.body_sha1, sample_header().body_sha1);
    assert_eq!(h.reserved, [0u8; 8]);
}

#[test]
fn from_bytes_needs_only_the_read_part() {
    let mut b: Vec<u8> = (0u8..36).collect();
    let h = APIProtoHeader::from_bytes(&mut b);
    assert_eq!(h.header_flag, [0, 1]);
    assert_eq!(h.proto_id, u32::from_le_bytes([2, 3, 4, 5]));
    assert_eq!(h.proto_fmt_type, 6);
    assert_eq!(h.proto_ver, 7);
    assert_eq!(h.serial_no, u32::from_le_bytes([8, 9, 10, 11]));
    assert_eq!(h.body_len, u32::from_le_bytes([12, 13, 14, 15]));
    let mut expect = [0u8; 44];
    for i in 0..36 {
        expect[i] = i as u8;
    }
    assert_eq!(h.as_bytes(), expect);
}

#[test]
fn encode_then_decode_keeps_every_field_but_reserved() {
    let h = sample_header();
    let mut b = h.as_bytes().to_vec();
    let back = APIProtoHeader::from_bytes(&mut b);
    assert_eq!(back.header_flag, h.header_flag);
    assert_eq!(back.proto_id, h.proto_id);
    assert_eq!(back.proto_fmt_type, h.proto_fmt_type);
    assert_eq!(back.proto_ver, h.proto_ver);
    assert_eq!(back.serial_no, h.serial_no);
    assert_eq!(back.body_len, h.body_len);
    assert_eq!(back.body_sha1, h.body_sha1);
    assert_eq!(back.reserved, [0u8; 8]);
}

#[test]
fn request_frame_carries_header_then_body() {
    let body = vec![1u8, 2, 3, 4, 5];
    let e = FutuEncoder::new(ProtoId::InitConnect, 77, body.clone());
    assert_eq!(e.proto, ProtoId::InitConnect);
    assert_eq!(e.serial, 77);
    let frame = e.encode_to_vec();
    assert_eq!(frame.len(), 44 + 5);
    assert_eq!(&frame[0..2], b"FT");
    assert_eq!(&frame[2..6], &[0xE9, 0x03, 0, 0]);
    assert_eq!(frame[6], 0);
    assert_eq!(frame[7], 0);
    assert_eq!(&frame[8..12], &[77, 0, 0, 0]);
    assert_eq!(&frame[12..16], &[5, 0, 0, 0]);
    assert_eq!(&frame[36..44], &[0u8; 8]);
    assert_eq!(&frame[44..], &body[..]);
    let mut head = frame.clone();
    let h = APIProtoHeader::from_bytes(&mut head);
    assert!(h.check_header_flag());
    assert_eq!(h.proto_id, 1001);
    assert_eq!(h.serial_no, 77);
    assert_eq!(h.body_len, 5);
}

#[test]
fn route_by_protocol_id() {
    assert_eq!(route_message(0), Route::Skip);
    assert_eq!(route_message(1004), Route::HeartBeat);
    assert_eq!(route_message(1001), Route::Deliver);
    assert_eq!(route_message(3223), Route::Deliver);
    assert_eq!(route_message(2001), Route::Deliver);
    assert_eq!(route_message(1003), Route::Skip);
    assert_eq!(route_message(u32::MAX), Route::Skip);
}

#[test]
fn serial_numbers_increase() {
    let mut c: Conn<u32> = Conn::default();
    assert!(!c.online());
    assert_eq!(c.get_serial(), 1);
    assert_eq!(c.get_serial(), 2);
    assert_eq!(c.get_serial(), 3);
}

#[test]
fn chain_read_after_write() {
    let mut c: Conn<String> = Conn::default();
    c.add_chain(5, String::from("five"));
    c.add_chain(6, String::from("six"));
    assert_eq!(c.get_chain(5), "five");
    assert_eq!(c.get_chain(6), "six");
    c.add_chain(5, String::from("again"));
    assert_eq!(c.get_chain(5), "again");
    c.del_chain(5);
    assert_eq!(c.get_chain(6), "six");
    c.del_chain(5);
    c.add_chain(5, String::from("back"));
    assert_eq!(c.get_chain(5), "back");
}

#[test]
fn online_flag_and_failures() {
    let mut c: Conn<u8> = Conn::default();
    c.set_online(true);
    assert!(c.online());
    c.add_chain(1, 10);
    c.add_chain(2, 20);
    c.write_failed(1, false);
    assert!(c.online());
    assert_eq!(c.get_chain(2), 20);
    c.read_failed(false);
    assert!(c.online());
    c.write_failed(2, true);
    assert!(!c.online());
    c.set_online(true);
    c.read_failed(true);
    assert!(!c.online());
}

#[test]
fn reconnect_backoff_steps() {
    let mut b = ReconnectBackoff::new();
    assert_eq!(b.delay_secs(), 10);
    b.record(false);
    assert_eq!(b.delay_secs(), 20);
    b.record(false);
    assert_eq!(b.delay_secs(), 30);
    b.record(false);
    assert_eq!(b.delay_secs(), 30);
    b.record(true);
    assert_eq!(b.delay_secs(), 10);
    b.record(true);
    assert_eq!(b.delay_secs(), 10);
}
