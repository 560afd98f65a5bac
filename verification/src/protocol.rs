//! The packet header of the FutuOpenD protocol, the framing of request
//! packets, and the bookkeeping that a connection keeps.

use crate::pb::{proto_id_of, proto_id_value, ProtoId};
use std::collections::HashMap;
use crypto::digest::Digest;
use vstd::prelude::*;

verus! {

/// Length of an encoded packet header: 2+4+1+1+4+4+20+8 bytes.
pub const HEADER_LENGTH: usize = 44;

/// Number of header bytes that carry fields a reader takes in; the eight
/// reserved bytes that follow them are not read.
pub const HEADER_READ_LENGTH: usize = 36;

/// The four bytes of `x`, least significant first.
pub open spec fn le_u32_bytes(x: u32) -> Seq<u8> {
    seq![
        (x % 0x100) as u8,
        ((x / 0x100) % 0x100) as u8,
        ((x / 0x1_0000) % 0x100) as u8,
        ((x / 0x100_0000) % 0x100) as u8,
    ]
}

/// The number whose little-endian encoding is the first four bytes of `b`.
pub open spec fn le_u32_value(b: Seq<u8>) -> u32
    recommends
        b.len() >= 4,
{
    (b[0] + b[1] * 0x100 + b[2] * 0x1_0000 + b[3] * 0x100_0000) as u32
}

/// Reading back the four little-endian bytes of a number gives the number.
pub proof fn lemma_le_u32_write_then_read(x: u32)
    ensures
        le_u32_bytes(x).len() == 4,
        le_u32_value(le_u32_bytes(x)) == x,
        le_u32_bytes(x)[0] + le_u32_bytes(x)[1] * 0x100 + le_u32_bytes(x)[2] * 0x1_0000
            + le_u32_bytes(x)[3] * 0x100_0000 == x,
{
    let e = le_u32_bytes(x);
    assert(e[0] + e[1] * 0x100 + e[2] * 0x1_0000 + e[3] * 0x100_0000 == x) by (nonlinear_arith)
        requires
            e[0] == x % 0x100,
            e[1] == (x / 0x100) % 0x100,
            e[2] == (x / 0x1_0000) % 0x100,
            e[3] == (x / 0x100_0000) % 0x100,
            x < 0x1_0000_0000,
    ;
}

/// Writing the number read from four bytes gives those bytes.
pub proof fn lemma_le_u32_read_then_write(b: Seq<u8>)
    requires
        b.len() == 4,
    ensures
        le_u32_bytes(le_u32_value(b)) == b,
{
    let v: int = b[0] + b[1] * 0x100 + b[2] * 0x1_0000 + b[3] * 0x100_0000;
    let b0: int = b[0] as int;
    let b1: int = b[1] as int;
    let b2: int = b[2] as int;
    let b3: int = b[3] as int;
    assert(v % 0x100 == b0 && (v / 0x100) % 0x100 == b1 && (v / 0x1_0000) % 0x100 == b2 && (v
        / 0x100_0000) % 0x100 == b3 && v < 0x1_0000_0000) by (nonlinear_arith)
        requires
            v == b0 + b1 * 0x100 + b2 * 0x1_0000 + b3 * 0x100_0000,
            0 <= b0 < 0x100,
            0 <= b1 < 0x100,
            0 <= b2 < 0x100,
            0 <= b3 < 0x100,
    ;
    assert(le_u32_bytes(le_u32_value(b)) =~= b);
}

/// `n` zero bytes.
pub open spec fn zero_bytes(n: nat) -> Seq<u8> {
    Seq::new(n, |i: int| 0u8)
}

/// The two bytes that open every packet header: "FT".
pub open spec fn header_flag_bytes() -> Seq<u8> {
    seq![0x46u8, 0x54u8]
}

/// The contents of a packet header.
#[verifier::ext_equal]
pub struct HeaderView {
    pub header_flag: Seq<u8>,
    pub proto_id: u32,
    pub proto_fmt_type: u8,
    pub proto_ver: u8,
    pub serial_no: u32,
    pub body_len: u32,
    pub body_sha1: Seq<u8>,
    pub reserved: Seq<u8>,
}

/// The byte layout of a header: the flag, the protocol id, the format type,
/// the version, the serial number, the body length, the SHA-1 of the body
/// and the reserved bytes, integers little-endian.
pub open spec fn encode_header(h: HeaderView) -> Seq<u8> {
    h.header_flag + le_u32_bytes(h.proto_id) + seq![h.proto_fmt_type, h.proto_ver]
        + le_u32_bytes(h.serial_no) + le_u32_bytes(h.body_len) + h.body_sha1 + h.reserved
}

/// The header that a reader takes from the front of `b`: every field but the
/// reserved bytes is read, those stay zero.
pub open spec fn decode_header(b: Seq<u8>) -> HeaderView
    recommends
        b.len() >= HEADER_READ_LENGTH,
{
    HeaderView {
        header_flag: b.subrange(0, 2),
        proto_id: le_u32_value(b.subrange(2, 6)),
        proto_fmt_type: b[6],
        proto_ver: b[7],
        serial_no: le_u32_value(b.subrange(8, 12)),
        body_len: le_u32_value(b.subrange(12, 16)),
        body_sha1: b.subrange(16, 36),
        reserved: zero_bytes(8),
    }
}

/// A header's encoding is `HEADER_LENGTH` bytes long, and reading it back
/// gives every field of the header, the reserved bytes excepted: those a
/// reader leaves zero.
pub proof fn lemma_header_encode_then_decode(h: HeaderView)
    requires
        h.header_flag.len() == 2,
        h.body_sha1.len() == 20,
        h.reserved.len() == 8,
    ensures
        encode_header(h).len() == HEADER_LENGTH,
        decode_header(encode_header(h)) == (HeaderView { reserved: zero_bytes(8), ..h }),
{
    let e = encode_header(h);
    lemma_le_u32_write_then_read(h.proto_id);
    lemma_le_u32_write_then_read(h.serial_no);
    lemma_le_u32_write_then_read(h.body_len);
    assert(e.subrange(0, 2) =~= h.header_flag);
    assert(e.subrange(2, 6) =~= le_u32_bytes(h.proto_id));
    assert(e.subrange(8, 12) =~= le_u32_bytes(h.serial_no));
    assert(e.subrange(12, 16) =~= le_u32_bytes(h.body_len));
    assert(e.subrange(16, 36) =~= h.body_sha1);
    assert(decode_header(e) =~= (HeaderView { reserved: zero_bytes(8), ..h }));
}

/// Writing the header read from `b` gives back the bytes of `b` that a reader
/// takes in, followed by eight zero bytes.
pub proof fn lemma_header_decode_then_encode(b: Seq<u8>)
    requires
        b.len() >= HEADER_READ_LENGTH,
    ensures
        encode_header(decode_header(b)) == b.subrange(0, HEADER_READ_LENGTH as int) + zero_bytes(8),
{
    let d = decode_header(b);
    lemma_le_u32_read_then_write(b.subrange(2, 6));
    lemma_le_u32_read_then_write(b.subrange(8, 12));
    lemma_le_u32_read_then_write(b.subrange(12, 16));
    assert(encode_header(d) =~= b.subrange(0, HEADER_READ_LENGTH as int) + zero_bytes(8));
}

/// A packet header.
#[derive(Debug)]
pub struct APIProtoHeader {
    /// Start of the header, always "FT".
    pub header_flag: [u8; 2],
    /// Protocol id.
    pub proto_id: u32,
    /// Body format: 0 for Protobuf, 1 for Json.
    pub proto_fmt_type: u8,
    /// Protocol version, 0 for now.
    pub proto_ver: u8,
    /// Serial number, pairs a reply with its request; increasing.
    pub serial_no: u32,
    /// Length of the body.
    pub body_len: u32,
    /// SHA-1 of the (decrypted) body.
    pub body_sha1: [u8; 20],
    /// Eight bytes reserved for extensions.
    pub reserved: [u8; 8],
}

impl View for APIProtoHeader {
    type V = HeaderView;

    open spec fn view(&self) -> HeaderView {
        HeaderView {
            header_flag: self.header_flag@,
            proto_id: self.proto_id,
            proto_fmt_type: self.proto_fmt_type,
            proto_ver: self.proto_ver,
            serial_no: self.serial_no,
            body_len: self.body_len,
            body_sha1: self.body_sha1@,
            reserved: self.reserved@,
        }
    }
}

/// The header whose every byte is zero.
pub open spec fn zero_header() -> HeaderView {
    HeaderView {
        header_flag: zero_bytes(2),
        proto_id: 0,
        proto_fmt_type: 0,
        proto_ver: 0,
        serial_no: 0,
        body_len: 0,
        body_sha1: zero_bytes(20),
        reserved: zero_bytes(8),
    }
}

impl Default for APIProtoHeader {
    fn default() -> (h: APIProtoHeader)
        ensures
            h@ == zero_header(),
    {
        let h = APIProtoHeader {
            header_flag: [0u8, 0u8],
            proto_id: 0,
            proto_fmt_type: 0,
            proto_ver: 0,
            serial_no: 0,
            body_len: 0,
            body_sha1: [
                0u8, 0u8, 0u8, 0u8, 0u8, 0u8, 0u8, 0u8, 0u8, 0u8,
                0u8, 0u8, 0u8, 0u8, 0u8, 0u8, 0u8, 0u8, 0u8, 0u8,
            ],
            reserved: [0u8, 0u8, 0u8, 0u8, 0u8, 0u8, 0u8, 0u8],
        };
        assert(h@ =~= zero_header());
        h
    }
}

/// The four bytes of `x`, least significant first.
fn u32_le(x: u32) -> (r: [u8; 4])
    ensures
        r@ == le_u32_bytes(x),
{
    let r = [
        (x % 0x100) as u8,
        ((x / 0x100) % 0x100) as u8,
        ((x / 0x1_0000) % 0x100) as u8,
        ((x / 0x100_0000) % 0x100) as u8,
    ];
    assert(r@ =~= le_u32_bytes(x));
    r
}

/// The number stored little-endian in `b[pos..pos + 4]`.
fn read_u32_le(b: &[u8], pos: usize) -> (x: u32)
    requires
        pos + 4 <= b@.len(),
    ensures
        x == le_u32_value(b@.subrange(pos as int, pos + 4)),
{
    let b0 = b[pos] as u32;
    let b1 = b[pos + 1] as u32;
    let b2 = b[pos + 2] as u32;
    let b3 = b[pos + 3] as u32;
    b0 + b1 * 0x100 + b2 * 0x1_0000 + b3 * 0x100_0000
}

impl APIProtoHeader {
    /// A header with the "FT" flag, format type and version 0, and every
    /// other byte zero.
    pub fn new() -> (h: APIProtoHeader)
        ensures
            h@ == (HeaderView { header_flag: header_flag_bytes(), ..zero_header() }),
    {
        let mut h = APIProtoHeader::default();
        h.header_flag = [0x46u8, 0x54u8];
        h.proto_fmt_type = 0;
        h.proto_ver = 0;
        assert(h@ =~= (HeaderView { header_flag: header_flag_bytes(), ..zero_header() }));
        h
    }

    /// Whether the header opens with the "FT" flag.
    pub fn check_header_flag(&self) -> (ok: bool)
        ensures
            ok == (self.header_flag@ == header_flag_bytes()),
    {
        let ok = self.header_flag[0] == 0x46u8 && self.header_flag[1] == 0x54u8;
        assert(ok == (self.header_flag@ =~= header_flag_bytes()));
        ok
    }

    /// Reads a header from the front of `b`. The reserved bytes are not read
    /// and stay zero; `b` is left as it was.
    pub fn from_bytes(b: &mut [u8]) -> (h: APIProtoHeader)
        requires
            old(b)@.len() >= HEADER_READ_LENGTH,
        ensures
            final(b)@ == old(b)@,
            h@ == decode_header(old(b)@),
    {
        let bytes: &[u8] = b;
        let mut h = APIProtoHeader::new();
        h.header_flag = [bytes[0], bytes[1]];
        h.proto_id = read_u32_le(bytes, 2);
        h.proto_fmt_type = bytes[6];
        h.proto_ver = bytes[7];
        h.serial_no = read_u32_le(bytes, 8);
        h.body_len = read_u32_le(bytes, 12);
        h.body_sha1 = [
            bytes[16], bytes[17], bytes[18], bytes[19], bytes[20], bytes[21], bytes[22], bytes[23],
            bytes[24], bytes[25], bytes[26], bytes[27], bytes[28], bytes[29], bytes[30], bytes[31],
            bytes[32], bytes[33], bytes[34], bytes[35],
        ];
        assert(h@ =~= decode_header(bytes@));
        h
    }

    /// Length of an encoded header.
    pub fn encoded_bytes(&self) -> (n: usize)
        ensures
            n == HEADER_LENGTH,
    {
        HEADER_LENGTH
    }

    /// The header's byte layout.
    pub fn as_bytes(&self) -> (out: [u8; HEADER_LENGTH])
        ensures
            out@ == encode_header(self@),
    {
        let f = &self.header_flag;
        let p = u32_le(self.proto_id);
        let s = u32_le(self.serial_no);
        let l = u32_le(self.body_len);
        let d = &self.body_sha1;
        let r = &self.reserved;
        let out: [u8; HEADER_LENGTH] = [
            f[0], f[1], p[0], p[1], p[2], p[3], self.proto_fmt_type, self.proto_ver,
            s[0], s[1], s[2], s[3], l[0], l[1], l[2], l[3],
            d[0], d[1], d[2], d[3], d[4], d[5], d[6], d[7], d[8], d[9],
            d[10], d[11], d[12], d[13], d[14], d[15], d[16], d[17], d[18], d[19],
            r[0], r[1], r[2], r[3], r[4], r[5], r[6], r[7],
        ];
        assert(out@ =~= encode_header(self@));
        out
    }
}

/// Name for the SHA-1 digest of `msg`.
pub uninterp spec fn sha1_digest(msg: Seq<u8>) -> [u8; 20];

/// Bound on message length, in bytes: the SHA-1 hasher counts the bits of
/// shorter messages only.
pub const SHA1_MAX_INPUT: u64 = 0x2000_0000_0000_0000;

/// Computes the SHA-1 digest of `msg` with `crypto::sha1::Sha1`: `new`,
/// then `Digest::input` with the message and `Digest::result` into a
/// 20-byte buffer. Claimed: the buffer then holds the digest of `msg`, which
/// depends on `msg` alone. The hasher panics on a message of 2^61 bytes or
/// more, which `requires` leaves out.
#[verifier::external_body]
fn sha1(msg: &[u8]) -> (d: [u8; 20])
    requires
        msg@.len() < SHA1_MAX_INPUT,
    ensures
        d == sha1_digest(msg@),
{
    let mut hasher = crypto::sha1::Sha1::new();
    hasher.input(msg);
    let mut d = [0u8; 20];
    hasher.result(&mut d);
    d
}

/// The header of a request packet with protocol `proto`, serial number
/// `serial` and body `body`: Protobuf format, version 0, the body's length
/// (taken modulo 2^32) and its SHA-1 digest.
pub open spec fn request_header(proto: ProtoId, serial: u32, body: Seq<u8>) -> HeaderView {
    HeaderView {
        header_flag: header_flag_bytes(),
        proto_id: proto_id_value(proto) as u32,
        proto_fmt_type: 0,
        proto_ver: 0,
        serial_no: serial,
        body_len: body.len() as u32,
        body_sha1: sha1_digest(body)@,
        reserved: zero_bytes(8),
    }
}

/// A request packet: its header's bytes, then the body.
pub open spec fn request_frame(proto: ProtoId, serial: u32, body: Seq<u8>) -> Seq<u8> {
    encode_header(request_header(proto, serial, body)) + body
}

/// A request to be framed: protocol id, serial number and the encoded
/// message body.
#[derive(Debug)]
pub struct FutuEncoder {
    pub proto: ProtoId,
    pub serial: u32,
    /// The request message, already encoded.
    pub msg: Vec<u8>,
}

impl FutuEncoder {
    pub fn new(proto: ProtoId, serial: u32, msg: Vec<u8>) -> (e: FutuEncoder)
        ensures
            e.proto == proto,
            e.serial == serial,
            e.msg@ == msg@,
    {
        FutuEncoder { proto, serial, msg }
    }

    /// The request packet: header, then message body.
    pub fn encode_to_vec(&self) -> (v: Vec<u8>)
        requires
            self.msg@.len() < SHA1_MAX_INPUT,
        ensures
            v@ == request_frame(self.proto, self.serial, self.msg@),
    {
        let m = self.msg.as_slice();
        let digest = sha1(m);
        let mut h = APIProtoHeader::new();
        h.proto_id = self.proto.to_i32() as u32;
        h.serial_no = self.serial;
        h.body_len = #[verifier::truncate] (m.len() as u32);
        h.body_sha1 = digest;
        let head = h.as_bytes();
        let mut v: Vec<u8> = Vec::new();
        let mut i: usize = 0;
        while i < HEADER_LENGTH
            invariant
                i <= HEADER_LENGTH,
                v@ == head@.subrange(0, i as int),
            decreases HEADER_LENGTH - i,
        {
            v.push(head[i]);
            i = i + 1;
        }
        let mut j: usize = 0;
        while j < m.len()
            invariant
                j <= m@.len(),
                v@ == head@ + m@.subrange(0, j as int),
            decreases m@.len() - j,
        {
            v.push(m[j]);
            j = j + 1;
        }
        assert(h@ == request_header(self.proto, self.serial, self.msg@));
        assert(v@ =~= request_frame(self.proto, self.serial, self.msg@));
        v
    }
}

/// What a reader takes from a request packet is what was framed: the header
/// read from its front carries the "FT" flag, the protocol id, the serial
/// number, the body length and the body's digest, and the bytes after the
/// header are the body.
pub proof fn lemma_request_frame_roundtrip(proto: ProtoId, serial: u32, body: Seq<u8>)
    ensures
        request_frame(proto, serial, body).len() == HEADER_LENGTH + body.len(),
        decode_header(request_frame(proto, serial, body)) == request_header(proto, serial, body),
        decode_header(request_frame(proto, serial, body)).header_flag == header_flag_bytes(),
        request_frame(proto, serial, body).subrange(
            HEADER_LENGTH as int,
            HEADER_LENGTH + body.len(),
        ) == body,
{
    let h = request_header(proto, serial, body);
    let f = request_frame(proto, serial, body);
    lemma_header_encode_then_decode(h);
    let e = encode_header(h);
    assert(f.subrange(0, HEADER_READ_LENGTH as int) =~= e.subrange(0, HEADER_READ_LENGTH as int));
    assert(decode_header(f) =~= decode_header(e));
    assert(f.subrange(HEADER_LENGTH as int, HEADER_LENGTH + body.len()) =~= body);
}

broadcast use {
    vstd::std_specs::hash::group_hash_axioms,
    vstd::std_specs::hash::axiom_u32_obeys_hash_table_key_model,
    vstd::std_specs::hash::axiom_random_state_builds_valid_hashers,
};

/// What a connection knows of itself: the last serial number handed out,
/// whether it is online, and the reply channel waiting on each serial
/// number.
pub struct ConnView<T> {
    pub serial: u32,
    pub online: bool,
    pub chains: Map<u32, T>,
}

/// The bookkeeping of a connection to the gateway; `T` is the channel on
/// which a reply is handed to the request that waits for it.
#[derive(Debug)]
pub struct Conn<T> {
    serial: u32,
    online: bool,
    m: HashMap<u32, T>,
}

impl<T> View for Conn<T> {
    type V = ConnView<T>;

    closed spec fn view(&self) -> ConnView<T> {
        ConnView { serial: self.serial, online: self.online, chains: self.m@ }
    }
}

impl<T> Default for Conn<T> {
    /// A connection that has handed out no serial number, is offline and
    /// has no reply channel.
    fn default() -> (c: Conn<T>)
        ensures
            c@.serial == 0,
            !c@.online,
            c@.chains == Map::<u32, T>::empty(),
    {
        Conn { serial: 0, online: false, m: HashMap::new() }
    }
}

impl<T> Conn<T> {
    /// The last serial number handed out.
    pub fn last_serial(&self) -> (s: u32)
        ensures
            s == self@.serial,
    {
        self.serial
    }

    /// The next serial number: one more than the last one handed out.
    pub fn get_serial(&mut self) -> (s: u32)
        requires
            old(self)@.serial < u32::MAX,
        ensures
            s == old(self)@.serial + 1,
            final(self)@ == (ConnView { serial: s, ..old(self)@ }),
    {
        self.serial = self.serial + 1;
        self.serial
    }

    /// Records whether the connection is online.
    pub fn set_online(&mut self, status: bool)
        ensures
            final(self)@ == (ConnView { online: status, ..old(self)@ }),
    {
        self.online = status;
    }

    /// Whether the connection is online.
    pub fn online(&self) -> (o: bool)
        ensures
            o == self@.online,
    {
        self.online
    }

    /// Registers `tx` as the channel that waits for the reply to `serial`,
    /// in place of any channel registered for it before.
    pub fn add_chain(&mut self, serial: u32, tx: T)
        ensures
            final(self)@ == (ConnView { chains: old(self)@.chains.insert(serial, tx), ..old(self)@ }),
    {
        self.m.insert(serial, tx);
    }

    /// Whether a channel waits for the reply to `serial`.
    pub fn has_chain(&self, serial: u32) -> (b: bool)
        ensures
            b == self@.chains.contains_key(serial),
    {
        self.m.contains_key(&serial)
    }

    /// A copy of the channel that waits for the reply to `serial`.
    pub fn get_chain(&self, serial: u32) -> (tx: T)
        where
            T: Clone,
        requires
            self@.chains.contains_key(serial),
        ensures
            cloned(self@.chains[serial], tx),
    {
        self.m.get(&serial).unwrap().clone()
    }

    /// What a failed write of the request `serial` leaves: its reply channel
    /// forgotten, and the connection offline when the peer had closed it.
    pub fn write_failed(&mut self, serial: u32, broken_pipe: bool)
        ensures
            final(self)@ == (ConnView {
                chains: old(self)@.chains.remove(serial),
                online: old(self)@.online && !broken_pipe,
                ..old(self)@
            }),
    {
        self.del_chain(serial);
        if broken_pipe {
            self.set_online(false);
        }
    }

    /// What a failed read leaves: the connection offline when the peer had
    /// closed it, as it was otherwise.
    pub fn read_failed(&mut self, unexpected_eof: bool)
        ensures
            final(self)@ == (ConnView { online: old(self)@.online && !unexpected_eof, ..old(self)@ }),
    {
        if unexpected_eof {
            self.set_online(false);
        }
    }

    /// Forgets the channel waiting for the reply to `serial`, if any.
    pub fn del_chain(&mut self, serial: u32)
        ensures
            final(self)@ == (ConnView { chains: old(self)@.chains.remove(serial), ..old(self)@ }),
    {
        self.m.remove(&serial);
    }
}

/// A channel registered for a serial number is the one found for it until
/// the serial number is registered again or forgotten; registering or
/// forgetting one serial number leaves the channels of the others as they
/// were.
pub proof fn lemma_chain_read_after_write<T>(chains: Map<u32, T>, serial: u32, other: u32, tx: T)
    requires
        other != serial,
    ensures
        chains.insert(serial, tx).contains_key(serial),
        chains.insert(serial, tx)[serial] == tx,
        !chains.remove(serial).contains_key(serial),
        chains.insert(serial, tx).contains_key(other) == chains.contains_key(other),
        chains.remove(serial).contains_key(other) == chains.contains_key(other),
        chains.contains_key(other) ==> chains.insert(serial, tx)[other] == chains[other]
            && chains.remove(serial)[other] == chains[other],
{
}

/// What a connection does with a packet that arrives.
#[derive(Debug, Clone, Copy, PartialEq, Eq, Structural)]
pub enum Route {
    /// The packet names no protocol: drop it.
    Skip,
    /// A keep-alive reply: take it as a heartbeat.
    HeartBeat,
    /// A reply: hand the body to the channel waiting on its serial number.
    Deliver,
}

/// The route of a packet with protocol id `proto_id`, the id read as a
/// signed number and an unknown id taken as no protocol.
pub open spec fn route_of(proto_id: u32) -> Route {
    match proto_id_of(proto_id as i32) {
        Some(ProtoId::NoProto) | None => Route::Skip,
        Some(ProtoId::KeepAlive) => Route::HeartBeat,
        Some(_) => Route::Deliver,
    }
}

/// Decides what to do with a packet whose header carries `proto_id`.
pub fn route_message(proto_id: u32) -> (r: Route)
    ensures
        r == route_of(proto_id),
{
    let p = match ProtoId::from_i32(proto_id as i32) {
        Some(p) => p,
        None => ProtoId::default(),
    };
    match p {
        ProtoId::NoProto => Route::Skip,
        ProtoId::KeepAlive => Route::HeartBeat,
        _ => Route::Deliver,
    }
}

/// The waiting time between reconnection attempts: ten seconds after a
/// success, growing by ten seconds with each failure up to thirty.
pub struct ReconnectBackoff {
    attempt: u64,
}

impl ReconnectBackoff {
    #[verifier::type_invariant]
    spec fn bounded(self) -> bool {
        1 <= self.attempt <= 3
    }

    /// The step reached: from 1 to 3.
    pub closed spec fn step(self) -> u64 {
        self.attempt
    }

    /// The first step.
    pub fn new() -> (b: ReconnectBackoff)
        ensures
            b.step() == 1,
    {
        ReconnectBackoff { attempt: 1 }
    }

    /// Takes in the outcome of a reconnection attempt: a success starts
    /// again from the first step, a failure moves one step up unless the
    /// last step is reached.
    pub fn record(&mut self, reconnected: bool)
        ensures
            final(self).step() == if reconnected {
                1
            } else if old(self).step() < 3 {
                (old(self).step() + 1) as u64
            } else {
                old(self).step()
            },
            1 <= final(self).step() <= 3,
    {
        proof {
            use_type_invariant(&*self);
        }
        if reconnected {
            self.attempt = 1;
        } else if self.attempt < 3 {
            self.attempt = self.attempt + 1;
        }
    }

    /// Seconds to wait before the next check: ten times the step.
    pub fn delay_secs(&self) -> (d: u64)
        ensures
            d == self.step() * 10,
            10 <= d <= 30,
    {
        proof {
            use_type_invariant(self);
        }
        self.attempt * 10
    }
}

/// The bytes of an encoded header, position by position: the flag as given,
/// then the protocol id, the serial number and the body
/// length each as four bytes least significant first, the format type and
/// version at 6 and 7, the digest at 16..36 and the reserved bytes at 36..44.
pub proof fn lemma_encode_header_bytes(h: HeaderView)
    requires
        h.header_flag.len() == 2,
        h.body_sha1.len() == 20,
        h.reserved.len() == 8,
    ensures
        ({
            let e = encode_header(h);
            &&& e.len() == 44
            &&& e[0] == h.header_flag[0] && e[1] == h.header_flag[1]
            &&& e[2] + e[3] * 0x100 + e[4] * 0x1_0000 + e[5] * 0x100_0000 == h.proto_id
            &&& e[6] == h.proto_fmt_type && e[7] == h.proto_ver
            &&& e[8] + e[9] * 0x100 + e[10] * 0x1_0000 + e[11] * 0x100_0000 == h.serial_no
            &&& e[12] + e[13] * 0x100 + e[14] * 0x1_0000 + e[15] * 0x100_0000 == h.body_len
            &&& forall|i: int| 0 <= i < 20 ==> e[16 + i] == h.body_sha1[i]
            &&& forall|i: int| 0 <= i < 8 ==> e[36 + i] == h.reserved[i]
        }),
{
    lemma_le_u32_write_then_read(h.proto_id);
    lemma_le_u32_write_then_read(h.serial_no);
    lemma_le_u32_write_then_read(h.body_len);
    let e = encode_header(h);
    let p = le_u32_bytes(h.proto_id);
    let s = le_u32_bytes(h.serial_no);
    let l = le_u32_bytes(h.body_len);
    assert(e[2] == p[0] && e[3] == p[1] && e[4] == p[2] && e[5] == p[3]);
    assert(e[8] == s[0] && e[9] == s[1] && e[10] == s[2] && e[11] == s[3]);
    assert(e[12] == l[0] && e[13] == l[1] && e[14] == l[2] && e[15] == l[3]);
}

/// The fields a reader takes from bytes `b`, position by position: the flag
/// from bytes 0 and 1, the protocol id, serial number and body length each
/// from four bytes least significant first (at 2, 8 and 12), the format type
/// and version from bytes 6 and 7, the digest from bytes 16..36; the
/// reserved bytes are zero.
pub proof fn lemma_decode_header_bytes(b: Seq<u8>)
    requires
        b.len() >= HEADER_READ_LENGTH,
    ensures
        ({
            let d = decode_header(b);
            &&& d.header_flag.len() == 2 && d.header_flag[0] == b[0] && d.header_flag[1] == b[1]
            &&& d.proto_id == b[2] + b[3] * 0x100 + b[4] * 0x1_0000 + b[5] * 0x100_0000
            &&& d.proto_fmt_type == b[6] && d.proto_ver == b[7]
            &&& d.serial_no == b[8] + b[9] * 0x100 + b[10] * 0x1_0000 + b[11] * 0x100_0000
            &&& d.body_len == b[12] + b[13] * 0x100 + b[14] * 0x1_0000 + b[15] * 0x100_0000
            &&& d.body_sha1.len() == 20
            &&& forall|i: int| 0 <= i < 20 ==> d.body_sha1[i] == b[16 + i]
            &&& d.reserved.len() == 8
            &&& forall|i: int| 0 <= i < 8 ==> d.reserved[i] == 0
        }),
{
}

/// A header passes the flag check exactly when its two flag bytes are 'F'
/// and 'T'.
pub proof fn lemma_header_flag_is_ft(h: HeaderView)
    requires
        h.header_flag.len() == 2,
    ensures
        (h.header_flag == header_flag_bytes()) <==> (h.header_flag[0] == 0x46 && h.header_flag[1]
            == 0x54),
{
    if h.header_flag[0] == 0x46 && h.header_flag[1] == 0x54 {
        assert(h.header_flag =~= header_flag_bytes());
    }
}

/// The bytes of a request packet, position by position: 'F' and 'T', the
/// protocol's wire number, format type and version 0, the serial number,
/// the body's length (for a body shorter than 2^32 bytes), each number as
/// four bytes least significant first, then the body's digest, eight zero
/// bytes, and the body itself; the packet is 44 bytes longer than the body.
pub proof fn lemma_request_frame_bytes(proto: ProtoId, serial: u32, body: Seq<u8>)
    ensures
        ({
            let f = request_frame(proto, serial, body);
            &&& f.len() == 44 + body.len()
            &&& f[0] == 0x46 && f[1] == 0x54
            &&& f[2] + f[3] * 0x100 + f[4] * 0x1_0000 + f[5] * 0x100_0000 == proto_id_value(proto)
            &&& f[6] == 0 && f[7] == 0
            &&& f[8] + f[9] * 0x100 + f[10] * 0x1_0000 + f[11] * 0x100_0000 == serial
            &&& body.len() < 0x1_0000_0000 ==> f[12] + f[13] * 0x100 + f[14] * 0x1_0000 + f[15]
                * 0x100_0000 == body.len()
            &&& body.len() < 0x1_0000_0000 ==> f[12] + f[13] * 0x100 + f[14] * 0x1_0000 + f[15]
                * 0x100_0000 == f.len() - 44
            &&& forall|i: int| 0 <= i < 20 ==> f[16 + i] == #[trigger] sha1_digest(body)@[i]
            &&& forall|i: int| 36 <= i < 44 ==> #[trigger] f[i] == 0
            &&& forall|i: int| 0 <= i < body.len() ==> f[44 + i] == #[trigger] body[i]
        }),
{
    let h = request_header(proto, serial, body);
    lemma_encode_header_bytes(h);
    let e = encode_header(h);
    let f = request_frame(proto, serial, body);
    assert forall|i: int| 0 <= i < 44 implies f[i] == e[i] by {}
    assert forall|i: int| 0 <= i < body.len() implies f[44 + i] == body[i] by {}
    assert(proto_id_value(proto) >= 0);
}

/// The serial number and body length that a reader takes from a request
/// packet are the encoder's serial number and the length of the body that
/// follows the header, for every body shorter than 2^32 bytes.
pub proof fn lemma_request_frame_serial_and_length(proto: ProtoId, serial: u32, body: Seq<u8>)
    ensures
        decode_header(request_frame(proto, serial, body)).serial_no == serial,
        decode_header(request_frame(proto, serial, body)).proto_id == proto_id_value(proto),
        body.len() < 0x1_0000_0000 ==> decode_header(request_frame(proto, serial, body)).body_len
            == body.len(),
        body.len() < 0x1_0000_0000 ==> decode_header(request_frame(proto, serial, body)).body_len
            == request_frame(proto, serial, body).len() - HEADER_LENGTH,
{
    lemma_request_frame_bytes(proto, serial, body);
    lemma_decode_header_bytes(request_frame(proto, serial, body));
}

/// The route of every wire number: 1004 (keep-alive) is a heartbeat, the
/// numbers of the replies this client asks for are delivered, and 0 and
/// every other number are dropped.
pub proof fn lemma_route_table(v: u32)
    ensures
        route_of(v) == if v == 1004 {
            Route::HeartBeat
        } else if v == 1001 || v == 1002 || v == 1005 || v == 2001 || v == 3203 || v == 3213 || v
            == 3214 || v == 3222 || v == 3223 {
            Route::Deliver
        } else {
            Route::Skip
        },
{
    if v >= 0x8000_0000 {
        assert((v as i32) < 0) by (bit_vector)
            requires
                v >= 0x8000_0000u32,
        ;
    }
}

/// Every reply to a request, that is every protocol but the empty one and
/// keep-alive, is delivered to the request waiting for it; keep-alive is a
/// heartbeat.
pub proof fn lemma_route_delivers_replies(p: ProtoId)
    ensures
        p != ProtoId::NoProto && p != ProtoId::KeepAlive ==> route_of(proto_id_value(p) as u32)
            == Route::Deliver,
        route_of(proto_id_value(ProtoId::KeepAlive) as u32) == Route::HeartBeat,
        route_of(proto_id_value(ProtoId::NoProto) as u32) == Route::Skip,
{
    lemma_route_table(proto_id_value(p) as u32);
}

/// A new header opens with 'F', 'T' and has every other byte zero; a
/// default header has every byte zero.
pub proof fn lemma_new_and_default_header_contents()
    ensures
        ({
            let h = HeaderView { header_flag: header_flag_bytes(), ..zero_header() };
            &&& h.header_flag.len() == 2 && h.header_flag[0] == 0x46 && h.header_flag[1] == 0x54
            &&& h.proto_id == 0 && h.proto_fmt_type == 0 && h.proto_ver == 0
            &&& h.serial_no == 0 && h.body_len == 0
            &&& h.body_sha1.len() == 20 && forall|i: int| 0 <= i < 20 ==> #[trigger] h.body_sha1[i] == 0
            &&& h.reserved.len() == 8 && forall|i: int| 0 <= i < 8 ==> #[trigger] h.reserved[i] == 0
        }),
        ({
            let z = zero_header();
            &&& z.header_flag.len() == 2 && z.header_flag[0] == 0 && z.header_flag[1] == 0
            &&& z.proto_id == 0 && z.proto_fmt_type == 0 && z.proto_ver == 0
            &&& z.serial_no == 0 && z.body_len == 0
            &&& z.body_sha1.len() == 20 && forall|i: int| 0 <= i < 20 ==> #[trigger] z.body_sha1[i] == 0
            &&& z.reserved.len() == 8 && forall|i: int| 0 <= i < 8 ==> #[trigger] z.reserved[i] == 0
        }),
{
}

} // verus!
