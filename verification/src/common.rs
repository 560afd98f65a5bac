//! Securities as the gateway names them, and the lists of them that callers
//! write as text.

use crate::pb::{ret_type_of, QotMarket, RetType};
use vstd::prelude::*;
use vstd::string::*;
use vstd::utf8::*;

verus! {

broadcast use {encode_utf8_valid_utf8, encode_utf8_decode_utf8};

/// `c` with an ASCII lower-case letter made upper-case.
pub open spec fn ascii_upper(c: u8) -> u8 {
    if 0x61 <= c <= 0x7a {
        (c - 0x20) as u8
    } else {
        c
    }
}

/// The market that a two-byte prefix names, letters taken in either case:
/// "HK" for Hong Kong, "HZ" for Shenzhen, "SH" for Shanghai, and no market
/// for anything else.
pub open spec fn market_of_prefix(b0: u8, b1: u8) -> QotMarket {
    let u0 = ascii_upper(b0);
    let u1 = ascii_upper(b1);
    if u0 == 0x48 && u1 == 0x4b {
        QotMarket::HkSecurity
    } else if u0 == 0x48 && u1 == 0x5a {
        QotMarket::CnszSecurity
    } else if u0 == 0x53 && u1 == 0x48 {
        QotMarket::CnshSecurity
    } else {
        QotMarket::Unknown
    }
}

/// A security: its market and its code within that market.
pub struct SecurityView {
    pub market: QotMarket,
    pub code: Seq<char>,
}

/// Whether the UTF-8 text `b` can be cut after its first two bytes: it has
/// two bytes and the second ends a character.
pub open spec fn code_splits(b: Seq<u8>) -> bool {
    b.len() >= 2 && is_char_boundary(b, 2)
}

/// The security that the text `b` names: the market from its first two
/// bytes, the code from the rest.
pub open spec fn security_of(b: Seq<u8>) -> SecurityView
    recommends
        code_splits(b),
{
    SecurityView {
        market: market_of_prefix(b[0], b[1]),
        code: decode_utf8(b.subrange(2, b.len() as int)),
    }
}

/// A security, such as "SH000001" read as market Shanghai and code "000001".
pub struct Security {
    pub market: QotMarket,
    pub code: String,
}

impl View for Security {
    type V = SecurityView;

    open spec fn view(&self) -> SecurityView {
        SecurityView { market: self.market, code: self.code@ }
    }
}

/// The market that two bytes name.
fn market_of(b0: u8, b1: u8) -> (m: QotMarket)
    ensures
        m == market_of_prefix(b0, b1),
{
    let u0 = if 0x61 <= b0 && b0 <= 0x7a {
        b0 - 0x20
    } else {
        b0
    };
    let u1 = if 0x61 <= b1 && b1 <= 0x7a {
        b1 - 0x20
    } else {
        b1
    };
    if u0 == 0x48 && u1 == 0x4b {
        QotMarket::HkSecurity
    } else if u0 == 0x48 && u1 == 0x5a {
        QotMarket::CnszSecurity
    } else if u0 == 0x53 && u1 == 0x48 {
        QotMarket::CnshSecurity
    } else {
        QotMarket::Unknown
    }
}

impl Security {
    /// Reads a security from text such as "SH000001" or "hz399001": the
    /// first two bytes name the market, the rest is the code.
    pub fn from(s: &str) -> (r: Security)
        requires
            code_splits(s.spec_bytes()),
        ensures
            r@ == security_of(s.spec_bytes()),
    {
        let b = s.as_bytes();
        let market = market_of(b[0], b[1]);
        let (_, rest) = s.split_at(2);
        let code = rest.to_owned();
        assert(rest.spec_bytes() =~= s.spec_bytes().subrange(2, s.spec_bytes().len() as int));
        Security { market, code }
    }
}

/// Whether `k` is the position of the first comma in `b`.
pub open spec fn is_first_comma(b: Seq<u8>, k: int) -> bool {
    &&& 0 <= k < b.len()
    &&& b[k] == 0x2c
    &&& forall|j: int| 0 <= j < k ==> b[j] != 0x2c
}

/// The pieces of `b` between its commas, in order; text with no comma is one
/// piece, and an empty piece stands between two adjacent commas.
pub open spec fn split_commas(b: Seq<u8>) -> Seq<Seq<u8>>
    decreases b.len(),
{
    if exists|k: int| is_first_comma(b, k) {
        let k = choose|k: int| is_first_comma(b, k);
        seq![b.subrange(0, k)] + split_commas(b.subrange(k + 1, b.len() as int))
    } else {
        seq![b]
    }
}

/// Text whose first comma is at `k` splits into the piece before it and the
/// pieces of what follows it.
proof fn lemma_split_at_first_comma(b: Seq<u8>, k: int)
    requires
        is_first_comma(b, k),
    ensures
        split_commas(b) == seq![b.subrange(0, k)] + split_commas(b.subrange(k + 1, b.len() as int)),
{
    let c = choose|k: int| is_first_comma(b, k);
    assert(is_first_comma(b, c));
    if c < k {
        assert(b[c] != 0x2c);
    } else if k < c {
        assert(b[k] != 0x2c);
    }
    assert(c == k);
}

/// In valid UTF-8 text, the byte after an ASCII byte starts a character.
proof fn lemma_boundary_after_ascii(t: Seq<u8>)
    requires
        valid_utf8(t),
        t.len() >= 1,
        t[0] < 0x80,
    ensures
        is_char_boundary(t, 1),
{
    reveal_with_fuel(is_char_boundary, 2);
    assert(length_of_first_scalar(t) == 1);
    assert(valid_utf8(pop_first_scalar(t)));
}

/// The securities that a comma-separated list such as "SH000001,HZ399001"
/// names, in order.
pub fn security_list(securities: &str) -> (r: Vec<Security>)
    requires
        forall|i: int|
            0 <= i < split_commas(securities.spec_bytes()).len() ==> code_splits(
                #[trigger] split_commas(securities.spec_bytes())[i],
            ),
    ensures
        r@.len() == split_commas(securities.spec_bytes()).len(),
        forall|i: int|
            0 <= i < r@.len() ==> #[trigger] r@[i]@ == security_of(
                split_commas(securities.spec_bytes())[i],
            ),
{
    let ghost all = split_commas(securities.spec_bytes());
    let ghost mut done: Seq<Seq<u8>> = Seq::empty();
    let mut out: Vec<Security> = Vec::new();
    let mut rest: &str = securities;
    loop
        invariant_except_break
            all == done + split_commas(rest.spec_bytes()),
        invariant
            all == split_commas(securities.spec_bytes()),
            forall|i: int| 0 <= i < all.len() ==> code_splits(#[trigger] all[i]),
            out@.len() == done.len(),
            forall|i: int| 0 <= i < out@.len() ==> #[trigger] out@[i]@ == security_of(done[i]),
        ensures
            out@.len() == all.len(),
            forall|i: int| 0 <= i < out@.len() ==> #[trigger] out@[i]@ == security_of(all[i]),
        decreases rest.spec_bytes().len(),
    {
        let b = rest.as_bytes();
        let mut k: usize = 0;
        while k < b.len() && b[k] != 0x2c
            invariant
                b@ == rest.spec_bytes(),
                k <= b@.len(),
                forall|j: int| 0 <= j < k ==> b@[j] != 0x2c,
            decreases b@.len() - k,
        {
            k = k + 1;
        }
        if k == b.len() {
            assert(!exists|c: int| is_first_comma(rest.spec_bytes(), c));
            assert(split_commas(rest.spec_bytes()) == seq![rest.spec_bytes()]);
            assert(all[done.len() as int] == rest.spec_bytes());
            let sec = Security::from(rest);
            out.push(sec);
            proof {
                done = done.push(rest.spec_bytes());
            }
            assert(done =~= all);
            break;
        }
        let ghost rb = rest.spec_bytes();
        assert(is_first_comma(rb, k as int));
        proof {
            lemma_split_at_first_comma(rb, k as int);
            is_char_boundary_iff_not_is_continuation_byte(rb, k as int);
        }
        let (piece, tail) = rest.split_at(k);
        proof {
            assert(tail.spec_bytes()[0] == 0x2c);
            lemma_boundary_after_ascii(tail.spec_bytes());
        }
        let (_, after) = tail.split_at(1);
        assert(piece.spec_bytes() =~= rb.subrange(0, k as int));
        assert(after.spec_bytes() =~= rb.subrange(k + 1, rb.len() as int));
        assert(all[done.len() as int] == piece.spec_bytes());
        let sec = Security::from(piece);
        out.push(sec);
        proof {
            done = done.push(piece.spec_bytes());
            assert(all =~= done + split_commas(after.spec_bytes()));
        }
        rest = after;
    }
    out
}

/// A reply that reports no success.
#[derive(Debug, Clone, Copy, PartialEq, Eq, Structural)]
pub struct ReplyError {
    /// The outcome code the reply carried.
    pub ret_type: i32,
}

/// What a reply gives its caller: the payload when it reports success, the
/// outcome code otherwise. A successful reply carries a payload.
pub fn reply_result<T>(ret_type: i32, s2c: Option<T>) -> (r: Result<T, ReplyError>)
    requires
        ret_type_of(ret_type) == Some(RetType::Succeed) ==> s2c is Some,
    ensures
        ret_type_of(ret_type) == Some(RetType::Succeed) ==> r == Ok::<T, ReplyError>(s2c.unwrap()),
        ret_type_of(ret_type) != Some(RetType::Succeed) ==> r == Err::<T, ReplyError>(ReplyError { ret_type }),
{
    match RetType::from_i32(ret_type) {
        Some(RetType::Succeed) => Ok(s2c.unwrap()),
        _ => Err(ReplyError { ret_type }),
    }
}

/// The market a two-byte prefix names, letters in either case: 'H' or 'h'
/// then 'K' or 'k' is Hong Kong, 'H' or 'h' then 'Z' or 'z' is Shenzhen,
/// 'S' or 's' then 'H' or 'h' is Shanghai, and any other two bytes name no
/// market.
pub proof fn lemma_market_of_prefix_table(b0: u8, b1: u8)
    ensures
        (market_of_prefix(b0, b1) == QotMarket::HkSecurity) <==> ((b0 == 0x48 || b0 == 0x68) && (
        b1 == 0x4b || b1 == 0x6b)),
        (market_of_prefix(b0, b1) == QotMarket::CnszSecurity) <==> ((b0 == 0x48 || b0 == 0x68) && (
        b1 == 0x5a || b1 == 0x7a)),
        (market_of_prefix(b0, b1) == QotMarket::CnshSecurity) <==> ((b0 == 0x53 || b0 == 0x73) && (
        b1 == 0x48 || b1 == 0x68)),
        (market_of_prefix(b0, b1) == QotMarket::Unknown) <==> !(((b0 == 0x48 || b0 == 0x68) && (b1
            == 0x4b || b1 == 0x6b || b1 == 0x5a || b1 == 0x7a)) || ((b0 == 0x53 || b0 == 0x73) && (
        b1 == 0x48 || b1 == 0x68))),
{
}

/// The code of the security that text names is the text after its first two
/// bytes: its UTF-8 encoding is exactly those bytes.
pub proof fn lemma_security_code_bytes(b: Seq<u8>)
    requires
        valid_utf8(b),
        code_splits(b),
    ensures
        encode_utf8(security_of(b).code) == b.subrange(2, b.len() as int),
{
    valid_utf8_split(b, 2);
    decode_utf8_encode_utf8(b.subrange(2, b.len() as int));
}

/// Pieces joined back together with a comma between each two.
pub open spec fn join_commas(p: Seq<Seq<u8>>) -> Seq<u8>
    decreases p.len(),
{
    if p.len() == 0 {
        Seq::empty()
    } else if p.len() == 1 {
        p[0]
    } else {
        p[0] + seq![0x2cu8] + join_commas(p.drop_first())
    }
}

/// Text with a comma at `i` has a first comma.
proof fn lemma_first_comma_exists(b: Seq<u8>, i: int)
    requires
        0 <= i < b.len(),
        b[i] == 0x2c,
    ensures
        exists|k: int| is_first_comma(b, k),
    decreases i,
{
    if exists|j: int| 0 <= j < i && b[j] == 0x2c {
        let j = choose|j: int| 0 <= j < i && b[j] == 0x2c;
        lemma_first_comma_exists(b, j);
    } else {
        assert(is_first_comma(b, i));
    }
}

/// Splitting text at its commas gives at least one piece, no piece holds a
/// comma, and joining the pieces with commas gives the text back.
pub proof fn lemma_split_commas_join(b: Seq<u8>)
    ensures
        split_commas(b).len() >= 1,
        forall|i: int, j: int|
            0 <= i < split_commas(b).len() && 0 <= j < split_commas(b)[i].len() ==> #[trigger] split_commas(b)[i][j] != 0x2c,
        join_commas(split_commas(b)) == b,
    decreases b.len(),
{
    if exists|k: int| is_first_comma(b, k) {
        let k = choose|k: int| is_first_comma(b, k);
        let head = b.subrange(0, k);
        let rest = b.subrange(k + 1, b.len() as int);
        lemma_split_commas_join(rest);
        let p = split_commas(b);
        assert(p == seq![head] + split_commas(rest));
        assert(p.drop_first() =~= split_commas(rest));
        assert(join_commas(p) == head + seq![0x2cu8] + join_commas(split_commas(rest)));
        assert(head + seq![0x2cu8] + rest =~= b);
        assert forall|i: int, j: int|
            0 <= i < p.len() && 0 <= j < p[i].len() implies #[trigger] p[i][j] != 0x2c by {
            if i > 0 {
                assert(p[i] == split_commas(rest)[i - 1]);
            }
        }
    } else {
        assert forall|j: int| 0 <= j < b.len() implies b[j] != 0x2c by {
            if b[j] == 0x2c {
                lemma_first_comma_exists(b, j);
            }
        }
    }
}

/// Valid UTF-8 text can be cut after two bytes exactly when it is two bytes
/// long, or longer with a third byte that is not a continuation byte
/// (0x80 to 0xbf).
pub proof fn lemma_code_splits_iff(b: Seq<u8>)
    requires
        valid_utf8(b),
    ensures
        code_splits(b) <==> (b.len() == 2 || (b.len() > 2 && !(0x80 <= b[2] <= 0xbf))),
{
    if b.len() == 2 {
        is_char_boundary_start_end_of_seq(b);
    } else if b.len() > 2 {
        is_char_boundary_iff_not_is_continuation_byte(b, 2);
    }
}

} // verus!
