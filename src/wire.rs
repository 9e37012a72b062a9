use vstd::prelude::*;

use crate::errors::{OracleError, WireError};

verus! {

/// The eight big-endian bytes of a bitmask: its fixed-width wire bit pattern.
pub open spec fn be_bytes(v: u64) -> Seq<u8> {
    seq![
        (v >> 56u64) as u8,
        (v >> 48u64) as u8,
        (v >> 40u64) as u8,
        (v >> 32u64) as u8,
        (v >> 24u64) as u8,
        (v >> 16u64) as u8,
        (v >> 8u64) as u8,
        v as u8,
    ]
}

/// The bitmask that eight big-endian bytes stand for.
pub open spec fn be_value(b: Seq<u8>) -> u64
    recommends
        b.len() == 8,
{
    (b[0] as u64) << 56u64 | (b[1] as u64) << 48u64 | (b[2] as u64) << 40u64 | (b[3] as u64)
        << 32u64 | (b[4] as u64) << 24u64 | (b[5] as u64) << 16u64 | (b[6] as u64) << 8u64 | (
    b[7] as u64)
}

/// What base64 with the standard alphabet and padding makes of a byte string.
pub uninterp spec fn base64_of(b: Seq<u8>) -> Seq<char>;

/// Text form of a bitmask in stored and served status documents.
pub open spec fn wire_text(v: u64) -> Seq<char> {
    base64_of(be_bytes(v))
}

/// Relies on base64's `STANDARD` engine `encode`: padded standard-alphabet text of the bytes.
#[verifier::external_body]
fn base64_encode(b: &[u8]) -> (r: String)
    requires
        b@.len() <= 1024,
    ensures
        r@ == base64_of(b@),
{
    base64::Engine::encode(&base64::engine::general_purpose::STANDARD, b)
}

/// Relies on base64's `STANDARD` engine `decode`, which requires canonical padding and
/// rejects trailing bits: it accepts exactly the encodings of byte strings, and gives
/// back the bytes encoded.
#[verifier::external_body]
fn base64_decode(s: &str) -> (r: Option<Vec<u8>>)
    ensures
        r is Some ==> base64_of(r->Some_0@) == s@,
        forall|b: Seq<u8>| #[trigger] base64_of(b) == s@ ==> r is Some && r->Some_0@ == b,
{
    base64::Engine::decode(&base64::engine::general_purpose::STANDARD, s).ok()
}

/// The big-endian bytes of a bitmask.
pub fn status_to_bytes(v: u64) -> (r: Vec<u8>)
    ensures
        r@ == be_bytes(v),
{
    let r = vec![
        (v >> 56u64) as u8,
        (v >> 48u64) as u8,
        (v >> 40u64) as u8,
        (v >> 32u64) as u8,
        (v >> 24u64) as u8,
        (v >> 16u64) as u8,
        (v >> 8u64) as u8,
        v as u8,
    ];
    assert(r@ =~= be_bytes(v));
    r
}

/// The bitmask of eight big-endian bytes; any other length is refused.
pub fn status_from_bytes(b: &[u8]) -> (r: Option<u64>)
    ensures
        r is Some <==> b@.len() == 8,
        r is Some ==> r->Some_0 == be_value(b@),
{
    if b.len() != 8 {
        return None;
    }
    Some(
        (b[0] as u64) << 56u64 | (b[1] as u64) << 48u64 | (b[2] as u64) << 40u64 | (b[3] as u64)
            << 32u64 | (b[4] as u64) << 24u64 | (b[5] as u64) << 16u64 | (b[6] as u64) << 8u64 | (
        b[7] as u64),
    )
}

/// Encoding a bitmask to its wire bit pattern and decoding it back gives the bitmask.
pub proof fn lemma_status_bytes_round_trip(v: u64)
    ensures
        be_bytes(v).len() == 8,
        be_value(be_bytes(v)) == v,
{
    assert(((v >> 56u64) as u8 as u64) << 56u64 | ((v >> 48u64) as u8 as u64) << 48u64 | ((v
        >> 40u64) as u8 as u64) << 40u64 | ((v >> 32u64) as u8 as u64) << 32u64 | ((v >> 24u64)
        as u8 as u64) << 24u64 | ((v >> 16u64) as u8 as u64) << 16u64 | ((v >> 8u64) as u8 as u64)
        << 8u64 | (v as u8 as u64) == v) by (bit_vector);
}

proof fn lemma_be_value_bytes(b0: u8, b1: u8, b2: u8, b3: u8, b4: u8, b5: u8, b6: u8, b7: u8)
    by (bit_vector)
    ensures
        ({
            let v = (b0 as u64) << 56u64 | (b1 as u64) << 48u64 | (b2 as u64) << 40u64 | (b3 as u64)
                << 32u64 | (b4 as u64) << 24u64 | (b5 as u64) << 16u64 | (b6 as u64) << 8u64 | (
            b7 as u64);
            &&& (v >> 56u64) as u8 == b0
            &&& (v >> 48u64) as u8 == b1
            &&& (v >> 40u64) as u8 == b2
            &&& (v >> 32u64) as u8 == b3
            &&& (v >> 24u64) as u8 == b4
            &&& (v >> 16u64) as u8 == b5
            &&& (v >> 8u64) as u8 == b6
            &&& v as u8 == b7
        }),
{
}

/// Text form of a bitmask: base64 of its big-endian bytes.
pub fn u64_to_base64(num: u64) -> (r: String)
    ensures
        r@ == wire_text(num),
{
    let bytes = status_to_bytes(num);
    base64_encode(bytes.as_slice())
}

/// The bitmask that a text form stands for. Text that is not base64 and base64 of
/// anything but eight bytes are refused.
pub fn base64_to_u64(s: &str) -> (r: Result<u64, WireError>)
    ensures
        r is Ok ==> s@ == wire_text(r->Ok_0),
        forall|v: u64| #[trigger] wire_text(v) == s@ ==> r == Ok::<u64, WireError>(v),
        r == Err::<u64, WireError>(WireError::InvalidBase64) <==> !exists|b: Seq<u8>|
            #[trigger] base64_of(b) == s@,
{
    let decoded = match base64_decode(s) {
        Some(d) => d,
        None => return Err(WireError::InvalidBase64),
    };
    proof {
        assert forall|v: u64| #[trigger] wire_text(v) == s@ implies decoded@ == be_bytes(v) by {}
        assert forall|v: u64| #[trigger] wire_text(v) == s@ implies be_value(decoded@) == v by {
            lemma_status_bytes_round_trip(v);
        }
    }
    match status_from_bytes(decoded.as_slice()) {
        Some(v) => {
            proof {
                let b = decoded@;
                lemma_be_value_bytes(b[0], b[1], b[2], b[3], b[4], b[5], b[6], b[7]);
                assert(decoded@ =~= be_bytes(v));
            }
            Ok(v)
        },
        None => Err(WireError::InvalidLength),
    }
}

/// Lower-case hex digit of a value below sixteen.
pub open spec fn hex_char(d: u8) -> char {
    if d < 10 {
        (('0' as u8) + d) as char
    } else {
        (('a' as u8) + d - 10) as char
    }
}

/// Lower-case hex text of a byte string, two digits per byte, without prefix.
pub open spec fn hex_text(b: Seq<u8>) -> Seq<char>
    decreases b.len(),
{
    if b.len() == 0 {
        Seq::empty()
    } else {
        hex_text(b.drop_last()) + seq![hex_char(b.last() >> 4u8), hex_char(b.last() & 15u8)]
    }
}

pub open spec fn is_hex_digit(c: char) -> bool {
    ('0' <= c <= '9') || ('a' <= c <= 'f') || ('A' <= c <= 'F')
}

/// Value of a hex digit of either case.
pub open spec fn hex_value(c: char) -> int {
    if '0' <= c <= '9' {
        c as int - '0' as int
    } else if 'a' <= c <= 'f' {
        c as int - 'a' as int + 10
    } else {
        c as int - 'A' as int + 10
    }
}

/// The bytes that an even number of hex digits stand for.
pub open spec fn hex_bytes(s: Seq<char>) -> Seq<u8>
    decreases s.len(),
{
    if s.len() < 2 {
        Seq::empty()
    } else {
        hex_bytes(s.subrange(0, s.len() - 2)).push(
            (hex_value(s[s.len() - 2]) * 16 + hex_value(s[s.len() - 1])) as u8,
        )
    }
}

/// Hex text without its optional `0x` or `0X` prefix.
pub open spec fn without_hex_prefix(s: Seq<char>) -> Seq<char> {
    if s.len() >= 2 && s[0] == '0' && (s[1] == 'x' || s[1] == 'X') {
        s.subrange(2, s.len() as int)
    } else {
        s
    }
}

/// Hex text, with optional prefix, that stands for exactly `n` bytes.
pub open spec fn is_hex_of_len(s: Seq<char>, n: nat) -> bool {
    let d = without_hex_prefix(s);
    &&& d.len() == 2 * n
    &&& forall|i: int| 0 <= i < d.len() ==> is_hex_digit(#[trigger] d[i])
}

fn hex_digit_str(d: u8) -> (r: &'static str)
    requires
        d < 16,
    ensures
        r@ == seq![hex_char(d)],
{
    let digits = "0123456789abcdef";
    proof {
        reveal_strlit("0123456789abcdef");
    }
    let r = digits.substring_ascii(d as usize, d as usize + 1);
    assert(r@ =~= seq![hex_char(d)]);
    r
}

/// Lower-case hex text of a byte string.
pub fn encode_hex(b: &[u8]) -> (r: String)
    ensures
        r@ == hex_text(b@),
{
    let mut r = String::new();
    let mut i: usize = 0;
    while i < b.len()
        invariant
            i <= b@.len(),
            r@ == hex_text(b@.subrange(0, i as int)),
        decreases b@.len() - i,
    {
        assert(b@.subrange(0, i + 1).drop_last() =~= b@.subrange(0, i as int));
        let byte = b[i];
        assert(byte >> 4u8 < 16 && byte & 15u8 < 16) by (bit_vector);
        r.append(hex_digit_str(byte >> 4u8));
        r.append(hex_digit_str(byte & 15u8));
        i = i + 1;
    }
    assert(b@.subrange(0, b@.len() as int) =~= b@);
    r
}

fn hex_digit_value(c: char) -> (r: Option<u8>)
    ensures
        r is Some <==> is_hex_digit(c),
        r is Some ==> r->Some_0 as int == hex_value(c) && r->Some_0 < 16,
{
    if '0' <= c && c <= '9' {
        Some((c as u32 - '0' as u32) as u8)
    } else if 'a' <= c && c <= 'f' {
        Some((c as u32 - 'a' as u32 + 10) as u8)
    } else if 'A' <= c && c <= 'F' {
        Some((c as u32 - 'A' as u32 + 10) as u8)
    } else {
        None
    }
}

/// The 32 bytes of an on-chain request id given as hex text, with or without `0x`.
pub fn decode_request_id(request_id: &str) -> (r: Result<Vec<u8>, OracleError>)
    ensures
        r is Ok <==> is_hex_of_len(request_id@, 32),
        r is Ok ==> r->Ok_0@ == hex_bytes(without_hex_prefix(request_id@)),
        r is Err ==> r->Err_0 == OracleError::InvalidRequestId,
{
    let n = request_id.unicode_len();
    let mut start: usize = 0;
    if n >= 2 {
        let c1 = request_id.get_char(1);
        if request_id.get_char(0) == '0' && (c1 == 'x' || c1 == 'X') {
            start = 2;
        }
    }
    let ghost d = without_hex_prefix(request_id@);
    assert(d =~= request_id@.subrange(start as int, n as int));
    if n - start != 64 {
        return Err(OracleError::InvalidRequestId);
    }
    let mut out: Vec<u8> = Vec::new();
    let mut k: usize = 0;
    while k < 32
        invariant
            n == request_id@.len(),
            start + 64 == n,
            d == request_id@.subrange(start as int, n as int),
            k <= 32,
            forall|i: int| 0 <= i < 2 * k ==> is_hex_digit(#[trigger] d[i]),
            out@ == hex_bytes(d.subrange(0, 2 * k)),
        decreases 32 - k,
    {
        let hi = match hex_digit_value(request_id.get_char(start + 2 * k)) {
            Some(v) => v,
            None => {
                assert(d[2 * k as int] == request_id@[start + 2 * k]);
                return Err(OracleError::InvalidRequestId);
            },
        };
        let lo = match hex_digit_value(request_id.get_char(start + 2 * k + 1)) {
            Some(v) => v,
            None => {
                assert(d[2 * k + 1] == request_id@[start + 2 * k + 1]);
                return Err(OracleError::InvalidRequestId);
            },
        };
        proof {
            let p = d.subrange(0, 2 * k + 2);
            assert(p.subrange(0, p.len() - 2) =~= d.subrange(0, 2 * k));
            assert(p[p.len() - 2] == d[2 * k]);
            assert(p[p.len() - 1] == d[2 * k + 1]);
        }
        out.push(hi * 16 + lo);
        k = k + 1;
    }
    assert(d.subrange(0, 64) =~= d);
    Ok(out)
}

/// One 32-byte ABI word holding an unsigned value: zeros, then its big-endian bytes.
pub open spec fn abi_word(v: u64) -> Seq<u8> {
    Seq::new(24, |i: int| 0u8) + be_bytes(v)
}

/// Relies on alloy_sol_types' `SolValue::abi_encode` for a `(u64, u64)` tuple: a static
/// tuple is encoded in place as one 32-byte word per member, each `uint64` left-padded
/// with zeros to 32 bytes, big-endian.
#[verifier::external_body]
fn abi_encode_pair(first: u64, second: u64) -> (r: Vec<u8>)
    ensures
        r@ == abi_word(first) + abi_word(second),
{
    alloy_sol_types::SolValue::abi_encode(&(first, second))
}

/// The response blob of a fulfilled request: the ABI encoding of `(time, status)`.
pub fn encode_last_status_response(time: u64, status: u64) -> (r: Vec<u8>)
    ensures
        r@ == abi_word(time) + abi_word(status),
        r@.len() == 64,
{
    abi_encode_pair(time, status)
}

} // verus!
