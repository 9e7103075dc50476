//! PTP-IP (ISO 15740 over TCP): the wire format and the protocol's decisions.
//!
//! Everything here is a function of bytes or of a small protocol state. The sockets, the
//! timeouts and the loop that drains the event channel live with the application; they hand
//! the bytes they read to these functions and send the bytes these functions build.
//!
//! All multi-byte integers are little-endian.

use vstd::prelude::*;

use super::error::{is_protocol, short_message, CameraError, CameraResult};
use crate::text::{
    decimal, hex_fixed, owned, push_chars, push_decimal, push_hex, push_str, string_from,
};

verus! {

// Packet types.
pub const INIT_COMMAND_REQUEST: u32 = 1;
pub const INIT_COMMAND_ACK: u32 = 2;
pub const INIT_EVENT_REQUEST: u32 = 3;
pub const INIT_EVENT_ACK: u32 = 4;
pub const INIT_FAIL: u32 = 5;
pub const OPERATION_REQUEST: u32 = 6;
pub const OPERATION_RESPONSE: u32 = 7;
pub const EVENT: u32 = 8;
pub const START_DATA: u32 = 9;
pub const DATA: u32 = 10;
pub const END_DATA: u32 = 12;
/// The camera's liveness check. A body that gets no answer closes the session.
pub const PROBE_REQUEST: u32 = 13;
pub const PROBE_RESPONSE: u32 = 14;

// Operations.
pub const OP_GET_DEVICE_INFO: u16 = 0x1001;
pub const OP_OPEN_SESSION: u16 = 0x1002;
pub const OP_CLOSE_SESSION: u16 = 0x1003;
pub const OP_GET_STORAGE_IDS: u16 = 0x1004;
pub const OP_GET_OBJECT_HANDLES: u16 = 0x1007;
pub const OP_GET_OBJECT_INFO: u16 = 0x1008;
pub const OP_GET_OBJECT: u16 = 0x1009;
pub const OP_GET_DEVICE_PROP_DESC: u16 = 0x1014;
pub const OP_SET_DEVICE_PROP_VALUE: u16 = 0x1016;
/// Every storage the camera has, rather than naming one.
pub const STORAGE_ALL: u32 = 0xFFFF_FFFF;
/// The root of the object hierarchy, meaning "do not filter by folder".
pub const PARENT_ANY: u32 = 0x0000_0000;

/// EXIF/JPEG.
pub const FORMAT_EXIF_JPEG: u16 = 0x3801;
/// Plain JFIF, in case a body reports that instead.
pub const FORMAT_JFIF: u16 = 0x3808;

pub const RESPONSE_OK: u16 = 0x2001;
pub const RESPONSE_OPERATION_NOT_SUPPORTED: u16 = 0x2005;
pub const RESPONSE_DEVICE_PROP_NOT_SUPPORTED: u16 = 0x200A;
/// The body is mid-operation and will not take another one yet.
pub const RESPONSE_DEVICE_BUSY: u16 = 0x2019;

// Data types.
pub const TYPE_INT8: u16 = 0x0001;
pub const TYPE_UINT8: u16 = 0x0002;
pub const TYPE_INT16: u16 = 0x0003;
pub const TYPE_UINT16: u16 = 0x0004;
pub const TYPE_INT32: u16 = 0x0005;
pub const TYPE_UINT32: u16 = 0x0006;

pub const PROTOCOL_VERSION: u32 = 0x0001_0000;

/// One *file* was written - twice per exposure for RAW+JPEG, so not a frame signal.
pub const EVENT_OBJECT_ADDED: u16 = 0x4002;
pub const EVENT_DEVICE_PROP_CHANGED: u16 = 0x4006;
/// The camera changed its device profile.
pub const EVENT_DEVICE_INFO_CHANGED: u16 = 0x4008;
/// One *exposure* finished: exactly one per frame.
pub const EVENT_CAPTURE_COMPLETE: u16 = 0x400D;

pub open spec fn spec_is_jpeg(format: u16) -> bool {
    format == FORMAT_EXIF_JPEG || format == FORMAT_JFIF
}

/// Whether an object format is one worth pulling for a preview.
pub fn is_jpeg(format: u16) -> (r: bool)
    ensures
        r == spec_is_jpeg(format),
{
    format == FORMAT_EXIF_JPEG || format == FORMAT_JFIF
}

// ---------------------------------------------------------------------------------------------
// Little-endian integers
// ---------------------------------------------------------------------------------------------

pub open spec fn le16(s: Seq<u8>, at: int) -> int {
    s[at] as int + 256 * (s[at + 1] as int)
}

pub open spec fn le32(s: Seq<u8>, at: int) -> int {
    s[at] as int + 256 * (s[at + 1] as int) + 65536 * (s[at + 2] as int) + 16777216 * (
    s[at + 3] as int)
}

pub open spec fn bytes16(v: int) -> Seq<u8> {
    seq![(v % 256) as u8, ((v / 256) % 256) as u8]
}

pub open spec fn bytes32(v: int) -> Seq<u8> {
    seq![
        (v % 256) as u8,
        ((v / 256) % 256) as u8,
        ((v / 65536) % 256) as u8,
        ((v / 16777216) % 256) as u8,
    ]
}

pub open spec fn bytes64(v: int) -> Seq<u8> {
    bytes32(v % 4294967296) + bytes32(v / 4294967296)
}

pub fn read16(s: &[u8], at: usize) -> (v: u16)
    requires
        at + 2 <= s@.len(),
    ensures
        v == le16(s@, at as int),
{
    (s[at] as u16) + (s[at + 1] as u16) * 256
}

pub fn read32(s: &[u8], at: usize) -> (v: u32)
    requires
        at + 4 <= s@.len(),
    ensures
        v == le32(s@, at as int),
{
    (s[at] as u32) + (s[at + 1] as u32) * 256 + (s[at + 2] as u32) * 65536 + (s[at + 3] as u32)
        * 16777216
}

pub fn push16(out: &mut Vec<u8>, v: u16)
    ensures
        final(out)@ == old(out)@ + bytes16(v as int),
{
    out.push((v % 256) as u8);
    out.push(((v / 256) % 256) as u8);
    assert(out@ =~= old(out)@ + bytes16(v as int));
}

pub fn push32(out: &mut Vec<u8>, v: u32)
    ensures
        final(out)@ == old(out)@ + bytes32(v as int),
{
    out.push((v % 256) as u8);
    out.push(((v / 256) % 256) as u8);
    out.push(((v / 65536) % 256) as u8);
    out.push(((v / 16777216) % 256) as u8);
    assert(out@ =~= old(out)@ + bytes32(v as int));
}

pub fn push64(out: &mut Vec<u8>, v: u64)
    ensures
        final(out)@ == old(out)@ + bytes64(v as int),
{
    push32(out, (v % 4294967296) as u32);
    push32(out, (v / 4294967296) as u32);
    assert(out@ =~= old(out)@ + bytes64(v as int));
}

pub fn push_bytes(out: &mut Vec<u8>, s: &[u8])
    ensures
        final(out)@ == old(out)@ + s@,
{
    let mut k: usize = 0;
    while k < s.len()
        invariant
            k <= s@.len(),
            out@ == old(out)@ + s@.subrange(0, k as int),
        decreases s@.len() - k,
    {
        out.push(s[k]);
        k = k + 1;
        assert(out@ =~= old(out)@ + s@.subrange(0, k as int));
    }
    assert(s@.subrange(0, s@.len() as int) =~= s@);
}

/// Reading back what was written gives the value that was written.
pub proof fn bytes16_round_trip(v: u16)
    ensures
        le16(bytes16(v as int), 0) == v,
{
}

/// Reading back what was written gives the value that was written.
pub proof fn bytes32_round_trip(v: u32)
    ensures
        le32(bytes32(v as int), 0) == v,
{
}

// ---------------------------------------------------------------------------------------------
// UTF-16
// ---------------------------------------------------------------------------------------------

/// A Unicode scalar value: anything up to U+10FFFF outside the surrogate range.
pub open spec fn is_scalar(v: int) -> bool {
    (0 <= v && v < 0xD800) || (0xE000 <= v && v < 0x110000)
}

/// Converts a code point to a `char`.
///
/// Trusted: calls `char::from_u32`, documented to return the character for every Unicode
/// scalar value and `None` for surrogates and anything past U+10FFFF. The contract claims
/// exactly that.
#[verifier::external_body]
pub(crate) fn char_from_u32(v: u32) -> (r: Option<char>)
    ensures
        r == (if is_scalar(v as int) { Some((v as int) as char) } else { None::<char> }),
{
    char::from_u32(v)
}

/// Standard UTF-16 decoding: a unit outside the surrogate range is a character by itself, a
/// high surrogate followed by a low one is a character past the basic plane, and a surrogate
/// in any other position makes the whole sequence malformed.
pub open spec fn decode_utf16(u: Seq<u16>) -> Option<Seq<char>>
    decreases u.len(),
{
    if u.len() == 0 {
        Some(Seq::empty())
    } else if u[0] < 0xD800 || u[0] > 0xDFFF {
        match decode_utf16(u.drop_first()) {
            Some(rest) => Some(seq![(u[0] as int) as char] + rest),
            None => None,
        }
    } else if u[0] <= 0xDBFF && u.len() >= 2 && 0xDC00 <= u[1] && u[1] <= 0xDFFF {
        match decode_utf16(u.subrange(2, u.len() as int)) {
            Some(rest) => Some(
                seq![(0x10000 + (u[0] - 0xD800) * 1024 + (u[1] - 0xDC00)) as char] + rest,
            ),
            None => None,
        }
    } else {
        None
    }
}

/// Standard UTF-16 encoding of one character.
pub open spec fn encode_char(c: char) -> Seq<u16> {
    let v = (c as u32) as int;
    if v < 0x10000 {
        seq![v as u16]
    } else {
        seq![(0xD800 + (v - 0x10000) / 1024) as u16, (0xDC00 + (v - 0x10000) % 1024) as u16]
    }
}

pub open spec fn encode_utf16(s: Seq<char>) -> Seq<u16>
    decreases s.len(),
{
    if s.len() == 0 {
        Seq::empty()
    } else {
        encode_char(s[0]) + encode_utf16(s.drop_first())
    }
}

/// Little-endian bytes of a run of 16-bit units.
pub open spec fn units_bytes(u: Seq<u16>) -> Seq<u8>
    decreases u.len(),
{
    if u.len() == 0 {
        Seq::empty()
    } else {
        bytes16(u[0] as int) + units_bytes(u.drop_first())
    }
}

/// The 16-bit units packed into `raw`, two bytes each; a trailing odd byte is dropped.
pub open spec fn units_of(raw: Seq<u8>) -> Seq<u16> {
    Seq::new((raw.len() / 2) as nat, |i: int| le16(raw, 2 * i) as u16)
}

/// The units before the first zero, or all of them when there is none.
pub open spec fn before_nul(u: Seq<u16>) -> Seq<u16>
    decreases u.len(),
{
    if u.len() == 0 {
        u
    } else if u[0] == 0 {
        Seq::empty()
    } else {
        seq![u[0]] + before_nul(u.drop_first())
    }
}

pub open spec fn after_chars(front: Seq<char>, rest: Option<Seq<char>>) -> Option<Seq<char>> {
    match rest {
        Some(r) => Some(front + r),
        None => None,
    }
}

/// Decode UTF-16, refusing unpaired surrogates.
pub fn decode_units(u: &[u16]) -> (r: Option<Vec<char>>)
    ensures
        match r {
            Some(cs) => decode_utf16(u@) == Some(cs@),
            None => decode_utf16(u@) is None,
        },
{
    let n = u.len();
    let mut out: Vec<char> = Vec::new();
    let mut i: usize = 0;
    assert(u@.subrange(0, n as int) =~= u@);
    while i < n
        invariant
            n == u@.len(),
            i <= n,
            decode_utf16(u@) == after_chars(out@, decode_utf16(u@.subrange(i as int, n as int))),
        decreases n - i,
    {
        let ghost rest = u@.subrange(i as int, n as int);
        let ghost before = out@;
        let unit = u[i];
        if unit < 0xD800 || unit > 0xDFFF {
            assert(rest.drop_first() =~= u@.subrange(i + 1, n as int));
            let c = char_from_u32(unit as u32);
            match c {
                Some(ch) => {
                    out.push(ch);
                    i = i + 1;
                    proof {
                        let tail = decode_utf16(u@.subrange(i as int, n as int));
                        if let Some(t) = tail {
                            assert(before + (seq![ch] + t) =~= out@ + t);
                        }
                    }
                },
                None => {
                    return None;
                },
            }
        } else if unit <= 0xDBFF && i + 1 < n && 0xDC00 <= u[i + 1] && u[i + 1] <= 0xDFFF {
            let low = u[i + 1];
            assert(rest.subrange(2, rest.len() as int) =~= u@.subrange(i + 2, n as int));
            let v: u32 = 0x10000 + ((unit as u32) - 0xD800) * 1024 + ((low as u32) - 0xDC00);
            let c = char_from_u32(v);
            match c {
                Some(ch) => {
                    out.push(ch);
                    i = i + 2;
                    proof {
                        let tail = decode_utf16(u@.subrange(i as int, n as int));
                        if let Some(t) = tail {
                            assert(before + (seq![ch] + t) =~= out@ + t);
                        }
                    }
                },
                None => {
                    return None;
                },
            }
        } else {
            return None;
        }
    }
    assert(u@.subrange(n as int, n as int) =~= Seq::<u16>::empty());
    assert(out@ + Seq::<char>::empty() =~= out@);
    Some(out)
}

/// Encode text as UTF-16LE with a terminating zero unit, as the handshake packets carry it.
pub fn utf16z(text: &str) -> (r: Vec<u8>)
    ensures
        r@ == units_bytes(encode_utf16(text@)) + seq![0u8, 0u8],
{
    let cs = crate::text::chars_of(text);
    let n = cs.len();
    let mut out: Vec<u8> = Vec::new();
    let mut i: usize = 0;
    assert(cs@.subrange(0, n as int) =~= cs@);
    assert(out@ + units_bytes(encode_utf16(cs@)) =~= units_bytes(encode_utf16(cs@)));
    while i < n
        invariant
            n == cs@.len(),
            cs@ == text@,
            i <= n,
            units_bytes(encode_utf16(cs@)) == out@ + units_bytes(
                encode_utf16(cs@.subrange(i as int, n as int)),
            ),
        decreases n - i,
    {
        let ghost rest = cs@.subrange(i as int, n as int);
        let ghost before = out@;
        assert(rest.drop_first() =~= cs@.subrange(i + 1, n as int));
        let c = cs[i];
        proof {
            vstd::utf8::char_is_scalar(c);
            assert(rest[0] == c);
            assert(encode_utf16(rest) == encode_char(c) + encode_utf16(rest.drop_first()));
            lemma_units_bytes_concat(encode_char(c), encode_utf16(rest.drop_first()));
        }
        let v = c as u32;
        if v < 0x10000 {
            push16(&mut out, v as u16);
            proof {
                assert(encode_char(c) =~= seq![v as u16]);
                assert(seq![v as u16].drop_first() =~= Seq::<u16>::empty());
                assert(units_bytes(seq![v as u16]) =~= bytes16(v as int) + units_bytes(
                    Seq::<u16>::empty(),
                ));
                assert(out@ =~= before + units_bytes(encode_char(c)));
            }
        } else {
            let hi: u16 = (0xD800 + (v - 0x10000) / 1024) as u16;
            let lo: u16 = (0xDC00 + (v - 0x10000) % 1024) as u16;
            push16(&mut out, hi);
            push16(&mut out, lo);
            proof {
                assert(encode_char(c) =~= seq![hi, lo]);
                assert(seq![hi, lo].drop_first() =~= seq![lo]);
                assert(seq![lo].drop_first() =~= Seq::<u16>::empty());
                assert(units_bytes(seq![lo]) =~= bytes16(lo as int) + units_bytes(
                    Seq::<u16>::empty(),
                ));
                assert(units_bytes(encode_char(c)) =~= bytes16(hi as int) + bytes16(lo as int));
                assert(out@ =~= before + units_bytes(encode_char(c)));
            }
        }
        assert(before + (units_bytes(encode_char(c)) + units_bytes(encode_utf16(rest.drop_first())))
            =~= out@ + units_bytes(encode_utf16(rest.drop_first())));
        i = i + 1;
    }
    assert(cs@.subrange(n as int, n as int) =~= Seq::<char>::empty());
    out.push(0);
    out.push(0);
    out
}

proof fn lemma_units_bytes_concat(a: Seq<u16>, b: Seq<u16>)
    ensures
        units_bytes(a + b) == units_bytes(a) + units_bytes(b),
    decreases a.len(),
{
    if a.len() == 0 {
        assert(a + b =~= b);
    } else {
        lemma_units_bytes_concat(a.drop_first(), b);
        assert((a + b).drop_first() =~= a.drop_first() + b);
    }
}

/// Text with no NUL character, which is what a zero-terminated encoding can carry.
pub open spec fn free_of_nul(t: Seq<char>) -> bool {
    forall|i: int| 0 <= i < t.len() ==> t[i] != '\0'
}

/// A name written the way the handshake writes it reads back as the same name, provided it
/// holds no NUL character (the first zero unit ends the string).
pub proof fn utf16z_round_trip(text: Seq<char>)
    requires
        free_of_nul(text),
    ensures
        spec_utf16z(units_bytes(encode_utf16(text)) + seq![0u8, 0u8], 0) == Some(
            (text, units_bytes(encode_utf16(text)).len() + 2int),
        ),
{
    let u = encode_utf16(text);
    let s = units_bytes(u) + seq![0u8, 0u8];
    lemma_encode_free_of_zero(text);
    lemma_units_bytes_len(u);
    assert(s.subrange(0, 2 * u.len() + 2 as int) =~= s);
    lemma_zero_terminated(u, s, 0);
    lemma_decode_encode(text);
}

proof fn lemma_units_bytes_len(u: Seq<u16>)
    ensures
        units_bytes(u).len() == 2 * u.len(),
    decreases u.len(),
{
    if u.len() > 0 {
        lemma_units_bytes_len(u.drop_first());
    }
}

proof fn lemma_zero_terminated(u: Seq<u16>, s: Seq<u8>, at: int)
    requires
        0 <= at,
        at + 2 * u.len() + 2 <= s.len(),
        s.subrange(at, at + 2 * u.len() + 2) == units_bytes(u) + seq![0u8, 0u8],
        forall|i: int| 0 <= i < u.len() ==> u[i] != 0,
    ensures
        spec_utf16z_units(s, at) == Some((u, at + 2 * u.len() + 2)),
    decreases u.len(),
{
    lemma_units_bytes_len(u);
    let w = units_bytes(u) + seq![0u8, 0u8];
    assert(s[at] == w[0]);
    assert(s[at + 1] == w[1]);
    if u.len() == 0 {
        assert(w[0] == 0u8 && w[1] == 0u8);
    } else {
        let rest = u.drop_first();
        lemma_units_bytes_len(rest);
        assert(units_bytes(u) == bytes16(u[0] as int) + units_bytes(rest));
        assert(w[0] == (u[0] % 256) as u8);
        assert(w[1] == ((u[0] / 256) % 256) as u8);
        bytes16_round_trip(u[0]);
        assert(le16(s, at) == u[0]);
        assert(s.subrange(at + 2, at + 2 + 2 * rest.len() + 2) =~= units_bytes(rest) + seq![
            0u8,
            0u8,
        ]) by {
            assert(w =~= bytes16(u[0] as int) + (units_bytes(rest) + seq![0u8, 0u8]));
            let sub = s.subrange(at + 2, at + 2 + 2 * rest.len() + 2);
            assert forall|k: int| 0 <= k < 2 * rest.len() + 2 implies #[trigger] sub[k]
                == (units_bytes(rest) + seq![0u8, 0u8])[k] by {
                assert(sub[k] == s[at + 2 + k]);
                assert(s.subrange(at, at + 2 * u.len() + 2)[2 + k] == s[at + 2 + k]);
                assert(s[at + 2 + k] == w[2 + k]);
                assert(w[2 + k] == (units_bytes(rest) + seq![0u8, 0u8])[k]);
            }
        }
        lemma_zero_terminated(rest, s, at + 2);
        assert(seq![le16(s, at) as u16] + rest =~= u);
    }
}

proof fn lemma_encode_free_of_zero(t: Seq<char>)
    requires
        free_of_nul(t),
    ensures
        forall|i: int| 0 <= i < encode_utf16(t).len() ==> encode_utf16(t)[i] != 0,
    decreases t.len(),
{
    if t.len() > 0 {
        lemma_encode_free_of_zero(t.drop_first());
        let c = t[0];
        vstd::utf8::char_is_scalar(c);
        assert(c != '\0');
        let e = encode_char(c);
        assert(('\0' as u32) == 0);
        if (c as u32) == 0 {
            vstd::utf8::char_u32_cast(c, 0u32);
            vstd::utf8::char_u32_cast('\0', 0u32);
        }
        assert((c as u32) != 0);
        assert(encode_utf16(t) == e + encode_utf16(t.drop_first()));
        assert forall|i: int| 0 <= i < encode_utf16(t).len() implies encode_utf16(t)[i] != 0 by {
            if i >= e.len() {
                assert(encode_utf16(t)[i] == encode_utf16(t.drop_first())[i - e.len()]);
            }
        }
    }
}

proof fn lemma_decode_encode(t: Seq<char>)
    ensures
        decode_utf16(encode_utf16(t)) == Some(t),
    decreases t.len(),
{
    if t.len() == 0 {
        assert(encode_utf16(t) =~= Seq::<u16>::empty());
    } else {
        let c = t[0];
        let rest = t.drop_first();
        lemma_decode_encode(rest);
        vstd::utf8::char_is_scalar(c);
        vstd::utf8::char_u32_cast(c, c as u32);
        let v = (c as u32) as int;
        let u = encode_utf16(t);
        assert(u == encode_char(c) + encode_utf16(rest));
        if v < 0x10000 {
            assert(u.drop_first() =~= encode_utf16(rest));
            assert(u[0] == v);
            assert(((u[0] as int) as char) == c);
            assert(seq![c] + rest =~= t);
        } else {
            let hi = (0xD800 + (v - 0x10000) / 1024) as u16;
            let lo = (0xDC00 + (v - 0x10000) % 1024) as u16;
            assert(u[0] == hi && u[1] == lo);
            assert(u.subrange(2, u.len() as int) =~= encode_utf16(rest));
            assert(0x10000 + (hi - 0xD800) * 1024 + (lo - 0xDC00) == v);
            assert(seq![c] + rest =~= t);
        }
    }
}

// ---------------------------------------------------------------------------------------------
// Values and datasets
// ---------------------------------------------------------------------------------------------

/// A PTP property value, in whatever width the property declares.
#[derive(Debug, Clone, Copy, PartialEq, Eq, Structural)]
pub enum PtpValue {
    I8(i8),
    U8(u8),
    I16(i16),
    U16(u16),
    I32(i32),
    U32(u32),
}

/// The value widened to 32 bits the way `as u32` widens it: signed values sign-extend.
pub open spec fn value_u32(v: PtpValue) -> u32 {
    match v {
        PtpValue::I8(x) => x as u32,
        PtpValue::U8(x) => x as u32,
        PtpValue::I16(x) => x as u32,
        PtpValue::U16(x) => x as u32,
        PtpValue::I32(x) => x as u32,
        PtpValue::U32(x) => x,
    }
}

impl PtpValue {
    /// Numeric value, widened. Every exposure property touched here is an unsigned count.
    pub fn as_u32(self) -> (r: u32)
        ensures
            r == value_u32(self),
    {
        match self {
            PtpValue::I8(v) => v as u32,
            PtpValue::U8(v) => v as u32,
            PtpValue::I16(v) => v as u32,
            PtpValue::U16(v) => v as u32,
            PtpValue::I32(v) => v as u32,
            PtpValue::U32(v) => v,
        }
    }
}

/// The constraint a property puts on its value.
#[derive(Debug, Clone, PartialEq, Eq)]
pub enum Form {
    Any,
    Range { min: PtpValue, max: PtpValue, step: PtpValue },
    /// The selectable values.
    Enumeration(Vec<PtpValue>),
}

pub enum FormView {
    Any,
    Range { min: PtpValue, max: PtpValue, step: PtpValue },
    Enumeration(Seq<PtpValue>),
}

impl View for Form {
    type V = FormView;

    open spec fn view(&self) -> FormView {
        match self {
            Form::Any => FormView::Any,
            Form::Range { min, max, step } => FormView::Range { min: *min, max: *max, step: *step },
            Form::Enumeration(v) => FormView::Enumeration(v@),
        }
    }
}

#[derive(Debug, Clone)]
pub struct PropDesc {
    pub property: u16,
    pub datatype: u16,
    pub writable: bool,
    pub current: PtpValue,
    pub form: Form,
}

pub struct PropDescView {
    pub property: u16,
    pub datatype: u16,
    pub writable: bool,
    pub current: PtpValue,
    pub form: FormView,
}

impl View for PropDesc {
    type V = PropDescView;

    open spec fn view(&self) -> PropDescView {
        PropDescView {
            property: self.property,
            datatype: self.datatype,
            writable: self.writable,
            current: self.current,
            form: self.form@,
        }
    }
}

/// What the camera knows about one file on the card, without transferring it.
#[derive(Debug, Clone)]
pub struct ObjectInfo {
    pub format: u16,
    pub compressed_size: u32,
    pub pixel_width: u32,
    pub pixel_height: u32,
    pub filename: String,
}

pub struct ObjectInfoView {
    pub format: u16,
    pub compressed_size: u32,
    pub pixel_width: u32,
    pub pixel_height: u32,
    pub filename: Seq<char>,
}

impl View for ObjectInfo {
    type V = ObjectInfoView;

    open spec fn view(&self) -> ObjectInfoView {
        ObjectInfoView {
            format: self.format,
            compressed_size: self.compressed_size,
            pixel_width: self.pixel_width,
            pixel_height: self.pixel_height,
            filename: self.filename@,
        }
    }
}

#[derive(Debug, Clone)]
pub struct DeviceInfo {
    pub manufacturer: String,
    pub model: String,
    pub device_version: String,
    pub serial: String,
    /// Which vendor extension set the body claims to speak.
    pub vendor_extension_id: u32,
    pub operations: Vec<u16>,
    pub events: Vec<u16>,
    pub properties: Vec<u16>,
}

pub struct DeviceInfoView {
    pub manufacturer: Seq<char>,
    pub model: Seq<char>,
    pub device_version: Seq<char>,
    pub serial: Seq<char>,
    pub vendor_extension_id: u32,
    pub operations: Seq<u16>,
    pub events: Seq<u16>,
    pub properties: Seq<u16>,
}

impl View for DeviceInfo {
    type V = DeviceInfoView;

    open spec fn view(&self) -> DeviceInfoView {
        DeviceInfoView {
            manufacturer: self.manufacturer@,
            model: self.model@,
            device_version: self.device_version@,
            serial: self.serial@,
            vendor_extension_id: self.vendor_extension_id,
            operations: self.operations@,
            events: self.events@,
            properties: self.properties@,
        }
    }
}

impl DeviceInfo {
    pub fn empty() -> (r: Self)
        ensures
            r@.manufacturer.len() == 0,
            r@.model.len() == 0,
            r@.device_version.len() == 0,
            r@.serial.len() == 0,
            r@.vendor_extension_id == 0,
            r@.operations.len() == 0,
            r@.events.len() == 0,
            r@.properties.len() == 0,
    {
        DeviceInfo {
            manufacturer: String::new(),
            model: String::new(),
            device_version: String::new(),
            serial: String::new(),
            vendor_extension_id: 0,
            operations: Vec::new(),
            events: Vec::new(),
            properties: Vec::new(),
        }
    }
}

/// Something the camera volunteered on the event channel.
#[derive(Debug, Clone, PartialEq, Eq)]
pub struct PtpEvent {
    pub code: u16,
    pub params: Vec<u32>,
}

pub struct PtpEventView {
    pub code: u16,
    pub params: Seq<u32>,
}

impl View for PtpEvent {
    type V = PtpEventView;

    open spec fn view(&self) -> PtpEventView {
        PtpEventView { code: self.code, params: self.params@ }
    }
}

// ---------------------------------------------------------------------------------------------
// Reading datasets: one step at a time
// ---------------------------------------------------------------------------------------------

pub open spec fn spec_take(s: Seq<u8>, at: int, n: int) -> Option<(Seq<u8>, int)> {
    if 0 <= at && 0 <= n && at + n <= s.len() {
        Some((s.subrange(at, at + n), at + n))
    } else {
        None
    }
}

pub open spec fn spec_u8(s: Seq<u8>, at: int) -> Option<(u8, int)> {
    if 0 <= at && at + 1 <= s.len() {
        Some((s[at], at + 1))
    } else {
        None
    }
}

pub open spec fn spec_u16(s: Seq<u8>, at: int) -> Option<(u16, int)> {
    if 0 <= at && at + 2 <= s.len() {
        Some((le16(s, at) as u16, at + 2))
    } else {
        None
    }
}

pub open spec fn spec_u32(s: Seq<u8>, at: int) -> Option<(u32, int)> {
    if 0 <= at && at + 4 <= s.len() {
        Some((le32(s, at) as u32, at + 4))
    } else {
        None
    }
}

/// One value of a declared PTP data type; `None` when it does not fit or the type is not one
/// of the six fixed-width integer types.
pub open spec fn spec_typed(s: Seq<u8>, at: int, datatype: u16) -> Option<(PtpValue, int)> {
    if datatype == TYPE_INT8 {
        match spec_u8(s, at) {
            Some((b, p)) => Some((PtpValue::I8(b as i8), p)),
            None => None,
        }
    } else if datatype == TYPE_UINT8 {
        match spec_u8(s, at) {
            Some((b, p)) => Some((PtpValue::U8(b), p)),
            None => None,
        }
    } else if datatype == TYPE_INT16 {
        match spec_u16(s, at) {
            Some((w, p)) => Some((PtpValue::I16(w as i16), p)),
            None => None,
        }
    } else if datatype == TYPE_UINT16 {
        match spec_u16(s, at) {
            Some((w, p)) => Some((PtpValue::U16(w), p)),
            None => None,
        }
    } else if datatype == TYPE_INT32 {
        match spec_u32(s, at) {
            Some((w, p)) => Some((PtpValue::I32(w as i32), p)),
            None => None,
        }
    } else if datatype == TYPE_UINT32 {
        match spec_u32(s, at) {
            Some((w, p)) => Some((PtpValue::U32(w), p)),
            None => None,
        }
    } else {
        None
    }
}

/// A PTP string: a character count that includes the terminator, then that many UTF-16LE
/// units. Only the units before the first zero are the text.
pub open spec fn spec_ptp_string(s: Seq<u8>, at: int) -> Option<(Seq<char>, int)> {
    match spec_u8(s, at) {
        None => None,
        Some((count, p)) => if count == 0 {
            Some((Seq::empty(), p))
        } else {
            match spec_take(s, p, 2 * count) {
                None => None,
                Some((raw, q)) => match decode_utf16(before_nul(units_of(raw))) {
                    Some(cs) => Some((cs, q)),
                    None => None,
                },
            }
        },
    }
}

/// The units of a zero-terminated UTF-16LE string, and where the terminator ends.
pub open spec fn spec_utf16z_units(s: Seq<u8>, at: int) -> Option<(Seq<u16>, int)>
    decreases s.len() - at,
{
    if 0 <= at && at + 2 <= s.len() {
        if le16(s, at) == 0 {
            Some((Seq::empty(), at + 2))
        } else {
            match spec_utf16z_units(s, at + 2) {
                Some((u, e)) => Some((seq![le16(s, at) as u16] + u, e)),
                None => None,
            }
        }
    } else {
        None
    }
}

pub open spec fn spec_utf16z(s: Seq<u8>, at: int) -> Option<(Seq<char>, int)> {
    match spec_utf16z_units(s, at) {
        Some((u, p)) => match decode_utf16(u) {
            Some(cs) => Some((cs, p)),
            None => None,
        },
        None => None,
    }
}

/// A PTP array of 16-bit values: a 32-bit count, then that many values.
pub open spec fn spec_u16_array(s: Seq<u8>, at: int) -> Option<(Seq<u16>, int)> {
    match spec_u32(s, at) {
        None => None,
        Some((count, p)) => match spec_take(s, p, 2 * count) {
            None => None,
            Some((raw, q)) => Some((units_of(raw), q)),
        },
    }
}

/// The six fixed-width integer types a PTP value can be read as.
pub open spec fn is_fixed_type(datatype: u16) -> bool {
    datatype == TYPE_INT8 || datatype == TYPE_UINT8 || datatype == TYPE_INT16 || datatype
        == TYPE_UINT16 || datatype == TYPE_INT32 || datatype == TYPE_UINT32
}

pub open spec fn unsupported_type_message(datatype: u16) -> Seq<char> {
    "unsupported PTP data type 0x"@ + hex_fixed(datatype as nat, 4)
}

/// Why a value of `datatype` could not be read: a type with no fixed width is refused
/// outright, anything else ran out of data.
pub open spec fn typed_error(datatype: u16) -> Seq<char> {
    if is_fixed_type(datatype) {
        short_message()
    } else {
        unsupported_type_message(datatype)
    }
}

/// What a string whose units are not valid UTF-16 is reported as.
pub open spec fn malformed_message() -> Seq<char> {
    "malformed string from camera: invalid utf-16: lone surrogate found"@
}

/// Whether the count and the units a PTP string announces are all there.
pub open spec fn string_fits(s: Seq<u8>, at: int) -> bool {
    match spec_u8(s, at) {
        None => false,
        Some((count, p)) => count == 0 || spec_take(s, p, 2 * count) is Some,
    }
}

/// Why a PTP string could not be read: its units do not decode, or it ran out of data.
pub open spec fn ptp_string_error(s: Seq<u8>, at: int) -> Seq<char> {
    if string_fits(s, at) {
        malformed_message()
    } else {
        short_message()
    }
}

/// Where reading a PTP string stops when it fails: before the count if there is none, after it
/// if the units are missing, after the units if they do not decode.
pub open spec fn ptp_string_stop(s: Seq<u8>, at: int) -> int {
    match spec_u8(s, at) {
        None => at,
        Some((count, p)) => if spec_take(s, p, 2 * count) is Some {
            p + 2 * count
        } else {
            p
        },
    }
}

/// Where reading a zero-terminated string stops when it fails: after the terminator if the
/// units do not decode, otherwise after the last whole unit there is.
pub open spec fn utf16z_stop(s: Seq<u8>, at: int) -> int {
    match spec_utf16z_units(s, at) {
        Some((_, e)) => e,
        None => if 0 <= at <= s.len() {
            at + 2 * ((s.len() - at) / 2)
        } else {
            at
        },
    }
}

/// Why a zero-terminated string could not be read.
pub open spec fn utf16z_error(s: Seq<u8>, at: int) -> Seq<char> {
    if spec_utf16z_units(s, at) is Some {
        malformed_message()
    } else {
        short_message()
    }
}

/// The error every helper below produces when the data runs out.
pub fn short() -> (e: CameraError)
    ensures
        is_protocol(e, short_message()),
{
    CameraError::Protocol(owned("the camera's reply ended sooner than its structure implies"))
}

/// Cursor over a PTP dataset.
pub struct Reader<'a> {
    data: &'a [u8],
    offset: usize,
}

impl<'a> Reader<'a> {
    /// The bytes being read.
    pub closed spec fn bytes(&self) -> Seq<u8> {
        self.data@
    }

    /// How far reading has got.
    pub closed spec fn pos(&self) -> int {
        self.offset as int
    }

    /// The cursor never passes the end of what is being read.
    #[verifier::type_invariant]
    spec fn cursor_in_bounds(&self) -> bool {
        self.offset <= self.data@.len()
    }

    pub fn new(data: &'a [u8]) -> (r: Self)
        ensures
            r.bytes() == data@,
            r.pos() == 0,
            0 <= r.pos() <= r.bytes().len(),
    {
        Reader { data, offset: 0 }
    }

    /// What is being read is an in-memory slice, so its length fits in a `usize`.
    pub proof fn lemma_bytes_fit(&self)
        ensures
            self.bytes().len() <= usize::MAX,
    {
        assert(self.data.len() == self.data@.len());
    }

    /// The next `u16` without consuming it.
    pub fn peek_u16(&self) -> (r: CameraResult<u16>)
        ensures
            match r {
                Ok(v) => spec_u16(self.bytes(), self.pos()) == Some((v, self.pos() + 2)),
                Err(e) => spec_u16(self.bytes(), self.pos()) is None && is_protocol(
                    e,
                    short_message(),
                ),
            },
    {
        if self.offset <= self.data.len() && self.data.len() - self.offset >= 2 {
            Ok(read16(self.data, self.offset))
        } else {
            Err(short())
        }
    }

    /// How many bytes are still unread.
    pub fn remaining(&self) -> (r: usize)
        ensures
            0 <= self.pos() <= self.bytes().len(),
            r == self.bytes().len() - self.pos(),
    {
        proof {
            use_type_invariant(self);
        }
        self.data.len() - self.offset
    }

    pub fn take(&mut self, count: usize) -> (r: CameraResult<&'a [u8]>)
        ensures
            0 <= old(self).pos() <= old(self).bytes().len(),
            0 <= final(self).pos() <= final(self).bytes().len(),
            final(self).bytes() == old(self).bytes(),
            r is Ok ==> spec_take(old(self).bytes(), old(self).pos(), count as int) == Some(
                (r->Ok_0@, final(self).pos()),
            ),
            r is Err ==> spec_take(old(self).bytes(), old(self).pos(), count as int) is None
                && final(self).pos() == old(self).pos() && is_protocol(r->Err_0, short_message()),
    {
        proof {
            use_type_invariant(&*self);
        }
        let data: &'a [u8] = self.data;
        let len = data.len();
        let start = self.offset;
        match start.checked_add(count) {
            None => Err(short()),
            Some(end) => {
                if end > len {
                    Err(short())
                } else {
                    self.offset = end;
                    Ok(vstd::slice::slice_subrange(data, start, end))
                }
            },
        }
    }

    pub fn u8(&mut self) -> (r: CameraResult<u8>)
        ensures
            final(self).bytes() == old(self).bytes(),
            match r {
                Ok(v) => spec_u8(old(self).bytes(), old(self).pos()) == Some((v, final(self).pos())),
                Err(e) => spec_u8(old(self).bytes(), old(self).pos()) is None && final(self).pos()
                    == old(self).pos() && is_protocol(e, short_message()),
            },
    {
        let bytes = self.take(1)?;
        Ok(bytes[0])
    }

    pub fn u16(&mut self) -> (r: CameraResult<u16>)
        ensures
            final(self).bytes() == old(self).bytes(),
            match r {
                Ok(v) => spec_u16(old(self).bytes(), old(self).pos()) == Some(
                    (v, final(self).pos()),
                ),
                Err(e) => spec_u16(old(self).bytes(), old(self).pos()) is None && final(self).pos()
                    == old(self).pos() && is_protocol(e, short_message()),
            },
    {
        let bytes = self.take(2)?;
        Ok(read16(bytes, 0))
    }

    pub fn u32(&mut self) -> (r: CameraResult<u32>)
        ensures
            final(self).bytes() == old(self).bytes(),
            match r {
                Ok(v) => spec_u32(old(self).bytes(), old(self).pos()) == Some(
                    (v, final(self).pos()),
                ),
                Err(e) => spec_u32(old(self).bytes(), old(self).pos()) is None && final(self).pos()
                    == old(self).pos() && is_protocol(e, short_message()),
            },
    {
        let bytes = self.take(4)?;
        Ok(read32(bytes, 0))
    }

    /// One value of the given PTP data type.
    pub fn typed(&mut self, datatype: u16) -> (r: CameraResult<PtpValue>)
        ensures
            final(self).bytes() == old(self).bytes(),
            r is Ok ==> spec_typed(old(self).bytes(), old(self).pos(), datatype) == Some(
                (r->Ok_0, final(self).pos()),
            ),
            r is Err ==> spec_typed(old(self).bytes(), old(self).pos(), datatype) is None
                && is_protocol(r->Err_0, typed_error(datatype)) && final(self).pos() == old(
                self,
            ).pos(),
    {
        if datatype == TYPE_INT8 {
            Ok(PtpValue::I8(self.u8()? as i8))
        } else if datatype == TYPE_UINT8 {
            Ok(PtpValue::U8(self.u8()?))
        } else if datatype == TYPE_INT16 {
            Ok(PtpValue::I16(self.u16()? as i16))
        } else if datatype == TYPE_UINT16 {
            Ok(PtpValue::U16(self.u16()?))
        } else if datatype == TYPE_INT32 {
            Ok(PtpValue::I32(self.u32()? as i32))
        } else if datatype == TYPE_UINT32 {
            Ok(PtpValue::U32(self.u32()?))
        } else {
            let mut m: Vec<char> = Vec::new();
            push_str(&mut m, "unsupported PTP data type 0x");
            push_hex(&mut m, datatype as u64, 4);
            assert(m@ =~= unsupported_type_message(datatype));
            Err(CameraError::Protocol(string_from(m.as_slice())))
        }
    }

    /// PTP string: a character count that includes the terminator, then UTF-16LE.
    pub fn ptp_string(&mut self) -> (r: CameraResult<String>)
        ensures
            final(self).bytes() == old(self).bytes(),
            r is Ok ==> spec_ptp_string(old(self).bytes(), old(self).pos()) == Some(
                (r->Ok_0@, final(self).pos()),
            ),
            r is Err ==> spec_ptp_string(old(self).bytes(), old(self).pos()) is None
                && is_protocol(r->Err_0, ptp_string_error(old(self).bytes(), old(self).pos()))
                && final(self).pos() == ptp_string_stop(old(self).bytes(), old(self).pos()),
    {
        let count = self.u8()? as usize;
        if count == 0 {
            return Ok(String::new());
        }
        let raw = self.take(count * 2)?;
        let units = units_until_nul(raw);
        match decode_units(units.as_slice()) {
            Some(cs) => Ok(string_from(cs.as_slice())),
            None => Err(malformed_string()),
        }
    }

    /// Null-terminated UTF-16LE, used by the handshake packets.
    pub fn utf16z(&mut self) -> (r: CameraResult<String>)
        ensures
            final(self).bytes() == old(self).bytes(),
            r is Ok ==> spec_utf16z(old(self).bytes(), old(self).pos()) == Some(
                (r->Ok_0@, final(self).pos()),
            ),
            r is Err ==> spec_utf16z(old(self).bytes(), old(self).pos()) is None
                && is_protocol(r->Err_0, utf16z_error(old(self).bytes(), old(self).pos()))
                && final(self).pos() == utf16z_stop(old(self).bytes(), old(self).pos()),
    {
        let ghost s = self.bytes();
        let ghost start = self.pos();
        let mut units: Vec<u16> = Vec::new();
        loop
            invariant_except_break
                spec_utf16z_units(s, start) == after_units(
                    units@,
                    spec_utf16z_units(s, self.pos()),
                ),
            invariant
                self.bytes() == s,
                s == old(self).bytes(),
                start == old(self).pos(),
                self.pos() >= start,
                spec_utf16z_units(s, start) is None ==> utf16z_stop(s, start) == utf16z_stop(
                    s,
                    self.pos(),
                ),
            ensures
                spec_utf16z_units(s, start) == Some((units@, self.pos())),
            decreases s.len() - self.pos(),
        {
            let unit = self.u16()?;
            if unit == 0 {
                assert(units@ + Seq::<u16>::empty() =~= units@);
                break;
            }
            let ghost before = units@;
            units.push(unit);
            proof {
                match spec_utf16z_units(s, self.pos()) {
                    Some((u, e)) => {
                        assert(before + (seq![unit] + u) =~= units@ + u);
                    },
                    None => {},
                }
            }
        }
        match decode_units(units.as_slice()) {
            Some(cs) => Ok(string_from(cs.as_slice())),
            None => Err(malformed_string()),
        }
    }

    /// A PTP array of 16-bit values.
    pub fn u16_array(&mut self) -> (r: CameraResult<Vec<u16>>)
        ensures
            final(self).bytes() == old(self).bytes(),
            r is Ok ==> spec_u16_array(old(self).bytes(), old(self).pos()) == Some(
                (r->Ok_0@, final(self).pos()),
            ),
            r is Err ==> spec_u16_array(old(self).bytes(), old(self).pos()) is None
                && is_protocol(r->Err_0, short_message()) && final(self).pos() == (if spec_u32(
                old(self).bytes(),
                old(self).pos(),
            ) is Some {
                old(self).pos() + 4
            } else {
                old(self).pos()
            }),
    {
        let count = self.u32()? as usize;
        let len = self.data.len();
        let width = match count.checked_mul(2) {
            Some(w) => w,
            None => {
                assert(self.pos() + 2 * count > self.bytes().len());
                return Err(short());
            },
        };
        let raw = self.take(width)?;
        Ok(read_units(raw))
    }
}

pub open spec fn after_units(front: Seq<u16>, rest: Option<(Seq<u16>, int)>) -> Option<
    (Seq<u16>, int),
> {
    match rest {
        Some((r, p)) => Some((front + r, p)),
        None => None,
    }
}

fn malformed_string() -> (e: CameraError)
    ensures
        is_protocol(e, malformed_message()),
{
    CameraError::Protocol(owned("malformed string from camera: invalid utf-16: lone surrogate found"))
}

/// Every 16-bit unit in `raw`.
pub fn read_units(raw: &[u8]) -> (r: Vec<u16>)
    ensures
        r@ == units_of(raw@),
{
    let len = raw.len();
    let n = len / 2;
    let mut r: Vec<u16> = Vec::new();
    let mut i: usize = 0;
    while i < n
        invariant
            len == raw@.len(),
            n == raw@.len() / 2,
            i <= n,
            r@ == units_of(raw@).subrange(0, i as int),
        decreases n - i,
    {
        r.push(read16(raw, 2 * i));
        i = i + 1;
        assert(r@ =~= units_of(raw@).subrange(0, i as int));
    }
    assert(units_of(raw@).subrange(0, n as int) =~= units_of(raw@));
    r
}

/// The 16-bit units in `raw` before the first zero.
pub fn units_until_nul(raw: &[u8]) -> (r: Vec<u16>)
    ensures
        r@ == before_nul(units_of(raw@)),
{
    let all = read_units(raw);
    let n = all.len();
    let mut r: Vec<u16> = Vec::new();
    let mut i: usize = 0;
    assert(all@.subrange(0, n as int) =~= all@);
    while i < n
        invariant
            n == all@.len(),
            all@ == units_of(raw@),
            i <= n,
            before_nul(all@) == r@ + before_nul(all@.subrange(i as int, n as int)),
        decreases n - i,
    {
        let ghost rest = all@.subrange(i as int, n as int);
        assert(rest.drop_first() =~= all@.subrange(i + 1, n as int));
        if all[i] == 0 {
            assert(r@ + Seq::<u16>::empty() =~= r@);
            return r;
        }
        let ghost before = r@;
        r.push(all[i]);
        i = i + 1;
        assert(before + (seq![all@[i - 1]] + before_nul(all@.subrange(i as int, n as int)))
            =~= r@ + before_nul(all@.subrange(i as int, n as int)));
    }
    assert(all@.subrange(n as int, n as int) =~= Seq::<u16>::empty());
    assert(r@ + Seq::<u16>::empty() =~= r@);
    r
}

// ---------------------------------------------------------------------------------------------
// Datasets
// ---------------------------------------------------------------------------------------------

/// The DeviceInfo dataset: version, vendor extension, a description string, a mode, five
/// arrays and four strings.
pub open spec fn spec_device_info(s: Seq<u8>) -> Option<DeviceInfoView> {
    if let Some((_, p1)) = spec_u16(s, 0) {
        if let Some((vendor, p2)) = spec_u32(s, p1) {
            if let Some((_, p3)) = spec_u16(s, p2) {
                if let Some((_, p4)) = spec_ptp_string(s, p3) {
                    if let Some((_, p5)) = spec_u16(s, p4) {
                        if let Some((ops, p6)) = spec_u16_array(s, p5) {
                            if let Some((evs, p7)) = spec_u16_array(s, p6) {
                                if let Some((props, p8)) = spec_u16_array(s, p7) {
                                    if let Some((_, p9)) = spec_u16_array(s, p8) {
                                        if let Some((_, p10)) = spec_u16_array(s, p9) {
                                            spec_device_strings(
                                                s,
                                                p10,
                                                vendor,
                                                ops,
                                                evs,
                                                props,
                                            )
                                        } else {
                                            None
                                        }
                                    } else {
                                        None
                                    }
                                } else {
                                    None
                                }
                            } else {
                                None
                            }
                        } else {
                            None
                        }
                    } else {
                        None
                    }
                } else {
                    None
                }
            } else {
                None
            }
        } else {
            None
        }
    } else {
        None
    }
}

pub open spec fn spec_device_strings(
    s: Seq<u8>,
    at: int,
    vendor: u32,
    ops: Seq<u16>,
    evs: Seq<u16>,
    props: Seq<u16>,
) -> Option<DeviceInfoView> {
    if let Some((manufacturer, q1)) = spec_ptp_string(s, at) {
        if let Some((model, q2)) = spec_ptp_string(s, q1) {
            if let Some((version, q3)) = spec_ptp_string(s, q2) {
                if let Some((serial, _)) = spec_ptp_string(s, q3) {
                    Some(
                        DeviceInfoView {
                            manufacturer,
                            model,
                            device_version: version,
                            serial,
                            vendor_extension_id: vendor,
                            operations: ops,
                            events: evs,
                            properties: props,
                        },
                    )
                } else {
                    None
                }
            } else {
                None
            }
        } else {
            None
        }
    } else {
        None
    }
}

/// Why the four closing strings of a DeviceInfo could not be read: the first that fails says.
pub open spec fn device_strings_error(s: Seq<u8>, at: int) -> Seq<char> {
    match spec_ptp_string(s, at) {
        None => ptp_string_error(s, at),
        Some((_, q1)) => match spec_ptp_string(s, q1) {
            None => ptp_string_error(s, q1),
            Some((_, q2)) => match spec_ptp_string(s, q2) {
                None => ptp_string_error(s, q2),
                Some((_, q3)) => ptp_string_error(s, q3),
            },
        },
    }
}

/// Why a DeviceInfo could not be read: the first field that fails says. Only a string can fail
/// for a reason other than running out of data.
pub open spec fn device_info_error(s: Seq<u8>) -> Seq<char> {
    match spec_u16(s, 0) {
        None => short_message(),
        Some((_, p1)) => match spec_u32(s, p1) {
            None => short_message(),
            Some((_, p2)) => match spec_u16(s, p2) {
                None => short_message(),
                Some((_, p3)) => match spec_ptp_string(s, p3) {
                    None => ptp_string_error(s, p3),
                    Some((_, p4)) => match spec_u16(s, p4) {
                        None => short_message(),
                        Some((_, p5)) => match spec_u16_array(s, p5) {
                            None => short_message(),
                            Some((_, p6)) => match spec_u16_array(s, p6) {
                                None => short_message(),
                                Some((_, p7)) => match spec_u16_array(s, p7) {
                                    None => short_message(),
                                    Some((_, p8)) => match spec_u16_array(s, p8) {
                                        None => short_message(),
                                        Some((_, p9)) => match spec_u16_array(s, p9) {
                                            None => short_message(),
                                            Some((_, p10)) => device_strings_error(s, p10),
                                        },
                                    },
                                },
                            },
                        },
                    },
                },
            },
        },
    }
}

pub fn parse_device_info(data: &[u8]) -> (r: CameraResult<DeviceInfo>)
    ensures
        r is Ok ==> spec_device_info(data@) == Some(r->Ok_0@),
        r is Err ==> spec_device_info(data@) is None && is_protocol(
            r->Err_0,
            device_info_error(data@),
        ),
{
    let mut reader = Reader::new(data);
    reader.u16()?;  // standard version
    let vendor_extension_id = reader.u32()?;
    reader.u16()?;  // vendor extension version
    reader.ptp_string()?;  // vendor extension description
    reader.u16()?;  // functional mode

    let operations = reader.u16_array()?;
    let events = reader.u16_array()?;
    let properties = reader.u16_array()?;
    reader.u16_array()?;  // capture formats
    reader.u16_array()?;  // image formats

    let manufacturer = reader.ptp_string()?;
    let model = reader.ptp_string()?;
    let device_version = reader.ptp_string()?;
    let serial = reader.ptp_string()?;
    Ok(
        DeviceInfo {
            manufacturer,
            model,
            device_version,
            serial,
            vendor_extension_id,
            operations,
            events,
            properties,
        },
    )
}

// ---------------------------------------------------------------------------------------------
// Writing a DeviceInfo: the layout the parser reads
// ---------------------------------------------------------------------------------------------

/// A PTP string carrying `text`: the unit count including the terminator, the UTF-16LE units,
/// then a zero unit.
pub open spec fn ptp_string_bytes(text: Seq<char>) -> Seq<u8> {
    seq![(encode_utf16(text).len() + 1) as u8] + units_bytes(encode_utf16(text)) + seq![0u8, 0u8]
}

/// Text a PTP string can carry: no NUL (the first zero unit ends the text) and few enough units
/// that the count, terminator included, fits in its byte.
pub open spec fn writable_text(text: Seq<char>) -> bool {
    free_of_nul(text) && encode_utf16(text).len() + 1 < 256
}

/// A PTP array of 16-bit values: the 32-bit count, then the values.
pub open spec fn u16_array_bytes(v: Seq<u16>) -> Seq<u8> {
    bytes32(v.len() as int) + units_bytes(v)
}

/// A DeviceInfo dataset laid out field by field: standard version, vendor extension id,
/// extension version, extension description, functional mode, the operation, event, property,
/// capture-format and image-format arrays, then manufacturer, model, device version and serial
/// number.
pub open spec fn device_info_bytes(
    d: DeviceInfoView,
    standard_version: u16,
    extension_version: u16,
    description: Seq<char>,
    mode: u16,
    capture_formats: Seq<u16>,
    image_formats: Seq<u16>,
) -> Seq<u8> {
    bytes16(standard_version as int) + (bytes32(d.vendor_extension_id as int) + (bytes16(
        extension_version as int,
    ) + (ptp_string_bytes(description) + (bytes16(mode as int) + (u16_array_bytes(d.operations)
        + (u16_array_bytes(d.events) + (u16_array_bytes(d.properties) + (u16_array_bytes(
        capture_formats,
    ) + (u16_array_bytes(image_formats) + (ptp_string_bytes(d.manufacturer) + (ptp_string_bytes(
        d.model,
    ) + (ptp_string_bytes(d.device_version) + ptp_string_bytes(d.serial)))))))))))))
}

proof fn lemma_split(s: Seq<u8>, at: int, a: Seq<u8>, rest: Seq<u8>)
    requires
        0 <= at <= s.len(),
        s.subrange(at, s.len() as int) == a + rest,
    ensures
        at + a.len() <= s.len(),
        s.subrange(at + a.len(), s.len() as int) == rest,
        forall|k: int| 0 <= k < a.len() ==> s[at + k] == a[k],
{
    let t = s.subrange(at, s.len() as int);
    assert(t.len() == a.len() + rest.len());
    assert forall|k: int| 0 <= k < a.len() implies s[at + k] == a[k] by {
        assert(t[k] == s[at + k]);
        assert((a + rest)[k] == a[k]);
    }
    let tail = s.subrange(at + a.len(), s.len() as int);
    assert forall|k: int| 0 <= k < rest.len() implies #[trigger] tail[k] == rest[k] by {
        assert(t[a.len() + k] == s[at + a.len() + k]);
        assert((a + rest)[a.len() + k] == rest[k]);
    }
    assert(tail =~= rest);
}

proof fn lemma_read_u16(s: Seq<u8>, at: int, v: u16, rest: Seq<u8>)
    requires
        0 <= at <= s.len(),
        s.subrange(at, s.len() as int) == bytes16(v as int) + rest,
    ensures
        spec_u16(s, at) == Some((v, at + 2)),
        s.subrange(at + 2, s.len() as int) == rest,
{
    let b = bytes16(v as int);
    lemma_split(s, at, b, rest);
    assert(s[at + 0] == b[0]);
    assert(s[at + 1] == b[1]);
    bytes16_round_trip(v);
}

proof fn lemma_read_u32(s: Seq<u8>, at: int, v: u32, rest: Seq<u8>)
    requires
        0 <= at <= s.len(),
        s.subrange(at, s.len() as int) == bytes32(v as int) + rest,
    ensures
        spec_u32(s, at) == Some((v, at + 4)),
        s.subrange(at + 4, s.len() as int) == rest,
{
    let b = bytes32(v as int);
    lemma_split(s, at, b, rest);
    assert(s[at + 0] == b[0]);
    assert(s[at + 1] == b[1]);
    assert(s[at + 2] == b[2]);
    assert(s[at + 3] == b[3]);
    bytes32_round_trip(v);
}

proof fn lemma_units_bytes_at(w: Seq<u16>, i: int)
    requires
        0 <= i < w.len(),
    ensures
        units_bytes(w)[2 * i] == bytes16(w[i] as int)[0],
        units_bytes(w)[2 * i + 1] == bytes16(w[i] as int)[1],
    decreases w.len(),
{
    lemma_units_bytes_len(w.drop_first());
    if i > 0 {
        lemma_units_bytes_at(w.drop_first(), i - 1);
    }
}

proof fn lemma_units_of_bytes(w: Seq<u16>)
    ensures
        units_of(units_bytes(w)) == w,
{
    lemma_units_bytes_len(w);
    let raw = units_bytes(w);
    assert forall|i: int| 0 <= i < w.len() implies #[trigger] units_of(raw)[i] == w[i] by {
        lemma_units_bytes_at(w, i);
        bytes16_round_trip(w[i]);
    }
    assert(units_of(raw) =~= w);
}

proof fn lemma_before_nul_push(u: Seq<u16>)
    requires
        forall|i: int| 0 <= i < u.len() ==> u[i] != 0,
    ensures
        before_nul(u.push(0u16)) == u,
    decreases u.len(),
{
    if u.len() == 0 {
        assert(u.push(0u16)[0] == 0u16);
        assert(before_nul(u.push(0u16)) =~= u);
    } else {
        assert(u.push(0u16).drop_first() =~= u.drop_first().push(0u16));
        lemma_before_nul_push(u.drop_first());
        assert(seq![u[0]] + u.drop_first() =~= u);
    }
}

proof fn lemma_read_ptp_string(s: Seq<u8>, at: int, t: Seq<char>, rest: Seq<u8>)
    requires
        0 <= at <= s.len(),
        writable_text(t),
        s.subrange(at, s.len() as int) == ptp_string_bytes(t) + rest,
    ensures
        spec_ptp_string(s, at) == Some((t, at + ptp_string_bytes(t).len())),
        s.subrange(at + ptp_string_bytes(t).len(), s.len() as int) == rest,
{
    let u = encode_utf16(t);
    let n = u.len();
    lemma_units_bytes_len(u);
    let body = units_bytes(u) + seq![0u8, 0u8];
    let count = seq![(n + 1) as u8];
    assert(ptp_string_bytes(t) + rest =~= count + (body + rest));
    lemma_split(s, at, count, body + rest);
    assert(s[at + 0] == count[0]);
    lemma_split(s, at + 1, body, rest);
    assert(s.subrange(at + 1, at + 1 + 2 * (n + 1)) =~= body);
    assert(units_bytes(seq![0u16]) =~= seq![0u8, 0u8]) by {
        let z = seq![0u16];
        assert(z.drop_first() =~= Seq::<u16>::empty());
        assert(units_bytes(z.drop_first()) =~= Seq::<u8>::empty());
        assert(bytes16(z[0] as int) =~= seq![0u8, 0u8]);
        assert(units_bytes(z) == bytes16(z[0] as int) + units_bytes(z.drop_first()));
    }
    lemma_units_bytes_concat(u, seq![0u16]);
    assert(u + seq![0u16] =~= u.push(0u16));
    lemma_units_of_bytes(u.push(0u16));
    lemma_encode_free_of_zero(t);
    lemma_before_nul_push(u);
    lemma_decode_encode(t);
}

proof fn lemma_read_u16_array(s: Seq<u8>, at: int, v: Seq<u16>, rest: Seq<u8>)
    requires
        0 <= at <= s.len(),
        v.len() < 0x1_0000_0000,
        s.subrange(at, s.len() as int) == u16_array_bytes(v) + rest,
    ensures
        spec_u16_array(s, at) == Some((v, at + u16_array_bytes(v).len())),
        s.subrange(at + u16_array_bytes(v).len(), s.len() as int) == rest,
{
    lemma_units_bytes_len(v);
    let count = v.len() as u32;
    assert(u16_array_bytes(v) + rest =~= bytes32(count as int) + (units_bytes(v) + rest));
    lemma_read_u32(s, at, count, units_bytes(v) + rest);
    lemma_split(s, at + 4, units_bytes(v), rest);
    assert(s.subrange(at + 4, at + 4 + 2 * count) =~= units_bytes(v));
    lemma_units_of_bytes(v);
}

/// A DeviceInfo dataset written field by field reads back as the same identity, vendor
/// extension and code lists, for every writable choice of the fields: each of the four closing
/// strings (manufacturer, model, device version, serial number) comes from its own bytes, so
/// the serial number is whatever the fourth string holds, whatever the third one says.
pub proof fn device_info_round_trip(
    d: DeviceInfoView,
    standard_version: u16,
    extension_version: u16,
    description: Seq<char>,
    mode: u16,
    capture_formats: Seq<u16>,
    image_formats: Seq<u16>,
)
    requires
        writable_text(description),
        writable_text(d.manufacturer),
        writable_text(d.model),
        writable_text(d.device_version),
        writable_text(d.serial),
        d.operations.len() < 0x1_0000_0000,
        d.events.len() < 0x1_0000_0000,
        d.properties.len() < 0x1_0000_0000,
        capture_formats.len() < 0x1_0000_0000,
        image_formats.len() < 0x1_0000_0000,
    ensures
        spec_device_info(
            device_info_bytes(
                d,
                standard_version,
                extension_version,
                description,
                mode,
                capture_formats,
                image_formats,
            ),
        ) == Some(d),
{
    let s = device_info_bytes(
        d,
        standard_version,
        extension_version,
        description,
        mode,
        capture_formats,
        image_formats,
    );
    let r14 = ptp_string_bytes(d.serial);
    let r13 = ptp_string_bytes(d.device_version) + r14;
    let r12 = ptp_string_bytes(d.model) + r13;
    let r11 = ptp_string_bytes(d.manufacturer) + r12;
    let r10 = u16_array_bytes(image_formats) + r11;
    let r9 = u16_array_bytes(capture_formats) + r10;
    let r8 = u16_array_bytes(d.properties) + r9;
    let r7 = u16_array_bytes(d.events) + r8;
    let r6 = u16_array_bytes(d.operations) + r7;
    let r5 = bytes16(mode as int) + r6;
    let r4 = ptp_string_bytes(description) + r5;
    let r3 = bytes16(extension_version as int) + r4;
    let r2 = bytes32(d.vendor_extension_id as int) + r3;
    assert(s == bytes16(standard_version as int) + r2);
    assert(s.subrange(0, s.len() as int) =~= s);
    lemma_read_u16(s, 0, standard_version, r2);
    lemma_read_u32(s, 2, d.vendor_extension_id, r3);
    lemma_read_u16(s, 6, extension_version, r4);
    lemma_read_ptp_string(s, 8, description, r5);
    let p4: int = 8int + ptp_string_bytes(description).len();
    lemma_read_u16(s, p4, mode, r6);
    let p5: int = p4 + 2;
    lemma_read_u16_array(s, p5, d.operations, r7);
    let p6: int = p5 + u16_array_bytes(d.operations).len();
    lemma_read_u16_array(s, p6, d.events, r8);
    let p7: int = p6 + u16_array_bytes(d.events).len();
    lemma_read_u16_array(s, p7, d.properties, r9);
    let p8: int = p7 + u16_array_bytes(d.properties).len();
    lemma_read_u16_array(s, p8, capture_formats, r10);
    let p9: int = p8 + u16_array_bytes(capture_formats).len();
    lemma_read_u16_array(s, p9, image_formats, r11);
    let p10: int = p9 + u16_array_bytes(image_formats).len();
    lemma_read_ptp_string(s, p10, d.manufacturer, r12);
    let q1: int = p10 + ptp_string_bytes(d.manufacturer).len();
    lemma_read_ptp_string(s, q1, d.model, r13);
    let q2: int = q1 + ptp_string_bytes(d.model).len();
    lemma_read_ptp_string(s, q2, d.device_version, r14);
    let q3: int = q2 + ptp_string_bytes(d.device_version).len();
    assert(r14 =~= r14 + Seq::<u8>::empty());
    lemma_read_ptp_string(s, q3, d.serial, Seq::<u8>::empty());
    assert(spec_device_strings(s, p10, d.vendor_extension_id, d.operations, d.events, d.properties)
        == Some(d));
}

/// A PTP array of 32-bit values: a count, then that many values - refused when the payload
/// cannot hold the count it claims.
pub open spec fn spec_u32_array(s: Seq<u8>) -> Option<Seq<u32>> {
    if s.len() < 4 {
        None
    } else {
        let count = le32(s, 0);
        if count > (s.len() - 4) / 4 {
            None
        } else {
            Some(Seq::new(count as nat, |i: int| le32(s, 4 + 4 * i) as u32))
        }
    }
}

pub open spec fn claims_message(count: nat, carried: nat) -> Seq<char> {
    "object handle array claims "@ + decimal(count) + " entries but carries "@ + decimal(carried)
        + " bytes"@
}

/// Why a 32-bit array could not be read: no room for its count, or a count its payload cannot
/// hold.
pub open spec fn u32_array_error(s: Seq<u8>) -> Seq<char> {
    if s.len() < 4 {
        short_message()
    } else {
        claims_message(le32(s, 0) as nat, (s.len() - 4) as nat)
    }
}

pub fn parse_u32_array(raw: &[u8]) -> (r: CameraResult<Vec<u32>>)
    ensures
        r is Ok ==> spec_u32_array(raw@) == Some(r->Ok_0@),
        r is Err ==> spec_u32_array(raw@) is None && is_protocol(r->Err_0, u32_array_error(raw@)),
{
    let mut reader = Reader::new(raw);
    let count = reader.u32()? as usize;
    let len = raw.len();
    if count > (len - 4) / 4 {
        let mut m: Vec<char> = Vec::new();
        push_str(&mut m, "object handle array claims ");
        push_decimal(&mut m, count as u64);
        push_str(&mut m, " entries but carries ");
        push_decimal(&mut m, (len - 4) as u64);
        push_str(&mut m, " bytes");
        assert(m@ =~= claims_message(count as nat, (len - 4) as nat));
        return Err(CameraError::Protocol(string_from(m.as_slice())));
    }
    let mut values: Vec<u32> = Vec::new();
    let mut i: usize = 0;
    while i < count
        invariant
            len == raw@.len(),
            len >= 4,
            count == le32(raw@, 0),
            count <= (len - 4) / 4,
            i <= count,
            reader.bytes() == raw@,
            reader.pos() == 4 + 4 * i,
            values@ == Seq::new(i as nat, |k: int| le32(raw@, 4 + 4 * k) as u32),
        decreases count - i,
    {
        let v = reader.u32()?;
        values.push(v);
        i = i + 1;
        assert(values@ =~= Seq::new(i as nat, |k: int| le32(raw@, 4 + 4 * k) as u32));
    }
    Ok(values)
}

/// The ObjectInfo dataset: a fixed-width preamble of 52 bytes, then the filename.
pub open spec fn spec_object_info(s: Seq<u8>) -> Option<ObjectInfoView> {
    if s.len() < 52 {
        None
    } else {
        match spec_ptp_string(s, 52) {
            Some((name, _)) => Some(
                ObjectInfoView {
                    format: le16(s, 4) as u16,
                    compressed_size: le32(s, 8) as u32,
                    pixel_width: le32(s, 26) as u32,
                    pixel_height: le32(s, 30) as u32,
                    filename: name,
                },
            ),
            None => None,
        }
    }
}

/// Why an ObjectInfo could not be read: the fixed preamble is cut short, or the filename is.
pub open spec fn object_info_error(s: Seq<u8>) -> Seq<char> {
    if s.len() < 52 {
        short_message()
    } else {
        ptp_string_error(s, 52)
    }
}

pub fn parse_object_info(data: &[u8]) -> (r: CameraResult<ObjectInfo>)
    ensures
        r is Ok ==> spec_object_info(data@) == Some(r->Ok_0@),
        r is Err ==> spec_object_info(data@) is None && is_protocol(
            r->Err_0,
            object_info_error(data@),
        ),
{
    let mut reader = Reader::new(data);
    reader.u32()?;  // storage id
    let format = reader.u16()?;
    reader.u16()?;  // protection status
    let compressed_size = reader.u32()?;
    reader.u16()?;  // thumb format
    reader.u32()?;  // thumb compressed size
    reader.u32()?;  // thumb width
    reader.u32()?;  // thumb height
    let pixel_width = reader.u32()?;
    let pixel_height = reader.u32()?;
    reader.u32()?;  // image bit depth
    reader.u32()?;  // parent object
    reader.u16()?;  // association type
    reader.u32()?;  // association description
    reader.u32()?;  // sequence number
    let filename = reader.ptp_string()?;
    Ok(ObjectInfo { format, compressed_size, pixel_width, pixel_height, filename })
}

/// `count` values of one data type, back to back.
pub open spec fn spec_typed_run(s: Seq<u8>, at: int, datatype: u16, count: nat) -> Option<
    (Seq<PtpValue>, int),
>
    decreases count,
{
    if count == 0 {
        Some((Seq::empty(), at))
    } else {
        match spec_typed(s, at, datatype) {
            None => None,
            Some((v, p)) => match spec_typed_run(s, p, datatype, (count - 1) as nat) {
                Some((vs, q)) => Some((seq![v] + vs, q)),
                None => None,
            },
        }
    }
}

pub open spec fn after_values(front: Seq<PtpValue>, rest: Option<(Seq<PtpValue>, int)>) -> Option<
    (Seq<PtpValue>, int),
> {
    match rest {
        Some((r, p)) => Some((front + r, p)),
        None => None,
    }
}

/// The constraint that follows a property's current value: flag 1 is a range, 2 an
/// enumeration with a 16-bit count, anything else no constraint.
pub open spec fn spec_form(s: Seq<u8>, at: int, datatype: u16) -> Option<FormView> {
    match spec_u8(s, at) {
        None => None,
        Some((flag, p)) => if flag == 1 {
            if let Some((min, q1)) = spec_typed(s, p, datatype) {
                if let Some((max, q2)) = spec_typed(s, q1, datatype) {
                    if let Some((step, _)) = spec_typed(s, q2, datatype) {
                        Some(FormView::Range { min, max, step })
                    } else {
                        None
                    }
                } else {
                    None
                }
            } else {
                None
            }
        } else if flag == 2 {
            match spec_u16(s, p) {
                None => None,
                Some((count, q)) => match spec_typed_run(s, q, datatype, count as nat) {
                    Some((values, _)) => Some(FormView::Enumeration(values)),
                    None => None,
                },
            }
        } else {
            Some(FormView::Any)
        },
    }
}

/// The DevicePropDesc dataset: code, data type, a get/set byte, the factory default, the
/// current value and the form.
pub open spec fn spec_prop_desc(s: Seq<u8>) -> Option<PropDescView> {
    if s.len() < 5 {
        None
    } else {
        let datatype = le16(s, 2) as u16;
        if let Some((_, p1)) = spec_typed(s, 5, datatype) {
            if let Some((current, p2)) = spec_typed(s, p1, datatype) {
                match spec_form(s, p2, datatype) {
                    Some(form) => Some(
                        PropDescView {
                            property: le16(s, 0) as u16,
                            datatype,
                            writable: s[4] == 1,
                            current,
                            form,
                        },
                    ),
                    None => None,
                }
            } else {
                None
            }
        } else {
            None
        }
    }
}

/// Why a DevicePropDesc could not be read: a value type with no fixed width is refused at the
/// first value, anything else ran out of data.
pub open spec fn prop_desc_error(s: Seq<u8>) -> Seq<char> {
    if s.len() >= 5 && !is_fixed_type(le16(s, 2) as u16) {
        unsupported_type_message(le16(s, 2) as u16)
    } else {
        short_message()
    }
}

/// `count` values of one data type, read back to back.
fn read_typed_run(reader: &mut Reader, datatype: u16, count: u16) -> (r: CameraResult<
    Vec<PtpValue>,
>)
    ensures
        final(reader).bytes() == old(reader).bytes(),
        r is Ok ==> spec_typed_run(old(reader).bytes(), old(reader).pos(), datatype, count as nat)
            == Some((r->Ok_0@, final(reader).pos())),
        r is Err ==> spec_typed_run(old(reader).bytes(), old(reader).pos(), datatype, count as nat)
            is None && is_protocol(r->Err_0, typed_error(datatype)),
{
    let ghost s = reader.bytes();
    let ghost start = reader.pos();
    let mut values: Vec<PtpValue> = Vec::new();
    let mut k: u16 = 0;
    while k < count
        invariant
            k <= count,
            reader.bytes() == s,
            s == old(reader).bytes(),
            start == old(reader).pos(),
            spec_typed_run(s, start, datatype, count as nat) == after_values(
                values@,
                spec_typed_run(s, reader.pos(), datatype, (count - k) as nat),
            ),
        decreases count - k,
    {
        let ghost before = values@;
        let v = reader.typed(datatype)?;
        values.push(v);
        k = k + 1;
        proof {
            match spec_typed_run(s, reader.pos(), datatype, (count - k) as nat) {
                Some((vs, q)) => {
                    assert(before + (seq![v] + vs) =~= values@ + vs);
                },
                None => {},
            }
        }
    }
    assert(values@ + Seq::<PtpValue>::empty() =~= values@);
    Ok(values)
}

pub fn parse_prop_desc(data: &[u8]) -> (r: CameraResult<PropDesc>)
    ensures
        r is Ok ==> spec_prop_desc(data@) == Some(r->Ok_0@),
        r is Err ==> spec_prop_desc(data@) is None && is_protocol(r->Err_0, prop_desc_error(data@)),
{
    let mut reader = Reader::new(data);
    let property = reader.u16()?;
    let datatype = reader.u16()?;
    let writable = reader.u8()? == 1;

    reader.typed(datatype)?;  // factory default
    let current = reader.typed(datatype)?;

    let flag = reader.u8()?;
    let form = if flag == 1 {
        let min = reader.typed(datatype)?;
        let max = reader.typed(datatype)?;
        let step = reader.typed(datatype)?;
        Form::Range { min, max, step }
    } else if flag == 2 {
        let count = reader.u16()?;
        let values = read_typed_run(&mut reader, datatype, count)?;
        Form::Enumeration(values)
    } else {
        Form::Any
    };
    Ok(PropDesc { property, datatype, writable, current, form })
}

/// Event dataset: code, transaction id, then as many 32-bit parameters as there are whole
/// words left.
pub open spec fn spec_event(s: Seq<u8>) -> Option<PtpEventView> {
    if s.len() < 6 {
        None
    } else {
        Some(
            PtpEventView {
                code: le16(s, 0) as u16,
                params: Seq::new(((s.len() - 6) / 4) as nat, |i: int| le32(s, 6 + 4 * i) as u32),
            },
        )
    }
}

pub fn parse_event(body: &[u8]) -> (r: Option<PtpEvent>)
    ensures
        r is Some ==> spec_event(body@) == Some(r->Some_0@),
        r is None ==> spec_event(body@) is None,
{
    let mut reader = Reader::new(body);
    let code = match reader.u16() {
        Ok(c) => c,
        Err(_) => return None,
    };
    match reader.u32() {
        Ok(_) => {},
        Err(_) => return None,
    }
    let len = body.len();
    let mut params: Vec<u32> = Vec::new();
    loop
        invariant
            len == body@.len(),
            len >= 6,
            reader.bytes() == body@,
            reader.pos() == 6 + 4 * params@.len(),
            reader.pos() <= len,
            params@ == Seq::new(params@.len(), |i: int| le32(body@, 6 + 4 * i) as u32),
        ensures
            reader.pos() + 4 > len,
            params@ == Seq::new(params@.len(), |i: int| le32(body@, 6 + 4 * i) as u32),
            reader.pos() == 6 + 4 * params@.len(),
        decreases len - reader.pos(),
    {
        match reader.u32() {
            Ok(param) => {
                params.push(param);
                assert(params@ =~= Seq::new(params@.len(), |i: int| le32(body@, 6 + 4 * i) as u32));
            },
            Err(_) => break,
        }
    }
    assert(params@.len() == (len - 6) / 4);
    Some(PtpEvent { code, params })
}

/// The OperationRequest payload: data phase, opcode, transaction id, then the parameters.
pub open spec fn u32s_bytes(params: Seq<u32>) -> Seq<u8>
    decreases params.len(),
{
    if params.len() == 0 {
        Seq::empty()
    } else {
        u32s_bytes(params.drop_last()) + bytes32(params.last() as int)
    }
}

pub open spec fn spec_operation_payload(
    data_phase: u32,
    opcode: u16,
    transaction: u32,
    params: Seq<u32>,
) -> Seq<u8> {
    bytes32(data_phase as int) + bytes16(opcode as int) + bytes32(transaction as int) + u32s_bytes(
        params,
    )
}

pub fn operation_payload(data_phase: u32, opcode: u16, transaction: u32, params: &[u32]) -> (r:
    Vec<u8>)
    ensures
        r@ == spec_operation_payload(data_phase, opcode, transaction, params@),
{
    let mut payload: Vec<u8> = Vec::new();
    push32(&mut payload, data_phase);
    push16(&mut payload, opcode);
    push32(&mut payload, transaction);
    let ghost head = payload@;
    let mut i: usize = 0;
    while i < params.len()
        invariant
            i <= params@.len(),
            payload@ == head + u32s_bytes(params@.subrange(0, i as int)),
        decreases params@.len() - i,
    {
        push32(&mut payload, params[i]);
        i = i + 1;
        assert(params@.subrange(0, i as int).drop_last() =~= params@.subrange(0, i - 1));
        assert(payload@ =~= head + u32s_bytes(params@.subrange(0, i as int)));
    }
    assert(params@.subrange(0, params@.len() as int) =~= params@);
    payload
}

// ---------------------------------------------------------------------------------------------
// Framing
// ---------------------------------------------------------------------------------------------

/// A packet on the wire: its total length (header included), its type, then the payload.
pub open spec fn spec_frame(kind: u32, payload: Seq<u8>) -> Seq<u8> {
    bytes32(8 + payload.len() as int) + bytes32(kind as int) + payload
}

/// Frame a payload as one packet.
pub fn frame_packet(kind: u32, payload: &[u8]) -> (r: Vec<u8>)
    requires
        payload@.len() + 8 <= u32::MAX,
    ensures
        r@ == spec_frame(kind, payload@),
{
    let mut frame: Vec<u8> = Vec::new();
    push32(&mut frame, (8 + payload.len()) as u32);
    push32(&mut frame, kind);
    push_bytes(&mut frame, payload);
    frame
}

/// What an eight-byte header announces: the packet type and how many body bytes follow. A
/// length shorter than the header itself is impossible.
pub open spec fn spec_header(h: Seq<u8>) -> Option<(u32, int)> {
    if le32(h, 0) < 8 {
        None
    } else {
        Some((le32(h, 4) as u32, le32(h, 0) - 8))
    }
}

pub open spec fn impossible_length_message(length: nat) -> Seq<char> {
    "packet claims an impossible length of "@ + decimal(length) + " bytes"@
}

/// Read a packet header: the packet type and the length of the body that follows it.
pub fn parse_header(header: &[u8]) -> (r: CameraResult<(u32, usize)>)
    requires
        header@.len() == 8,
    ensures
        r is Ok ==> spec_header(header@) == Some((r->Ok_0.0, r->Ok_0.1 as int)),
        r is Err ==> spec_header(header@) is None && is_protocol(
            r->Err_0,
            impossible_length_message(le32(header@, 0) as nat),
        ),
{
    let length = read32(header, 0);
    let kind = read32(header, 4);
    if length < 8 {
        let mut m: Vec<char> = Vec::new();
        push_str(&mut m, "packet claims an impossible length of ");
        push_decimal(&mut m, length as u64);
        push_str(&mut m, " bytes");
        return Err(CameraError::Protocol(string_from(m.as_slice())));
    }
    Ok((kind, (length - 8) as usize))
}

/// A framed packet's header announces exactly its type and its payload's length, and the
/// payload follows the header unchanged.
pub proof fn framing_round_trip(kind: u32, payload: Seq<u8>)
    requires
        payload.len() + 8 <= u32::MAX,
    ensures
        spec_header(spec_frame(kind, payload).subrange(0, 8)) == Some((kind, payload.len() as int)),
        spec_frame(kind, payload).subrange(8, spec_frame(kind, payload).len() as int) == payload,
{
    let f = spec_frame(kind, payload);
    let h = f.subrange(0, 8);
    assert(h =~= bytes32(8 + payload.len() as int) + bytes32(kind as int));
    bytes32_round_trip((8 + payload.len()) as u32);
    bytes32_round_trip(kind);
    assert(le32(h, 0) == le32(bytes32(8 + payload.len() as int), 0));
    assert(le32(h, 4) == le32(bytes32(kind as int), 0));
    assert(f.subrange(8, f.len() as int) =~= payload);
}

// ---------------------------------------------------------------------------------------------
// Handshake
// ---------------------------------------------------------------------------------------------

/// Identifies this client to the camera. Constant on purpose: a body associates a pairing
/// with the client GUID, so a stable value is what lets it recognise us across sessions.
pub open spec fn client_guid() -> Seq<u8> {
    seq![
        0x64u8, 0x75u8, 0x73u8, 0x6bu8, 0x6cu8, 0x61u8, 0x70u8, 0x73u8, 0x65u8, 0x00u8, 0x01u8,
        0x00u8, 0x00u8, 0x00u8, 0x00u8, 0x01u8,
    ]
}

/// The Init_Command_Request payload: our GUID, our name, the protocol version.
pub open spec fn spec_init_command_payload(name: Seq<char>) -> Seq<u8> {
    client_guid() + (units_bytes(encode_utf16(name)) + seq![0u8, 0u8]) + bytes32(
        PROTOCOL_VERSION as int,
    )
}

pub fn init_command_payload(client_name: &str) -> (r: Vec<u8>)
    ensures
        r@ == spec_init_command_payload(client_name@),
{
    let mut payload: Vec<u8> = Vec::new();
    payload.push(0x64);
    payload.push(0x75);
    payload.push(0x73);
    payload.push(0x6b);
    payload.push(0x6c);
    payload.push(0x61);
    payload.push(0x70);
    payload.push(0x73);
    payload.push(0x65);
    payload.push(0x00);
    payload.push(0x01);
    payload.push(0x00);
    payload.push(0x00);
    payload.push(0x00);
    payload.push(0x00);
    payload.push(0x01);
    assert(payload@ =~= client_guid());
    let name = utf16z(client_name);
    push_bytes(&mut payload, name.as_slice());
    push32(&mut payload, PROTOCOL_VERSION);
    payload
}

/// What the camera answered to our Init_Command_Request.
pub struct CommandAck {
    /// The number the event channel has to echo back.
    pub connection: u32,
    /// The name the camera gives itself; empty when it sent none that decodes.
    pub camera_name: String,
}

pub open spec fn refused_connection_message() -> Seq<char> {
    "the camera refused the connection - put it back into its connect-to-computer screen and try again"@
}

pub open spec fn expected_packet_message(expected: Seq<char>, kind: u32) -> Seq<char> {
    "expected "@ + expected + ", got packet type "@ + decimal(kind as nat)
}

/// The camera's name in an Init_Command_Ack, which follows the connection number and its
/// 16-byte GUID.
pub open spec fn ack_camera_name(body: Seq<u8>) -> Seq<char> {
    match spec_utf16z(body, 20) {
        Some((name, _)) => name,
        None => Seq::empty(),
    }
}

/// Interpret the reply to an Init_Command_Request.
///
/// Init_Fail carries the camera's reason, which is reported as the status; anything but an
/// acknowledgement is a protocol error; an acknowledgement must hold the connection number
/// and the camera's GUID.
pub fn command_ack(kind: u32, body: &[u8]) -> (r: CameraResult<CommandAck>)
    ensures
        kind == INIT_FAIL ==> (r matches Err(CameraError::Rejected { status, message }) && status
            == (if body@.len() >= 4 {
            (le32(body@, 0) as u32) as u16
        } else {
            0u16
        }) && message@ == refused_connection_message()),
        kind != INIT_FAIL && kind != INIT_COMMAND_ACK ==> (r matches Err(e) && is_protocol(
            e,
            expected_packet_message("Init_Command_Ack"@, kind),
        )),
        kind == INIT_COMMAND_ACK ==> (r is Ok <==> body@.len() >= 20),
        kind == INIT_COMMAND_ACK && r is Ok ==> r->Ok_0.connection == le32(body@, 0)
            && r->Ok_0.camera_name@ == ack_camera_name(body@),
        kind == INIT_COMMAND_ACK && r is Err ==> is_protocol(r->Err_0, short_message()),
{
    if kind == INIT_FAIL {
        let mut reader = Reader::new(body);
        let reason: u32 = match reader.u32() {
            Ok(v) => v,
            Err(_) => 0,
        };
        return Err(
            CameraError::Rejected {
                status: reason as u16,
                message: owned(
                    "the camera refused the connection - put it back into its connect-to-computer screen and try again",
                ),
            },
        );
    }
    if kind != INIT_COMMAND_ACK {
        return Err(unexpected_reply("Init_Command_Ack", kind));
    }
    let mut reader = Reader::new(body);
    let connection = reader.u32()?;
    reader.take(16)?;  // the camera's GUID
    let camera_name = match reader.utf16z() {
        Ok(name) => name,
        Err(_) => String::new(),
    };
    Ok(CommandAck { connection, camera_name })
}

fn unexpected_reply(expected: &str, kind: u32) -> (e: CameraError)
    ensures
        is_protocol(e, expected_packet_message(expected@, kind)),
{
    let mut m: Vec<char> = Vec::new();
    push_str(&mut m, "expected ");
    push_str(&mut m, expected);
    push_str(&mut m, ", got packet type ");
    push_decimal(&mut m, kind as u64);
    assert(m@ =~= expected_packet_message(expected@, kind));
    CameraError::Protocol(string_from(m.as_slice()))
}

/// Interpret the reply to an Init_Event_Request: only an acknowledgement completes the
/// session.
pub fn event_ack(kind: u32) -> (r: CameraResult<()>)
    ensures
        kind == INIT_EVENT_ACK ==> r is Ok,
        kind != INIT_EVENT_ACK ==> (r matches Err(e) && is_protocol(
            e,
            expected_packet_message("Init_Event_Ack"@, kind),
        )),
{
    if kind != INIT_EVENT_ACK {
        return Err(unexpected_reply("Init_Event_Ack", kind));
    }
    Ok(())
}

// ---------------------------------------------------------------------------------------------
// Transactions
// ---------------------------------------------------------------------------------------------

/// The command channel's transaction ids: one per operation, counting up and wrapping.
pub struct Transactions {
    next: u32,
}

impl Transactions {
    /// The id the next operation will carry.
    pub closed spec fn upcoming(&self) -> u32 {
        self.next
    }

    pub fn new() -> (r: Self)
        ensures
            r.upcoming() == 0,
    {
        Transactions { next: 0 }
    }

    /// Hand out the next id.
    pub fn take(&mut self) -> (t: u32)
        ensures
            t == old(self).upcoming(),
            final(self).upcoming() == (if t == u32::MAX {
                0
            } else {
                (t + 1) as u32
            }),
    {
        let t = self.next;
        self.next = self.next.wrapping_add(1);
        t
    }
}

/// The StartData payload of a data-out phase: the transaction id and the total length.
pub fn start_data_payload(transaction: u32, length: u64) -> (r: Vec<u8>)
    ensures
        r@ == bytes32(transaction as int) + bytes64(length as int),
{
    let mut p: Vec<u8> = Vec::new();
    push32(&mut p, transaction);
    push64(&mut p, length);
    p
}

/// The EndData payload of a data-out phase: the transaction id and the data itself.
pub fn end_data_payload(transaction: u32, data: &[u8]) -> (r: Vec<u8>)
    ensures
        r@ == bytes32(transaction as int) + data@,
{
    let mut p: Vec<u8> = Vec::new();
    push32(&mut p, transaction);
    push_bytes(&mut p, data);
    p
}

// ---------------------------------------------------------------------------------------------
// Responses
// ---------------------------------------------------------------------------------------------

pub open spec fn operation_message(opcode: u16) -> Seq<char> {
    "operation 0x"@ + hex_fixed(opcode as nat, 4)
}

pub open spec fn failed_operation_message(opcode: u16, code: u16) -> Seq<char> {
    "operation 0x"@ + hex_fixed(opcode as nat, 4) + " failed with PTP response 0x"@ + hex_fixed(
        code as nat,
        4,
    )
}

pub open spec fn unexpected_packet_message(kind: u32, opcode: u16) -> Seq<char> {
    "unexpected packet type "@ + decimal(kind as nat) + " during operation 0x"@ + hex_fixed(
        opcode as nat,
        4,
    )
}

/// What an operation's response code means, given the data its data phase carried.
pub open spec fn response_meaning(
    r: CameraResult<Vec<u8>>,
    code: u16,
    opcode: u16,
    data: Seq<u8>,
) -> bool {
    if code == RESPONSE_OK {
        r matches Ok(d) && d@ == data
    } else if code == RESPONSE_OPERATION_NOT_SUPPORTED {
        r matches Err(CameraError::Unavailable(m)) && m@ == operation_message(opcode)
    } else if code == RESPONSE_DEVICE_PROP_NOT_SUPPORTED {
        r matches Err(CameraError::Unavailable(m)) && m@ == "this setting"@
    } else if code == RESPONSE_DEVICE_BUSY {
        r matches Err(CameraError::Busy)
    } else {
        r matches Err(CameraError::Rejected { status, message }) && status == code && message@
            == failed_operation_message(opcode, code)
    }
}

/// Interpret an operation's response code.
pub fn response_outcome(code: u16, opcode: u16, data: Vec<u8>) -> (r: CameraResult<Vec<u8>>)
    ensures
        response_meaning(r, code, opcode, data@),
{
    if code == RESPONSE_OK {
        Ok(data)
    } else if code == RESPONSE_OPERATION_NOT_SUPPORTED {
        let mut m: Vec<char> = Vec::new();
        push_str(&mut m, "operation 0x");
        push_hex(&mut m, opcode as u64, 4);
        Err(CameraError::Unavailable(string_from(m.as_slice())))
    } else if code == RESPONSE_DEVICE_PROP_NOT_SUPPORTED {
        Err(CameraError::Unavailable(owned("this setting")))
    } else if code == RESPONSE_DEVICE_BUSY {
        Err(CameraError::Busy)
    } else {
        let mut m: Vec<char> = Vec::new();
        push_str(&mut m, "operation 0x");
        push_hex(&mut m, opcode as u64, 4);
        push_str(&mut m, " failed with PTP response 0x");
        push_hex(&mut m, code as u64, 4);
        assert(m@ =~= failed_operation_message(opcode, code));
        Err(CameraError::Rejected { status: code, message: string_from(m.as_slice()) })
    }
}

/// The payload of a Data or EndData packet, past its 4-byte transaction id.
pub open spec fn data_part(body: Seq<u8>) -> Seq<u8> {
    if body.len() >= 4 {
        body.subrange(4, body.len() as int)
    } else {
        Seq::empty()
    }
}

/// One operation in flight on the command channel, collecting its data phase until the
/// response arrives.
pub struct Exchange {
    opcode: u16,
    data: Vec<u8>,
}

/// Where an exchange stands after one more packet.
pub enum Step {
    /// Still collecting.
    Pending(Exchange),
    /// The response arrived, or the exchange broke down.
    Done(CameraResult<Vec<u8>>),
}

impl Exchange {
    pub closed spec fn operation(&self) -> u16 {
        self.opcode
    }

    /// The data-in bytes received so far.
    pub closed spec fn collected(&self) -> Seq<u8> {
        self.data@
    }

    pub fn new(opcode: u16) -> (r: Self)
        ensures
            r.operation() == opcode,
            r.collected() == Seq::<u8>::empty(),
    {
        Exchange { opcode, data: Vec::new() }
    }

    /// Take the next packet read from the command channel.
    ///
    /// StartData and events change nothing; Data and EndData add their payload; the
    /// response ends the exchange with what its code means; any other packet type ends it
    /// with a protocol error.
    pub fn accept(self, kind: u32, body: &[u8]) -> (r: Step)
        ensures
            kind == START_DATA || kind == EVENT ==> (r matches Step::Pending(n) && n.operation()
                == self.operation() && n.collected() == self.collected()),
            kind == DATA || kind == END_DATA ==> (r matches Step::Pending(n) && n.operation()
                == self.operation() && n.collected() == self.collected() + data_part(body@)),
            kind == OPERATION_RESPONSE && body@.len() < 2 ==> (r matches Step::Done(Err(e))
                && is_protocol(e, short_message())),
            kind == OPERATION_RESPONSE && body@.len() >= 2 ==> (r matches Step::Done(res)
                && response_meaning(res, le16(body@, 0) as u16, self.operation(), self.collected())),
            kind != START_DATA && kind != EVENT && kind != DATA && kind != END_DATA && kind
                != OPERATION_RESPONSE ==> (r matches Step::Done(Err(e)) && is_protocol(
                e,
                unexpected_packet_message(kind, self.operation()),
            )),
    {
        let Exchange { opcode, mut data } = self;
        if kind == START_DATA || kind == EVENT {
            Step::Pending(Exchange { opcode, data })
        } else if kind == DATA || kind == END_DATA {
            if body.len() >= 4 {
                let mut k: usize = 4;
                let ghost start = data@;
                while k < body.len()
                    invariant
                        4 <= k <= body@.len(),
                        data@ == start + body@.subrange(4, k as int),
                    decreases body@.len() - k,
                {
                    data.push(body[k]);
                    k = k + 1;
                    assert(data@ =~= start + body@.subrange(4, k as int));
                }
            } else {
                assert(data@ =~= data@ + Seq::<u8>::empty());
            }
            Step::Pending(Exchange { opcode, data })
        } else if kind == OPERATION_RESPONSE {
            let mut reader = Reader::new(body);
            match reader.u16() {
                Ok(code) => Step::Done(response_outcome(code, opcode, data)),
                Err(e) => Step::Done(Err(e)),
            }
        } else {
            let mut m: Vec<char> = Vec::new();
            push_str(&mut m, "unexpected packet type ");
            push_decimal(&mut m, kind as u64);
            push_str(&mut m, " during operation 0x");
            push_hex(&mut m, opcode as u64, 4);
            Step::Done(Err(CameraError::Protocol(string_from(m.as_slice()))))
        }
    }
}

// ---------------------------------------------------------------------------------------------
// The event channel
// ---------------------------------------------------------------------------------------------

/// What to do with a packet that arrived on the event channel.
pub enum EventChannelAction {
    /// The camera asked whether we are still there: answer with a Probe_Response.
    AnswerProbe,
    /// The camera reported something: pass it on, and note that this body reports events.
    Publish(PtpEvent),
    /// Nothing to act on.
    Ignore,
}

/// Decide what an event-channel packet calls for. A probe is answered but is no event: a
/// keep-alive says the socket is open, not that the camera reports what it does.
pub fn on_event_channel_packet(kind: u32, body: &[u8]) -> (r: EventChannelAction)
    ensures
        kind == PROBE_REQUEST ==> r is AnswerProbe,
        kind == EVENT && spec_event(body@) is Some ==> (r matches EventChannelAction::Publish(e)
            && Some(e@) == spec_event(body@)),
        kind == EVENT && spec_event(body@) is None ==> r is Ignore,
        kind != PROBE_REQUEST && kind != EVENT ==> r is Ignore,
{
    if kind == PROBE_REQUEST {
        EventChannelAction::AnswerProbe
    } else if kind == EVENT {
        match parse_event(body) {
            Some(e) => EventChannelAction::Publish(e),
            None => EventChannelAction::Ignore,
        }
    } else {
        EventChannelAction::Ignore
    }
}

// ---------------------------------------------------------------------------------------------
// Properties
// ---------------------------------------------------------------------------------------------

pub open spec fn unwritable_type_message(property: u16, datatype: u16) -> Seq<char> {
    "cannot write property 0x"@ + hex_fixed(property as nat, 4) + " of data type 0x"@
        + hex_fixed(datatype as nat, 4)
}

/// The value of a property, encoded at the width its data type declares.
pub open spec fn spec_prop_value_bytes(datatype: u16, value: u32) -> Option<Seq<u8>> {
    if datatype == TYPE_INT8 || datatype == TYPE_UINT8 {
        Some(seq![value as u8])
    } else if datatype == TYPE_INT16 || datatype == TYPE_UINT16 {
        Some(bytes16((value as u16) as int))
    } else if datatype == TYPE_INT32 || datatype == TYPE_UINT32 {
        Some(bytes32(value as int))
    } else {
        None
    }
}

/// The SetDevicePropValue data for a property: the value at the property's own width.
pub fn prop_value_payload(property: u16, datatype: u16, value: u32) -> (r: CameraResult<Vec<u8>>)
    ensures
        r is Ok ==> spec_prop_value_bytes(datatype, value) == Some(r->Ok_0@),
        r is Err ==> spec_prop_value_bytes(datatype, value) is None && is_protocol(
            r->Err_0,
            unwritable_type_message(property, datatype),
        ),
{
    let mut payload: Vec<u8> = Vec::new();
    if datatype == TYPE_INT8 || datatype == TYPE_UINT8 {
        payload.push(value as u8);
        assert(payload@ =~= seq![value as u8]);
    } else if datatype == TYPE_INT16 || datatype == TYPE_UINT16 {
        push16(&mut payload, value as u16);
        assert(payload@ =~= bytes16((value as u16) as int));
    } else if datatype == TYPE_INT32 || datatype == TYPE_UINT32 {
        push32(&mut payload, value);
        assert(payload@ =~= bytes32(value as int));
    } else {
        let mut m: Vec<char> = Vec::new();
        push_str(&mut m, "cannot write property 0x");
        push_hex(&mut m, property as u64, 4);
        push_str(&mut m, " of data type 0x");
        push_hex(&mut m, datatype as u64, 4);
        assert(m@ =~= unwritable_type_message(property, datatype));
        return Err(CameraError::Protocol(string_from(m.as_slice())));
    }
    Ok(payload)
}

/// The data type a value's width and signedness belong to.
pub open spec fn type_of(v: PtpValue) -> u16 {
    match v {
        PtpValue::I8(_) => TYPE_INT8,
        PtpValue::U8(_) => TYPE_UINT8,
        PtpValue::I16(_) => TYPE_INT16,
        PtpValue::U16(_) => TYPE_UINT16,
        PtpValue::I32(_) => TYPE_INT32,
        PtpValue::U32(_) => TYPE_UINT32,
    }
}

/// A value read at its declared type, widened to 32 bits and written back at that type, reads
/// back unchanged: the raw token a camera reported survives the trip to a write.
pub proof fn value_write_round_trip(v: PtpValue)
    ensures
        spec_prop_value_bytes(type_of(v), value_u32(v)) matches Some(b) && spec_typed(
            b,
            0,
            type_of(v),
        ) == Some((v, b.len() as int)),
{
    match v {
        PtpValue::I8(x) => {
            assert(((x as u32) as u8) as i8 == x) by (bit_vector);
        },
        PtpValue::U8(x) => {
            assert((x as u32) as u8 == x) by (bit_vector);
        },
        PtpValue::I16(x) => lemma_i16_trip(x),
        PtpValue::U16(x) => lemma_u16_trip(x),
        PtpValue::I32(x) => lemma_i32_trip(x),
        PtpValue::U32(x) => {
            bytes32_round_trip(x);
        },
    }
}

proof fn lemma_i16_trip(x: i16)
    ensures
        spec_prop_value_bytes(TYPE_INT16, x as u32) matches Some(b) && spec_typed(b, 0, TYPE_INT16)
            == Some((PtpValue::I16(x), b.len() as int)),
{
    let w: u16 = (x as u32) as u16;
    assert(w as i16 == x) by (bit_vector)
        requires
            w == (x as u32) as u16,
    ;
    bytes16_round_trip(w);
    let b = bytes16(w as int);
    assert(spec_u16(b, 0) == Some((w, 2int)));
}

proof fn lemma_u16_trip(x: u16)
    ensures
        spec_prop_value_bytes(TYPE_UINT16, x as u32) matches Some(b) && spec_typed(
            b,
            0,
            TYPE_UINT16,
        ) == Some((PtpValue::U16(x), b.len() as int)),
{
    assert((x as u32) as u16 == x) by (bit_vector);
    bytes16_round_trip(x);
    let b = bytes16(x as int);
    assert(spec_u16(b, 0) == Some((x, 2int)));
}

proof fn lemma_i32_trip(x: i32)
    ensures
        spec_prop_value_bytes(TYPE_INT32, x as u32) matches Some(b) && spec_typed(b, 0, TYPE_INT32)
            == Some((PtpValue::I32(x), b.len() as int)),
{
    let w: u32 = x as u32;
    assert(w as i32 == x) by (bit_vector)
        requires
            w == x as u32,
    ;
    bytes32_round_trip(w);
    let b = bytes32(w as int);
    assert(spec_u32(b, 0) == Some((w, 4int)));
}

pub open spec fn wrong_property_message(asked: u16, described: u16) -> Seq<char> {
    "asked about property 0x"@ + hex_fixed(asked as nat, 4) + " but the camera described 0x"@
        + hex_fixed(described as nat, 4)
}

/// Parse the reply to GetDevicePropDesc for `property`.
///
/// A description of some other property means the transaction stream has desynchronised;
/// refusing it beats writing a shutter speed into an aperture.
pub fn described_property(property: u16, raw: &[u8]) -> (r: CameraResult<PropDesc>)
    ensures
        r is Ok ==> spec_prop_desc(raw@) == Some(r->Ok_0@) && r->Ok_0.property == property,
        spec_prop_desc(raw@) matches Some(d) && d.property == property ==> r is Ok,
        spec_prop_desc(raw@) is None ==> (r matches Err(e) && is_protocol(
            e,
            prop_desc_error(raw@),
        )),
        spec_prop_desc(raw@) is Some && spec_prop_desc(raw@)->Some_0.property != property ==> (
        r matches Err(e) && is_protocol(
            e,
            wrong_property_message(property, spec_prop_desc(raw@)->Some_0.property),
        )),
{
    let desc = parse_prop_desc(raw)?;
    if desc.property != property {
        let mut m: Vec<char> = Vec::new();
        push_str(&mut m, "asked about property 0x");
        push_hex(&mut m, property as u64, 4);
        push_str(&mut m, " but the camera described 0x");
        push_hex(&mut m, desc.property as u64, 4);
        assert(m@ =~= wrong_property_message(property, desc.property));
        return Err(CameraError::Protocol(string_from(m.as_slice())));
    }
    Ok(desc)
}

} // verus!
