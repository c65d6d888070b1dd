//! The wire codec: each message is rendered as one JSON value in a
//! fixed, canonical form, and framed on the stream behind a 4-byte
//! big-endian length prefix.
//!
//! The encoder is exact: `spec_encode_msg` gives the bytes produced
//! for every message. The decoder is specified by `spec_decode_msg`,
//! a deterministic parser of that canonical form, and
//! `lemma_msg_round_trip` proves that decoding an encoded message
//! gives the message back.

use vstd::prelude::*;
use crate::types::{MsgView, WireMessage};

verus! {

#[derive(Clone, Copy, Debug, PartialEq, Eq, Structural)]
pub enum CodecError {
    /// The stream ended inside the length prefix or inside a payload
    /// whose length was already announced.
    Truncated,
    /// The announced payload length exceeds the bound the codec
    /// enforces against hostile peers.
    LengthExceedsMax,
    /// The payload bytes are not the canonical encoding of any
    /// message.
    Malformed,
}

/// A frame's payload may not exceed this many bytes (8 MiB); a peer
/// that announces a larger length is refused before any allocation.
pub const MAX_PAYLOAD_LEN: u32 = 0x0080_0000;

// ---------------------------------------------------------------------------
// Byte-level constants of the canonical JSON form.
// ---------------------------------------------------------------------------

pub open spec fn spec_ping_lit() -> Seq<u8> {
    seq![0x22u8, 0x50u8, 0x69u8, 0x6eu8, 0x67u8, 0x22u8]
}

pub open spec fn spec_hs_pre() -> Seq<u8> {
    seq![0x7bu8, 0x22u8, 0x48u8, 0x61u8, 0x6eu8, 0x64u8, 0x73u8, 0x68u8, 0x61u8, 0x6bu8,
        0x65u8, 0x22u8, 0x3au8, 0x7bu8, 0x22u8, 0x70u8, 0x75u8, 0x62u8, 0x6bu8, 0x65u8,
        0x79u8, 0x22u8, 0x3au8, 0x22u8]
}

pub open spec fn spec_ack_pre() -> Seq<u8> {
    seq![0x7bu8, 0x22u8, 0x41u8, 0x63u8, 0x6bu8, 0x22u8, 0x3au8, 0x7bu8, 0x22u8, 0x69u8,
        0x64u8, 0x22u8, 0x3au8, 0x22u8]
}

pub open spec fn spec_chat_pre() -> Seq<u8> {
    seq![0x7bu8, 0x22u8, 0x43u8, 0x68u8, 0x61u8, 0x74u8, 0x22u8, 0x3au8, 0x7bu8, 0x22u8,
        0x73u8, 0x65u8, 0x6eu8, 0x64u8, 0x65u8, 0x72u8, 0x5fu8, 0x69u8, 0x64u8, 0x22u8,
        0x3au8, 0x22u8]
}

pub open spec fn spec_ts_key() -> Seq<u8> {
    seq![0x2cu8, 0x22u8, 0x74u8, 0x69u8, 0x6du8, 0x65u8, 0x73u8, 0x74u8, 0x61u8, 0x6du8,
        0x70u8, 0x22u8, 0x3au8]
}

pub open spec fn spec_pl_key() -> Seq<u8> {
    seq![0x2cu8, 0x22u8, 0x70u8, 0x61u8, 0x79u8, 0x6cu8, 0x6fu8, 0x61u8, 0x64u8, 0x22u8,
        0x3au8, 0x22u8]
}

pub open spec fn spec_nonce_key() -> Seq<u8> {
    seq![0x2cu8, 0x22u8, 0x6eu8, 0x6fu8, 0x6eu8, 0x63u8, 0x65u8, 0x22u8, 0x3au8, 0x22u8]
}

pub open spec fn spec_obj_end() -> Seq<u8> {
    seq![0x7du8, 0x7du8]
}

fn ping_lit() -> (v: Vec<u8>)
    ensures
        v@ == spec_ping_lit(),
{
    let v: Vec<u8> = vec![0x22u8, 0x50u8, 0x69u8, 0x6eu8, 0x67u8, 0x22u8];
    proof { assert(v@ =~= spec_ping_lit()); }
    v
}

fn hs_pre() -> (v: Vec<u8>)
    ensures
        v@ == spec_hs_pre(),
{
    let v: Vec<u8> = vec![0x7bu8, 0x22u8, 0x48u8, 0x61u8, 0x6eu8, 0x64u8, 0x73u8, 0x68u8,
        0x61u8, 0x6bu8, 0x65u8, 0x22u8, 0x3au8, 0x7bu8, 0x22u8, 0x70u8, 0x75u8, 0x62u8,
        0x6bu8, 0x65u8, 0x79u8, 0x22u8, 0x3au8, 0x22u8];
    proof { assert(v@ =~= spec_hs_pre()); }
    v
}

fn ack_pre() -> (v: Vec<u8>)
    ensures
        v@ == spec_ack_pre(),
{
    let v: Vec<u8> = vec![0x7bu8, 0x22u8, 0x41u8, 0x63u8, 0x6bu8, 0x22u8, 0x3au8, 0x7bu8,
        0x22u8, 0x69u8, 0x64u8, 0x22u8, 0x3au8, 0x22u8];
    proof { assert(v@ =~= spec_ack_pre()); }
    v
}

fn chat_pre() -> (v: Vec<u8>)
    ensures
        v@ == spec_chat_pre(),
{
    let v: Vec<u8> = vec![0x7bu8, 0x22u8, 0x43u8, 0x68u8, 0x61u8, 0x74u8, 0x22u8, 0x3au8,
        0x7bu8, 0x22u8, 0x73u8, 0x65u8, 0x6eu8, 0x64u8, 0x65u8, 0x72u8, 0x5fu8, 0x69u8,
        0x64u8, 0x22u8, 0x3au8, 0x22u8];
    proof { assert(v@ =~= spec_chat_pre()); }
    v
}

fn ts_key() -> (v: Vec<u8>)
    ensures
        v@ == spec_ts_key(),
{
    let v: Vec<u8> = vec![0x2cu8, 0x22u8, 0x74u8, 0x69u8, 0x6du8, 0x65u8, 0x73u8, 0x74u8,
        0x61u8, 0x6du8, 0x70u8, 0x22u8, 0x3au8];
    proof { assert(v@ =~= spec_ts_key()); }
    v
}

fn pl_key() -> (v: Vec<u8>)
    ensures
        v@ == spec_pl_key(),
{
    let v: Vec<u8> = vec![0x2cu8, 0x22u8, 0x70u8, 0x61u8, 0x79u8, 0x6cu8, 0x6fu8, 0x61u8,
        0x64u8, 0x22u8, 0x3au8, 0x22u8];
    proof { assert(v@ =~= spec_pl_key()); }
    v
}

fn nonce_key() -> (v: Vec<u8>)
    ensures
        v@ == spec_nonce_key(),
{
    let v: Vec<u8> = vec![0x2cu8, 0x22u8, 0x6eu8, 0x6fu8, 0x6eu8, 0x63u8, 0x65u8, 0x22u8,
        0x3au8, 0x22u8];
    proof { assert(v@ =~= spec_nonce_key()); }
    v
}

fn obj_end() -> (v: Vec<u8>)
    ensures
        v@ == spec_obj_end(),
{
    let v: Vec<u8> = vec![0x7du8, 0x7du8];
    proof { assert(v@ =~= spec_obj_end()); }
    v
}

// ---------------------------------------------------------------------------
// JSON string escaping.
// ---------------------------------------------------------------------------

/// The hexadecimal digit (lowercase) for a value below 16.
pub open spec fn spec_hex_digit(v: u8) -> u8 {
    if v < 10 { (0x30 + v) as u8 } else { (0x57 + v) as u8 }
}

/// How one byte is rendered inside a JSON string: the quote, the
/// backslash and control characters are escaped, everything else
/// stands for itself.
pub open spec fn spec_escape_byte(c: u8) -> Seq<u8> {
    if c == 0x22 { seq![0x5cu8, 0x22u8] }
    else if c == 0x5c { seq![0x5cu8, 0x5cu8] }
    else if c == 0x08 { seq![0x5cu8, 0x62u8] }
    else if c == 0x09 { seq![0x5cu8, 0x74u8] }
    else if c == 0x0a { seq![0x5cu8, 0x6eu8] }
    else if c == 0x0c { seq![0x5cu8, 0x66u8] }
    else if c == 0x0d { seq![0x5cu8, 0x72u8] }
    else if c < 0x20 {
        seq![0x5cu8, 0x75u8, 0x30u8, 0x30u8, spec_hex_digit((c / 16) as u8), spec_hex_digit(
            (c % 16) as u8)]
    } else { seq![c] }
}

pub open spec fn spec_escape(s: Seq<u8>) -> Seq<u8>
    decreases s.len(),
{
    if s.len() == 0 {
        Seq::empty()
    } else {
        spec_escape_byte(s[0]) + spec_escape(s.subrange(1, s.len() as int))
    }
}

proof fn lemma_escape_push(s: Seq<u8>, c: u8)
    ensures
        spec_escape(s.push(c)) == spec_escape(s) + spec_escape_byte(c),
    decreases s.len(),
{
    if s.len() == 0 {
        let t = s.push(c).subrange(1, s.push(c).len() as int);
        assert(s.push(c)[0] == c);
        assert(t =~= Seq::<u8>::empty());
        assert(spec_escape(t) == Seq::<u8>::empty());
        assert(spec_escape(s.push(c)) == spec_escape_byte(c) + spec_escape(t));
        assert(spec_escape(s.push(c)) =~= spec_escape(s) + spec_escape_byte(c));
    } else {
        let t = s.subrange(1, s.len() as int);
        assert(s.push(c)[0] == s[0]);
        assert(s.push(c).subrange(1, s.push(c).len() as int) =~= t.push(c));
        lemma_escape_push(t, c);
        assert(spec_escape(s.push(c)) == spec_escape_byte(s[0]) + spec_escape(t.push(c)));
        assert(spec_escape(s) == spec_escape_byte(s[0]) + spec_escape(t));
        assert(spec_escape_byte(s[0]) + (spec_escape(t) + spec_escape_byte(c)) =~= (
        spec_escape_byte(s[0]) + spec_escape(t)) + spec_escape_byte(c));
        assert(spec_escape(s.push(c)) =~= spec_escape(s) + spec_escape_byte(c));
    }
}

/// Each byte escapes to at most six bytes.
pub proof fn lemma_escape_len(s: Seq<u8>)
    ensures
        spec_escape(s).len() <= 6 * s.len(),
    decreases s.len(),
{
    if s.len() > 0 {
        lemma_escape_len(s.subrange(1, s.len() as int));
    }
}

/// A byte that needs no escaping: printable, neither quote nor
/// backslash.
pub open spec fn spec_plain_byte(c: u8) -> bool {
    c >= 0x20 && c != 0x22 && c != 0x5c
}

/// A string of plain bytes escapes to itself.
pub proof fn lemma_escape_plain(s: Seq<u8>)
    requires
        forall|k: int| 0 <= k < s.len() ==> spec_plain_byte(#[trigger] s[k]),
    ensures
        spec_escape(s) == s,
    decreases s.len(),
{
    if s.len() == 0 {
        assert(spec_escape(s) =~= s);
    } else {
        let t = s.subrange(1, s.len() as int);
        assert(forall|k: int| 0 <= k < t.len() ==> spec_plain_byte(#[trigger] t[k]));
        lemma_escape_plain(t);
        assert(spec_plain_byte(s[0]));
        assert(spec_escape_byte(s[0]) == seq![s[0]]);
        assert(spec_escape(s) =~= s);
    }
}

fn hex_digit(v: u8) -> (r: u8)
    requires
        v < 16,
    ensures
        r == spec_hex_digit(v),
{
    if v < 10 { 0x30 + v } else { 0x57 + v }
}

/// Appends the JSON escape of every byte of `s` to `out`.
fn append_escaped(out: &mut Vec<u8>, s: &Vec<u8>)
    ensures
        final(out)@ == old(out)@ + spec_escape(s@),
{
    let ghost start = out@;
    let mut k: usize = 0;
    proof {
        assert(s@.subrange(0, 0) =~= Seq::<u8>::empty());
        assert(out@ =~= start + spec_escape(s@.subrange(0, 0)));
    }
    while k < s.len()
        invariant
            k <= s@.len(),
            out@ == start + spec_escape(s@.subrange(0, k as int)),
        decreases s@.len() - k,
    {
        let c = s[k];
        proof {
            assert(s@.subrange(0, k + 1) =~= s@.subrange(0, k as int).push(c));
            lemma_escape_push(s@.subrange(0, k as int), c);
        }
        if c == 0x22 {
            out.push(0x5c); out.push(0x22);
        } else if c == 0x5c {
            out.push(0x5c); out.push(0x5c);
        } else if c == 0x08 {
            out.push(0x5c); out.push(0x62);
        } else if c == 0x09 {
            out.push(0x5c); out.push(0x74);
        } else if c == 0x0a {
            out.push(0x5c); out.push(0x6e);
        } else if c == 0x0c {
            out.push(0x5c); out.push(0x66);
        } else if c == 0x0d {
            out.push(0x5c); out.push(0x72);
        } else if c < 0x20 {
            out.push(0x5c); out.push(0x75); out.push(0x30); out.push(0x30);
            out.push(hex_digit(c / 16)); out.push(hex_digit(c % 16));
        } else {
            out.push(c);
        }
        proof {
            assert(out@ =~= start + spec_escape(s@.subrange(0, (k + 1) as int)));
        }
        k = k + 1;
    }
    proof {
        assert(s@.subrange(0, s@.len() as int) =~= s@);
    }
}

// ---------------------------------------------------------------------------
// Decimal rendering of the timestamp.
// ---------------------------------------------------------------------------

/// The decimal digits of `n`, most significant first, no leading
/// zeros (a single `0` for zero).
pub open spec fn spec_dec_u64(n: u64) -> Seq<u8>
    decreases n,
{
    if n < 10 {
        seq![(0x30 + n) as u8]
    } else {
        spec_dec_u64((n / 10) as u64) + seq![(0x30 + n % 10) as u8]
    }
}

pub(crate) fn dec_u64(n: u64) -> (v: Vec<u8>)
    ensures
        v@ == spec_dec_u64(n),
    decreases n,
{
    if n < 10 {
        let v: Vec<u8> = vec![(0x30 + n) as u8];
        proof { assert(v@ =~= spec_dec_u64(n)); }
        v
    } else {
        let mut v = dec_u64(n / 10);
        v.push((0x30 + n % 10) as u8);
        proof { assert(v@ =~= spec_dec_u64(n)); }
        v
    }
}

// ---------------------------------------------------------------------------
// The canonical encoding of a message.
// ---------------------------------------------------------------------------

/// The canonical JSON bytes of a message. This is byte-for-byte the
/// form a compact JSON serializer produces for this variant set.
pub open spec fn spec_encode_msg(m: MsgView) -> Seq<u8> {
    match m {
        MsgView::Handshake { pubkey } => spec_hs_pre() + spec_escape(pubkey) + seq![0x22u8]
            + spec_obj_end(),
        MsgView::Chat { sender_id, timestamp, payload, nonce } => spec_chat_pre()
            + spec_escape(sender_id) + seq![0x22u8] + spec_ts_key() + spec_dec_u64(timestamp)
            + spec_pl_key() + spec_escape(payload) + seq![0x22u8] + spec_nonce_key()
            + spec_escape(nonce) + seq![0x22u8] + spec_obj_end(),
        MsgView::Ack { id } => spec_ack_pre() + spec_escape(id) + seq![0x22u8] + spec_obj_end(),
        MsgView::Ping => spec_ping_lit(),
    }
}

/// Serializes a message to its canonical JSON bytes.
pub fn encode_message(m: &WireMessage) -> (r: Vec<u8>)
    ensures
        r@ == spec_encode_msg(m@),
{
    match m {
        WireMessage::Handshake { pubkey } => {
            let mut out = hs_pre();
            append_escaped(&mut out, pubkey);
            out.push(0x22);
            let mut tail = obj_end();
            out.append(&mut tail);
            proof { assert(out@ =~= spec_encode_msg(m@)); }
            out
        }
        WireMessage::Chat { sender_id, timestamp, payload, nonce } => {
            let mut out = chat_pre();
            append_escaped(&mut out, sender_id);
            out.push(0x22);
            let mut part = ts_key();
            out.append(&mut part);
            let mut digits = dec_u64(*timestamp);
            out.append(&mut digits);
            let mut part2 = pl_key();
            out.append(&mut part2);
            append_escaped(&mut out, payload);
            out.push(0x22);
            let mut part3 = nonce_key();
            out.append(&mut part3);
            append_escaped(&mut out, nonce);
            out.push(0x22);
            let mut tail = obj_end();
            out.append(&mut tail);
            proof { assert(out@ =~= spec_encode_msg(m@)); }
            out
        }
        WireMessage::Ack { id } => {
            let mut out = ack_pre();
            append_escaped(&mut out, id);
            out.push(0x22);
            let mut tail = obj_end();
            out.append(&mut tail);
            proof { assert(out@ =~= spec_encode_msg(m@)); }
            out
        }
        WireMessage::Ping => ping_lit(),
    }
}

// ---------------------------------------------------------------------------
// The decoder's specification: a deterministic parser of the
// canonical form.
// ---------------------------------------------------------------------------

/// The byte a short escape `\x` stands for, if `x` is one.
pub open spec fn spec_unescape_short(e: u8) -> Option<u8> {
    if e == 0x22 { Some(0x22u8) }
    else if e == 0x5c { Some(0x5cu8) }
    else if e == 0x2f { Some(0x2fu8) }
    else if e == 0x62 { Some(0x08u8) }
    else if e == 0x74 { Some(0x09u8) }
    else if e == 0x6e { Some(0x0au8) }
    else if e == 0x66 { Some(0x0cu8) }
    else if e == 0x72 { Some(0x0du8) }
    else { None }
}

/// The value of a hexadecimal digit, either case.
pub open spec fn spec_hex_val(h: u8) -> Option<u8> {
    if 0x30 <= h && h <= 0x39 { Some((h - 0x30) as u8) }
    else if 0x61 <= h && h <= 0x66 { Some((h - 0x57) as u8) }
    else if 0x41 <= h && h <= 0x46 { Some((h - 0x37) as u8) }
    else { None }
}

pub open spec fn spec_prepend(pre: Seq<u8>, r: Option<(Seq<u8>, int)>) -> Option<(Seq<u8>, int)> {
    match r {
        Some(p) => Some((pre + p.0, p.1)),
        None => None,
    }
}

/// Parses the body of a JSON string beginning at `i` (just past the
/// opening quote): the unescaped content and the position just past
/// the closing quote.
pub open spec fn spec_scan_string(b: Seq<u8>, i: int) -> Option<(Seq<u8>, int)>
    decreases b.len() - i,
    when 0 <= i
{
    if i >= b.len() {
        None
    } else if b[i] == 0x22 {
        Some((Seq::empty(), i + 1))
    } else if b[i] == 0x5c {
        if i + 1 < b.len() {
            match spec_unescape_short(b[i + 1]) {
                Some(c) => spec_prepend(seq![c], spec_scan_string(b, i + 2)),
                None => {
                    if b[i + 1] == 0x75 && i + 5 < b.len() {
                        match (spec_hex_val(b[i + 4]), spec_hex_val(b[i + 5])) {
                            (Some(h), Some(l)) => {
                                if b[i + 2] == 0x30 && b[i + 3] == 0x30 {
                                    spec_prepend(seq![(16 * h + l) as u8], spec_scan_string(b, i + 6))
                                } else {
                                    None
                                }
                            }
                            _ => None,
                        }
                    } else {
                        None
                    }
                }
            }
        } else {
            None
        }
    } else if b[i] < 0x20 {
        None
    } else {
        spec_prepend(seq![b[i]], spec_scan_string(b, i + 1))
    }
}

proof fn lemma_prepend_assoc(a: Seq<u8>, m: Seq<u8>, r: Option<(Seq<u8>, int)>)
    ensures
        spec_prepend(a, spec_prepend(m, r)) == spec_prepend(a + m, r),
{
    match r {
        Some(p) => {
            assert(a + (m + p.0) =~= (a + m) + p.0);
        }
        None => {}
    }
}

pub open spec fn spec_is_digit(c: u8) -> bool {
    0x30 <= c && c <= 0x39
}

/// First position at or after `i` that does not hold a decimal digit.
pub open spec fn spec_digit_run_end(b: Seq<u8>, i: int) -> int
    decreases b.len() - i,
    when 0 <= i
{
    if i < b.len() && spec_is_digit(b[i]) {
        spec_digit_run_end(b, i + 1)
    } else {
        i
    }
}

pub open spec fn spec_digit_val(c: u8) -> nat {
    if spec_is_digit(c) { (c - 0x30) as nat } else { 0 }
}

/// The number a digit string denotes, most significant digit first.
pub open spec fn spec_digits_val(d: Seq<u8>) -> nat
    decreases d.len(),
{
    if d.len() == 0 {
        0
    } else {
        spec_digits_val(d.drop_last()) * 10 + spec_digit_val(d.last())
    }
}

pub open spec fn spec_pow10(k: nat) -> nat
    decreases k,
{
    if k == 0 { 1 } else { 10 * spec_pow10((k - 1) as nat) }
}

/// Parses a canonical decimal `u64` at `i`: at least one digit, no
/// leading zero, value within range.
pub open spec fn spec_scan_u64(b: Seq<u8>, i: int) -> Option<(u64, int)> {
    let j = spec_digit_run_end(b, i);
    if j == i {
        None
    } else if b[i] == 0x30 && j > i + 1 {
        None
    } else if spec_digits_val(b.subrange(i, j)) > u64::MAX {
        None
    } else {
        Some((spec_digits_val(b.subrange(i, j)) as u64, j))
    }
}

pub open spec fn spec_starts_with(b: Seq<u8>, p: Seq<u8>) -> bool {
    p.len() <= b.len() && b.subrange(0, p.len() as int) == p
}

/// The deterministic parser of the canonical message form: the
/// decoder returns exactly what this function denotes.
pub open spec fn spec_decode_msg(b: Seq<u8>) -> Option<MsgView> {
    if b == spec_ping_lit() {
        Some(MsgView::Ping)
    } else if spec_starts_with(b, spec_hs_pre()) {
        match spec_scan_string(b, spec_hs_pre().len() as int) {
            Some(p) => {
                if b.subrange(p.1, b.len() as int) == spec_obj_end() {
                    Some(MsgView::Handshake { pubkey: p.0 })
                } else {
                    None
                }
            }
            None => None,
        }
    } else if spec_starts_with(b, spec_ack_pre()) {
        match spec_scan_string(b, spec_ack_pre().len() as int) {
            Some(p) => {
                if b.subrange(p.1, b.len() as int) == spec_obj_end() {
                    Some(MsgView::Ack { id: p.0 })
                } else {
                    None
                }
            }
            None => None,
        }
    } else if spec_starts_with(b, spec_chat_pre()) {
        match spec_scan_string(b, spec_chat_pre().len() as int) {
            Some(sp) => {
                if sp.1 + spec_ts_key().len() <= b.len() && b.subrange(sp.1, sp.1
                    + spec_ts_key().len()) == spec_ts_key() {
                    match spec_scan_u64(b, sp.1 + spec_ts_key().len()) {
                        Some(tp) => {
                            if tp.1 + spec_pl_key().len() <= b.len() && b.subrange(tp.1, tp.1
                                + spec_pl_key().len()) == spec_pl_key() {
                                match spec_scan_string(b, tp.1 + spec_pl_key().len()) {
                                    Some(pp) => {
                                        if pp.1 + spec_nonce_key().len() <= b.len() && b.subrange(
                                            pp.1, pp.1 + spec_nonce_key().len())
                                            == spec_nonce_key() {
                                            match spec_scan_string(b, pp.1
                                                + spec_nonce_key().len()) {
                                                Some(np) => {
                                                    if b.subrange(np.1, b.len() as int)
                                                        == spec_obj_end() {
                                                        Some(MsgView::Chat {
                                                            sender_id: sp.0,
                                                            timestamp: tp.0,
                                                            payload: pp.0,
                                                            nonce: np.0,
                                                        })
                                                    } else {
                                                        None
                                                    }
                                                }
                                                None => None,
                                            }
                                        } else {
                                            None
                                        }
                                    }
                                    None => None,
                                }
                            } else {
                                None
                            }
                        }
                        None => None,
                    }
                } else {
                    None
                }
            }
            None => None,
        }
    } else {
        None
    }
}

// ---------------------------------------------------------------------------
// The executable decoder.
// ---------------------------------------------------------------------------

fn unescape_short(e: u8) -> (r: Option<u8>)
    ensures
        r == spec_unescape_short(e),
{
    if e == 0x22 { Some(0x22) }
    else if e == 0x5c { Some(0x5c) }
    else if e == 0x2f { Some(0x2f) }
    else if e == 0x62 { Some(0x08) }
    else if e == 0x74 { Some(0x09) }
    else if e == 0x6e { Some(0x0a) }
    else if e == 0x66 { Some(0x0c) }
    else if e == 0x72 { Some(0x0d) }
    else { None }
}

fn hex_val(h: u8) -> (r: Option<u8>)
    ensures
        r == spec_hex_val(h),
        r matches Some(v) ==> v < 16,
{
    if 0x30 <= h && h <= 0x39 { Some(h - 0x30) }
    else if 0x61 <= h && h <= 0x66 { Some(h - 0x57) }
    else if 0x41 <= h && h <= 0x46 { Some(h - 0x37) }
    else { None }
}

/// True iff `p` occurs in `b` at position `i`.
pub(crate) fn matches_at(b: &Vec<u8>, i: usize, p: &Vec<u8>) -> (r: bool)
    requires
        i <= b@.len(),
    ensures
        r == (i + p@.len() <= b@.len() && b@.subrange(i as int, i + p@.len()) == p@),
{
    if b.len() - i < p.len() {
        return false;
    }
    let ghost sub = b@.subrange(i as int, i + p@.len());
    let blen = b.len();
    let mut k: usize = 0;
    while k < p.len()
        invariant
            k <= p@.len(),
            i + p@.len() <= b@.len(),
            b@.len() == blen,
            sub == b@.subrange(i as int, i + p@.len()),
            forall|m: int| 0 <= m < k ==> b@[i + m] == p@[m],
        decreases p@.len() - k,
    {
        if b[i + k] != p[k] {
            proof {
                assert(sub[k as int] == b@[i + k]);
                assert(sub != p@);
            }
            return false;
        }
        k = k + 1;
    }
    proof {
        assert(sub =~= p@);
    }
    true
}

/// Parses a JSON string body beginning at `start` (just past the
/// opening quote).
fn scan_string(b: &Vec<u8>, start: usize) -> (r: Option<(Vec<u8>, usize)>)
    requires
        start <= b@.len(),
    ensures
        (r matches Some(p) ==> spec_scan_string(b@, start as int) == Some((p.0@, p.1 as int))
            && start < p.1 && p.1 <= b@.len()),
        (r is None ==> spec_scan_string(b@, start as int) is None),
{
    let mut i = start;
    let mut acc: Vec<u8> = Vec::new();
    proof {
        assert(acc@ + Seq::<u8>::empty() =~= acc@);
    }
    loop
        invariant
            start <= i <= b@.len(),
            spec_scan_string(b@, start as int) == spec_prepend(acc@, spec_scan_string(b@,
                i as int)),
        decreases b@.len() - i,
    {
        if i >= b.len() {
            return None;
        }
        let c = b[i];
        if c == 0x22 {
            proof {
                assert(spec_scan_string(b@, i as int) == Some((Seq::<u8>::empty(), i + 1)));
                assert(acc@ + Seq::<u8>::empty() =~= acc@);
            }
            return Some((acc, i + 1));
        }
        if c == 0x5c {
            if b.len() - i < 2 {
                return None;
            }
            let e = b[i + 1];
            match unescape_short(e) {
                Some(c2) => {
                    proof {
                        lemma_prepend_assoc(acc@, seq![c2], spec_scan_string(b@, i + 2));
                        assert(acc@ + seq![c2] =~= acc@.push(c2));
                    }
                    acc.push(c2);
                    i = i + 2;
                }
                None => {
                    if e == 0x75 && b.len() - i > 5 {
                        if b[i + 2] == 0x30 && b[i + 3] == 0x30 {
                            let h = hex_val(b[i + 4]);
                            let l = hex_val(b[i + 5]);
                            match (h, l) {
                                (Some(hv), Some(lv)) => {
                                    let c2 = 16 * hv + lv;
                                    proof {
                                        lemma_prepend_assoc(acc@, seq![c2], spec_scan_string(b@,
                                            i + 6));
                                        assert(acc@ + seq![c2] =~= acc@.push(c2));
                                    }
                                    acc.push(c2);
                                    i = i + 6;
                                }
                                _ => {
                                    return None;
                                }
                            }
                        } else {
                            return None;
                        }
                    } else {
                        return None;
                    }
                }
            }
        } else if c < 0x20 {
            return None;
        } else {
            proof {
                lemma_prepend_assoc(acc@, seq![c], spec_scan_string(b@, i + 1));
                assert(acc@ + seq![c] =~= acc@.push(c));
            }
            acc.push(c);
            i = i + 1;
        }
    }
}

proof fn lemma_run_end_bounds(b: Seq<u8>, i: int)
    requires
        0 <= i <= b.len(),
    ensures
        i <= spec_digit_run_end(b, i) <= b.len(),
    decreases b.len() - i,
{
    if i < b.len() && spec_is_digit(b[i]) {
        lemma_run_end_bounds(b, i + 1);
    }
}

proof fn lemma_run_digits(b: Seq<u8>, i: int)
    requires
        0 <= i <= b.len(),
    ensures
        forall|m: int| i <= m < spec_digit_run_end(b, i) ==> spec_is_digit(b[m]),
    decreases b.len() - i,
{
    if i < b.len() && spec_is_digit(b[i]) {
        lemma_run_digits(b, i + 1);
    }
}

proof fn lemma_pow10_bounds()
    ensures
        spec_pow10(20) == 0x56bc75e2d63100000,
        spec_pow10(20) > u64::MAX,
{
    reveal_with_fuel(spec_pow10, 21);
}

proof fn lemma_pow10_pos(k: nat)
    ensures
        spec_pow10(k) >= 1,
    decreases k,
{
    if k > 0 {
        lemma_pow10_pos((k - 1) as nat);
    }
}

proof fn lemma_pow10_mono(a: nat, c: nat)
    requires
        a <= c,
    ensures
        spec_pow10(a) <= spec_pow10(c),
        spec_pow10(a) >= 1,
    decreases c,
{
    lemma_pow10_pos(a);
    if a < c {
        lemma_pow10_mono(a, (c - 1) as nat);
        lemma_pow10_pos((c - 1) as nat);
    }
}

/// A digit string is worth at least its first digit's weight.
proof fn lemma_digits_val_lower(d: Seq<u8>)
    requires
        d.len() >= 1,
    ensures
        spec_digits_val(d) >= spec_digit_val(d[0]) * spec_pow10((d.len() - 1) as nat),
    decreases d.len(),
{
    if d.len() == 1 {
        assert(d.drop_last().len() == 0);
        assert(spec_digits_val(d.drop_last()) == 0);
        assert(d.last() == d[0]);
        assert(spec_pow10(0) == 1);
        assert(spec_digits_val(d) == spec_digit_val(d[0]));
    } else {
        let t = d.drop_last();
        lemma_digits_val_lower(t);
        assert(t[0] == d[0]);
        assert(spec_pow10((d.len() - 1) as nat) == 10 * spec_pow10((d.len() - 2) as nat));
        assert(spec_digits_val(d) >= spec_digit_val(d[0]) * spec_pow10((d.len() - 1) as nat))
            by (nonlinear_arith)
            requires
                spec_digits_val(d) == spec_digits_val(t) * 10 + spec_digit_val(d.last()),
                spec_digits_val(t) >= spec_digit_val(d[0]) * spec_pow10((t.len() - 1) as nat),
                spec_pow10((d.len() - 1) as nat) == 10 * spec_pow10((t.len() - 1) as nat),
                t.len() == d.len() - 1,
        ;
    }
}

/// Appending one digit multiplies by ten and adds it.
proof fn lemma_digits_val_push(d: Seq<u8>, c: u8)
    ensures
        spec_digits_val(d.push(c)) == spec_digits_val(d) * 10 + spec_digit_val(c),
{
    assert(d.push(c).drop_last() =~= d);
    assert(d.push(c).last() == c);
}

proof fn lemma_dec_len_k(n: u64, k: nat)
    requires
        k >= 1,
        n < spec_pow10(k),
    ensures
        spec_dec_u64(n).len() <= k,
    decreases n,
{
    if n < 10 {
    } else {
        assert(k >= 2) by {
            if k == 1 {
                assert(spec_pow10(1) == 10 * spec_pow10(0));
            }
        };
        vstd::arithmetic::div_mod::lemma_fundamental_div_mod(n as int, 10);
        assert(spec_pow10(k) == 10 * spec_pow10((k - 1) as nat));
        assert(n / 10 < spec_pow10((k - 1) as nat));
        lemma_dec_len_k(n / 10, (k - 1) as nat);
    }
}

/// The decimal rendering of a `u64` is one to twenty digits long.
pub proof fn lemma_dec_u64_len(n: u64)
    ensures
        1 <= spec_dec_u64(n).len() <= 20,
{
    lemma_pow10_bounds();
    lemma_dec_len_k(n, 20);
}

/// Parses a canonical decimal `u64` beginning at `start`.
fn scan_u64(b: &Vec<u8>, start: usize) -> (r: Option<(u64, usize)>)
    requires
        start <= b@.len(),
    ensures
        (r matches Some(p) ==> spec_scan_u64(b@, start as int) == Some((p.0, p.1 as int))
            && start < p.1 && p.1 <= b@.len()),
        (r is None ==> spec_scan_u64(b@, start as int) is None),
{
    let mut j = start;
    while j < b.len() && b[j] >= 0x30 && b[j] <= 0x39
        invariant
            start <= j <= b@.len(),
            spec_digit_run_end(b@, start as int) == spec_digit_run_end(b@, j as int),
        decreases b@.len() - j,
    {
        j = j + 1;
    }
    proof {
        assert(spec_digit_run_end(b@, j as int) == j);
        lemma_run_digits(b@, start as int);
    }
    if j == start {
        return None;
    }
    if b[start] == 0x30 && j - start > 1 {
        return None;
    }
    if j - start > 20 {
        proof {
            let d = b@.subrange(start as int, j as int);
            lemma_digits_val_lower(d);
            lemma_pow10_bounds();
            lemma_pow10_mono(20, (d.len() - 1) as nat);
            assert(d[0] == b@[start as int]);
            assert(spec_is_digit(d[0]) && d[0] != 0x30);
            assert(spec_digit_val(d[0]) >= 1);
            assert(spec_digit_val(d[0]) * spec_pow10((d.len() - 1) as nat) >= 1 * spec_pow10((
            d.len() - 1) as nat)) by (nonlinear_arith)
                requires spec_digit_val(d[0]) >= 1,
            ;
            assert(spec_digits_val(d) > u64::MAX);
        }
        return None;
    }
    let mut acc: u128 = 0;
    let mut k = start;
    proof {
        assert(b@.subrange(start as int, start as int) =~= Seq::<u8>::empty());
        lemma_pow10_bounds();
        lemma_pow10_mono(0, 20);
    }
    while k < j
        invariant
            start <= k <= j <= b@.len(),
            j - start <= 20,
            forall|m: int| start <= m < j ==> spec_is_digit(b@[m]),
            acc == spec_digits_val(b@.subrange(start as int, k as int)),
            acc < spec_pow10((k - start) as nat),
            spec_pow10(20) == 0x56bc75e2d63100000,
            spec_pow10((k - start) as nat) <= spec_pow10(20),
        decreases j - k,
    {
        let d = b[k];
        proof {
            assert(spec_is_digit(b@[k as int]));
            assert(b@.subrange(start as int, (k + 1) as int) =~= b@.subrange(start as int,
                k as int).push(d));
            lemma_digits_val_push(b@.subrange(start as int, k as int), d);
            lemma_pow10_mono(((k + 1) - start) as nat, 20);
            assert(spec_pow10(((k + 1) - start) as nat) == 10 * spec_pow10((k - start) as nat));
        }
        acc = acc * 10 + ((d - 0x30) as u128);
        k = k + 1;
    }
    proof {
        let d = b@.subrange(start as int, j as int);
        assert(acc == spec_digits_val(d));
    }
    if acc > 0xffff_ffff_ffff_ffff {
        return None;
    }
    Some((acc as u64, j))
}

/// Decodes one canonical JSON message from the whole of `bytes`.
#[verifier::rlimit(100)]
pub fn decode_message(bytes: &Vec<u8>) -> (r: Result<WireMessage, CodecError>)
    ensures
        (r matches Ok(m) ==> spec_decode_msg(bytes@) == Some(m@)),
        (r matches Err(e) ==> spec_decode_msg(bytes@) is None && e == CodecError::Malformed),
{
    let ping = ping_lit();
    if bytes.len() == ping.len() && matches_at(bytes, 0, &ping) {
        proof {
            assert(bytes@.subrange(0, bytes@.len() as int) =~= bytes@);
            assert(bytes@ == spec_ping_lit());
        }
        return Ok(WireMessage::Ping);
    }
    proof {
        assert(bytes@.subrange(0, bytes@.len() as int) =~= bytes@);
        assert(bytes@ != spec_ping_lit());
    }
    let pre_h = hs_pre();
    if matches_at(bytes, 0, &pre_h) {
        match scan_string(bytes, pre_h.len()) {
            Some((pk, j)) => {
                let oe = obj_end();
                if bytes.len() - j == 2 && matches_at(bytes, j, &oe) {
                    proof {
                        assert(bytes@.subrange(j as int, bytes@.len() as int) =~= bytes@.subrange(
                            j as int, j + spec_obj_end().len()));
                    }
                    return Ok(WireMessage::Handshake { pubkey: pk });
                } else {
                    proof {
                        lemma_tail_not_obj_end(bytes@, j as int);
                    }
                    return Err(CodecError::Malformed);
                }
            }
            None => {
                return Err(CodecError::Malformed);
            }
        }
    }
    let pre_a = ack_pre();
    if matches_at(bytes, 0, &pre_a) {
        match scan_string(bytes, pre_a.len()) {
            Some((id, j)) => {
                let oe = obj_end();
                if bytes.len() - j == 2 && matches_at(bytes, j, &oe) {
                    proof {
                        assert(bytes@.subrange(j as int, bytes@.len() as int) =~= bytes@.subrange(
                            j as int, j + spec_obj_end().len()));
                    }
                    return Ok(WireMessage::Ack { id });
                } else {
                    proof {
                        lemma_tail_not_obj_end(bytes@, j as int);
                    }
                    return Err(CodecError::Malformed);
                }
            }
            None => {
                return Err(CodecError::Malformed);
            }
        }
    }
    let pre_c = chat_pre();
    if matches_at(bytes, 0, &pre_c) {
        match scan_string(bytes, pre_c.len()) {
            Some((sid, j1)) => {
                let tsk = ts_key();
                if !matches_at(bytes, j1, &tsk) {
                    return Err(CodecError::Malformed);
                }
                match scan_u64(bytes, j1 + tsk.len()) {
                    Some((ts, j2)) => {
                        let plk = pl_key();
                        if !matches_at(bytes, j2, &plk) {
                            return Err(CodecError::Malformed);
                        }
                        match scan_string(bytes, j2 + plk.len()) {
                            Some((pl, j3)) => {
                                let nnk = nonce_key();
                                if !matches_at(bytes, j3, &nnk) {
                                    return Err(CodecError::Malformed);
                                }
                                match scan_string(bytes, j3 + nnk.len()) {
                                    Some((nn, j4)) => {
                                        let oe = obj_end();
                                        if bytes.len() - j4 == 2 && matches_at(bytes, j4, &oe) {
                                            proof {
                                                assert(bytes@.subrange(j4 as int,
                                                    bytes@.len() as int) =~= bytes@.subrange(
                                                    j4 as int, j4 + spec_obj_end().len()));
                                            }
                                            return Ok(WireMessage::Chat {
                                                sender_id: sid,
                                                timestamp: ts,
                                                payload: pl,
                                                nonce: nn,
                                            });
                                        } else {
                                            proof {
                                                lemma_tail_not_obj_end(bytes@, j4 as int);
                                            }
                                            return Err(CodecError::Malformed);
                                        }
                                    }
                                    None => {
                                        return Err(CodecError::Malformed);
                                    }
                                }
                            }
                            None => {
                                return Err(CodecError::Malformed);
                            }
                        }
                    }
                    None => {
                        return Err(CodecError::Malformed);
                    }
                }
            }
            None => {
                return Err(CodecError::Malformed);
            }
        }
    }
    Err(CodecError::Malformed)
}

// ---------------------------------------------------------------------------
// Round trip: decoding an encoding yields the original message.
// ---------------------------------------------------------------------------

proof fn lemma_hex_round(v: u8)
    requires
        v < 16,
    ensures
        spec_hex_val(spec_hex_digit(v)) == Some(v),
{
}

/// Scanning a string body that was produced by the escaper yields the
/// original bytes and stops just past the closing quote.
#[verifier::rlimit(100)]
proof fn lemma_scan_escaped(b: Seq<u8>, i: int, s: Seq<u8>)
    requires
        0 <= i,
        i + spec_escape(s).len() + 1 <= b.len(),
        b.subrange(i, i + spec_escape(s).len() + 1) == spec_escape(s).push(0x22u8),
    ensures
        spec_scan_string(b, i) == Some((s, i + spec_escape(s).len() + 1)),
    decreases s.len(),
{
    let e = spec_escape(s);
    let sub = b.subrange(i, i + e.len() + 1);
    if s.len() == 0 {
        assert(e.len() == 0);
        assert(sub[0] == b[i]);
        assert(b[i] == 0x22);
        assert(s =~= Seq::<u8>::empty());
    } else {
        let c = s[0];
        let t = s.subrange(1, s.len() as int);
        let eb = spec_escape_byte(c);
        let et = spec_escape(t);
        assert(e == eb + et);
        assert(1 <= eb.len() <= 6);
        assert forall|k: int| 0 <= k < eb.len() implies b[i + k] == eb[k] by {
            assert(sub[k] == b[i + k]);
            assert(sub[k] == e.push(0x22u8)[k]);
            assert(e.push(0x22u8)[k] == e[k]);
            assert(e[k] == eb[k]);
        };
        assert forall|m: int| 0 <= m < et.len() + 1 implies b.subrange(i + eb.len(), i + e.len()
            + 1)[m] == et.push(0x22u8)[m] by {
            assert(b.subrange(i + eb.len(), i + e.len() + 1)[m] == b[i + eb.len() + m]);
            assert(sub[eb.len() + m] == b[i + eb.len() + m]);
            assert(sub[eb.len() + m] == e.push(0x22u8)[eb.len() + m]);
            if m < et.len() {
                assert(e.push(0x22u8)[eb.len() + m] == e[eb.len() + m]);
                assert(e[eb.len() + m] == et[m]);
            } else {
                assert(e.push(0x22u8)[eb.len() + m] == 0x22u8);
            }
        };
        assert(b.subrange(i + eb.len(), i + e.len() + 1) =~= et.push(0x22u8));
        lemma_scan_escaped(b, i + eb.len(), t);
        assert(spec_scan_string(b, i + eb.len()) == Some((t, i + e.len() + 1)));
        assert(seq![c] + t =~= s);
        if c == 0x22 || c == 0x5c || c == 0x08 || c == 0x09 || c == 0x0a || c == 0x0c
            || c == 0x0d {
            assert(eb.len() == 2);
            assert(b[i] == 0x5c);
            assert(spec_unescape_short(b[i + 1]) == Some(c));
            assert(spec_scan_string(b, i) == spec_prepend(seq![c], spec_scan_string(b, i + 2)));
        } else if c < 0x20 {
            assert(eb.len() == 6);
            assert(b[i] == 0x5c);
            assert(b[i + 1] == 0x75);
            assert(spec_unescape_short(0x75u8) is None);
            assert(b[i + 2] == 0x30 && b[i + 3] == 0x30);
            lemma_hex_round((c / 16) as u8);
            lemma_hex_round((c % 16) as u8);
            assert(spec_hex_val(b[i + 4]) == Some((c / 16) as u8));
            assert(spec_hex_val(b[i + 5]) == Some((c % 16) as u8));
            assert(16 * ((c / 16) as u8) + ((c % 16) as u8) == c);
            assert(i + 5 < b.len());
            assert(spec_scan_string(b, i) == spec_prepend(seq![c], spec_scan_string(b, i + 6)));
        } else {
            assert(eb.len() == 1);
            assert(b[i] == c);
            assert(b[i] != 0x22 && b[i] != 0x5c && !(b[i] < 0x20));
            assert(spec_scan_string(b, i) == spec_prepend(seq![c], spec_scan_string(b, i + 1)));
        }
    }
}

/// The decimal rendering consists of digits, is never empty, starts
/// with `0` exactly for zero, and denotes its own value.
proof fn lemma_dec_digits(n: u64)
    ensures
        spec_dec_u64(n).len() >= 1,
        forall|k: int| 0 <= k < spec_dec_u64(n).len() ==> spec_is_digit(#[trigger] spec_dec_u64(
            n)[k]),
        (spec_dec_u64(n)[0] == 0x30) == (n == 0),
        spec_digits_val(spec_dec_u64(n)) == n,
    decreases n,
{
    if n < 10 {
        let d = spec_dec_u64(n);
        assert(d == seq![(0x30 + n) as u8]);
        assert(d.drop_last() =~= Seq::<u8>::empty());
        assert(spec_digits_val(d.drop_last()) == 0);
        assert(d.last() == (0x30 + n) as u8);
    } else {
        lemma_dec_digits(n / 10);
        let a = spec_dec_u64(n / 10);
        let d = spec_dec_u64(n);
        assert(d == a + seq![(0x30 + n % 10) as u8]);
        assert(d.drop_last() =~= a);
        assert(d.last() == (0x30 + n % 10) as u8);
        assert(spec_digits_val(d) == spec_digits_val(a) * 10 + (n % 10));
        assert(n / 10 * 10 + n % 10 == n);
        assert(d[0] == a[0]);
        assert(forall|k: int| 0 <= k < a.len() ==> d[k] == a[k]);
    }
}

proof fn lemma_run_block(b: Seq<u8>, i: int, j: int)
    requires
        0 <= i <= j <= b.len(),
        forall|m: int| i <= m < j ==> spec_is_digit(b[m]),
        j == b.len() || !spec_is_digit(b[j]),
    ensures
        spec_digit_run_end(b, i) == j,
    decreases j - i,
{
    if i < j {
        assert(spec_is_digit(b[i]));
        lemma_run_block(b, i + 1, j);
    }
}

/// Scanning the decimal rendering of `n`, with a non-digit (or the
/// end) just after it, yields `n`.
proof fn lemma_scan_u64_dec(b: Seq<u8>, i: int, n: u64)
    requires
        0 <= i,
        i + spec_dec_u64(n).len() <= b.len(),
        b.subrange(i, i + spec_dec_u64(n).len()) == spec_dec_u64(n),
        i + spec_dec_u64(n).len() == b.len() || !spec_is_digit(b[i + spec_dec_u64(n).len()]),
    ensures
        spec_scan_u64(b, i) == Some((n, i + spec_dec_u64(n).len())),
{
    lemma_dec_digits(n);
    let d = spec_dec_u64(n);
    let j = i + d.len();
    assert forall|m: int| i <= m < j implies spec_is_digit(b[m]) by {
        assert(b.subrange(i, j)[m - i] == b[m]);
        assert(b.subrange(i, j)[m - i] == d[m - i]);
    };
    lemma_run_block(b, i, j);
    assert(b.subrange(i, j)[0] == b[i]);
    assert(b[i] == d[0]);
    if n == 0 {
        assert(d.len() == 1);
    } else {
        assert(b[i] != 0x30);
    }
    assert(spec_digits_val(b.subrange(i, j)) == n);
}

/// Decoding an encoded message gives the message back: the codec
/// round-trips on every message value.
pub proof fn lemma_msg_round_trip(m: MsgView)
    ensures
        spec_decode_msg(spec_encode_msg(m)) == Some(m),
{
    match m {
        MsgView::Ping => {
            assert(spec_encode_msg(m) == spec_ping_lit());
        }
        MsgView::Handshake { .. } => {
            lemma_handshake_round_trip(m);
        }
        MsgView::Ack { .. } => {
            lemma_ack_round_trip(m);
        }
        MsgView::Chat { .. } => {
            lemma_chat_round_trip(m);
        }
    }
}

#[verifier::rlimit(100)]
proof fn lemma_handshake_round_trip(m: MsgView)
    requires
        m is Handshake,
    ensures
        spec_decode_msg(spec_encode_msg(m)) == Some(m),
{
    let e = spec_encode_msg(m);
    match m {
        MsgView::Handshake { pubkey } => {
            let pre = spec_hs_pre();
            let esc = spec_escape(pubkey);
            assert(e == pre + esc + seq![0x22u8] + spec_obj_end());
            let j = pre.len() + esc.len() + 1;
            assert(e.len() == j + 2);
            assert(e[0] == pre[0]);
            assert(e != spec_ping_lit()) by {
                if e == spec_ping_lit() {
                    assert(e[0] == 0x22);
                }
            };
            assert(e.subrange(0, pre.len() as int) =~= pre);
            assert(e.subrange(pre.len() as int, j as int) =~= esc.push(0x22u8));
            lemma_scan_escaped(e, pre.len() as int, pubkey);
            assert(e.subrange(j as int, e.len() as int) =~= spec_obj_end());
        }
        _ => {}
    }
}

#[verifier::rlimit(100)]
proof fn lemma_ack_round_trip(m: MsgView)
    requires
        m is Ack,
    ensures
        spec_decode_msg(spec_encode_msg(m)) == Some(m),
{
    let e = spec_encode_msg(m);
    match m {
        MsgView::Ack { id } => {
            let pre = spec_ack_pre();
            let esc = spec_escape(id);
            assert(e == pre + esc + seq![0x22u8] + spec_obj_end());
            let j = pre.len() + esc.len() + 1;
            assert(e.len() == j + 2);
            assert(e[0] == pre[0]);
            assert(e != spec_ping_lit()) by {
                if e == spec_ping_lit() {
                    assert(e[0] == 0x22);
                }
            };
            assert(!spec_starts_with(e, spec_hs_pre())) by {
                if spec_starts_with(e, spec_hs_pre()) {
                    assert(e.subrange(0, spec_hs_pre().len() as int)[2] == e[2]);
                    assert(e[2] == 0x48);
                    assert(e[2] == pre[2]);
                }
            };
            assert(e.subrange(0, pre.len() as int) =~= pre);
            assert(e.subrange(pre.len() as int, j as int) =~= esc.push(0x22u8));
            lemma_scan_escaped(e, pre.len() as int, id);
            assert(e.subrange(j as int, e.len() as int) =~= spec_obj_end());
        }
        _ => {}
    }
}

#[verifier::rlimit(100)]
proof fn lemma_chat_round_trip(m: MsgView)
    requires
        m is Chat,
    ensures
        spec_decode_msg(spec_encode_msg(m)) == Some(m),
{
    let e = spec_encode_msg(m);
    match m {
        MsgView::Chat { sender_id, timestamp, payload, nonce } => {
            let pre = spec_chat_pre();
            let e1 = spec_escape(sender_id);
            let dg = spec_dec_u64(timestamp);
            let e2 = spec_escape(payload);
            let e3 = spec_escape(nonce);
            assert(e == pre + e1 + seq![0x22u8] + spec_ts_key() + dg + spec_pl_key() + e2 + seq![
                0x22u8] + spec_nonce_key() + e3 + seq![0x22u8] + spec_obj_end());
            let j1 = pre.len() + e1.len() + 1;
            let p1 = j1 + spec_ts_key().len();
            let j2 = p1 + dg.len();
            let p2 = j2 + spec_pl_key().len();
            let j3 = p2 + e2.len() + 1;
            let p3 = j3 + spec_nonce_key().len();
            let j4 = p3 + e3.len() + 1;
            assert(e.len() == j4 + 2);
            assert(e[0] == pre[0]);
            assert(e != spec_ping_lit()) by {
                if e == spec_ping_lit() {
                    assert(e[0] == 0x22);
                }
            };
            assert(!spec_starts_with(e, spec_hs_pre())) by {
                if spec_starts_with(e, spec_hs_pre()) {
                    assert(e.subrange(0, spec_hs_pre().len() as int)[2] == e[2]);
                    assert(e[2] == 0x48);
                    assert(e[2] == pre[2]);
                }
            };
            assert(!spec_starts_with(e, spec_ack_pre())) by {
                if spec_starts_with(e, spec_ack_pre()) {
                    assert(e.subrange(0, spec_ack_pre().len() as int)[2] == e[2]);
                    assert(e[2] == 0x41);
                    assert(e[2] == pre[2]);
                }
            };
            assert(e.subrange(0, pre.len() as int) =~= pre);
            assert(e.subrange(pre.len() as int, j1 as int) =~= e1.push(0x22u8));
            lemma_scan_escaped(e, pre.len() as int, sender_id);
            assert(spec_scan_string(e, pre.len() as int) == Some((sender_id, j1 as int)));
            assert(e.subrange(j1 as int, p1 as int) =~= spec_ts_key());
            assert(e.subrange(p1 as int, j2 as int) =~= dg);
            assert(e[j2 as int] == spec_pl_key()[0]);
            lemma_scan_u64_dec(e, p1 as int, timestamp);
            assert(spec_scan_u64(e, p1 as int) == Some((timestamp, j2 as int)));
            assert(e.subrange(j2 as int, p2 as int) =~= spec_pl_key());
            assert(e.subrange(p2 as int, j3 as int) =~= e2.push(0x22u8));
            lemma_scan_escaped(e, p2 as int, payload);
            assert(spec_scan_string(e, p2 as int) == Some((payload, j3 as int)));
            assert(e.subrange(j3 as int, p3 as int) =~= spec_nonce_key());
            assert(e.subrange(p3 as int, j4 as int) =~= e3.push(0x22u8));
            lemma_scan_escaped(e, p3 as int, nonce);
            assert(spec_scan_string(e, p3 as int) == Some((nonce, j4 as int)));
            assert(e.subrange(j4 as int, e.len() as int) =~= spec_obj_end());
        }
        _ => {}
    }
}

// ---------------------------------------------------------------------------
// Length-prefixed framing.
// ---------------------------------------------------------------------------

/// The 4-byte big-endian rendering of a length.
pub open spec fn spec_be32(n: u32) -> Seq<u8> {
    seq![(n >> 24) as u8, (n >> 16) as u8, (n >> 8) as u8, n as u8]
}

/// The value of a 4-byte big-endian length field.
pub open spec fn spec_be32_val(b: Seq<u8>) -> u32 {
    (((b[0] as u32) << 24) | ((b[1] as u32) << 16) | ((b[2] as u32) << 8) | (b[3] as u32)) as u32
}

pub proof fn lemma_be32_round(n: u32)
    ensures
        spec_be32_val(spec_be32(n)) == n,
{
    assert(((((n >> 24) as u8 as u32) << 24) | (((n >> 16) as u8 as u32) << 16) | (((n
        >> 8) as u8 as u32) << 8) | ((n as u8) as u32)) == n) by (bit_vector);
}

/// A frame: the payload's length as 4 big-endian bytes, then the
/// payload itself.
pub open spec fn spec_frame(payload: Seq<u8>) -> Seq<u8> {
    spec_be32(payload.len() as u32) + payload
}

/// Encodes a message and wraps it in a length-prefixed frame.
pub fn encode_frame(m: &WireMessage) -> (r: Result<Vec<u8>, CodecError>)
    ensures
        (r matches Ok(f) ==> spec_encode_msg(m@).len() <= MAX_PAYLOAD_LEN && f@ == spec_frame(
            spec_encode_msg(m@))),
        (r matches Err(c) ==> spec_encode_msg(m@).len() > MAX_PAYLOAD_LEN && c
            == CodecError::LengthExceedsMax),
{
    let mut payload = encode_message(m);
    if payload.len() > MAX_PAYLOAD_LEN as usize {
        return Err(CodecError::LengthExceedsMax);
    }
    let n = payload.len() as u32;
    let mut out: Vec<u8> = Vec::new();
    out.push((n >> 24) as u8);
    out.push((n >> 16) as u8);
    out.push((n >> 8) as u8);
    out.push(n as u8);
    out.append(&mut payload);
    proof {
        assert(out@ =~= spec_frame(spec_encode_msg(m@)));
    }
    Ok(out)
}

/// Reads the payload length out of a 4-byte frame header, refusing
/// an announced length above `MAX_PAYLOAD_LEN` before anything is
/// allocated for it.
pub fn frame_payload_len(header: &Vec<u8>) -> (r: Result<usize, CodecError>)
    requires
        header@.len() == 4,
    ensures
        (r matches Ok(n) ==> n == spec_be32_val(header@) && n <= MAX_PAYLOAD_LEN),
        (r matches Err(c) ==> spec_be32_val(header@) > MAX_PAYLOAD_LEN && c
            == CodecError::LengthExceedsMax),
{
    let n = ((header[0] as u32) << 24) | ((header[1] as u32) << 16) | ((header[2] as u32) << 8)
        | (header[3] as u32);
    if n > MAX_PAYLOAD_LEN {
        Err(CodecError::LengthExceedsMax)
    } else {
        Ok(n as usize)
    }
}

/// Copies `b[from..to]` into a fresh vector.
fn subvec(b: &Vec<u8>, from: usize, to: usize) -> (r: Vec<u8>)
    requires
        from <= to <= b@.len(),
    ensures
        r@ == b@.subrange(from as int, to as int),
{
    let mut r: Vec<u8> = Vec::new();
    let mut k = from;
    proof {
        assert(r@ =~= b@.subrange(from as int, from as int));
    }
    while k < to
        invariant
            from <= k <= to <= b@.len(),
            r@ == b@.subrange(from as int, k as int),
        decreases to - k,
    {
        r.push(b[k]);
        proof {
            assert(b@.subrange(from as int, (k + 1) as int) =~= b@.subrange(from as int,
                k as int).push(b@[k as int]));
        }
        k = k + 1;
    }
    r
}

/// Reads one frame from the front of `buf`.
///
/// An empty buffer is a clean end of stream (`Ok(None)`). A buffer
/// that ends inside the length prefix, or inside a payload whose
/// length was announced, is a truncation error, never a shorter
/// parse. An announced length above `MAX_PAYLOAD_LEN` is refused
/// before the payload is touched. On success the message and the
/// total number of bytes consumed are returned; bytes beyond the
/// frame are left for the next read.
pub fn decode_frame(buf: &Vec<u8>) -> (r: Result<Option<(WireMessage, usize)>, CodecError>)
    ensures
        (buf@.len() == 0 ==> r matches Ok(None)),
        (0 < buf@.len() < 4 ==> (r matches Err(c) && c == CodecError::Truncated)),
        (buf@.len() >= 4 ==> {
            let n = spec_be32_val(buf@.subrange(0, 4)) as int;
            &&& (n > MAX_PAYLOAD_LEN ==> (r matches Err(c) && c == CodecError::LengthExceedsMax))
            &&& (n <= MAX_PAYLOAD_LEN && buf@.len() < 4 + n ==> (r matches Err(c) && c
                == CodecError::Truncated))
            &&& (n <= MAX_PAYLOAD_LEN && buf@.len() >= 4 + n ==> (match spec_decode_msg(
                buf@.subrange(4, 4 + n)) {
                Some(mv) => (r matches Ok(Some(p)) && p.0@ == mv && p.1 == 4 + n),
                None => (r matches Err(c) && c == CodecError::Malformed),
            }))
        }),
{
    if buf.len() == 0 {
        return Ok(None);
    }
    if buf.len() < 4 {
        return Err(CodecError::Truncated);
    }
    let n = ((buf[0] as u32) << 24) | ((buf[1] as u32) << 16) | ((buf[2] as u32) << 8) | (
    buf[3] as u32);
    proof {
        let h = buf@.subrange(0, 4);
        assert(h[0] == buf@[0] && h[1] == buf@[1] && h[2] == buf@[2] && h[3] == buf@[3]);
        assert(n == spec_be32_val(h));
    }
    if n > MAX_PAYLOAD_LEN {
        return Err(CodecError::LengthExceedsMax);
    }
    let nl = n as usize;
    if buf.len() - 4 < nl {
        return Err(CodecError::Truncated);
    }
    let payload = subvec(buf, 4, 4 + nl);
    match decode_message(&payload) {
        Ok(msg) => Ok(Some((msg, 4 + nl))),
        Err(_) => Err(CodecError::Malformed),
    }
}

/// If the tail from `j` is not exactly the two closing braces, the
/// subrange check of the parser fails.
proof fn lemma_tail_not_obj_end(b: Seq<u8>, j: int)
    requires
        0 <= j <= b.len(),
        !(b.len() - j == 2 && (j + 2 <= b.len() && b.subrange(j, j + 2) == spec_obj_end())),
    ensures
        b.subrange(j, b.len() as int) != spec_obj_end(),
{
    if b.len() - j == 2 {
        assert(b.subrange(j, b.len() as int) =~= b.subrange(j, j + 2));
    } else {
        assert(b.subrange(j, b.len() as int).len() != 2);
    }
}

} // verus!
