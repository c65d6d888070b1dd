//! The discovery announcement format: the fixed tag
//! `p2p-chat-discovery:` followed by the announced port in decimal.
//! Broadcasting and listening are the surrounding program's work;
//! building and parsing the datagram are verified here.

use vstd::prelude::*;
use crate::codec::{
    spec_dec_u64, spec_digits_val, spec_is_digit, spec_starts_with,
};

verus! {

/// The tag that opens every discovery datagram.
pub open spec fn spec_discovery_prefix() -> Seq<u8> {
    seq![0x70u8, 0x32u8, 0x70u8, 0x2du8, 0x63u8, 0x68u8, 0x61u8, 0x74u8, 0x2du8, 0x64u8, 0x69u8,
        0x73u8, 0x63u8, 0x6fu8, 0x76u8, 0x65u8, 0x72u8, 0x79u8, 0x3au8]
}

fn discovery_prefix() -> (v: Vec<u8>)
    ensures
        v@ == spec_discovery_prefix(),
{
    let v: Vec<u8> = vec![0x70u8, 0x32u8, 0x70u8, 0x2du8, 0x63u8, 0x68u8, 0x61u8, 0x74u8, 0x2du8,
        0x64u8, 0x69u8, 0x73u8, 0x63u8, 0x6fu8, 0x76u8, 0x65u8, 0x72u8, 0x79u8, 0x3au8];
    proof { assert(v@ =~= spec_discovery_prefix()); }
    v
}

/// What a datagram announces: the port, when the datagram is the tag
/// followed only by decimal digits denoting a value up to 65535.
pub open spec fn spec_parse_discovery(b: Seq<u8>) -> Option<u16> {
    let pre = spec_discovery_prefix();
    if spec_starts_with(b, pre) && b.len() > pre.len() && (forall|k: int|
        pre.len() <= k < b.len() ==> spec_is_digit(#[trigger] b[k])) {
        let v = spec_digits_val(b.subrange(pre.len() as int, b.len() as int));
        if v <= 65535 {
            Some(v as u16)
        } else {
            None
        }
    } else {
        None
    }
}

/// Builds the datagram announcing `port`.
pub fn discovery_message(port: u16) -> (r: Vec<u8>)
    ensures
        r@ == spec_discovery_prefix() + spec_dec_u64(port as u64),
{
    let mut v = discovery_prefix();
    let mut digits = crate::codec::dec_u64(port as u64);
    v.append(&mut digits);
    v
}

proof fn lemma_digits_val_mono(d: Seq<u8>, k: int)
    requires
        0 <= k <= d.len(),
    ensures
        spec_digits_val(d) >= spec_digits_val(d.subrange(0, k)),
    decreases d.len() - k,
{
    if k < d.len() {
        assert(d.subrange(0, k + 1).drop_last() =~= d.subrange(0, k));
        assert(d.subrange(0, k + 1).last() == d[k]);
        assert(spec_digits_val(d.subrange(0, k + 1)) >= spec_digits_val(d.subrange(0, k)));
        lemma_digits_val_mono(d, k + 1);
    } else {
        assert(d.subrange(0, d.len() as int) =~= d);
    }
}

/// Parses a received datagram: the announced port, or nothing when
/// the datagram is not a well-formed announcement.
pub fn parse_discovery_message(buf: &Vec<u8>) -> (r: Option<u16>)
    ensures
        r == spec_parse_discovery(buf@),
{
    let pre = discovery_prefix();
    if !crate::codec::matches_at(buf, 0, &pre) {
        return None;
    }
    let n = buf.len();
    if n == pre.len() {
        return None;
    }
    let start = pre.len();
    let ghost d = buf@.subrange(start as int, n as int);
    let mut acc: u32 = 0;
    let mut over = false;
    let mut k = start;
    proof {
        assert(d.subrange(0, 0) =~= Seq::<u8>::empty());
    }
    while k < n
        invariant
            start <= k <= n,
            n == buf@.len(),
            start == spec_discovery_prefix().len(),
            d == buf@.subrange(start as int, n as int),
            forall|m: int| start <= m < k ==> spec_is_digit(#[trigger] buf@[m]),
            !over ==> acc == spec_digits_val(d.subrange(0, k - start)) && acc <= 65535,
            over ==> spec_digits_val(d.subrange(0, k - start)) > 65535,
        decreases n - k,
    {
        let c = buf[k];
        if c < 0x30 || c > 0x39 {
            return None;
        }
        proof {
            assert(d.subrange(0, k - start + 1).drop_last() =~= d.subrange(0, k - start));
            assert(d.subrange(0, k - start + 1).last() == buf@[k as int]);
        }
        if over {
            proof {
                assert(spec_digits_val(d.subrange(0, k - start + 1)) > 65535);
            }
        } else {
            let next = acc * 10 + ((c - 0x30) as u32);
            if next > 65535 {
                over = true;
            } else {
                acc = next;
            }
        }
        k = k + 1;
    }
    proof {
        assert(d.subrange(0, n - start) =~= d);
    }
    if over {
        return None;
    }
    Some(acc as u16)
}

} // verus!
