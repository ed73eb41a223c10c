//! The legacy reading of the login answer and of inbound frames.
use vstd::prelude::*;
use vstd::utf8::encode_utf8;
use crate::model::ProxyServer;
use crate::text::{dotted_quad, format_dotted_quad};
use crate::vpn::protocol::read::{parse_reply, reply_spec, ReplyError, ReplySpec, ReplyStep};

verus! {

/// Number of binary digits of `v`.
pub open spec fn bit_length(v: nat) -> nat
    decreases v,
{
    if v == 0 {
        0
    } else {
        1 + bit_length(v / 2)
    }
}

/// Number of zero bits below the lowest one bit of `v` (0 for 0).
pub open spec fn trailing_zeros(v: nat) -> nat
    decreases v,
{
    if v == 0 || v % 2 == 1 {
        0
    } else {
        1 + trailing_zeros(v / 2)
    }
}

/// Position just past the last `1` in the binary rendering of `v` written
/// without leading zeros; 0 when there is no `1`.
pub open spec fn ones_end(v: nat) -> nat {
    if v == 0 {
        0
    } else {
        (bit_length(v) - trailing_zeros(v)) as nat
    }
}

/// The larger of two naturals.
pub open spec fn max_nat(a: nat, b: nat) -> nat {
    if a >= b {
        a
    } else {
        b
    }
}

/// The prefix length that the legacy client derives from four mask bytes: a
/// running bound starts at 0, is raised for each byte to the position just past the
/// last `1` of that byte's binary rendering, and is summed after each byte.
pub open spec fn legacy_prefix(m: Seq<u8>) -> nat {
    let b0 = ones_end(m[0] as nat);
    let b1 = max_nat(b0, ones_end(m[1] as nat));
    let b2 = max_nat(b1, ones_end(m[2] as nat));
    let b3 = max_nat(b2, ones_end(m[3] as nat));
    b0 + b1 + b2 + b3
}

/// The byte whose `c` highest bits are set.
pub open spec fn top_bits(c: nat) -> nat
    decreases c,
{
    if c == 0 {
        0
    } else {
        128 + top_bits((c - 1) as nat) / 2
    }
}

/// How many of the bits of byte `i` a prefix of length `n` covers.
pub open spec fn covered(n: nat, i: nat) -> nat {
    if n <= 8 * i {
        0
    } else if n >= 8 * i + 8 {
        8
    } else {
        (n - 8 * i) as nat
    }
}

/// The four bytes of the mask with the `n` highest bits set.
pub open spec fn prefix_mask(n: nat) -> Seq<u8> {
    seq![
        top_bits(covered(n, 0)) as u8,
        top_bits(covered(n, 1)) as u8,
        top_bits(covered(n, 2)) as u8,
        top_bits(covered(n, 3)) as u8,
    ]
}

spec fn two_to(k: nat) -> nat
    decreases k,
{
    if k == 0 {
        1
    } else {
        2 * two_to((k - 1) as nat)
    }
}

proof fn lemma_bit_length_bound(v: nat, k: nat)
    requires
        v < two_to(k),
    ensures
        bit_length(v) <= k,
    decreases k,
{
    if k > 0 && v > 0 {
        lemma_bit_length_bound(v / 2, (k - 1) as nat);
    }
}

proof fn lemma_trailing_le_length(v: nat)
    ensures
        v > 0 ==> trailing_zeros(v) < bit_length(v),
    decreases v,
{
    if v > 0 && v % 2 == 0 {
        lemma_trailing_le_length(v / 2);
    }
}

fn byte_ones_end(v: u8) -> (r: u32)
    ensures
        r == ones_end(v as nat),
        r <= 8,
{
    if v == 0 {
        return 0;
    }
    proof {
        reveal_with_fuel(two_to, 9);
        assert(two_to(8) == 256);
        lemma_bit_length_bound(v as nat, 8);
        lemma_trailing_le_length(v as nat);
    }
    let mut x: u32 = v as u32;
    let mut tz: u32 = 0;
    while x % 2 == 0
        invariant
            x > 0,
            trailing_zeros(v as nat) == tz + trailing_zeros(x as nat),
            bit_length(v as nat) == tz + bit_length(x as nat),
            bit_length(v as nat) <= 8,
        decreases x,
    {
        x = x / 2;
        tz = tz + 1;
    }
    let mut bl: u32 = tz;
    while x > 0
        invariant
            bit_length(v as nat) == bl + bit_length(x as nat),
            bit_length(v as nat) <= 8,
            tz == trailing_zeros(v as nat),
        decreases x,
    {
        x = x / 2;
        bl = bl + 1;
    }
    bl - tz
}

fn top_bits_exec(c: u32) -> (r: u8)
    requires
        c <= 8,
    ensures
        r == top_bits(c as nat),
{
    let mut acc: u32 = 0;
    let mut i: u32 = 0;
    while i < c
        invariant
            i <= c <= 8,
            acc == top_bits(i as nat),
            acc < 256,
        decreases c - i,
    {
        acc = 128 + acc / 2;
        i = i + 1;
    }
    acc as u8
}

fn covered_exec(n: u32, i: u32) -> (r: u32)
    requires
        i < 4,
    ensures
        r == covered(n as nat, i as nat),
        r <= 8,
{
    if n <= 8 * i {
        0
    } else if n >= 8 * i + 8 {
        8
    } else {
        n - 8 * i
    }
}

/// The mask that the legacy client reports for the four mask bytes it received.
pub fn legacy_mask(m: &[u8; 4]) -> (r: [u8; 4])
    ensures
        r@ == prefix_mask(legacy_prefix(m@)),
{
    let b0 = byte_ones_end(m[0]);
    let e1 = byte_ones_end(m[1]);
    let b1 = if b0 >= e1 { b0 } else { e1 };
    let e2 = byte_ones_end(m[2]);
    let b2 = if b1 >= e2 { b1 } else { e2 };
    let e3 = byte_ones_end(m[3]);
    let b3 = if b2 >= e3 { b2 } else { e3 };
    let n = b0 + b1 + b2 + b3;
    let r = [
        top_bits_exec(covered_exec(n, 0)),
        top_bits_exec(covered_exec(n, 1)),
        top_bits_exec(covered_exec(n, 2)),
        top_bits_exec(covered_exec(n, 3)),
    ];
    assert(r@ =~= prefix_mask(legacy_prefix(m@)));
    r
}

/// The outcome of feeding a prefix of the login answer to the legacy grammar.
pub enum LegacyAuthParse {
    Incomplete,
    Failed(ReplyError),
    Done { server: ProxyServer, consumed: usize },
}

/// Parses a prefix of the login answer the way the legacy session does: a gateway
/// field may be longer than four bytes, and the mask is rebuilt from a prefix length.
/// A gateway field shorter than four bytes has no gateway to take and is left out.
pub fn consume_authization(bytes: &[u8]) -> (r: LegacyAuthParse)
    requires
        !(reply_spec(bytes@, true) is ShortGateway),
    ensures
        match reply_spec(bytes@, true) {
            ReplySpec::Incomplete => r is Incomplete,
            ReplySpec::Failed(e) => r matches LegacyAuthParse::Failed(e2) && e2 == e,
            ReplySpec::ShortGateway(_) => false,
            ReplySpec::Done { address, mask, gateway, dns, wins, consumed } => {
                &&& r matches LegacyAuthParse::Done { server, consumed: c }
                &&& c == consumed
                &&& server.address@ == dotted_quad(address)
                &&& server.mask@ == dotted_quad(prefix_mask(legacy_prefix(mask)))
                &&& server.gateway@ == dotted_quad(gateway)
                &&& encode_utf8(server.dns@) == dns
                &&& encode_utf8(server.wins@) == wins
            },
        },
{
    match parse_reply(bytes, true) {
        ReplyStep::Incomplete => LegacyAuthParse::Incomplete,
        ReplyStep::Failed(e) => LegacyAuthParse::Failed(e),
        ReplyStep::ShortGateway(n) => LegacyAuthParse::Failed(ReplyError::GatewayLength(n)),
        ReplyStep::Done(raw) => {
            let mask = legacy_mask(&raw.mask);
            let server = ProxyServer {
                address: format_dotted_quad(&raw.address),
                mask: format_dotted_quad(&mask),
                gateway: format_dotted_quad(&raw.gateway),
                dns: raw.dns,
                wins: raw.wins,
            };
            LegacyAuthParse::Done { server, consumed: raw.consumed }
        },
    }
}

} // verus!
