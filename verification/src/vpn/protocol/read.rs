//! The server's answer to the login frame: the grammar, and a parser that can be
//! fed the answer one byte at a time.
use vstd::prelude::*;
use vstd::utf8::{encode_utf8, valid_utf8};
use crate::text::{dotted_quad, format_dotted_quad, utf8_string};
use crate::types::ProxyServer;
use crate::wire::copy_range;

verus! {

/// Why the login answer was refused.
#[derive(Debug, Clone, Copy, PartialEq, Eq, Structural)]
pub enum ReplyError {
    /// The two status bytes are not both zero.
    Rejected(u8, u8),
    /// The virtual address is not introduced by `11 0 4`.
    AddressTag(u8, u8, u8),
    /// The virtual mask is not introduced by `12 0 4`.
    MaskTag(u8, u8, u8),
    /// A gateway field whose length byte is not 4.
    GatewayLength(u8),
    /// A DNS field that is not UTF-8.
    DnsEncoding,
    /// A WINS field that is not UTF-8.
    WinsEncoding,
    /// A field tag other than `35 0`, `36 0`, `37 0`, or one starting with 43.
    FieldTag(u8, u8),
}

/// What a prefix of the login answer determines.
pub enum ReplySpec {
    /// More bytes are needed before anything is decided.
    Incomplete,
    Failed(ReplyError),
    /// A gateway field shorter than four bytes, accepted only by the legacy grammar,
    /// which then has no gateway to take.
    ShortGateway(u8),
    /// The whole answer, ending with the byte 255 at index `consumed - 1`.
    Done { address: Seq<u8>, mask: Seq<u8>, gateway: Seq<u8>, dns: Seq<u8>, wins: Seq<u8>, consumed: int },
}

/// The index just past the first byte 255 at or after `i`.
pub open spec fn trailer_end(s: Seq<u8>, i: int) -> Option<int>
    decreases s.len() - i,
{
    if i < 0 || i >= s.len() {
        None
    } else if s[i] == 255 {
        Some(i + 1)
    } else {
        trailer_end(s, i + 1)
    }
}

/// The optional fields that start at `pos`, each a two-byte tag, a length byte and
/// that many bytes: `35 0` gateway, `36 0` DNS name, `37 0` WINS name; a later field
/// replaces an earlier one. A tag starting with 43 ends the fields, and the answer
/// ends at the next byte 255. In the current grammar a gateway field must have length 4;
/// in the legacy grammar it may be longer, and its first four bytes are the gateway.
pub open spec fn fields_spec(
    s: Seq<u8>,
    pos: int,
    legacy: bool,
    address: Seq<u8>,
    mask: Seq<u8>,
    gateway: Seq<u8>,
    dns: Seq<u8>,
    wins: Seq<u8>,
) -> ReplySpec
    decreases s.len() - pos,
{
    if pos < 0 || pos + 2 > s.len() {
        ReplySpec::Incomplete
    } else if s[pos] == 43 {
        match trailer_end(s, pos + 2) {
            Some(end) => ReplySpec::Done { address, mask, gateway, dns, wins, consumed: end },
            None => ReplySpec::Incomplete,
        }
    } else if s[pos + 1] != 0 || !(s[pos] == 35 || s[pos] == 36 || s[pos] == 37) {
        ReplySpec::Failed(ReplyError::FieldTag(s[pos], s[pos + 1]))
    } else if pos + 3 > s.len() {
        ReplySpec::Incomplete
    } else if s[pos] == 35 && !legacy && s[pos + 2] != 4 {
        ReplySpec::Failed(ReplyError::GatewayLength(s[pos + 2]))
    } else if pos + 3 + s[pos + 2] > s.len() {
        ReplySpec::Incomplete
    } else {
        let next = pos + 3 + s[pos + 2];
        let data = s.subrange(pos + 3, next);
        if s[pos] == 35 {
            if s[pos + 2] < 4 {
                ReplySpec::ShortGateway(s[pos + 2])
            } else {
                fields_spec(s, next, legacy, address, mask, data.subrange(0, 4), dns, wins)
            }
        } else if s[pos] == 36 {
            if !valid_utf8(data) {
                ReplySpec::Failed(ReplyError::DnsEncoding)
            } else {
                fields_spec(s, next, legacy, address, mask, gateway, data, wins)
            }
        } else {
            if !valid_utf8(data) {
                ReplySpec::Failed(ReplyError::WinsEncoding)
            } else {
                fields_spec(s, next, legacy, address, mask, gateway, dns, data)
            }
        }
    }
}

/// The login answer: ten bytes that are skipped, two status bytes that must be zero,
/// `11 0 4` and the four-byte virtual address, `12 0 4` and the four-byte mask, then
/// the optional fields. Gateway, DNS and WINS default to `0.0.0.0`, empty, empty.
pub open spec fn reply_spec(s: Seq<u8>, legacy: bool) -> ReplySpec {
    if s.len() < 12 {
        ReplySpec::Incomplete
    } else if s[10] != 0 || s[11] != 0 {
        ReplySpec::Failed(ReplyError::Rejected(s[10], s[11]))
    } else if s.len() < 15 {
        ReplySpec::Incomplete
    } else if !(s[12] == 11 && s[13] == 0 && s[14] == 4) {
        ReplySpec::Failed(ReplyError::AddressTag(s[12], s[13], s[14]))
    } else if s.len() < 22 {
        ReplySpec::Incomplete
    } else if !(s[19] == 12 && s[20] == 0 && s[21] == 4) {
        ReplySpec::Failed(ReplyError::MaskTag(s[19], s[20], s[21]))
    } else if s.len() < 26 {
        ReplySpec::Incomplete
    } else {
        fields_spec(
            s,
            26,
            legacy,
            s.subrange(15, 19),
            s.subrange(22, 26),
            seq![0u8, 0u8, 0u8, 0u8],
            Seq::empty(),
            Seq::empty(),
        )
    }
}

/// The fields of a complete login answer, as read off the wire.
pub struct RawReply {
    pub address: [u8; 4],
    pub mask: [u8; 4],
    pub gateway: [u8; 4],
    pub dns: String,
    pub wins: String,
    /// Length of the answer, trailer included.
    pub consumed: usize,
}

/// The outcome of parsing a prefix of the login answer.
pub enum ReplyStep {
    Incomplete,
    Failed(ReplyError),
    ShortGateway(u8),
    Done(RawReply),
}

/// Whether `r` is the executable form of `o`.
pub open spec fn step_is(r: ReplyStep, o: ReplySpec) -> bool {
    match o {
        ReplySpec::Incomplete => r is Incomplete,
        ReplySpec::Failed(e) => r matches ReplyStep::Failed(e2) && e2 == e,
        ReplySpec::ShortGateway(n) => r matches ReplyStep::ShortGateway(n2) && n2 == n,
        ReplySpec::Done { address, mask, gateway, dns, wins, consumed } => {
            &&& r matches ReplyStep::Done(raw)
            &&& raw.address@ == address
            &&& raw.mask@ == mask
            &&& raw.gateway@ == gateway
            &&& encode_utf8(raw.dns@) == dns
            &&& encode_utf8(raw.wins@) == wins
            &&& raw.consumed == consumed
        },
    }
}

fn four(bytes: &[u8], at: usize) -> (r: [u8; 4])
    requires
        at + 4 <= bytes@.len(),
    ensures
        r@ == bytes@.subrange(at as int, at + 4),
{
    let r = [bytes[at], bytes[at + 1], bytes[at + 2], bytes[at + 3]];
    assert(r@ =~= bytes@.subrange(at as int, at + 4));
    r
}

/// Parses a prefix of the login answer in the current (`legacy == false`) or the
/// legacy grammar.
pub fn parse_reply(bytes: &[u8], legacy: bool) -> (r: ReplyStep)
    ensures
        step_is(r, reply_spec(bytes@, legacy)),
{
    let len = bytes.len();
    if len < 12 {
        return ReplyStep::Incomplete;
    }
    if bytes[10] != 0 || bytes[11] != 0 {
        return ReplyStep::Failed(ReplyError::Rejected(bytes[10], bytes[11]));
    }
    if len < 15 {
        return ReplyStep::Incomplete;
    }
    if !(bytes[12] == 11 && bytes[13] == 0 && bytes[14] == 4) {
        return ReplyStep::Failed(ReplyError::AddressTag(bytes[12], bytes[13], bytes[14]));
    }
    if len < 22 {
        return ReplyStep::Incomplete;
    }
    if !(bytes[19] == 12 && bytes[20] == 0 && bytes[21] == 4) {
        return ReplyStep::Failed(ReplyError::MaskTag(bytes[19], bytes[20], bytes[21]));
    }
    if len < 26 {
        return ReplyStep::Incomplete;
    }
    let address = four(bytes, 15);
    let mask = four(bytes, 22);
    let mut gateway: [u8; 4] = [0, 0, 0, 0];
    let mut dns = String::new();
    let mut wins = String::new();
    let mut pos: usize = 26;
    proof {
        assert(gateway@ =~= seq![0u8, 0u8, 0u8, 0u8]);
        assert(encode_utf8(dns@) =~= Seq::<u8>::empty());
        assert(encode_utf8(wins@) =~= Seq::<u8>::empty());
    }
    loop
        invariant
            len == bytes@.len(),
            26 <= pos <= len,
            fields_spec(bytes@, pos as int, legacy, address@, mask@, gateway@, encode_utf8(dns@), encode_utf8(wins@))
                == reply_spec(bytes@, legacy),
        decreases len - pos,
    {
        if len - pos < 2 {
            return ReplyStep::Incomplete;
        }
        if bytes[pos] == 43 {
            let mut i: usize = pos + 2;
            while i < len
                invariant
                    len == bytes@.len(),
                    26 <= pos,
                    pos + 2 <= i <= len,
                    bytes@[pos as int] == 43,
                    trailer_end(bytes@, i as int) == trailer_end(bytes@, pos + 2),
                    fields_spec(bytes@, pos as int, legacy, address@, mask@, gateway@, encode_utf8(dns@), encode_utf8(wins@))
                        == reply_spec(bytes@, legacy),
                decreases len - i,
            {
                if bytes[i] == 255 {
                    return ReplyStep::Done(RawReply { address, mask, gateway, dns, wins, consumed: i + 1 });
                }
                i = i + 1;
            }
            return ReplyStep::Incomplete;
        }
        let tag = bytes[pos];
        if bytes[pos + 1] != 0 || !(tag == 35 || tag == 36 || tag == 37) {
            return ReplyStep::Failed(ReplyError::FieldTag(tag, bytes[pos + 1]));
        }
        if len - pos < 3 {
            return ReplyStep::Incomplete;
        }
        let field_len = bytes[pos + 2];
        if tag == 35 && !legacy && field_len != 4 {
            return ReplyStep::Failed(ReplyError::GatewayLength(field_len));
        }
        if len - pos - 3 < field_len as usize {
            return ReplyStep::Incomplete;
        }
        let next: usize = pos + 3 + field_len as usize;
        if tag == 35 {
            if field_len < 4 {
                return ReplyStep::ShortGateway(field_len);
            }
            gateway = four(bytes, pos + 3);
            assert(gateway@ =~= bytes@.subrange(pos + 3, next as int).subrange(0, 4));
        } else if tag == 36 {
            let data = copy_range(bytes, pos + 3, next);
            match utf8_string(data) {
                Some(s) => {
                    dns = s;
                },
                None => return ReplyStep::Failed(ReplyError::DnsEncoding),
            }
        } else {
            let data = copy_range(bytes, pos + 3, next);
            match utf8_string(data) {
                Some(s) => {
                    wins = s;
                },
                None => return ReplyStep::Failed(ReplyError::WinsEncoding),
            }
        }
        pos = next;
    }
}

/// The outcome of feeding a prefix of the login answer to the current grammar.
pub enum AuthParse {
    /// More bytes are needed.
    Incomplete,
    Failed(ReplyError),
    /// The tunnel parameters, and the length of the answer.
    Done { server: ProxyServer, consumed: usize },
}

proof fn lemma_fields_strict(
    s: Seq<u8>,
    pos: int,
    address: Seq<u8>,
    mask: Seq<u8>,
    gateway: Seq<u8>,
    dns: Seq<u8>,
    wins: Seq<u8>,
)
    ensures
        !(fields_spec(s, pos, false, address, mask, gateway, dns, wins) is ShortGateway),
    decreases s.len() - pos,
{
    if pos >= 0 && pos + 3 <= s.len() && s[pos] != 43 && s[pos + 1] == 0 && (s[pos] == 35 || s[pos] == 36
        || s[pos] == 37) && pos + 3 + s[pos + 2] <= s.len() {
        let next = pos + 3 + s[pos + 2];
        let data = s.subrange(pos + 3, next);
        if s[pos] == 35 {
            if s[pos + 2] == 4 {
                lemma_fields_strict(s, next, address, mask, data.subrange(0, 4), dns, wins);
            }
        } else if s[pos] == 36 {
            lemma_fields_strict(s, next, address, mask, gateway, data, wins);
        } else {
            lemma_fields_strict(s, next, address, mask, gateway, dns, data);
        }
    }
}

/// Parses a prefix of the server's answer to the login frame into the tunnel
/// parameters. Feed it the bytes read so far; on `Incomplete` read one more byte.
pub fn consume_authization(bytes: &[u8]) -> (r: AuthParse)
    ensures
        match reply_spec(bytes@, false) {
            ReplySpec::Incomplete => r is Incomplete,
            ReplySpec::Failed(e) => r matches AuthParse::Failed(e2) && e2 == e,
            ReplySpec::ShortGateway(_) => false,
            ReplySpec::Done { address, mask, gateway, dns, wins, consumed } => {
                &&& r matches AuthParse::Done { server, consumed: c }
                &&& c == consumed
                &&& server.address@ == dotted_quad(address)
                &&& server.mask@ == dotted_quad(mask)
                &&& server.gateway@ == dotted_quad(gateway)
                &&& encode_utf8(server.dns@) == dns
                &&& encode_utf8(server.wins@) == wins
                &&& server.split_tunnel_routes@.len() == 0
            },
        },
{
    proof {
        if bytes@.len() >= 26 {
            lemma_fields_strict(
                bytes@,
                26,
                bytes@.subrange(15, 19),
                bytes@.subrange(22, 26),
                seq![0u8, 0u8, 0u8, 0u8],
                Seq::empty(),
                Seq::empty(),
            );
        }
    }
    match parse_reply(bytes, false) {
        ReplyStep::Incomplete => AuthParse::Incomplete,
        ReplyStep::Failed(e) => AuthParse::Failed(e),
        ReplyStep::ShortGateway(n) => AuthParse::Failed(ReplyError::GatewayLength(n)),
        ReplyStep::Done(raw) => {
            let server = ProxyServer {
                address: format_dotted_quad(&raw.address),
                mask: format_dotted_quad(&raw.mask),
                gateway: format_dotted_quad(&raw.gateway),
                dns: raw.dns,
                wins: raw.wins,
                split_tunnel_routes: Vec::new(),
            };
            AuthParse::Done { server, consumed: raw.consumed }
        },
    }
}

/// One optional field of the login answer: its tag byte and its data.
pub struct ReplyField {
    pub tag: u8,
    pub data: Seq<u8>,
}

/// The bytes of a field: tag, zero, length, data.
pub open spec fn field_bytes(f: ReplyField) -> Seq<u8> {
    seq![f.tag, 0u8, f.data.len() as u8] + f.data
}

/// The bytes of a list of fields, one after another.
pub open spec fn fields_bytes(fs: Seq<ReplyField>) -> Seq<u8>
    decreases fs.len(),
{
    if fs.len() == 0 {
        Seq::empty()
    } else {
        field_bytes(fs[0]) + fields_bytes(fs.drop_first())
    }
}

/// A field every grammar accepts: a four-byte gateway, or a DNS or WINS name of at
/// most 255 bytes of UTF-8.
pub open spec fn well_formed_field(f: ReplyField) -> bool {
    ||| f.tag == 35 && f.data.len() == 4
    ||| (f.tag == 36 || f.tag == 37) && f.data.len() <= 255 && valid_utf8(f.data)
}

/// A successful login answer: ten bytes the client skips, status `0 0`, the address
/// and the mask with their tags, the fields, the end tag `43 closing`, filler bytes,
/// and the trailer byte 255.
pub open spec fn answer_bytes(
    head: Seq<u8>,
    address: Seq<u8>,
    mask: Seq<u8>,
    fs: Seq<ReplyField>,
    closing: u8,
    filler: Seq<u8>,
) -> Seq<u8> {
    head + seq![0u8, 0u8, 11u8, 0u8, 4u8] + address + seq![12u8, 0u8, 4u8] + mask + fields_bytes(fs) + seq![
        43u8,
        closing,
    ] + filler + seq![255u8]
}

/// Whether `fs[i]` is the last field with this tag.
pub open spec fn last_field(fs: Seq<ReplyField>, tag: u8, i: int) -> bool {
    &&& 0 <= i < fs.len()
    &&& fs[i].tag == tag
    &&& forall|j: int| i < j < fs.len() ==> (#[trigger] fs[j]).tag != tag
}

/// Whether some field has this tag.
pub open spec fn has_field(fs: Seq<ReplyField>, tag: u8) -> bool {
    exists|i: int| 0 <= i < fs.len() && (#[trigger] fs[i]).tag == tag
}

spec fn latest(fs: Seq<ReplyField>, tag: u8, cur: Seq<u8>) -> Seq<u8>
    decreases fs.len(),
{
    if fs.len() == 0 {
        cur
    } else {
        latest(fs.drop_first(), tag, if fs[0].tag == tag { fs[0].data } else { cur })
    }
}

proof fn lemma_latest(fs: Seq<ReplyField>, tag: u8, cur: Seq<u8>)
    ensures
        forall|i: int| #[trigger] last_field(fs, tag, i) ==> latest(fs, tag, cur) == fs[i].data,
        !has_field(fs, tag) ==> latest(fs, tag, cur) == cur,
    decreases fs.len(),
{
    if fs.len() > 0 {
        let rest = fs.drop_first();
        let next = if fs[0].tag == tag { fs[0].data } else { cur };
        lemma_latest(rest, tag, next);
        assert forall|i: int| #[trigger] last_field(fs, tag, i) implies latest(fs, tag, cur) == fs[i].data by {
            if i > 0 {
                assert forall|j: int| i - 1 < j < rest.len() implies (#[trigger] rest[j]).tag != tag by {
                    assert(rest[j] == fs[j + 1]);
                }
                assert(last_field(rest, tag, i - 1));
            } else {
                if has_field(rest, tag) {
                    let k = choose|k: int| 0 <= k < rest.len() && (#[trigger] rest[k]).tag == tag;
                    assert(fs[k + 1] == rest[k]);
                }
            }
        }
        if !has_field(fs, tag) {
            assert(fs[0].tag != tag);
            if has_field(rest, tag) {
                let k = choose|k: int| 0 <= k < rest.len() && (#[trigger] rest[k]).tag == tag;
                assert(fs[k + 1] == rest[k]);
            }
        }
    }
}

proof fn lemma_fields_parse(
    s: Seq<u8>,
    pos: int,
    legacy: bool,
    address: Seq<u8>,
    mask: Seq<u8>,
    gateway: Seq<u8>,
    dns: Seq<u8>,
    wins: Seq<u8>,
    fs: Seq<ReplyField>,
)
    requires
        0 <= pos,
        pos + fields_bytes(fs).len() <= s.len(),
        s.subrange(pos, pos + fields_bytes(fs).len()) == fields_bytes(fs),
        forall|i: int| 0 <= i < fs.len() ==> well_formed_field(#[trigger] fs[i]),
    ensures
        fields_spec(s, pos, legacy, address, mask, gateway, dns, wins) == fields_spec(
            s,
            pos + fields_bytes(fs).len(),
            legacy,
            address,
            mask,
            latest(fs, 35, gateway),
            latest(fs, 36, dns),
            latest(fs, 37, wins),
        ),
    decreases fs.len(),
{
    if fs.len() > 0 {
        let f = fs[0];
        let rest = fs.drop_first();
        let l = f.data.len() as int;
        let fb = fields_bytes(fs);
        let rb = fields_bytes(rest);
        assert(well_formed_field(f));
        assert(fb == field_bytes(f) + rb);
        assert(fb.len() == 3 + l + rb.len());
        let next = pos + 3 + l;
        assert(s[pos] == fb[0]);
        assert(s[pos + 1] == fb[1]);
        assert(s[pos + 2] == fb[2]);
        assert(s[pos] == f.tag && s[pos + 1] == 0 && s[pos + 2] == l);
        assert(s.subrange(pos + 3, next) =~= f.data) by {
            assert forall|k: int| 0 <= k < l implies s.subrange(pos + 3, next)[k] == f.data[k] by {
                assert(s.subrange(pos + 3, next)[k] == s[pos + 3 + k]);
                assert(s[pos + 3 + k] == fb[3 + k]);
            }
        }
        assert(s.subrange(next, next + rb.len()) =~= rb) by {
            assert forall|k: int| 0 <= k < rb.len() implies s.subrange(next, next + rb.len())[k] == rb[k] by {
                assert(s[next + k] == fb[3 + l + k]);
            }
        }
        assert forall|i: int| 0 <= i < rest.len() implies well_formed_field(#[trigger] rest[i]) by {
            assert(rest[i] == fs[i + 1]);
        }
        if f.tag == 35 {
            assert(f.data.subrange(0, 4) =~= f.data);
            lemma_fields_parse(s, next, legacy, address, mask, f.data, dns, wins, rest);
        } else if f.tag == 36 {
            lemma_fields_parse(s, next, legacy, address, mask, gateway, f.data, wins, rest);
        } else {
            lemma_fields_parse(s, next, legacy, address, mask, gateway, dns, f.data, rest);
        }
    }
}

proof fn lemma_trailer_filler(s: Seq<u8>, i: int, k: int)
    requires
        0 <= i <= k < s.len(),
        s[k] == 255,
        forall|j: int| i <= j < k ==> s[j] != 255,
    ensures
        trailer_end(s, i) == Some(k + 1),
    decreases k - i,
{
    if i < k {
        lemma_trailer_filler(s, i + 1, k);
    }
}

/// A successful login answer is read back field by field, whatever follows it: the
/// tunnel parameters are its address and mask; the gateway, DNS and WINS values are
/// the data of the last field with tag 35, 36 and 37 (`0.0.0.0`, empty and empty when
/// there is none); and the answer ends with its trailer byte.
pub proof fn lemma_reply_fields(
    head: Seq<u8>,
    address: Seq<u8>,
    mask: Seq<u8>,
    fs: Seq<ReplyField>,
    closing: u8,
    filler: Seq<u8>,
    rest: Seq<u8>,
    legacy: bool,
)
    requires
        head.len() == 10,
        address.len() == 4,
        mask.len() == 4,
        forall|i: int| 0 <= i < fs.len() ==> well_formed_field(#[trigger] fs[i]),
        forall|i: int| 0 <= i < filler.len() ==> #[trigger] filler[i] != 255,
    ensures
        ({
            let s = answer_bytes(head, address, mask, fs, closing, filler) + rest;
            reply_spec(s, legacy) matches ReplySpec::Done { address: a2, mask: m2, gateway, dns, wins, consumed } && {
                &&& a2 == address
                &&& m2 == mask
                &&& consumed == answer_bytes(head, address, mask, fs, closing, filler).len()
                &&& forall|i: int| #[trigger] last_field(fs, 35, i) ==> gateway == fs[i].data
                &&& !has_field(fs, 35) ==> gateway == seq![0u8, 0u8, 0u8, 0u8]
                &&& forall|i: int| #[trigger] last_field(fs, 36, i) ==> dns == fs[i].data
                &&& !has_field(fs, 36) ==> dns == Seq::<u8>::empty()
                &&& forall|i: int| #[trigger] last_field(fs, 37, i) ==> wins == fs[i].data
                &&& !has_field(fs, 37) ==> wins == Seq::<u8>::empty()
            }
        }),
{
    let ans = answer_bytes(head, address, mask, fs, closing, filler);
    let s = ans + rest;
    let fb = fields_bytes(fs);
    let p: int = 26 + fb.len() as int;
    let z = seq![0u8, 0u8, 0u8, 0u8];
    assert(ans.len() == p + 3 + filler.len());
    assert(s[10] == 0 && s[11] == 0 && s[12] == 11 && s[13] == 0 && s[14] == 4);
    assert(s[19] == 12 && s[20] == 0 && s[21] == 4);
    assert(s.subrange(15, 19) =~= address);
    assert(s.subrange(22, 26) =~= mask);
    assert(s.subrange(26, p) =~= fb);
    lemma_fields_parse(s, 26, legacy, address, mask, z, Seq::empty(), Seq::empty(), fs);
    assert(s[p] == 43u8);
    let k: int = p + 2 + filler.len() as int;
    assert(s[k] == 255u8);
    assert forall|j: int| p + 2 <= j < k implies s[j] != 255 by {
        assert(s[j] == filler[j - p - 2]);
    }
    lemma_trailer_filler(s, p + 2, k);
    lemma_latest(fs, 35, z);
    lemma_latest(fs, 36, Seq::empty());
    lemma_latest(fs, 37, Seq::empty());
}

proof fn lemma_trailer_extend(s: Seq<u8>, t: Seq<u8>, i: int)
    requires
        trailer_end(s, i) is Some,
    ensures
        trailer_end(s + t, i) == trailer_end(s, i),
    decreases s.len() - i,
{
    if i >= 0 && i < s.len() && s[i] != 255 {
        lemma_trailer_extend(s, t, i + 1);
    }
}

proof fn lemma_fields_extend(
    s: Seq<u8>,
    t: Seq<u8>,
    pos: int,
    legacy: bool,
    address: Seq<u8>,
    mask: Seq<u8>,
    gateway: Seq<u8>,
    dns: Seq<u8>,
    wins: Seq<u8>,
)
    requires
        !(fields_spec(s, pos, legacy, address, mask, gateway, dns, wins) is Incomplete),
    ensures
        fields_spec(s + t, pos, legacy, address, mask, gateway, dns, wins)
            == fields_spec(s, pos, legacy, address, mask, gateway, dns, wins),
    decreases s.len() - pos,
{
    let u = s + t;
    if pos < 0 || pos + 2 > s.len() {
    } else if s[pos] == 43 {
        lemma_trailer_extend(s, t, pos + 2);
    } else if s[pos + 1] != 0 || !(s[pos] == 35 || s[pos] == 36 || s[pos] == 37) {
    } else if pos + 3 > s.len() {
    } else if s[pos] == 35 && !legacy && s[pos + 2] != 4 {
    } else if pos + 3 + s[pos + 2] > s.len() {
    } else {
        let next = pos + 3 + s[pos + 2];
        let data = s.subrange(pos + 3, next);
        assert(u.subrange(pos + 3, next) =~= data);
        if s[pos] == 35 {
            if s[pos + 2] >= 4 {
                lemma_fields_extend(s, t, next, legacy, address, mask, data.subrange(0, 4), dns, wins);
            }
        } else if s[pos] == 36 {
            if valid_utf8(data) {
                lemma_fields_extend(s, t, next, legacy, address, mask, gateway, data, wins);
            }
        } else {
            if valid_utf8(data) {
                lemma_fields_extend(s, t, next, legacy, address, mask, gateway, dns, data);
            }
        }
    }
}

proof fn lemma_trailer_prefix(s: Seq<u8>, i: int, c: int)
    requires
        trailer_end(s, i) == Some(c),
    ensures
        i + 1 <= c <= s.len(),
        trailer_end(s.subrange(0, c), i) == Some(c),
    decreases s.len() - i,
{
    if i >= 0 && i < s.len() && s[i] != 255 {
        lemma_trailer_prefix(s, i + 1, c);
    }
}

proof fn lemma_fields_prefix(
    s: Seq<u8>,
    c: int,
    pos: int,
    legacy: bool,
    address: Seq<u8>,
    mask: Seq<u8>,
    gateway: Seq<u8>,
    dns: Seq<u8>,
    wins: Seq<u8>,
)
    requires
        fields_spec(s, pos, legacy, address, mask, gateway, dns, wins) matches ReplySpec::Done { consumed, .. }
            && consumed == c,
    ensures
        pos + 3 <= c <= s.len(),
        fields_spec(s.subrange(0, c), pos, legacy, address, mask, gateway, dns, wins)
            == fields_spec(s, pos, legacy, address, mask, gateway, dns, wins),
    decreases s.len() - pos,
{
    let p = s.subrange(0, c);
    if pos < 0 || pos + 2 > s.len() {
    } else if s[pos] == 43 {
        lemma_trailer_prefix(s, pos + 2, c);
    } else if s[pos + 1] != 0 || !(s[pos] == 35 || s[pos] == 36 || s[pos] == 37) {
    } else if pos + 3 > s.len() {
    } else if s[pos] == 35 && !legacy && s[pos + 2] != 4 {
    } else if pos + 3 + s[pos + 2] > s.len() {
    } else {
        let next = pos + 3 + s[pos + 2];
        let data = s.subrange(pos + 3, next);
        if s[pos] == 35 {
            if s[pos + 2] >= 4 {
                lemma_fields_prefix(s, c, next, legacy, address, mask, data.subrange(0, 4), dns, wins);
            }
        } else if s[pos] == 36 {
            if valid_utf8(data) {
                lemma_fields_prefix(s, c, next, legacy, address, mask, gateway, data, wins);
            }
        } else {
            if valid_utf8(data) {
                lemma_fields_prefix(s, c, next, legacy, address, mask, gateway, dns, data);
            }
        }
        assert(p.subrange(pos + 3, next) =~= data);
    }
}

/// Once a prefix of the login answer decides the outcome, no further bytes change
/// it: whatever follows a refused, malformed or complete answer is never read.
pub proof fn lemma_reply_prefix_stable(s: Seq<u8>, t: Seq<u8>, legacy: bool)
    requires
        !(reply_spec(s, legacy) is Incomplete),
    ensures
        reply_spec(s + t, legacy) == reply_spec(s, legacy),
{
    let u = s + t;
    if s.len() >= 26 && s[10] == 0 && s[11] == 0 && s[12] == 11 && s[13] == 0 && s[14] == 4 && s[19] == 12
        && s[20] == 0 && s[21] == 4 {
        assert(u.subrange(15, 19) =~= s.subrange(15, 19));
        assert(u.subrange(22, 26) =~= s.subrange(22, 26));
        lemma_fields_extend(
            s,
            t,
            26,
            legacy,
            s.subrange(15, 19),
            s.subrange(22, 26),
            seq![0u8, 0u8, 0u8, 0u8],
            Seq::empty(),
            Seq::empty(),
        );
    }
}

proof fn lemma_reply_cut(s: Seq<u8>, legacy: bool)
    requires
        reply_spec(s, legacy) is Done,
    ensures
        reply_spec(s, legacy) matches ReplySpec::Done { consumed, .. } && {
            &&& consumed <= s.len()
            &&& reply_spec(s.subrange(0, consumed), legacy) == reply_spec(s, legacy)
        },
{
    let c = match reply_spec(s, legacy) {
        ReplySpec::Done { consumed, .. } => consumed,
        _ => 0,
    };
    let a = s.subrange(15, 19);
    let m = s.subrange(22, 26);
    let z = seq![0u8, 0u8, 0u8, 0u8];
    lemma_fields_prefix(s, c, 26, legacy, a, m, z, Seq::empty(), Seq::empty());
    let p = s.subrange(0, c);
    assert(p.subrange(15, 19) =~= a);
    assert(p.subrange(22, 26) =~= m);
}

/// A complete login answer ends with its trailer byte: the answer cut after
/// `consumed` bytes parses to the same result, and every shorter prefix is still
/// incomplete. So a reader that feeds the parser one byte at a time stops exactly
/// at the end of the answer and reads nothing that follows it.
pub proof fn lemma_reply_ends_at_trailer(s: Seq<u8>, legacy: bool)
    requires
        reply_spec(s, legacy) is Done,
    ensures
        reply_spec(s, legacy) matches ReplySpec::Done { consumed, .. } && {
            &&& consumed <= s.len()
            &&& reply_spec(s.subrange(0, consumed), legacy) == reply_spec(s, legacy)
            &&& forall|k: int| 0 <= k < consumed ==> #[trigger] reply_spec(s.subrange(0, k), legacy) is Incomplete
        },
{
    lemma_reply_cut(s, legacy);
    let c = match reply_spec(s, legacy) {
        ReplySpec::Done { consumed, .. } => consumed,
        _ => 0,
    };
    assert forall|k: int| 0 <= k < c implies #[trigger] reply_spec(s.subrange(0, k), legacy) is Incomplete by {
        let q = s.subrange(0, k);
        if !(reply_spec(q, legacy) is Incomplete) {
            lemma_reply_prefix_stable(q, s.subrange(k, s.len() as int), legacy);
            assert(q + s.subrange(k, s.len() as int) =~= s);
            if reply_spec(q, legacy) is Done {
                lemma_reply_cut(q, legacy);
            }
        }
    }
}

} // verus!
