//! Outbound frames of the legacy session, whose length fields wrap instead of failing.
use vstd::prelude::*;
use vstd::utf8::encode_utf8;
use crate::vpn::protocol::write::{auth_frame, tcp_frame};
use crate::wire::{be_u16, be_u32, i32_bits, i8_bits, put_u8, put_i8, put_u16_be, put_i32_be, put_all};

verus! {

/// Something that can be encoded as one outbound frame.
pub trait Packet {
    /// Whether `build` can encode this frame without overflowing a length computation.
    spec fn build_ok(&self) -> bool;

    fn build(&self) -> Vec<u8>
        requires
            self.build_ok(),
    ;
}

/// The login frame: session token and user name.
pub struct AuthorizationPacket {
    token: String,
    user: String,
}

/// A data frame around one raw IP packet.
pub struct TCPPacket<'a> {
    data: &'a [u8],
}

/// The legacy data frame around `data`: as the current one, but the length field
/// holds the total length modulo 65536.
pub open spec fn legacy_tcp_frame(data: Seq<u8>) -> Seq<u8> {
    seq![1u8, 4u8] + be_u16(((data.len() + 12) % 65536) as u16) + seq![0u8, 0u8, 0u8, 0u8] + seq![
        0u8,
        0u8,
        0u8,
        1u8,
    ] + data
}

/// The legacy login frame: as the current one, but each length byte holds the
/// length modulo 256.
pub open spec fn legacy_auth_frame(user: Seq<u8>, token: Seq<u8>) -> Seq<u8> {
    seq![1u8, 1u8] + be_u16((19 + user.len() % 65536 + token.len() % 65536) as u16)
        + seq![0u8, 0u8, 0u8, 0u8, 1u8, 0u8, 0u8, 0u8, 1u8, 0u8]
        + seq![(user.len() % 256) as u8] + user
        + seq![2u8, 0u8]
        + seq![(token.len() % 256) as u8] + token
        + seq![255u8]
}

/// The heartbeat frame.
pub fn heartbeat() -> (r: [u8; 12])
    ensures
        r@ == crate::vpn::protocol::write::heartbeat_frame(),
{
    crate::vpn::protocol::write::heartbeat()
}

impl<'a> TCPPacket<'a> {
    /// The IP packet carried by this frame.
    pub closed spec fn payload(&self) -> Seq<u8> {
        self.data@
    }

    pub fn new(data: &'a [u8]) -> (r: TCPPacket<'a>)
        ensures
            r.payload() == data@,
    {
        Self { data }
    }
}

impl<'a> Packet for TCPPacket<'a> {
    /// The total length is computed in `usize` before it is wrapped to 16 bits.
    open spec fn build_ok(&self) -> bool {
        self.payload().len() + 12 <= usize::MAX
    }

    fn build(&self) -> (r: Vec<u8>)
        ensures
            r@ == legacy_tcp_frame(self.payload()),
    {
        let mut packet: Vec<u8> = vec![1, 4];
        let total: usize = self.data.len() + 12;
        let wrapped: u16 = (total % 65536) as u16;
        let _ = put_u16_be(&mut packet, wrapped);
        put_all(&mut packet, &[0, 0, 0, 0]);
        let _ = put_i32_be(&mut packet, 1);
        put_all(&mut packet, self.data);
        proof {
            assert(i32_bits(1i32) == 1u32);
            assert(be_u32(1u32) =~= seq![0u8, 0u8, 0u8, 1u8]);
            assert(packet@ =~= legacy_tcp_frame(self.payload()));
        }
        packet
    }
}

impl AuthorizationPacket {
    /// The session token.
    pub closed spec fn token_view(&self) -> Seq<char> {
        self.token@
    }

    /// The user name.
    pub closed spec fn user_view(&self) -> Seq<char> {
        self.user@
    }

    pub fn new(token: String, user: String) -> (r: Self)
        ensures
            r.token_view() == token@,
            r.user_view() == user@,
    {
        Self { token, user }
    }

    /// Whether the 16-bit sum of the wrapped lengths in the length field does not overflow.
    pub open spec fn length_fits(&self) -> bool {
        19 + encode_utf8(self.user_view()).len() % 65536 + encode_utf8(self.token_view()).len() % 65536
            <= u16::MAX
    }
}

impl Packet for AuthorizationPacket {
    open spec fn build_ok(&self) -> bool {
        self.length_fits()
    }

    fn build(&self) -> (r: Vec<u8>)
        ensures
            r@ == legacy_auth_frame(encode_utf8(self.user_view()), encode_utf8(self.token_view())),
    {
        let bytes_token = self.token.as_str().as_bytes();
        let bytes_user = self.user.as_str().as_bytes();
        let mut data: Vec<u8> = Vec::new();
        let _ = put_u8(&mut data, 1);
        let _ = put_u8(&mut data, 1);
        let user_len: u16 = (bytes_user.len() % 65536) as u16;
        let token_len: u16 = (bytes_token.len() % 65536) as u16;
        let _ = put_u16_be(&mut data, 19 + user_len + token_len);
        put_all(&mut data, &[0, 0, 0, 0, 1, 0, 0, 0, 1, 0]);
        let _ = put_u8(&mut data, (bytes_user.len() % 256) as u8);
        put_all(&mut data, bytes_user);
        put_all(&mut data, &[2, 0]);
        let _ = put_u8(&mut data, (bytes_token.len() % 256) as u8);
        put_all(&mut data, bytes_token);
        let _ = put_i8(&mut data, -1);
        proof {
            assert(i8_bits(-1i8) == 255u8);
            assert(data@ =~= legacy_auth_frame(bytes_user@, bytes_token@));
        }
        data
    }
}

/// Within the limits of the length fields the legacy frames are the current ones:
/// a data frame of at most 65535 bytes, and a login frame whose user name and
/// token each fit in 255 bytes, are encoded identically.
pub proof fn lemma_legacy_frames_agree(data: Seq<u8>, user: Seq<u8>, token: Seq<u8>)
    ensures
        data.len() + 12 <= u16::MAX ==> legacy_tcp_frame(data) == tcp_frame(data),
        user.len() <= 255 && token.len() <= 255 ==> legacy_auth_frame(user, token) == auth_frame(user, token),
{
    if data.len() + 12 <= u16::MAX {
        assert(legacy_tcp_frame(data) =~= tcp_frame(data));
    }
    if user.len() <= 255 && token.len() <= 255 {
        assert(legacy_auth_frame(user, token) =~= auth_frame(user, token));
    }
}

} // verus!
