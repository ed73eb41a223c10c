//! Outbound frames: the login request and the data frame that carries one IP packet.
use vstd::prelude::*;
use vstd::utf8::encode_utf8;
use crate::wire::{be_u16, be_u32, i32_bits, i8_bits, put_u8, put_i8, put_u16_be, put_i32_be, put_all};

verus! {

/// Why a frame could not be encoded.
#[derive(Debug, Clone, Copy, PartialEq, Eq, Structural)]
pub enum PacketError {
    /// The frame length does not fit in a `usize`.
    LengthOverflow,
    /// The frame length does not fit in the 16-bit length field.
    TooLarge,
    /// The user name is longer than 255 bytes.
    UserTooLarge,
    /// The session token is longer than 255 bytes.
    TokenTooLarge,
    /// The byte writer refused a write.
    Encode,
}

/// Something that can be encoded as one outbound frame.
pub trait Packet {
    fn build(&self) -> Result<Vec<u8>, PacketError>;
}

/// The login frame: session token and user name.
pub struct AuthorizationPacket {
    token: String,
    user: String,
}

/// A data frame around one raw IP packet.
pub struct TCPPacket<'a> {
    data: &'a [u8],
}

/// The image of a data frame around `data`: version 1, kind 4, the total length,
/// a zero transaction id, application id 1, then the packet itself.
pub open spec fn tcp_frame(data: Seq<u8>) -> Seq<u8> {
    seq![1u8, 4u8] + be_u16((data.len() + 12) as u16) + seq![0u8, 0u8, 0u8, 0u8] + seq![0u8, 0u8, 0u8, 1u8]
        + data
}

/// The image of a login frame for the UTF-8 bytes of `user` and `token`.
pub open spec fn auth_frame(user: Seq<u8>, token: Seq<u8>) -> Seq<u8> {
    seq![1u8, 1u8] + be_u16((user.len() + token.len() + 19) as u16)
        + seq![0u8, 0u8, 0u8, 0u8, 1u8, 0u8, 0u8, 0u8, 1u8, 0u8]
        + seq![user.len() as u8] + user
        + seq![2u8, 0u8]
        + seq![token.len() as u8] + token
        + seq![255u8]
}

/// The heartbeat frame.
pub open spec fn heartbeat_frame() -> Seq<u8> {
    seq![1u8, 1u8, 0u8, 12u8, 0u8, 0u8, 0u8, 0u8, 3u8, 0u8, 0u8, 0u8]
}

/// The heartbeat frame that keeps the tunnel alive.
pub fn heartbeat() -> (r: [u8; 12])
    ensures
        r@ == heartbeat_frame(),
{
    [1, 1, 0, 12, 0, 0, 0, 0, 3, 0, 0, 0]
}

impl<'a> TCPPacket<'a> {
    /// The IP packet carried by this frame.
    pub closed spec fn payload(&self) -> Seq<u8> {
        self.data@
    }

    pub fn new(data: &'a [u8]) -> (r: TCPPacket<'a>)
        ensures
            r.payload() == data@,
    {
        Self { data }
    }
}

impl<'a> Packet for TCPPacket<'a> {
    /// Fails exactly when the frame would be longer than the 16-bit length field allows.
    fn build(&self) -> (r: Result<Vec<u8>, PacketError>)
        ensures
            self.payload().len() + 12 > usize::MAX ==> r == Err::<Vec<u8>, PacketError>(PacketError::LengthOverflow),
            self.payload().len() + 12 <= usize::MAX && self.payload().len() + 12 > u16::MAX
                ==> r == Err::<Vec<u8>, PacketError>(PacketError::TooLarge),
            r is Ok <==> self.payload().len() + 12 <= u16::MAX,
            r matches Ok(v) ==> v@ == tcp_frame(self.payload()),
    {
        let mut packet: Vec<u8> = vec![1, 4];
        let total_len: usize = match self.data.len().checked_add(12) {
            Some(n) => n,
            None => return Err(PacketError::LengthOverflow),
        };
        if total_len > 65535 {
            return Err(PacketError::TooLarge);
        }
        let total_len: u16 = total_len as u16;
        if put_u16_be(&mut packet, total_len).is_err() {
            return Err(PacketError::Encode);
        }
        put_all(&mut packet, &[0, 0, 0, 0]);
        if put_i32_be(&mut packet, 1).is_err() {
            return Err(PacketError::Encode);
        }
        put_all(&mut packet, self.data);
        proof {
            assert(i32_bits(1i32) == 1u32);
            assert(be_u32(1u32) =~= seq![0u8, 0u8, 0u8, 1u8]);
            assert(packet@ =~= tcp_frame(self.payload()));
        }
        Ok(packet)
    }
}

impl AuthorizationPacket {
    /// The session token.
    pub closed spec fn token_view(&self) -> Seq<char> {
        self.token@
    }

    /// The user name.
    pub closed spec fn user_view(&self) -> Seq<char> {
        self.user@
    }

    pub fn new(token: String, user: String) -> (r: Self)
        ensures
            r.token_view() == token@,
            r.user_view() == user@,
    {
        Self { token, user }
    }
}

impl Packet for AuthorizationPacket {
    /// Fails when the frame is longer than the 16-bit length field allows, then
    /// when the user name or the token is longer than its one-byte length field.
    fn build(&self) -> (r: Result<Vec<u8>, PacketError>)
        ensures
            ({
                let u = encode_utf8(self.user_view());
                let t = encode_utf8(self.token_view());
                &&& u.len() + t.len() + 19 > usize::MAX ==> r == Err::<Vec<u8>, PacketError>(PacketError::LengthOverflow)
                &&& u.len() + t.len() + 19 <= usize::MAX && u.len() + t.len() + 19 > u16::MAX
                    ==> r == Err::<Vec<u8>, PacketError>(PacketError::TooLarge)
                &&& u.len() + t.len() + 19 <= u16::MAX && u.len() > 255
                    ==> r == Err::<Vec<u8>, PacketError>(PacketError::UserTooLarge)
                &&& u.len() + t.len() + 19 <= u16::MAX && u.len() <= 255 && t.len() > 255
                    ==> r == Err::<Vec<u8>, PacketError>(PacketError::TokenTooLarge)
                &&& r is Ok <==> (u.len() + t.len() + 19 <= u16::MAX && u.len() <= 255 && t.len() <= 255)
                &&& r matches Ok(v) ==> v@ == auth_frame(u, t)
            }),
    {
        let bytes_token = self.token.as_str().as_bytes();
        let bytes_user = self.user.as_str().as_bytes();
        let mut data: Vec<u8> = Vec::new();
        let total_len: usize = match bytes_user.len().checked_add(bytes_token.len()) {
            Some(n) => match n.checked_add(19) {
                Some(m) => m,
                None => return Err(PacketError::LengthOverflow),
            },
            None => return Err(PacketError::LengthOverflow),
        };
        if total_len > 65535 {
            return Err(PacketError::TooLarge);
        }
        let total_len: u16 = total_len as u16;
        // Version
        if put_u8(&mut data, 1).is_err() {
            return Err(PacketError::Encode);
        }
        // Protocol
        if put_u8(&mut data, 1).is_err() {
            return Err(PacketError::Encode);
        }
        // Length
        if put_u16_be(&mut data, total_len).is_err() {
            return Err(PacketError::Encode);
        }
        // zero, ELK_METHOD_STUN, ELK_OPT_USERNAME
        put_all(&mut data, &[0, 0, 0, 0, 1, 0, 0, 0, 1, 0]);
        if bytes_user.len() > 255 {
            return Err(PacketError::UserTooLarge);
        }
        if put_u8(&mut data, bytes_user.len() as u8).is_err() {
            return Err(PacketError::Encode);
        }
        put_all(&mut data, bytes_user);
        // ELK_OPT_SESSID
        put_all(&mut data, &[2, 0]);
        if bytes_token.len() > 255 {
            return Err(PacketError::TokenTooLarge);
        }
        if put_u8(&mut data, bytes_token.len() as u8).is_err() {
            return Err(PacketError::Encode);
        }
        put_all(&mut data, bytes_token);
        if put_i8(&mut data, -1).is_err() {
            return Err(PacketError::Encode);
        }
        proof {
            assert(i8_bits(-1i8) == 255u8);
            assert(data@ =~= auth_frame(bytes_user@, bytes_token@));
        }
        Ok(data)
    }
}

/// Every data frame announces its own length: the big-endian length field is the
/// number of bytes in the frame, twelve header bytes more than the packet.
pub proof fn lemma_tcp_frame_length(data: Seq<u8>)
    requires
        data.len() + 12 <= u16::MAX,
    ensures
        tcp_frame(data).len() == data.len() + 12,
        tcp_frame(data)[2] * 256 + tcp_frame(data)[3] == tcp_frame(data).len(),
        tcp_frame(data).subrange(12, tcp_frame(data).len() as int) == data,
{
    let n = (data.len() + 12) as u16;
    assert((n / 256) * 256 + n % 256 == n);
    assert(tcp_frame(data).subrange(12, tcp_frame(data).len() as int) =~= data);
}

/// Every login frame announces its own length, and its fields can be read back:
/// the user name after its length byte at offset 14, the token after its length
/// byte that follows the `2 0` tag, then the terminator 255.
pub proof fn lemma_auth_frame_layout(user: Seq<u8>, token: Seq<u8>)
    requires
        user.len() <= 255,
        token.len() <= 255,
        user.len() + token.len() + 19 <= u16::MAX,
    ensures
        ({
            let f = auth_frame(user, token);
            let u = user.len() as int;
            let t = token.len() as int;
            &&& f.len() == u + t + 19
            &&& f[2] * 256 + f[3] == f.len()
            &&& f[14] == u
            &&& f.subrange(15, 15 + u) == user
            &&& f[15 + u] == 2 && f[16 + u] == 0
            &&& f[17 + u] == t
            &&& f.subrange(18 + u, 18 + u + t) == token
            &&& f[18 + u + t] == 255
        }),
{
    let n = (user.len() + token.len() + 19) as u16;
    assert((n / 256) * 256 + n % 256 == n);
    let f = auth_frame(user, token);
    let u = user.len() as int;
    let t = token.len() as int;
    assert(f.subrange(15, 15 + u) =~= user);
    assert(f.subrange(18 + u, 18 + u + t) =~= token);
}

} // verus!
