//! Inbound frames: header decoding and the reassembly buffer that cuts frames
//! out of the bytes read from the tunnel.
use vstd::prelude::*;
use crate::vpn::protocol::write::tcp_frame;

verus! {

/// Length of the fixed header in front of every inbound frame.
pub const INBOUND_FRAME_HEADER_LEN: usize = 8;

/// The kind byte of an inbound frame.
#[derive(Debug, Clone, Copy, PartialEq, Eq, Structural)]
pub enum InboundFrameKind {
    Control,
    Data,
    Unknown(u8),
}

/// The decoded fixed header of an inbound frame.
#[derive(Debug, Clone, Copy, PartialEq, Eq)]
pub struct InboundFrameHeader {
    pub version: u8,
    pub kind: InboundFrameKind,
    pub total_len: u16,
    pub xid: [u8; 4],
}

/// One complete inbound frame with the header stripped from its payload.
#[derive(Debug, Clone, PartialEq, Eq)]
pub enum InboundFrame {
    Control { header: InboundFrameHeader, payload: Vec<u8> },
    Data { header: InboundFrameHeader, payload: Vec<u8> },
}

/// Why an inbound header was rejected.
#[derive(Debug, Clone, Copy, PartialEq, Eq, Structural)]
pub enum FrameError {
    /// The version byte is not 1.
    InvalidVersion(u8),
    /// The length field is shorter than the header itself.
    InvalidLength(u16),
}

/// The kind that a kind byte stands for.
pub open spec fn kind_of(value: u8) -> InboundFrameKind {
    if value == 2 {
        InboundFrameKind::Control
    } else if value == 4 {
        InboundFrameKind::Data
    } else {
        InboundFrameKind::Unknown(value)
    }
}

/// The big-endian length field of a header.
pub open spec fn length_field(h: Seq<u8>) -> int {
    h[2] * 256 + h[3]
}

/// Whether the first eight bytes of `h` form an acceptable header.
pub open spec fn header_error(h: Seq<u8>) -> Option<FrameError> {
    if h[0] != 1 {
        Some(FrameError::InvalidVersion(h[0]))
    } else if length_field(h) < 8 {
        Some(FrameError::InvalidLength(length_field(h) as u16))
    } else {
        None
    }
}

/// Whether `r` is the header that the first eight bytes of `h` encode.
pub open spec fn header_encoded(h: Seq<u8>, r: InboundFrameHeader) -> bool {
    &&& r.version == h[0]
    &&& r.kind == kind_of(h[1])
    &&& r.total_len == length_field(h)
    &&& r.xid@ == h.subrange(4, 8)
}

/// A control frame is a kind-2 frame of total length 10 or 12.
pub open spec fn is_control(h: InboundFrameHeader) -> bool {
    h.kind == InboundFrameKind::Control && (h.total_len == 10 || h.total_len == 12)
}

impl InboundFrameKind {
    pub fn from_wire(value: u8) -> (r: Self)
        ensures
            r == kind_of(value),
    {
        match value {
            2 => Self::Control,
            4 => Self::Data,
            other => Self::Unknown(other),
        }
    }
}

impl InboundFrameHeader {
    /// Decodes a fixed header: version byte, kind byte, big-endian total length, transaction id.
    pub fn parse(header: &[u8; 8]) -> (r: Result<Self, FrameError>)
        ensures
            match header_error(header@) {
                Some(e) => r == Err::<Self, FrameError>(e),
                None => r matches Ok(h) && header_encoded(header@, h),
            },
    {
        if header[0] != 1 {
            return Err(FrameError::InvalidVersion(header[0]));
        }
        let total_len: u16 = (header[2] as u16) * 256 + header[3] as u16;
        if total_len < 8 {
            return Err(FrameError::InvalidLength(total_len));
        }
        let xid: [u8; 4] = [header[4], header[5], header[6], header[7]];
        assert(xid@ =~= header@.subrange(4, 8));
        Ok(Self { version: header[0], kind: InboundFrameKind::from_wire(header[1]), total_len, xid })
    }

    pub fn is_control_frame(&self) -> (r: bool)
        ensures
            r == is_control(*self),
    {
        (match self.kind {
            InboundFrameKind::Control => true,
            _ => false,
        }) && (self.total_len == 10 || self.total_len == 12)
    }
}

impl InboundFrame {
    /// The decoded header of this frame.
    pub open spec fn header_of(&self) -> InboundFrameHeader {
        match self {
            InboundFrame::Control { header, .. } => *header,
            InboundFrame::Data { header, .. } => *header,
        }
    }

    /// The bytes after the header.
    pub open spec fn payload_of(&self) -> Seq<u8> {
        match self {
            InboundFrame::Control { payload, .. } => payload@,
            InboundFrame::Data { payload, .. } => payload@,
        }
    }
}

/// What the reassembly buffer can do with the bytes it holds.
#[derive(Debug)]
pub enum FrameStep {
    /// Fewer than eight bytes are buffered.
    NeedHeader,
    /// A valid header announces this total length, and fewer bytes are buffered.
    NeedBody(usize),
    /// A complete frame was cut off the front of the buffer.
    Frame(InboundFrame),
    /// The buffered header is invalid; nothing was consumed.
    Invalid(FrameError),
}

/// Bytes read from the tunnel that have not yet been cut into frames.
pub struct FrameBuffer {
    buffer: Vec<u8>,
}

impl View for FrameBuffer {
    type V = Seq<u8>;

    closed spec fn view(&self) -> Seq<u8> {
        self.buffer@
    }
}

/// What `next_frame` does on a buffer holding `buf`: the step's shape, and the buffer after it.
pub open spec fn step_ok(buf: Seq<u8>, r: FrameStep, after: Seq<u8>) -> bool {
    if buf.len() < 8 {
        r is NeedHeader && after == buf
    } else {
        match header_error(buf) {
            Some(e) => r == FrameStep::Invalid(e) && after == buf,
            None => if buf.len() < length_field(buf) {
                r == FrameStep::NeedBody(length_field(buf) as usize) && after == buf
            } else {
                &&& r matches FrameStep::Frame(f)
                &&& header_encoded(buf, f.header_of())
                &&& (f is Control <==> is_control(f.header_of()))
                &&& f.payload_of() == buf.subrange(8, length_field(buf))
                &&& after == buf.subrange(length_field(buf), buf.len() as int)
            },
        }
    }
}

impl FrameBuffer {
    pub fn new() -> (r: Self)
        ensures
            r@ == Seq::<u8>::empty(),
    {
        Self { buffer: Vec::new() }
    }

    /// Number of bytes buffered.
    pub fn len(&self) -> (r: usize)
        ensures
            r == self@.len(),
    {
        self.buffer.len()
    }

    /// Appends bytes read from the tunnel.
    pub fn extend(&mut self, chunk: &[u8])
        ensures
            final(self)@ == old(self)@ + chunk@,
    {
        crate::wire::put_all(&mut self.buffer, chunk);
    }

    /// Cuts the first `len` bytes off the buffer.
    fn take_frame(&mut self, len: usize) -> (r: Vec<u8>)
        requires
            len <= old(self)@.len(),
        ensures
            r@ == old(self)@.subrange(0, len as int),
            final(self)@ == old(self)@.subrange(len as int, old(self)@.len() as int),
    {
        let mut frame = self.buffer.split_off(len);
        std::mem::swap(&mut self.buffer, &mut frame);
        frame
    }

    /// Cuts the next complete frame off the front of the buffer, or says what is missing.
    pub fn next_frame(&mut self) -> (r: FrameStep)
        ensures
            step_ok(old(self)@, r, final(self)@),
    {
        if self.buffer.len() < INBOUND_FRAME_HEADER_LEN {
            return FrameStep::NeedHeader;
        }
        let raw_header: [u8; 8] = [
            self.buffer[0],
            self.buffer[1],
            self.buffer[2],
            self.buffer[3],
            self.buffer[4],
            self.buffer[5],
            self.buffer[6],
            self.buffer[7],
        ];
        assert(raw_header@ =~= self@.subrange(0, 8));
        assert(raw_header@.subrange(4, 8) =~= self@.subrange(4, 8));
        assert(header_error(raw_header@) == header_error(self@));
        let header = match InboundFrameHeader::parse(&raw_header) {
            Ok(h) => h,
            Err(e) => return FrameStep::Invalid(e),
        };
        let total_len: usize = header.total_len as usize;
        if self.buffer.len() < total_len {
            return FrameStep::NeedBody(total_len);
        }
        let ghost before = self@;
        assert(header_encoded(before, header));
        let frame = self.take_frame(total_len);
        let mut payload: Vec<u8> = Vec::new();
        let mut i: usize = INBOUND_FRAME_HEADER_LEN;
        while i < frame.len()
            invariant
                8 <= i <= frame@.len(),
                payload@ == frame@.subrange(8, i as int),
            decreases frame@.len() - i,
        {
            payload.push(frame[i]);
            i = i + 1;
            assert(frame@.subrange(8, i as int) =~= frame@.subrange(8, (i - 1) as int).push(frame@[i - 1]));
        }
        assert(payload@ =~= old(self)@.subrange(8, total_len as int));
        if header.is_control_frame() {
            return FrameStep::Frame(InboundFrame::Control { header, payload });
        }
        FrameStep::Frame(InboundFrame::Data { header, payload })
    }
}

/// Every complete frame with a valid header, whatever its kind byte, is cut off the
/// front of the buffer whole: its header is decoded as written, its payload is the
/// bytes after the header, it is a control frame exactly when its kind byte is 2 and
/// its payload two or four bytes long, and the bytes that follow it stay buffered.
pub proof fn lemma_frame_decodes(h: Seq<u8>, payload: Seq<u8>, rest: Seq<u8>)
    requires
        h.len() == 8,
        h[0] == 1,
        h[2] * 256 + h[3] == 8 + payload.len(),
    ensures
        forall|r: FrameStep, after: Seq<u8>|
            step_ok(h + payload + rest, r, after) ==> {
                &&& r matches FrameStep::Frame(f)
                &&& f.header_of().version == 1
                &&& (h[1] == 2 ==> f.header_of().kind == InboundFrameKind::Control)
                &&& (h[1] == 4 ==> f.header_of().kind == InboundFrameKind::Data)
                &&& (h[1] != 2 && h[1] != 4 ==> f.header_of().kind == InboundFrameKind::Unknown(h[1]))
                &&& f.header_of().total_len == 8 + payload.len()
                &&& f.header_of().xid@ == h.subrange(4, 8)
                &&& (f is Control <==> (h[1] == 2 && (payload.len() == 2 || payload.len() == 4)))
                &&& f.payload_of() == payload
                &&& after == rest
            },
{
    let buf = h + payload + rest;
    let n = 8 + payload.len();
    assert(buf[0] == h[0] && buf[1] == h[1] && buf[2] == h[2] && buf[3] == h[3]);
    assert(buf.subrange(4, 8) =~= h.subrange(4, 8));
    assert(buf.subrange(8, n as int) =~= payload);
    assert(buf.subrange(n as int, buf.len() as int) =~= rest);
}

/// A data frame built around an IP packet is cut back out of the inbound byte
/// stream as one data frame, with the zero transaction id, whose payload is the
/// application id followed by the packet; the bytes after it stay buffered.
pub proof fn lemma_tcp_frame_decodes(data: Seq<u8>, rest: Seq<u8>)
    requires
        data.len() + 12 <= u16::MAX,
    ensures
        forall|r: FrameStep, after: Seq<u8>|
            step_ok(tcp_frame(data) + rest, r, after) ==> {
                &&& r matches FrameStep::Frame(f)
                &&& f is Data
                &&& f.header_of().version == 1
                &&& f.header_of().kind == InboundFrameKind::Data
                &&& f.header_of().total_len == data.len() + 12
                &&& f.header_of().xid@ == seq![0u8, 0u8, 0u8, 0u8]
                &&& f.payload_of() == seq![0u8, 0u8, 0u8, 1u8] + data
                &&& after == rest
            },
{
    let n = (data.len() + 12) as u16;
    let buf = tcp_frame(data) + rest;
    assert((n / 256) * 256 + n % 256 == n);
    assert(buf[0] == 1u8);
    assert(buf[1] == 4u8);
    assert(length_field(buf) == n);
    assert(buf.subrange(4, 8) =~= seq![0u8, 0u8, 0u8, 0u8]);
    assert(buf.subrange(8, n as int) =~= seq![0u8, 0u8, 0u8, 1u8] + data);
    assert(buf.subrange(n as int, buf.len() as int) =~= rest);
}

} // verus!
