//! Length-prefixed binary frames: `[ id: u16 | length: u16 | payload ]`, big-endian.

use vstd::prelude::*;

verus! {

/// Length in bytes of a frame header (id and payload length).
pub const HEADER_LEN: usize = 4;

/// Largest payload a frame may carry.
pub const MAX_FRAME_LEN: usize = 8192;

/// One unit on the wire: a correlation id and its payload.
pub struct Frame {
    pub id: u16,
    pub payload: Vec<u8>,
}

/// Why a frame could not be read or written.
#[derive(Debug, Clone, Copy, PartialEq, Eq, Structural)]
pub enum FrameError {
    /// A header declared, or a writer offered, a payload longer than `MAX_FRAME_LEN`.
    Oversize(usize),
    /// The stream ended in the middle of a frame.
    PeerReset,
}

/// The big-endian bytes of a 16-bit value.
pub open spec fn be16(v: int) -> Seq<u8> {
    seq![(v / 256) as u8, (v % 256) as u8]
}

/// The value of two big-endian bytes.
pub open spec fn from_be16(hi: u8, lo: u8) -> int {
    hi as int * 256 + lo as int
}

/// The bytes that carry a frame with this id and payload.
pub open spec fn frame_bytes(id: u16, payload: Seq<u8>) -> Seq<u8> {
    be16(id as int) + be16(payload.len() as int) + payload
}

/// The id that a buffer's header declares.
pub open spec fn declared_id(buf: Seq<u8>) -> int {
    from_be16(buf[0], buf[1])
}

/// The payload length that a buffer's header declares.
pub open spec fn declared_len(buf: Seq<u8>) -> int {
    from_be16(buf[2], buf[3])
}

/// The buffer holds a whole header.
pub open spec fn has_header(buf: Seq<u8>) -> bool {
    buf.len() >= HEADER_LEN
}

/// The buffer's header declares a payload above the limit.
pub open spec fn header_oversize(buf: Seq<u8>) -> bool {
    has_header(buf) && declared_len(buf) > MAX_FRAME_LEN
}

/// The buffer starts with a whole, acceptable frame.
pub open spec fn frame_complete(buf: Seq<u8>) -> bool {
    has_header(buf) && !header_oversize(buf) && buf.len() >= HEADER_LEN + declared_len(buf)
}

/// The payload of the frame at the start of the buffer.
pub open spec fn first_payload(buf: Seq<u8>) -> Seq<u8> {
    buf.subrange(HEADER_LEN as int, HEADER_LEN + declared_len(buf))
}

/// What is left of the buffer after its first frame.
pub open spec fn after_first(buf: Seq<u8>) -> Seq<u8> {
    buf.subrange(HEADER_LEN + declared_len(buf), buf.len() as int)
}

/// Encodes a frame, refusing a payload longer than `MAX_FRAME_LEN`.
pub fn encode_frame(id: u16, payload: &[u8]) -> (r: Result<Vec<u8>, FrameError>)
    ensures
        payload@.len() <= MAX_FRAME_LEN ==> (r matches Ok(bytes) && bytes@ == frame_bytes(id, payload@)),
        payload@.len() > MAX_FRAME_LEN ==> r == Err::<Vec<u8>, FrameError>(FrameError::Oversize(payload@.len() as usize)),
{
    let n = payload.len();
    if n > MAX_FRAME_LEN {
        return Err(FrameError::Oversize(n));
    }
    let len = n as u16;
    let mut out: Vec<u8> = Vec::with_capacity(HEADER_LEN + n);
    out.push((id / 256) as u8);
    out.push((id % 256) as u8);
    out.push((len / 256) as u8);
    out.push((len % 256) as u8);
    append_bytes(&mut out, payload);
    Ok(out)
}

/// Appends `bytes` to `out`.
fn append_bytes(out: &mut Vec<u8>, bytes: &[u8])
    ensures
        final(out)@ == old(out)@ + bytes@,
{
    let n = bytes.len();
    let ghost start = out@;
    let mut i: usize = 0;
    while i < n
        invariant
            n == bytes@.len(),
            i <= n,
            out@ == start + bytes@.subrange(0, i as int),
        decreases n - i,
    {
        out.push(bytes[i]);
        proof {
            assert(bytes@.subrange(0, i + 1) == bytes@.subrange(0, i as int).push(bytes@[i as int]));
        }
        i = i + 1;
    }
    proof {
        assert(bytes@.subrange(0, n as int) == bytes@);
    }
}

/// Bytes received from a stream that do not yet form a whole frame.
pub struct FrameBuffer {
    buf: Vec<u8>,
}

impl View for FrameBuffer {
    type V = Seq<u8>;

    closed spec fn view(&self) -> Seq<u8> {
        self.buf@
    }
}

impl FrameBuffer {
    /// An empty buffer.
    pub fn new() -> (r: FrameBuffer)
        ensures
            r@ == Seq::<u8>::empty(),
    {
        FrameBuffer { buf: Vec::with_capacity(1024) }
    }

    /// Adds bytes read from the stream.
    pub fn extend(&mut self, bytes: &[u8])
        ensures
            final(self)@ == old(self)@ + bytes@,
    {
        append_bytes(&mut self.buf, bytes);
    }

    /// Number of buffered bytes.
    pub fn len(&self) -> (r: usize)
        ensures
            r == self@.len(),
    {
        self.buf.len()
    }

    /// Takes the first frame out of the buffer if it is whole.
    ///
    /// `Ok(None)` asks for more bytes and leaves the buffer as it was; a header
    /// declaring more than `MAX_FRAME_LEN` bytes is an error, whatever follows it.
    pub fn try_parse(&mut self) -> (r: Result<Option<Frame>, FrameError>)
        ensures
            header_oversize(old(self)@) ==> r == Err::<Option<Frame>, FrameError>(
                FrameError::Oversize(declared_len(old(self)@) as usize),
            ) && final(self)@ == old(self)@,
            !header_oversize(old(self)@) && !frame_complete(old(self)@) ==> (r matches Ok(None)
                && final(self)@ == old(self)@),
            frame_complete(old(self)@) ==> (r matches Ok(Some(f)) && f.id == declared_id(old(self)@)
                && f.payload@ == first_payload(old(self)@) && final(self)@ == after_first(old(self)@)),
    {
        if self.buf.len() < HEADER_LEN {
            return Ok(None);
        }
        let id: u16 = self.buf[0] as u16 * 256 + self.buf[1] as u16;
        let frame_len: usize = self.buf[2] as usize * 256 + self.buf[3] as usize;
        if frame_len > MAX_FRAME_LEN {
            return Err(FrameError::Oversize(frame_len));
        }
        let total = HEADER_LEN + frame_len;
        if self.buf.len() < total {
            return Ok(None);
        }
        let ghost whole = self.buf@;
        let rest = self.buf.split_off(total);
        let mut payload: Vec<u8> = Vec::with_capacity(frame_len);
        let mut i: usize = HEADER_LEN;
        while i < total
            invariant
                HEADER_LEN <= i <= total,
                total == HEADER_LEN + frame_len,
                total <= whole.len(),
                self.buf@ == whole.subrange(0, total as int),
                payload@ == whole.subrange(HEADER_LEN as int, i as int),
            decreases total - i,
        {
            payload.push(self.buf[i]);
            proof {
                assert(whole.subrange(HEADER_LEN as int, i + 1) == whole.subrange(
                    HEADER_LEN as int,
                    i as int,
                ).push(whole[i as int]));
            }
            i = i + 1;
        }
        self.buf = rest;
        Ok(Some(Frame { id, payload }))
    }

    /// What the end of the stream means: a clean end when nothing is buffered,
    /// a reset when it cut a frame short.
    pub fn end_of_stream(&self) -> (r: Result<(), FrameError>)
        ensures
            self@.len() == 0 <==> r is Ok,
            r is Err ==> r == Err::<(), FrameError>(FrameError::PeerReset),
    {
        if self.buf.len() == 0 {
            Ok(())
        } else {
            Err(FrameError::PeerReset)
        }
    }
}

/// Reading back the bytes of an encoded frame, followed by anything, yields the
/// same id and payload and leaves exactly what followed.
pub proof fn lemma_frame_round_trip(id: u16, payload: Seq<u8>, rest: Seq<u8>)
    requires
        payload.len() <= MAX_FRAME_LEN,
    ensures
        ({
            let buf = frame_bytes(id, payload) + rest;
            &&& frame_complete(buf)
            &&& declared_id(buf) == id
            &&& first_payload(buf) == payload
            &&& after_first(buf) == rest
        }),
{
    let buf = frame_bytes(id, payload) + rest;
    let n = payload.len() as int;
    assert(buf[0] == (id as int / 256) as u8 && buf[1] == (id as int % 256) as u8);
    assert(buf[2] == (n / 256) as u8 && buf[3] == (n % 256) as u8);
    assert(declared_len(buf) == n);
    assert(first_payload(buf) =~= payload);
    assert(after_first(buf) =~= rest);
}

/// A header that declares more than `MAX_FRAME_LEN` bytes is refused as soon as
/// it is whole, however many bytes follow it.
pub proof fn lemma_oversize_refused(header: Seq<u8>, rest: Seq<u8>)
    requires
        header.len() == HEADER_LEN,
        declared_len(header) > MAX_FRAME_LEN,
    ensures
        header_oversize(header + rest),
        !frame_complete(header + rest),
{
    let buf = header + rest;
    assert(buf[2] == header[2] && buf[3] == header[3]);
}

} // verus!
