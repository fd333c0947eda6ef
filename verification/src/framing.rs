use vstd::prelude::*;

verus! {

/// The largest message body a reader accepts, in bytes.
pub const MAX_MESSAGE_LEN: usize = 1000000;

/// Why a frame is refused.
#[derive(Debug, Clone, Copy, PartialEq, Eq, Structural)]
pub enum FrameError {
    /// The header announces a body of this many bytes, over the limit.
    TooLarge(usize),
}

/// `n` as four bytes, most significant first.
pub open spec fn be_bytes(n: u32) -> Seq<u8> {
    seq![
        (n / 0x1000000) as u8,
        ((n / 0x10000) % 0x100) as u8,
        ((n / 0x100) % 0x100) as u8,
        (n % 0x100) as u8,
    ]
}

/// The number four bytes stand for, most significant first.
pub open spec fn be_value(h: Seq<u8>) -> int {
    h[0] * 0x1000000 + h[1] * 0x10000 + h[2] * 0x100 + h[3]
}

/// A frame: the body's length as four big-endian bytes (the length taken
/// modulo 2^32), then the body.
pub open spec fn frame_of(body: Seq<u8>) -> Seq<u8> {
    be_bytes(body.len() as u32) + body
}

/// The body length a header announces, or why it is refused.
pub open spec fn announced_length(header: Seq<u8>) -> Result<usize, FrameError> {
    if be_value(header) > MAX_MESSAGE_LEN {
        Err(FrameError::TooLarge(be_value(header) as usize))
    } else {
        Ok(be_value(header) as usize)
    }
}

/// The frame that carries `body`.
pub fn encode_frame(body: &[u8]) -> (frame: Vec<u8>)
    ensures
        frame@ == frame_of(body@),
{
    let len = body.len() as u32;
    let mut frame: Vec<u8> = Vec::new();
    frame.push((len / 0x1000000) as u8);
    frame.push(((len / 0x10000) % 0x100) as u8);
    frame.push(((len / 0x100) % 0x100) as u8);
    frame.push((len % 0x100) as u8);
    let n = body.len();
    for i in 0..n
        invariant
            n == body@.len(),
            len == n as u32,
            frame@ == be_bytes(len) + body@.take(i as int),
    {
        frame.push(body[i]);
        assert(body@.take(i + 1) =~= body@.take(i as int).push(body@[i as int]));
        assert(frame@ =~= be_bytes(len) + body@.take(i + 1));
    }
    assert(body@.take(n as int) =~= body@);
    frame
}

/// The body length a frame header announces; refused above
/// `MAX_MESSAGE_LEN`.
pub fn frame_length(header: [u8; 4]) -> (r: Result<usize, FrameError>)
    ensures
        r == announced_length(header@),
{
    let len: u32 = (header[0] as u32) * 0x1000000 + (header[1] as u32) * 0x10000 + (header[2] as u32)
        * 0x100 + (header[3] as u32);
    if len as usize > MAX_MESSAGE_LEN {
        Err(FrameError::TooLarge(len as usize))
    } else {
        Ok(len as usize)
    }
}

proof fn lemma_be_round_trip(n: u32)
    ensures
        be_value(be_bytes(n)) == n,
{
    let b = be_bytes(n);
    assert(b[0] == n / 0x1000000);
    assert(b[1] == (n / 0x10000) % 0x100);
    assert(b[2] == (n / 0x100) % 0x100);
    assert(b[3] == n % 0x100);
    assert(be_value(b) == n) by (nonlinear_arith)
        requires
            b[0] == n / 0x1000000,
            b[1] == (n / 0x10000) % 0x100,
            b[2] == (n / 0x100) % 0x100,
            b[3] == n % 0x100,
            n < 0x100000000,
            be_value(b) == b[0] * 0x1000000 + b[1] * 0x10000 + b[2] * 0x100 + b[3],
    ;
}

/// Reading back a frame: a body within the limit is announced with its
/// exact length by the frame's header, and follows that header unchanged.
pub proof fn lemma_frame_round_trip(body: Seq<u8>)
    requires
        body.len() <= MAX_MESSAGE_LEN,
    ensures
        announced_length(frame_of(body).take(4)) == Ok::<usize, FrameError>(body.len() as usize),
        frame_of(body).skip(4) == body,
{
    lemma_be_round_trip(body.len() as u32);
    assert(frame_of(body).take(4) =~= be_bytes(body.len() as u32));
    assert(frame_of(body).skip(4) =~= body);
}

/// A header announcing more than the limit is refused with the announced
/// length.
pub proof fn lemma_oversized_refused(header: Seq<u8>)
    requires
        header.len() == 4,
        be_value(header) > MAX_MESSAGE_LEN,
    ensures
        announced_length(header) == Err::<usize, FrameError>(
            FrameError::TooLarge(be_value(header) as usize),
        ),
{
}

} // verus!
