use crate::wire::{
    be_bytes, be_to_u64, be_value, lemma_be_round_trip, lemma_radix_4_8,
    u32_to_be,
};
use vstd::prelude::*;
use vstd::slice::{slice_subrange, slice_to_vec};

verus! {

/// The largest payload, in bytes, that a received frame may announce.
pub const MAX_FRAME_LEN: usize = 10000;

/// Why a frame could not be read.
#[derive(PartialEq, Eq, Structural, Debug, Clone, Copy)]
pub enum FrameError {
    /// The bytes end before the header or the announced payload does.
    Truncated,
    /// The header announces more than `MAX_FRAME_LEN` bytes.
    TooLarge,
}

/// A frame on the wire: the payload length as four big-endian bytes, then
/// the payload.
pub open spec fn frame_of(payload: Seq<u8>) -> Seq<u8> {
    be_bytes(payload.len(), 4) + payload
}

/// The payload length that the first four bytes announce.
pub open spec fn announced_len(b: Seq<u8>) -> nat {
    be_value(b.take(4))
}

/// The outcome of reading a frame header from `h`.
pub open spec fn header_decoding(h: Seq<u8>) -> Result<nat, FrameError> {
    if h.len() < 4 {
        Err(FrameError::Truncated)
    } else if announced_len(h) > MAX_FRAME_LEN {
        Err(FrameError::TooLarge)
    } else {
        Ok(announced_len(h))
    }
}

/// The outcome of reading one frame from the front of `b`: its payload and
/// the number of bytes that the frame takes.
pub open spec fn frame_decoding(b: Seq<u8>) -> Result<(Seq<u8>, nat), FrameError> {
    match header_decoding(b) {
        Err(e) => Err(e),
        Ok(n) => if b.len() < 4 + n {
            Err(FrameError::Truncated)
        } else {
            Ok((b.subrange(4, 4 + n as int), 4 + n))
        },
    }
}

/// Writes the payload behind its four-byte big-endian length.
pub fn encode_frame(payload: &[u8]) -> (r: Vec<u8>)
    requires
        payload@.len() <= u32::MAX,
    ensures
        r@ == frame_of(payload@),
{
    let mut out = u32_to_be(payload.len() as u32);
    let ghost head = out@;
    proof {
        lemma_be_round_trip(payload@.len(), 4);
    }
    let mut i: usize = 0;
    while i < payload.len()
        invariant
            i <= payload@.len(),
            head.len() == 4,
            out@ == head + payload@.take(i as int),
        decreases payload@.len() - i,
    {
        out.push(payload[i]);
        i = i + 1;
        assert(out@ =~= head + payload@.take(i as int));
    }
    assert(payload@.take(i as int) =~= payload@);
    out
}

/// Reads the payload length from a frame header and checks it against
/// `MAX_FRAME_LEN`.
pub fn frame_length(header: &[u8]) -> (r: Result<usize, FrameError>)
    ensures
        match r {
            Ok(n) => header_decoding(header@) == Ok::<nat, FrameError>(n as nat),
            Err(e) => header_decoding(header@) == Err::<nat, FrameError>(e),
        },
{
    if header.len() < 4 {
        return Err(FrameError::Truncated);
    }
    let head = slice_subrange(header, 0, 4);
    assert(head@ =~= header@.take(4));
    let n = be_to_u64(head);
    if n > MAX_FRAME_LEN as u64 {
        Err(FrameError::TooLarge)
    } else {
        Ok(n as usize)
    }
}

/// Reads one frame from the front of `bytes`, returning its payload and the
/// number of bytes it occupies.
pub fn decode_frame(bytes: &[u8]) -> (r: Result<(Vec<u8>, usize), FrameError>)
    ensures
        match r {
            Ok((p, used)) => frame_decoding(bytes@) == Ok::<(Seq<u8>, nat), FrameError>(
                (p@, used as nat),
            ),
            Err(e) => frame_decoding(bytes@) == Err::<(Seq<u8>, nat), FrameError>(e),
        },
{
    let n = match frame_length(bytes) {
        Ok(n) => n,
        Err(e) => return Err(e),
    };
    if bytes.len() - 4 < n {
        return Err(FrameError::Truncated);
    }
    let payload = slice_to_vec(slice_subrange(bytes, 4, 4 + n));
    Ok((payload, 4 + n))
}

/// Frame round trip: reading back the frame written for a payload of at
/// most `MAX_FRAME_LEN` bytes gives that payload and consumes the whole
/// frame; for a longer payload the reader refuses the header.
pub proof fn lemma_frame_round_trip(payload: Seq<u8>)
    requires
        payload.len() <= u32::MAX,
    ensures
        payload.len() <= MAX_FRAME_LEN ==> frame_decoding(frame_of(payload)) == Ok::<
            (Seq<u8>, nat),
            FrameError,
        >((payload, 4 + payload.len())),
        payload.len() > MAX_FRAME_LEN ==> frame_decoding(frame_of(payload)) == Err::<
            (Seq<u8>, nat),
            FrameError,
        >(FrameError::TooLarge),
{
    let f = frame_of(payload);
    lemma_be_round_trip(payload.len(), 4);
    lemma_radix_4_8();
    assert(f.take(4) =~= be_bytes(payload.len(), 4));
    vstd::arithmetic::div_mod::lemma_small_mod(payload.len(), 0x1_0000_0000);
    assert(announced_len(f) == payload.len());
    assert(f.subrange(4, 4 + payload.len() as int) =~= payload);
}

} // verus!
