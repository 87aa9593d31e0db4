//! The `.siz` container: a `SIX!` magic, the payload length as a
//! little-endian `u32`, then the payload.

use vstd::prelude::*;

verus! {

pub open spec fn magic() -> Seq<u8> {
    seq![0x53u8, 0x49u8, 0x58u8, 0x21u8]
}

/// The four little-endian bytes of `n`.
pub open spec fn le32(n: u32) -> Seq<u8> {
    seq![
        (n & 0xff) as u8,
        ((n >> 8u32) & 0xff) as u8,
        ((n >> 16u32) & 0xff) as u8,
        ((n >> 24u32) & 0xff) as u8,
    ]
}

/// The `u32` whose little-endian bytes are `b[0..4]`.
pub open spec fn read_le32(b: Seq<u8>) -> u32 {
    (b[0] as u32) | ((b[1] as u32) << 8u32) | ((b[2] as u32) << 16u32) | ((b[3] as u32) << 24u32)
}

/// The container for `payload`. A payload longer than `u32::MAX` gets its
/// length truncated to 32 bits in the header.
pub open spec fn framed(payload: Seq<u8>) -> Seq<u8> {
    magic() + le32(payload.len() as u32) + payload
}

/// Why a container could not be opened.
#[derive(Debug, Clone, Copy, PartialEq, Eq, Structural)]
pub enum FrameError {
    /// Fewer than four bytes: no room for the magic.
    MissingMagic,
    /// The first four bytes are not `SIX!`.
    InvalidFormat,
    /// Fewer than eight bytes: no room for the length.
    MissingLength,
    /// The length in the header runs past the end of the data.
    Truncated,
}

/// The payload of a container, or why there is none.
pub open spec fn unframed(data: Seq<u8>) -> Result<Seq<u8>, FrameError> {
    if data.len() < 4 {
        Err(FrameError::MissingMagic)
    } else if data.subrange(0, 4) != magic() {
        Err(FrameError::InvalidFormat)
    } else if data.len() < 8 {
        Err(FrameError::MissingLength)
    } else {
        let n = read_le32(data.subrange(4, 8));
        if 8 + n > data.len() {
            Err(FrameError::Truncated)
        } else {
            Ok(data.subrange(8, 8 + n))
        }
    }
}

/// Wraps a payload in the container.
pub fn frame_payload(payload: &Vec<u8>) -> (out: Vec<u8>)
    ensures
        out@ == framed(payload@),
{
    let n = #[verifier::truncate] (payload.len() as u32);
    let mut out: Vec<u8> = vec![0x53u8, 0x49u8, 0x58u8, 0x21u8];
    out.push((n & 0xff) as u8);
    out.push(((n >> 8u32) & 0xff) as u8);
    out.push(((n >> 16u32) & 0xff) as u8);
    out.push(((n >> 24u32) & 0xff) as u8);
    let ghost head = out@;
    let mut i: usize = 0;
    while i < payload.len()
        invariant
            i <= payload.len(),
            out@ == head + payload@.take(i as int),
        decreases payload.len() - i,
    {
        out.push(payload[i]);
        proof {
            assert(payload@.take(i + 1) =~= payload@.take(i as int).push(payload@[i as int]));
        }
        i = i + 1;
    }
    proof {
        assert(payload@.take(payload.len() as int) =~= payload@);
        assert(head =~= magic() + le32(payload@.len() as u32));
    }
    out
}

/// Takes the payload out of a container.
pub fn unframe_payload(data: &[u8]) -> (r: Result<Vec<u8>, FrameError>)
    ensures
        match r {
            Ok(p) => unframed(data@) == Ok::<Seq<u8>, FrameError>(p@),
            Err(e) => unframed(data@) == Err::<Seq<u8>, FrameError>(e),
        },
{
    if data.len() < 4 {
        return Err(FrameError::MissingMagic);
    }
    if !(data[0] == 0x53u8 && data[1] == 0x49u8 && data[2] == 0x58u8 && data[3] == 0x21u8) {
        proof {
            if data@.subrange(0, 4) == magic() {
                assert(data@.subrange(0, 4)[0] == data@[0]);
                assert(data@.subrange(0, 4)[1] == data@[1]);
                assert(data@.subrange(0, 4)[2] == data@[2]);
                assert(data@.subrange(0, 4)[3] == data@[3]);
            }
        }
        return Err(FrameError::InvalidFormat);
    }
    proof {
        assert(data@.subrange(0, 4) =~= magic());
    }
    if data.len() < 8 {
        return Err(FrameError::MissingLength);
    }
    let n: u32 = (data[4] as u32) | ((data[5] as u32) << 8u32) | ((data[6] as u32) << 16u32) | ((
    data[7] as u32) << 24u32);
    proof {
        let h = data@.subrange(4, 8);
        assert(h[0] == data@[4] && h[1] == data@[5] && h[2] == data@[6] && h[3] == data@[7]);
        assert(n == read_le32(h));
    }
    let len = n as usize;
    if len > data.len() - 8 {
        return Err(FrameError::Truncated);
    }
    let mut out: Vec<u8> = Vec::new();
    let mut i: usize = 0;
    while i < len
        invariant
            i <= len,
            8 + len <= data.len(),
            out@ == data@.subrange(8, 8 + i),
        decreases len - i,
    {
        out.push(data[8 + i]);
        proof {
            assert(data@.subrange(8, 8 + i + 1) =~= data@.subrange(8, 8 + i).push(data@[8 + i]));
        }
        i = i + 1;
    }
    Ok(out)
}

proof fn lemma_le32_roundtrip(n: u32)
    ensures
        read_le32(le32(n)) == n,
{
    let b0 = (n & 0xff) as u8;
    let b1 = ((n >> 8u32) & 0xff) as u8;
    let b2 = ((n >> 16u32) & 0xff) as u8;
    let b3 = ((n >> 24u32) & 0xff) as u8;
    assert((b0 as u32) | ((b1 as u32) << 8u32) | ((b2 as u32) << 16u32) | ((b3 as u32) << 24u32)
        == n) by (bit_vector)
        requires
            b0 == (n & 0xff) as u8,
            b1 == ((n >> 8u32) & 0xff) as u8,
            b2 == ((n >> 16u32) & 0xff) as u8,
            b3 == ((n >> 24u32) & 0xff) as u8,
    ;
}

/// Law: opening a container gives back the payload it was made from, for
/// every payload whose length fits the 32-bit header.
pub proof fn law_frame_roundtrip(payload: Seq<u8>)
    requires
        payload.len() <= u32::MAX,
    ensures
        unframed(framed(payload)) == Ok::<Seq<u8>, FrameError>(payload),
{
    let d = framed(payload);
    lemma_le32_roundtrip(payload.len() as u32);
    assert(d.subrange(0, 4) =~= magic());
    assert(d.subrange(4, 8) =~= le32(payload.len() as u32));
    assert(d.subrange(8, 8 + payload.len() as int) =~= payload);
}

} // verus!
