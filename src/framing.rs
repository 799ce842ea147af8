use vstd::prelude::*;
use vstd::slice::{slice_subrange, slice_to_vec};

use crate::error::{ConfigIssue, KayaError};

verus! {

/// The largest payload a frame may announce: 100 MiB.
pub const MAX_MESSAGE_LEN: u32 = 104857600;

/// The native-byte-order representation of `n`, as `u32::to_ne_bytes` gives it.
pub uninterp spec fn ne_bytes_of(n: u32) -> Seq<u8>;

/// Relies on `u32::to_ne_bytes`.
#[verifier::external_body]
fn u32_to_ne_bytes(n: u32) -> (r: [u8; 4])
    ensures
        r@ == ne_bytes_of(n),
{
    n.to_ne_bytes()
}

/// Relies on `u32::from_ne_bytes`, the inverse of `u32::to_ne_bytes`.
#[verifier::external_body]
fn u32_from_ne_bytes(b: [u8; 4]) -> (r: u32)
    ensures
        ne_bytes_of(r) == b@,
        forall|n: u32| #[trigger] ne_bytes_of(n) == b@ ==> r == n,
{
    u32::from_ne_bytes(b)
}

/// A length that a frame may carry.
pub open spec fn valid_length(n: u32) -> bool {
    0 < n && n <= MAX_MESSAGE_LEN
}

/// `frame` is the length prefix of `payload` followed by `payload`.
pub open spec fn is_frame_of(frame: Seq<u8>, payload: Seq<u8>) -> bool {
    &&& payload.len() <= u32::MAX
    &&& frame.len() == 4 + payload.len()
    &&& frame.subrange(0, 4) == ne_bytes_of(payload.len() as u32)
    &&& frame.subrange(4, frame.len() as int) == payload
}

/// Writes the frame of `payload`: its length as four native-order bytes,
/// then the payload itself.
pub fn encode_frame(payload: &[u8]) -> (r: Vec<u8>)
    requires
        payload@.len() <= u32::MAX,
    ensures
        is_frame_of(r@, payload@),
{
    let header = u32_to_ne_bytes(payload.len() as u32);
    let mut out: Vec<u8> = Vec::new();
    let mut i: usize = 0;
    while i < 4
        invariant
            i <= 4,
            out@ == header@.subrange(0, i as int),
        decreases 4 - i,
    {
        out.push(header[i]);
        i += 1;
    }
    let mut j: usize = 0;
    while j < payload.len()
        invariant
            j <= payload@.len(),
            out@ == header@ + payload@.subrange(0, j as int),
        decreases payload@.len() - j,
    {
        out.push(payload[j]);
        j += 1;
        assert(out@ =~= header@ + payload@.subrange(0, j as int));
    }
    assert(out@.subrange(0, 4) =~= header@);
    assert(out@.subrange(4, out@.len() as int) =~= payload@);
    out
}

/// Validates a frame header: the announced length must be between 1 and
/// 100 MiB.
pub fn frame_length(header: [u8; 4]) -> (r: Result<usize, KayaError>)
    ensures
        forall|n: u32|
            #[trigger] ne_bytes_of(n) == header@ ==> if valid_length(n) {
                r == Ok::<usize, KayaError>(n as usize)
            } else {
                r == Err::<usize, KayaError>(KayaError::Config(ConfigIssue::InvalidMessageLength(n)))
            },
{
    let n = u32_from_ne_bytes(header);
    if n == 0 || n > MAX_MESSAGE_LEN {
        Err(KayaError::Config(ConfigIssue::InvalidMessageLength(n)))
    } else {
        Ok(n as usize)
    }
}

/// Reads one frame from the front of `buf`.
///
/// An empty buffer is the clean end of the stream (`Ok(None)`); a buffer
/// that ends inside the header or the body is `UnexpectedEof`; a length of
/// zero or over 100 MiB is rejected. Otherwise the payload is returned with
/// the number of bytes the frame took.
pub fn decode_frame(buf: &[u8]) -> (r: Result<Option<(Vec<u8>, usize)>, KayaError>)
    ensures
        buf@.len() == 0 <==> r == Ok::<Option<(Vec<u8>, usize)>, KayaError>(None),
        0 < buf@.len() < 4 ==> r == Err::<Option<(Vec<u8>, usize)>, KayaError>(
            KayaError::UnexpectedEof,
        ),
        buf@.len() >= 4 ==> forall|n: u32|
            #[trigger] ne_bytes_of(n) == buf@.subrange(0, 4) ==> {
                if !valid_length(n) {
                    r == Err::<Option<(Vec<u8>, usize)>, KayaError>(
                        KayaError::Config(ConfigIssue::InvalidMessageLength(n)),
                    )
                } else if buf@.len() < 4 + n {
                    r == Err::<Option<(Vec<u8>, usize)>, KayaError>(KayaError::UnexpectedEof)
                } else {
                    r matches Ok(Some((p, used))) && used == 4 + n && p@ == buf@.subrange(
                        4,
                        4 + n,
                    )
                }
            },
        forall|f: Seq<u8>, p: Seq<u8>|
            #[trigger] is_frame_of(f, p) && valid_length(p.len() as u32) && f.len() <= buf@.len()
                && buf@.subrange(0, f.len() as int) == f ==> (r matches Ok(Some((q, used))) && q@
                == p && used == f.len()),
{
    if buf.len() == 0 {
        return Ok(None);
    }
    if buf.len() < 4 {
        return Err(KayaError::UnexpectedEof);
    }
    let header: [u8; 4] = [buf[0], buf[1], buf[2], buf[3]];
    assert(header@ =~= buf@.subrange(0, 4));
    let len = match frame_length(header) {
        Ok(n) => n,
        Err(e) => {
            proof {
                assert forall|f: Seq<u8>, p: Seq<u8>|
                    #[trigger] is_frame_of(f, p) && valid_length(p.len() as u32) && f.len()
                        <= buf@.len() && buf@.subrange(0, f.len() as int) == f implies false by {
                    assert(f.subrange(0, 4) =~= buf@.subrange(0, 4));
                    assert(ne_bytes_of(p.len() as u32) == header@);
                }
            }
            return Err(e);
        },
    };
    if buf.len() - 4 < len {
        proof {
            assert forall|f: Seq<u8>, p: Seq<u8>|
                #[trigger] is_frame_of(f, p) && valid_length(p.len() as u32) && f.len()
                    <= buf@.len() && buf@.subrange(0, f.len() as int) == f implies false by {
                assert(f.subrange(0, 4) =~= buf@.subrange(0, 4));
                assert(ne_bytes_of(p.len() as u32) == header@);
            }
        }
        return Err(KayaError::UnexpectedEof);
    }
    let body = slice_subrange(buf, 4, 4 + len);
    let payload = slice_to_vec(body);
    proof {
        assert forall|f: Seq<u8>, p: Seq<u8>|
            #[trigger] is_frame_of(f, p) && valid_length(p.len() as u32) && f.len() <= buf@.len()
                && buf@.subrange(0, f.len() as int) == f implies payload@ == p && 4 + len
                == f.len() by {
            assert(f.subrange(0, 4) =~= buf@.subrange(0, 4));
            assert(ne_bytes_of(p.len() as u32) == header@);
            assert(f.subrange(4, f.len() as int) =~= buf@.subrange(4, 4 + len));
        }
    }
    Ok(Some((payload, 4 + len)))
}

} // verus!
