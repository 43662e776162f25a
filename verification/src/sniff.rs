//! Format sniffing: decide from the first five bytes whether a buffer is,
//! at least nominally, a PX container.

use vstd::prelude::*;

use crate::error::PXError;
use crate::model::{lemma_magic_eq, magic_at4px, magic_pkdpx};

verus! {

/// What sniffing a buffer yields: `false` for fewer than 4 bytes, an I/O
/// failure when the 5-byte magic read runs past the end (exactly 4 bytes),
/// and otherwise whether the magic equals one of the two known tags.
pub open spec fn is_px_spec(d: Seq<u8>) -> Result<bool, PXError> {
    if d.len() < 4 {
        Ok(false)
    } else if d.len() < 5 {
        Err(PXError::IOError)
    } else {
        Ok(d.take(5) == magic_pkdpx() || d.take(5) == magic_at4px())
    }
}

/// Whether `data` looks like a PX container: its first five bytes equal one
/// of the two magic tags. Nothing beyond the magic is validated.
pub fn is_px(data: &[u8]) -> (r: Result<bool, PXError>)
    ensures
        r == is_px_spec(data@),
{
    if data.len() < 4 {
        return Ok(false);
    }
    if data.len() < 5 {
        return Err(PXError::IOError);
    }
    proof {
        lemma_magic_eq(data@);
    }
    if data[0] == 0x50 && data[1] == 0x4b && data[2] == 0x44 && data[3] == 0x50 && data[4] == 0x58 {
        return Ok(true);
    }
    if data[0] == 0x41 && data[1] == 0x54 && data[2] == 0x34 && data[3] == 0x50 && data[4] == 0x58 {
        return Ok(true);
    }
    Ok(false)
}

} // verus!
