//! Bit and byte primitives: single-bit extraction and fixed-width
//! little-endian integer reads from a positioned byte buffer.

use vstd::prelude::*;

use crate::error::PXError;

verus! {

/// Bit `id` of `byte`, where bit 0 is the most significant bit.
pub open spec fn bit_of(byte: u8, id: u8) -> bool
    recommends
        id < 8,
{
    (byte >> ((7 - id) as u8)) & 1u8 == 1u8
}

/// The value of two bytes read as a little-endian 16-bit integer.
pub open spec fn le16(b0: u8, b1: u8) -> int {
    b0 + 256 * b1
}

/// The value of four bytes read as a little-endian 32-bit integer.
pub open spec fn le32(b0: u8, b1: u8, b2: u8, b3: u8) -> int {
    b0 + 256 * b1 + 65536 * b2 + 16777216 * b3
}

/// Extract bit `id` (0 = most significant) from `byte`; `None` when `id` is
/// not a bit index of a byte.
pub fn get_bit(byte: u8, id: usize) -> (r: Option<bool>)
    ensures
        id < 8 ==> r == Some(bit_of(byte, id as u8)),
        id >= 8 ==> r is None,
{
    if id < 8 {
        let sh: u8 = (7 - id) as u8;
        let b: bool = ((byte >> sh) << 7u8) >= 1;
        proof {
            assert(((byte >> sh) << 7u8) >= 1 <==> (byte >> sh) & 1u8 == 1u8) by (bit_vector);
        }
        Some(b)
    } else {
        None
    }
}

/// Read one byte at `*pos`, advancing `*pos` past it; `IOError` when the
/// buffer ends before it.
pub fn px_read_u8(data: &[u8], pos: &mut usize) -> (r: Result<u8, PXError>)
    ensures
        *old(pos) < data@.len() ==> {
            &&& *final(pos) == *old(pos) + 1
            &&& r == Ok::<u8, PXError>(data@[*old(pos) as int])
        },
        *old(pos) >= data@.len() ==> {
            &&& *final(pos) == *old(pos)
            &&& r == Err::<u8, PXError>(PXError::IOError)
        },
{
    if *pos < data.len() {
        let b = data[*pos];
        *pos = *pos + 1;
        Ok(b)
    } else {
        Err(PXError::IOError)
    }
}

/// Read a little-endian `u16` at `*pos`, advancing `*pos` past it; `IOError`
/// when the buffer ends before its two bytes.
pub fn px_read_u16(data: &[u8], pos: &mut usize) -> (r: Result<u16, PXError>)
    ensures
        *old(pos) + 2 <= data@.len() ==> {
            &&& *final(pos) == *old(pos) + 2
            &&& r matches Ok(v) && v == le16(data@[*old(pos) as int], data@[*old(pos) + 1])
        },
        *old(pos) + 2 > data@.len() ==> {
            &&& *final(pos) == *old(pos)
            &&& r == Err::<u16, PXError>(PXError::IOError)
        },
{
    if data.len() >= 2 && *pos <= data.len() - 2 {
        let b0 = data[*pos];
        let b1 = data[*pos + 1];
        *pos = *pos + 2;
        Ok((b0 as u16) + 256 * (b1 as u16))
    } else {
        Err(PXError::IOError)
    }
}

/// Read a little-endian `u32` at `*pos`, advancing `*pos` past it; `IOError`
/// when the buffer ends before its four bytes.
pub fn px_read_u32(data: &[u8], pos: &mut usize) -> (r: Result<u32, PXError>)
    ensures
        *old(pos) + 4 <= data@.len() ==> {
            &&& *final(pos) == *old(pos) + 4
            &&& r matches Ok(v) && v == le32(
                data@[*old(pos) as int],
                data@[*old(pos) + 1],
                data@[*old(pos) + 2],
                data@[*old(pos) + 3],
            )
        },
        *old(pos) + 4 > data@.len() ==> {
            &&& *final(pos) == *old(pos)
            &&& r == Err::<u32, PXError>(PXError::IOError)
        },
{
    if data.len() >= 4 && *pos <= data.len() - 4 {
        let b0 = data[*pos];
        let b1 = data[*pos + 1];
        let b2 = data[*pos + 2];
        let b3 = data[*pos + 3];
        *pos = *pos + 4;
        Ok((b0 as u32) + 256 * (b1 as u32) + 65536 * (b2 as u32) + 16777216 * (b3 as u32))
    } else {
        Err(PXError::IOError)
    }
}

} // verus!
