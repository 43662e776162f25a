//! The decompression engine: the bit-by-bit decode loop and the public
//! entry point that reads a container header and dispatches on its magic.

use vstd::prelude::*;

use crate::bits::{get_bit, le16, px_read_u16, px_read_u32, px_read_u8};
use crate::error::PXError;
use crate::flags::{nybble_pair, pair_bytes, ControlFlags};
use crate::model::{
    cap, decode_bits, decode_cmd, decode_next, lemma_lz_prefix, lemma_magic_eq, lz_extend,
    px_decompress_spec, px_dlen, px_hlen, px_raw_decode, DecodeFail,
};

verus! {

/// Run the decode loop over the payload that starts at `header_lenght`,
/// against the given control-flag table and declared decompressed length,
/// then check the container-length field against the bytes consumed.
#[verifier::rlimit(100)]
fn decompress_px_raw(
    data: &[u8],
    control_flags: &ControlFlags,
    decompressed_lenght: u32,
    container_lenght: u16,
    header_lenght: usize,
) -> (r: Result<Vec<u8>, PXError>)
    requires
        header_lenght <= data@.len(),
    ensures
        (match r {
            Ok(v) => px_raw_decode(
                data@,
                control_flags@,
                decompressed_lenght as int,
                header_lenght as int,
            ) == Ok::<(Seq<u8>, int), DecodeFail>((v@, container_lenght as int)),
            Err(PXError::IOError) => px_raw_decode(
                data@,
                control_flags@,
                decompressed_lenght as int,
                header_lenght as int,
            ) == Err::<(Seq<u8>, int), DecodeFail>(DecodeFail::Truncated),
            Err(PXError::InvalidDecompressedLength) => (match px_raw_decode(
                data@,
                control_flags@,
                decompressed_lenght as int,
                header_lenght as int,
            ) {
                Ok((out, p)) => p != container_lenght as int,
                Err(e) => e == DecodeFail::Mismatch,
            }),
            _ => false,
        }),
{
    let ghost target = px_raw_decode(
        data@,
        control_flags@,
        decompressed_lenght as int,
        header_lenght as int,
    );
    let mut result: Vec<u8> = Vec::new();
    let mut pos: usize = header_lenght;
    let dlen_us: usize = decompressed_lenght as usize;
    loop
        invariant
            header_lenght <= pos <= data@.len(),
            result@.len() <= dlen_us,
            dlen_us == decompressed_lenght,
            decode_cmd(data@, control_flags@, dlen_us as int, pos as int, result@) == target,
            target == px_raw_decode(
                data@,
                control_flags@,
                decompressed_lenght as int,
                header_lenght as int,
            ),
        decreases data@.len() - pos,
    {
        match decode_command(data, control_flags, dlen_us, &mut pos, &mut result) {
            Ok(true) => {
                if container_lenght as usize != pos {
                    return Err(PXError::InvalidDecompressedLength);
                }
                return Ok(result);
            },
            Ok(false) => {},
            Err(e) => {
                return Err(e);
            },
        }
    }
}

/// Read one command byte at `*pos` and process its 8 bits in order, stopping
/// early once the output reaches `dlen_us`. `Ok(true)` means the decode is
/// finished (the output reached the declared length), `Ok(false)` that the
/// next command byte follows.
#[verifier::rlimit(100)]
fn decode_command(
    data: &[u8],
    control_flags: &ControlFlags,
    dlen_us: usize,
    pos: &mut usize,
    result: &mut Vec<u8>,
) -> (r: Result<bool, PXError>)
    requires
        *old(pos) <= data@.len(),
        old(result)@.len() <= dlen_us,
    ensures
        (match r {
            Ok(true) => {
                &&& *old(pos) < *final(pos) <= data@.len()
                &&& decode_cmd(
                    data@,
                    control_flags@,
                    dlen_us as int,
                    *old(pos) as int,
                    old(result)@,
                ) == Ok::<(Seq<u8>, int), DecodeFail>((final(result)@, *final(pos) as int))
            },
            Ok(false) => {
                &&& *old(pos) < *final(pos) <= data@.len()
                &&& final(result)@.len() <= dlen_us
                &&& decode_cmd(
                    data@,
                    control_flags@,
                    dlen_us as int,
                    *old(pos) as int,
                    old(result)@,
                ) == decode_cmd(
                    data@,
                    control_flags@,
                    dlen_us as int,
                    *final(pos) as int,
                    final(result)@,
                )
            },
            Err(PXError::IOError) => decode_cmd(
                data@,
                control_flags@,
                dlen_us as int,
                *old(pos) as int,
                old(result)@,
            ) == Err::<(Seq<u8>, int), DecodeFail>(DecodeFail::Truncated),
            Err(PXError::InvalidDecompressedLength) => decode_cmd(
                data@,
                control_flags@,
                dlen_us as int,
                *old(pos) as int,
                old(result)@,
            ) == Err::<(Seq<u8>, int), DecodeFail>(DecodeFail::Mismatch),
            _ => false,
        }),
{
    let ghost g0_pos: int = *pos as int;
    let ghost g0_out: Seq<u8> = result@;
    let byte_info = match px_read_u8(data, pos) {
        Ok(b) => b,
        Err(e) => {
            return Err(e);
        },
    };
    let mut bit_num: usize = 0;
    while bit_num < 8
        invariant
            bit_num <= 8,
            *pos <= data@.len(),
            g0_pos < *pos as int,
            g0_pos == *old(pos) as int,
            g0_out == old(result)@,
            result@.len() <= dlen_us,
            decode_cmd(data@, control_flags@, dlen_us as int, g0_pos, g0_out) == decode_bits(
                data@,
                control_flags@,
                dlen_us as int,
                *pos as int,
                result@,
                byte_info,
                bit_num as int,
            ),
        decreases 8 - bit_num,
    {
        let ghost g_pos: int = *pos as int;
        let ghost g_out: Seq<u8> = result@;
        let ghost g_bit: int = bit_num as int;
        match decode_one_bit(data, control_flags, dlen_us, pos, result, byte_info, bit_num) {
            Ok(()) => {},
            Err(e) => {
                return Err(e);
            },
        }
        bit_num = bit_num + 1;
        proof {
            assert(decode_bits(
                data@,
                control_flags@,
                dlen_us as int,
                g_pos,
                g_out,
                byte_info,
                g_bit,
            ) == decode_next(
                data@,
                control_flags@,
                dlen_us as int,
                *pos as int,
                result@,
                byte_info,
                g_bit,
            ));
        }
        if result.len() >= dlen_us {
            return Ok(true);
        }
    }
    Ok(false)
}

/// Process one bit of the command byte `byte_info`: read a literal, a
/// nybble-pattern mode byte or a back-reference, appending to `result`
/// (capped at `dlen_us`) and advancing `*pos`. On success the decode
/// continuation before the step equals the one after it.
fn decode_one_bit(
    data: &[u8],
    control_flags: &ControlFlags,
    dlen_us: usize,
    pos: &mut usize,
    result: &mut Vec<u8>,
    byte_info: u8,
    bit_num: usize,
) -> (r: Result<(), PXError>)
    requires
        bit_num < 8,
        *old(pos) <= data@.len(),
        old(result)@.len() <= dlen_us,
    ensures
        (match r {
            Ok(()) => {
                &&& *old(pos) < *final(pos) <= data@.len()
                &&& final(result)@.len() <= dlen_us
                &&& decode_bits(
                    data@,
                    control_flags@,
                    dlen_us as int,
                    *old(pos) as int,
                    old(result)@,
                    byte_info,
                    bit_num as int,
                ) == decode_next(
                    data@,
                    control_flags@,
                    dlen_us as int,
                    *final(pos) as int,
                    final(result)@,
                    byte_info,
                    bit_num as int,
                )
            },
            Err(PXError::IOError) => decode_bits(
                data@,
                control_flags@,
                dlen_us as int,
                *old(pos) as int,
                old(result)@,
                byte_info,
                bit_num as int,
            ) == Err::<(Seq<u8>, int), DecodeFail>(DecodeFail::Truncated),
            Err(PXError::InvalidDecompressedLength) => decode_bits(
                data@,
                control_flags@,
                dlen_us as int,
                *old(pos) as int,
                old(result)@,
                byte_info,
                bit_num as int,
            ) == Err::<(Seq<u8>, int), DecodeFail>(DecodeFail::Mismatch),
            _ => false,
        }),
{
    let ghost g_out: Seq<u8> = result@;
    let this_bit = get_bit(byte_info, bit_num).unwrap();
    let this_byte = match px_read_u8(data, pos) {
        Ok(b) => b,
        Err(e) => {
            return Err(e);
        },
    };
    if this_bit {
        if result.len() < dlen_us {
            result.push(this_byte);
        }
        proof {
            assert(result@ =~= cap(g_out.push(this_byte), dlen_us as int));
        }
    } else {
        let nb_high: u8 = this_byte >> 4u8;
        let nb_low: u8 = this_byte << 4u8 >> 4u8;
        proof {
            assert(nb_low == (this_byte & 0x0fu8) && nb_low < 16) by (bit_vector)
                requires
                    nb_low == this_byte << 4u8 >> 4u8,
            ;
        }
        match control_flags.find(nb_high) {
            Some(ctrlflagindex) => {
                let byte_to_add = nybble_pair(ctrlflagindex, nb_low);
                if result.len() < dlen_us {
                    result.push(byte_to_add.0);
                }
                if result.len() < dlen_us {
                    result.push(byte_to_add.1);
                }
                proof {
                    let pair = pair_bytes(ctrlflagindex as int, nb_low);
                    assert(pair == seq![byte_to_add.0, byte_to_add.1]);
                    assert(result@ =~= cap(g_out + pair, dlen_us as int));
                }
            },
            None => {
                let new_byte = match px_read_u8(data, pos) {
                    Ok(b) => b,
                    Err(e) => {
                        return Err(e);
                    },
                };
                let delta: usize = 4096 - ((nb_low as usize) * 256 + (new_byte as usize));
                if result.len() < delta {
                    return Err(PXError::InvalidDecompressedLength);
                }
                let src0: usize = result.len() - delta;
                let lenght: usize = (nb_high as usize) + 3;
                let ghost len0: int = result@.len() as int;
                let ghost full = lz_extend(g_out, src0 as int, lenght as int);
                let mut c: usize = src0;
                let mut k: usize = 0;
                while k < lenght && result.len() < dlen_us
                    invariant
                        k <= lenght,
                        c == src0 + k,
                        src0 < len0,
                        len0 == g_out.len(),
                        result@.len() == len0 + k,
                        result@.len() <= dlen_us,
                        lz_extend(result@, c as int, (lenght - k) as int) == full,
                    decreases lenght - k,
                {
                    let b = result[c];
                    result.push(b);
                    c = c + 1;
                    k = k + 1;
                }
                proof {
                    if k == lenght {
                        assert(result@ == full);
                        assert(result@ =~= cap(full, dlen_us as int));
                    } else {
                        lemma_lz_prefix(result@, c as int, (lenght - k) as int);
                        assert(full.len() == result@.len() + (lenght - k));
                        assert(result@.len() == dlen_us);
                        assert(cap(full, dlen_us as int) == full.take(dlen_us as int));
                        assert(result@ =~= cap(full, dlen_us as int));
                    }
                }
            },
        }
    }
    Ok(())
}

/// Decompress a `PKDPX` or `AT4PX` container held in `data`, choosing the
/// variant from the magic, and return the reconstructed bytes.
pub fn decompress_px(data: &[u8]) -> (r: Result<Vec<u8>, PXError>)
    ensures
        (match r {
            Ok(v) => px_decompress_spec(data@) == Ok::<Seq<u8>, DecodeFail>(v@),
            Err(PXError::IOError) => px_decompress_spec(data@) == Err::<Seq<u8>, DecodeFail>(
                DecodeFail::Truncated,
            ),
            Err(PXError::InvalidHeaderMagic(m)) => px_decompress_spec(data@) == Err::<
                Seq<u8>,
                DecodeFail,
            >(DecodeFail::BadMagic) && m@ == data@.take(5),
            Err(PXError::InvalidDecompressedLength) => px_decompress_spec(data@) == Err::<
                Seq<u8>,
                DecodeFail,
            >(DecodeFail::Mismatch),
            Err(PXError::FileToCompressTooLong(_)) => false,
        }),
{
    if data.len() < 5 {
        return Err(PXError::IOError);
    }
    let header_5: [u8; 5] = [data[0], data[1], data[2], data[3], data[4]];
    let mut pos: usize = 5;
    let container_lenght = match px_read_u16(data, &mut pos) {
        Ok(v) => v,
        Err(e) => {
            return Err(e);
        },
    };
    if data.len() < 16 {
        return Err(PXError::IOError);
    }
    let control_flags = ControlFlags::new(
        [
            data[7],
            data[8],
            data[9],
            data[10],
            data[11],
            data[12],
            data[13],
            data[14],
            data[15],
        ],
    );
    proof {
        lemma_magic_eq(data@);
        assert(control_flags@ =~= data@.subrange(7, 16));
    }
    let is_a = data[0] == 0x50 && data[1] == 0x4b && data[2] == 0x44 && data[3] == 0x50 && data[4]
        == 0x58;
    let is_b = data[0] == 0x41 && data[1] == 0x54 && data[2] == 0x34 && data[3] == 0x50 && data[4]
        == 0x58;
    if is_a {
        pos = 16;
        let decompressed_lenght = match px_read_u32(data, &mut pos) {
            Ok(v) => v,
            Err(e) => {
                return Err(e);
            },
        };
        let r = decompress_px_raw(data, &control_flags, decompressed_lenght, container_lenght, 20);
        proof {
            assert(px_hlen(data@) == 20);
            assert(px_dlen(data@) == decompressed_lenght as int);
            assert(le16(data@[5], data@[6]) == container_lenght as int);
        }
        r
    } else if is_b {
        pos = 16;
        let decompressed_lenght_16 = match px_read_u16(data, &mut pos) {
            Ok(v) => v,
            Err(e) => {
                return Err(e);
            },
        };
        let decompressed_lenght = decompressed_lenght_16 as u32;
        let r = decompress_px_raw(data, &control_flags, decompressed_lenght, container_lenght, 18);
        proof {
            assert(px_hlen(data@) == 18);
            assert(px_dlen(data@) == decompressed_lenght as int);
            assert(le16(data@[5], data@[6]) == container_lenght as int);
        }
        r
    } else {
        proof {
            assert(header_5@ =~= data@.take(5));
        }
        Err(PXError::InvalidHeaderMagic(header_5))
    }
}

} // verus!
