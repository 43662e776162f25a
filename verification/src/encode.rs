//! The naive encoder: wrap raw bytes into a valid Variant-A container whose
//! bitstream marks every byte as a literal.

use vstd::prelude::*;

use crate::error::PXError;
use crate::model::{
    lemma_naive_body_snoc, le32_bytes, magic_pkdpx, naive_body, naive_compress_spec, padded_len,
    pre_pad_len,
};

verus! {

/// Compress `data` into a `PKDPX` container without actually compressing:
/// every byte is emitted as a literal under all-ones command bytes, the
/// result is padded with 0xAA to a multiple of 16, and the unpadded length
/// is patched into the container-length field. Fails with `IOError` on an
/// empty input (the first literal read finds no byte) and with
/// `FileToCompressTooLong` when the unpadded length overflows the 16-bit
/// length field.
#[verifier::rlimit(60)]
pub fn naive_compression(data: &[u8]) -> (r: Result<Vec<u8>, PXError>)
    ensures
        data@.len() == 0 ==> r == Err::<Vec<u8>, PXError>(PXError::IOError),
        data@.len() > 0 && pre_pad_len(data@) <= 65535 ==> (r matches Ok(v) && v@
            == naive_compress_spec(data@)),
        data@.len() > 0 && pre_pad_len(data@) > 65535 ==> r == Err::<Vec<u8>, PXError>(
            PXError::FileToCompressTooLong(pre_pad_len(data@) as usize),
        ),
{
    let n: usize = data.len();
    let mut result: Vec<u8> = Vec::new();
    // magic
    result.push(0x50);
    result.push(0x4b);
    result.push(0x44);
    result.push(0x50);
    result.push(0x58);
    // container length, patched once it is known
    result.push(0);
    result.push(0);
    // control flags: all zero, the naive bitstream never needs a table hit
    let mut z: usize = 0;
    while z < 9
        invariant
            z <= 9,
            result@.len() == 7 + z,
            result@ == magic_pkdpx() + seq![0u8, 0u8] + Seq::new(z as nat, |i: int| 0u8),
        decreases 9 - z,
    {
        result.push(0);
        z = z + 1;
    }
    // decompressed length
    result.push((n % 256) as u8);
    result.push(((n / 256) % 256) as u8);
    result.push(((n / 65536) % 256) as u8);
    result.push(((n / 16777216) % 256) as u8);
    let ghost header0: Seq<u8> = magic_pkdpx() + seq![0u8, 0u8] + Seq::new(9, |i: int| 0u8)
        + le32_bytes(n as int);
    proof {
        assert(result@ =~= header0 + naive_body(data@.take(0)));
    }
    if n == 0 {
        // the first literal read would find no byte
        return Err(PXError::IOError);
    }
    let mut i: usize = 0;
    while i < n
        invariant
            i <= n,
            n == data@.len(),
            result@ == header0 + naive_body(data@.take(i as int)),
            header0.len() == 20,
        decreases n - i,
    {
        proof {
            lemma_naive_body_snoc(data@, i as int);
        }
        if i % 8 == 0 {
            result.push(0xff);
        }
        result.push(data[i]);
        proof {
            assert(result@ =~= header0 + naive_body(data@.take(i + 1)));
        }
        i = i + 1;
    }
    proof {
        assert(data@.take(n as int) =~= data@);
    }
    let container_lenght: usize = result.len();
    let ghost unpadded0: Seq<u8> = header0 + naive_body(data@);
    while result.len() % 16 != 0
        invariant
            container_lenght as int == pre_pad_len(data@),
            container_lenght <= result@.len() <= padded_len(container_lenght as int),
            padded_len(container_lenght as int) % 16 == 0,
            padded_len(container_lenght as int) < container_lenght + 16,
            result@ == unpadded0 + Seq::new(
                (result@.len() - container_lenght) as nat,
                |i: int| 0xaau8,
            ),
        decreases padded_len(container_lenght as int) - result@.len(),
    {
        proof {
            assert(result@.len() < padded_len(container_lenght as int));
        }
        result.push(0xaa);
        proof {
            assert(result@ =~= unpadded0 + Seq::new(
                (result@.len() - container_lenght) as nat,
                |i: int| 0xaau8,
            ));
        }
    }
    proof {
        assert(result@.len() == padded_len(container_lenght as int));
    }
    if container_lenght > 65535 {
        return Err(PXError::FileToCompressTooLong(container_lenght));
    }
    let lo: u8 = (container_lenght % 256) as u8;
    let hi: u8 = ((container_lenght / 256) % 256) as u8;
    result[5] = lo;
    result[6] = hi;
    proof {
        assert(result@ =~= naive_compress_spec(data@));
    }
    Ok(result)
}

} // verus!
