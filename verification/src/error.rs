//! The closed set of failures the codec can report.

use vstd::prelude::*;

verus! {

/// Everything that can go wrong while sniffing, decoding or encoding a PX
/// container.
///
/// `IOError` stands for a read past the end of the input buffer (the
/// equivalent of an unexpected end of stream). `InvalidHeaderMagic` carries
/// the five bytes that matched neither known tag. `InvalidDecompressedLength`
/// covers both a back-reference that points before the start of the output
/// and a container-length field that disagrees with the bytes actually
/// consumed. `FileToCompressTooLong` carries the unpadded container length
/// that overflowed the 16-bit length field.
#[derive(Debug)]
pub enum PXError {
    IOError,
    InvalidHeaderMagic([u8; 5]),
    InvalidDecompressedLength,
    FileToCompressTooLong(usize),
}

} // verus!
