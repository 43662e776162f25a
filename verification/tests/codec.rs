use px_codec::bits::{get_bit, px_read_u16, px_read_u32, px_read_u8};
use px_codec::flags::{nybble_pair, ControlFlags};
use px_codec::{decompress_px, is_px, naive_compression, PXError};

/// A Variant-A container with the given control-flag table, declared
/// decompressed length and payload bitstream, its length field consistent.
fn container_a(flags: [u8; 9], dlen: u32, payload: &[u8]) -> Vec<u8> {
    let mut c: Vec<u8> = vec![0x50, 0x4b, 0x44, 0x50, 0x58];
    let clen = 20 + payload.len();
    c.push((clen % 256) as u8);
    c.push(((clen / 256) % 256) as u8);
    c.extend_from_slice(&flags);
    c.extend_from_slice(&dlen.to_le_bytes());
    c.extend_from_slice(payload);
    c
}

#[test]
fn round_trip_small() {
    let data = vec![1u8, 2, 3];
    let compressed = naive_compression(&data).unwrap();
    let decompressed = decompress_px(&compressed).unwrap();
    assert_eq!(decompressed, data);
}

#[test]
fn round_trip_crosses_command_boundary() {
    let data: Vec<u8> = (0u8..21).collect();
    let compressed = naive_compression(&data).unwrap();
    let decompressed = decompress_px(&compressed).unwrap();
    assert_eq!(decompressed, data);
}

#[test]
fn round_trip_exact_eight() {
    let data: Vec<u8> = vec![9u8; 8];
    let compressed = naive_compression(&data).unwrap();
    let decompressed = decompress_px(&compressed).unwrap();
    assert_eq!(decompressed, data);
}

#[test]
fn compress_empty_fails_io() {
    let data: Vec<u8> = Vec::new();
    assert!(matches!(naive_compression(&data), Err(PXError::IOError)));
}

#[test]
fn compress_too_long() {
    let data = vec![0u8; 60000];
    // 20 header bytes + 60000 literals + 7500 command bytes
    match naive_compression(&data) {
        Err(PXError::FileToCompressTooLong(l)) => assert_eq!(l, 67520),
        other => panic!("expected FileToCompressTooLong, got {:?}", other),
    }
}

#[test]
fn encoder_padding_one_byte() {
    let compressed = naive_compression(&[0x42u8]).unwrap();
    // 20-byte header + 1 command byte + 1 literal, padded to a multiple of 16
    assert_eq!(compressed.len(), 32);
    assert_eq!(compressed.len() % 16, 0);
    assert_eq!(&compressed[0..5], b"PKDPX");
    assert_eq!(compressed[5], 22);
    assert_eq!(compressed[6], 0);
    assert_eq!(&compressed[7..16], &[0u8; 9]);
    assert_eq!(&compressed[16..20], &1u32.to_le_bytes());
    assert_eq!(compressed[20], 0xff);
    assert_eq!(compressed[21], 0x42);
    for k in 22..32 {
        assert_eq!(compressed[k], 0xaa);
    }
}

#[test]
fn sniff_compressed_output() {
    let compressed = naive_compression(&[1u8, 2, 3]).unwrap();
    assert!(matches!(is_px(&compressed), Ok(true)));
}

#[test]
fn sniff_magic_prefix_only() {
    let mut a = b"PKDPX".to_vec();
    a.extend_from_slice(&[0xde, 0xad, 0xbe, 0xef]);
    assert!(matches!(is_px(&a), Ok(true)));
    let mut b = b"AT4PX".to_vec();
    b.extend_from_slice(&[0x00]);
    assert!(matches!(is_px(&b), Ok(true)));
}

#[test]
fn sniff_short_buffers() {
    assert!(matches!(is_px(&[]), Ok(false)));
    assert!(matches!(is_px(&[0x50, 0x4b, 0x44]), Ok(false)));
    // at exactly four bytes the five-byte magic read runs past the end
    assert!(matches!(is_px(&[0x50, 0x4b, 0x44, 0x50]), Err(PXError::IOError)));
}

#[test]
fn sniff_unrelated_magic() {
    assert!(matches!(is_px(b"HELLOWORLD"), Ok(false)));
}

#[test]
fn bad_magic_carries_bytes() {
    let mut c = container_a([0; 9], 1, &[0xff, 0x07]);
    c[0] = b'X';
    c[1] = b'Y';
    c[2] = b'Z';
    c[3] = b'A';
    c[4] = b'B';
    match decompress_px(&c) {
        Err(PXError::InvalidHeaderMagic(m)) => assert_eq!(&m, b"XYZAB"),
        other => panic!("expected InvalidHeaderMagic, got {:?}", other),
    }
}

#[test]
fn length_field_mismatch() {
    // decodes to the right byte count, but the container-length field lies
    let mut c = container_a([0; 9], 1, &[0xff, 0x07]);
    c[5] = c[5] + 1;
    assert!(matches!(decompress_px(&c), Err(PXError::InvalidDecompressedLength)));
    // untouched, the same container decodes fine
    let c2 = container_a([0; 9], 1, &[0xff, 0x07]);
    assert_eq!(decompress_px(&c2).unwrap(), vec![0x07]);
}

#[test]
fn truncated_container_fails_io() {
    let c = container_a([0; 9], 4, &[0xff, 0x07]);
    // the payload ends before the declared four bytes are decoded
    assert!(matches!(decompress_px(&c), Err(PXError::IOError)));
    // cut inside the header
    assert!(matches!(decompress_px(&c[0..10]), Err(PXError::IOError)));
}

#[test]
fn backref_overlapping_window() {
    // command byte 0x00: all bits are encoded modes. The first mode byte
    // 0xAB hits table index 0 (entry 0xA) and appends the pair 0xBB 0xBB.
    // The second mode byte 0x0F finds no table entry, so with its extra
    // byte 0xFF it is a back-reference: offset -1, length 3 — a window of
    // one byte, re-reading bytes the copy itself just wrote.
    let c = container_a([0xa; 9], 5, &[0x00, 0xab, 0x0f, 0xff]);
    assert_eq!(decompress_px(&c).unwrap(), vec![0xbb; 5]);
}

#[test]
fn backref_before_start_fails() {
    // same stream, but the back-reference arrives while the output is
    // empty: its source index falls before the start of the output
    let c = container_a([0xa; 9], 3, &[0x00, 0x0f, 0xff]);
    assert!(matches!(decompress_px(&c), Err(PXError::InvalidDecompressedLength)));
}

#[test]
fn nybble_pattern_index0_decode() {
    // mode byte 0xA5: high nibble found at index 0, low nibble 5 doubles
    // into 0x55 0x55
    let c = container_a([0xa, 0xb, 0xc, 0xd, 0xe, 0xf, 1, 2, 3], 2, &[0x00, 0xa5]);
    assert_eq!(decompress_px(&c).unwrap(), vec![0x55, 0x55]);
}

#[test]
fn nybble_pattern_index1_decode() {
    // mode byte 0xB5: high nibble found at index 1: base 5+1=6, then the
    // first nibble steps back to 5 — bytes 0x56 0x66
    let c = container_a([0xa, 0xb, 0xc, 0xd, 0xe, 0xf, 1, 2, 3], 2, &[0x00, 0xb5]);
    assert_eq!(decompress_px(&c).unwrap(), vec![0x56, 0x66]);
}

#[test]
fn nybble_pair_exact_arithmetic() {
    assert_eq!(nybble_pair(0, 0x5), (0x55, 0x55));
    assert_eq!(nybble_pair(1, 0x5), (0x56, 0x66));
    assert_eq!(nybble_pair(5, 0x5), (0x54, 0x44));
    assert_eq!(nybble_pair(8, 0x5), (0x55, 0x56));
    // index 5 with low nibble 0 wraps below zero, as the byte registers do
    assert_eq!(nybble_pair(5, 0x0), (0xff, 0xef));
}

#[test]
fn at4px_variant_decodes() {
    let mut c: Vec<u8> = b"AT4PX".to_vec();
    // container length 21 = 18-byte header + 3 payload bytes
    c.push(21);
    c.push(0);
    c.extend_from_slice(&[0u8; 9]);
    // 16-bit decompressed length
    c.push(2);
    c.push(0);
    c.extend_from_slice(&[0xff, 0x11, 0x22]);
    assert_eq!(decompress_px(&c).unwrap(), vec![0x11, 0x22]);
}

#[test]
fn decode_stops_mid_command_byte() {
    // dlen 1: only the first of the eight literal slots is consumed, and
    // the container length counts only the bytes actually read
    let c = container_a([0; 9], 1, &[0xff, 0x99]);
    assert_eq!(decompress_px(&c).unwrap(), vec![0x99]);
}

#[test]
fn control_flags_first_match_wins() {
    let f = ControlFlags::new([7, 7, 3, 0, 0, 0, 0, 0, 0]);
    assert_eq!(f.find(7), Some(0));
    assert_eq!(f.find(3), Some(2));
    assert_eq!(f.find(0), Some(3));
    assert_eq!(f.find(9), None);
}

#[test]
fn get_bit_msb_first() {
    assert_eq!(get_bit(0x80, 0), Some(true));
    assert_eq!(get_bit(0x80, 1), Some(false));
    assert_eq!(get_bit(0x01, 7), Some(true));
    assert_eq!(get_bit(0x01, 6), Some(false));
    assert_eq!(get_bit(0xff, 8), None);
}

#[test]
fn read_little_endian_integers() {
    let data = [0x34u8, 0x12, 0x78, 0x56, 0xaa, 0xbb];
    let mut pos: usize = 0;
    assert_eq!(px_read_u16(&data, &mut pos).unwrap(), 0x1234);
    assert_eq!(pos, 2);
    pos = 0;
    assert_eq!(px_read_u32(&data, &mut pos).unwrap(), 0x5678_1234);
    assert_eq!(pos, 4);
    assert_eq!(px_read_u8(&data, &mut pos).unwrap(), 0xaa);
    assert_eq!(pos, 5);
    let mut end: usize = 5;
    assert!(matches!(px_read_u16(&data, &mut end), Err(PXError::IOError)));
    assert_eq!(end, 5);
}
