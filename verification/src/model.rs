//! The mathematical model of the PX formats: what a container's bytes decode
//! to, and what the naive encoder produces.

use vstd::prelude::*;

use crate::bits::{bit_of, le16};
use crate::flags::{find_first, pair_bytes};

verus! {

/// The five magic bytes of a Variant-A (`PKDPX`) container.
pub open spec fn magic_pkdpx() -> Seq<u8> {
    seq![0x50u8, 0x4bu8, 0x44u8, 0x50u8, 0x58u8]
}

/// The five magic bytes of a Variant-B (`AT4PX`) container.
pub open spec fn magic_at4px() -> Seq<u8> {
    seq![0x41u8, 0x54u8, 0x34u8, 0x50u8, 0x58u8]
}

/// How a decode can fail: the input ended before a needed byte
/// (`Truncated`), the magic matched neither tag (`BadMagic`), or the
/// container is inconsistent — a back-reference before the start of the
/// output, or a container-length field that disagrees with the bytes
/// consumed (`Mismatch`).
#[derive(Debug, PartialEq, Eq, Structural)]
pub enum DecodeFail {
    Truncated,
    BadMagic,
    Mismatch,
}

/// `out` truncated to the declared decompressed length: appending stops the
/// moment the output reaches it, even mid-pair or mid-copy-run.
pub open spec fn cap(out: Seq<u8>, dlen: int) -> Seq<u8> {
    if out.len() > dlen {
        out.take(dlen)
    } else {
        out
    }
}

/// `out` extended by `len` bytes copied one at a time from the growing
/// sequence itself, starting at index `src`: the classic LZ self-referential
/// copy, where a byte appended earlier in the same run can be read again.
pub open spec fn lz_extend(out: Seq<u8>, src: int, len: int) -> Seq<u8>
    decreases len,
{
    if len <= 0 {
        out
    } else {
        lz_extend(out.push(out[src]), src + 1, len - 1)
    }
}

/// An LZ copy only appends: what was decoded before the copy is a prefix of
/// the extended sequence, and the extension has exactly `len` new bytes.
pub proof fn lemma_lz_prefix(out: Seq<u8>, src: int, len: int)
    requires
        len >= 0,
    ensures
        lz_extend(out, src, len).len() == out.len() + len,
        lz_extend(out, src, len).take(out.len() as int) == out,
    decreases len,
{
    if len > 0 {
        let pushed = out.push(out[src]);
        lemma_lz_prefix(pushed, src + 1, len - 1);
        assert(lz_extend(pushed, src + 1, len - 1).take(out.len() as int) =~= lz_extend(
            pushed,
            src + 1,
            len - 1,
        ).take(pushed.len() as int).take(out.len() as int));
    } else {
        assert(out.take(out.len() as int) =~= out);
    }
}

/// The comparison of a buffer's first five bytes with the two magic tags,
/// spelled out byte by byte.
pub proof fn lemma_magic_eq(d: Seq<u8>)
    requires
        d.len() >= 5,
    ensures
        (d.take(5) == magic_pkdpx()) <==> (d[0] == 0x50u8 && d[1] == 0x4bu8 && d[2] == 0x44u8
            && d[3] == 0x50u8 && d[4] == 0x58u8),
        (d.take(5) == magic_at4px()) <==> (d[0] == 0x41u8 && d[1] == 0x54u8 && d[2] == 0x34u8
            && d[3] == 0x50u8 && d[4] == 0x58u8),
{
    if d[0] == 0x50u8 && d[1] == 0x4bu8 && d[2] == 0x44u8 && d[3] == 0x50u8 && d[4] == 0x58u8 {
        assert(d.take(5) =~= magic_pkdpx());
    }
    if d[0] == 0x41u8 && d[1] == 0x54u8 && d[2] == 0x34u8 && d[3] == 0x50u8 && d[4] == 0x58u8 {
        assert(d.take(5) =~= magic_at4px());
    }
    assert(magic_pkdpx()[0] == 0x50u8 && magic_pkdpx()[1] == 0x4bu8 && magic_pkdpx()[2] == 0x44u8
        && magic_pkdpx()[3] == 0x50u8 && magic_pkdpx()[4] == 0x58u8);
    assert(magic_at4px()[0] == 0x41u8 && magic_at4px()[1] == 0x54u8 && magic_at4px()[2] == 0x34u8
        && magic_at4px()[3] == 0x50u8 && magic_at4px()[4] == 0x58u8);
    assert(forall|k: int| 0 <= k < 5 ==> d.take(5)[k] == d[k]);
}

/// Decode from `pos`, expecting a command byte next. `flags` is the
/// control-flag table, `dlen` the declared decompressed length, `out` what
/// has been decoded so far. Returns the full output and the position just
/// past the last byte consumed.
pub open spec fn decode_cmd(
    data: Seq<u8>,
    flags: Seq<u8>,
    dlen: int,
    pos: int,
    out: Seq<u8>,
) -> Result<(Seq<u8>, int), DecodeFail>
    decreases data.len() - pos, 20int,
{
    if pos < 0 || pos >= data.len() {
        Err(DecodeFail::Truncated)
    } else {
        decode_bits(data, flags, dlen, pos + 1, out, data[pos], 0)
    }
}

/// Decode from `pos`, processing bit `bit` of the command byte `cmd`. A 1
/// bit reads one literal byte; a 0 bit reads a mode byte and either
/// synthesizes a nybble-pattern pair (high nibble found in the table) or
/// copies a back-reference (not found). All appends are capped at `dlen`.
pub open spec fn decode_bits(
    data: Seq<u8>,
    flags: Seq<u8>,
    dlen: int,
    pos: int,
    out: Seq<u8>,
    cmd: u8,
    bit: int,
) -> Result<(Seq<u8>, int), DecodeFail>
    decreases data.len() - pos, (if 0 <= bit < 8 { 38 - 2 * bit } else { 21int }),
{
    if !(0 <= bit < 8) {
        decode_cmd(data, flags, dlen, pos, out)
    } else if pos >= data.len() {
        Err(DecodeFail::Truncated)
    } else {
        let b = data[pos];
        if bit_of(cmd, bit as u8) {
            decode_next(data, flags, dlen, pos + 1, cap(out.push(b), dlen), cmd, bit)
        } else {
            let nb_high = b >> 4u8;
            let nb_low = b & 0x0fu8;
            match find_first(flags, nb_high) {
                Some(i) => decode_next(
                    data,
                    flags,
                    dlen,
                    pos + 1,
                    cap(out + pair_bytes(i, nb_low), dlen),
                    cmd,
                    bit,
                ),
                None => {
                    if pos + 1 >= data.len() {
                        Err(DecodeFail::Truncated)
                    } else {
                        let delta = 4096 - (nb_low * 256 + data[pos + 1]);
                        if out.len() < delta {
                            Err(DecodeFail::Mismatch)
                        } else {
                            decode_next(
                                data,
                                flags,
                                dlen,
                                pos + 2,
                                cap(lz_extend(out, out.len() - delta, nb_high + 3), dlen),
                                cmd,
                                bit,
                            )
                        }
                    }
                }
            }
        }
    }
}

/// After bit `bit` of `cmd` has been processed: stop with the output and
/// position once the output has reached the declared length, otherwise go on
/// to the next bit.
pub open spec fn decode_next(
    data: Seq<u8>,
    flags: Seq<u8>,
    dlen: int,
    pos: int,
    out: Seq<u8>,
    cmd: u8,
    bit: int,
) -> Result<(Seq<u8>, int), DecodeFail>
    decreases data.len() - pos, (if 0 <= bit < 8 { 37 - 2 * bit } else { 22int }),
{
    if out.len() >= dlen {
        Ok((out, pos))
    } else {
        decode_bits(data, flags, dlen, pos, out, cmd, if 0 <= bit < 8 { bit + 1 } else { 8 })
    }
}

/// The decode of the payload that starts at `pos`: the command/literal
/// bitstream interpreted until the output reaches `dlen`.
pub open spec fn px_raw_decode(data: Seq<u8>, flags: Seq<u8>, dlen: int, pos: int) -> Result<
    (Seq<u8>, int),
    DecodeFail,
> {
    decode_cmd(data, flags, dlen, pos, Seq::empty())
}

/// The header length of the variant `d`'s magic selects: 20 bytes for
/// Variant-A, 18 for Variant-B. Meaningful only when the magic matches.
pub open spec fn px_hlen(d: Seq<u8>) -> int {
    if d.take(5) == magic_pkdpx() {
        20
    } else {
        18
    }
}

/// The declared decompressed length of `d`: a `u32` at offset 16 for
/// Variant-A, a `u16` there for Variant-B. Meaningful only when the magic
/// matches and the header is complete.
pub open spec fn px_dlen(d: Seq<u8>) -> int {
    if d.take(5) == magic_pkdpx() {
        crate::bits::le32(d[16], d[17], d[18], d[19])
    } else {
        le16(d[16], d[17])
    }
}

/// The command/literal bitstream of the naive encoder: before each run of up
/// to 8 input bytes, one all-ones command byte marking them all as literals.
pub open spec fn naive_body(d: Seq<u8>) -> Seq<u8>
    decreases d.len(),
{
    if d.len() == 0 {
        Seq::empty()
    } else if d.len() <= 8 {
        seq![0xffu8] + d
    } else {
        seq![0xffu8] + d.take(8) + naive_body(d.skip(8))
    }
}

/// Extending the encoder's input by one byte extends its bitstream by that
/// byte, preceded by a fresh command byte at each run of 8.
pub proof fn lemma_naive_body_snoc(d: Seq<u8>, i: int)
    requires
        0 <= i < d.len(),
    ensures
        naive_body(d.take(i + 1)) == naive_body(d.take(i)) + (if i % 8 == 0 {
            seq![0xffu8]
        } else {
            Seq::<u8>::empty()
        }) + seq![d[i]],
    decreases i,
{
    let a = d.take(i);
    let b = d.take(i + 1);
    if i == 0 {
        assert(naive_body(b) =~= naive_body(a) + seq![0xffu8] + seq![d[i]]);
    } else if i < 8 {
        assert(naive_body(b) == seq![0xffu8] + b);
        assert(naive_body(a) == seq![0xffu8] + a);
        assert(seq![0xffu8] + b =~= (seq![0xffu8] + a) + Seq::<u8>::empty() + seq![d[i]]);
    } else {
        let t = d.skip(8);
        lemma_naive_body_snoc(t, i - 8);
        assert(a.take(8) =~= d.take(8));
        assert(b.take(8) =~= d.take(8));
        assert(a.skip(8) =~= t.take(i - 8));
        assert(b.skip(8) =~= t.take(i - 7));
        if i == 8 {
            assert(naive_body(a) =~= seq![0xffu8] + a.take(8) + naive_body(a.skip(8)));
        }
        assert(naive_body(b) == seq![0xffu8] + b.take(8) + naive_body(b.skip(8)));
        assert(t[i - 8] == d[i]);
        assert((i - 8) % 8 == i % 8) by {
            assert(i - 8 == (i - 8) / 8 * 8 + (i - 8) % 8) by (nonlinear_arith);
            assert(i == i / 8 * 8 + i % 8) by (nonlinear_arith);
            assert((i - 8) % 8 == i % 8) by (nonlinear_arith);
        }
        assert(seq![0xffu8] + d.take(8) + (naive_body(t.take(i - 8)) + (if i % 8 == 0 {
            seq![0xffu8]
        } else {
            Seq::<u8>::empty()
        }) + seq![d[i]]) =~= (seq![0xffu8] + d.take(8) + naive_body(t.take(i - 8))) + (if i % 8
            == 0 {
            seq![0xffu8]
        } else {
            Seq::<u8>::empty()
        }) + seq![d[i]]);
    }
}

/// The bitstream is at least as long as the input it encodes.
pub proof fn lemma_naive_body_len(d: Seq<u8>)
    ensures
        naive_body(d).len() >= d.len(),
    decreases d.len(),
{
    if d.len() > 8 {
        lemma_naive_body_len(d.skip(8));
    }
}

/// The container length the naive encoder records: the 20-byte Variant-A
/// header plus the bitstream, before padding.
pub open spec fn pre_pad_len(d: Seq<u8>) -> int {
    20 + naive_body(d).len() as int
}

/// `l` rounded up to the next multiple of 16.
pub open spec fn padded_len(l: int) -> int {
    if l % 16 == 0 {
        l
    } else {
        l + (16 - l % 16)
    }
}

/// The two bytes of `v` written little-endian.
pub open spec fn le16_bytes(v: int) -> Seq<u8> {
    seq![(v % 256) as u8, ((v / 256) % 256) as u8]
}

/// The four bytes of `v` written little-endian.
pub open spec fn le32_bytes(v: int) -> Seq<u8> {
    seq![
        (v % 256) as u8,
        ((v / 256) % 256) as u8,
        ((v / 65536) % 256) as u8,
        ((v / 16777216) % 256) as u8,
    ]
}

/// What the naive encoder produces for a non-empty input `d` whose unpadded
/// container length fits the 16-bit length field: a Variant-A header with an
/// all-zero control-flag table, the all-literal bitstream, and 0xAA padding
/// to a multiple of 16, with the unpadded length patched into bytes 5 and 6.
pub open spec fn naive_compress_spec(d: Seq<u8>) -> Seq<u8> {
    let clen = pre_pad_len(d);
    let unpadded = magic_pkdpx() + le16_bytes(clen) + Seq::new(9, |i: int| 0u8) + le32_bytes(
        d.len() as int,
    ) + naive_body(d);
    unpadded + Seq::new((padded_len(clen) - clen) as nat, |i: int| 0xaau8)
}

/// What decompressing the container `d` yields: the magic picks the variant,
/// the payload after the header is decoded to the declared length, and the
/// container-length field must equal the total bytes consumed.
pub open spec fn px_decompress_spec(d: Seq<u8>) -> Result<Seq<u8>, DecodeFail> {
    if d.len() < 16 {
        Err(DecodeFail::Truncated)
    } else if d.take(5) != magic_pkdpx() && d.take(5) != magic_at4px() {
        Err(DecodeFail::BadMagic)
    } else if d.len() < px_hlen(d) {
        Err(DecodeFail::Truncated)
    } else {
        match px_raw_decode(d, d.subrange(7, 16), px_dlen(d), px_hlen(d)) {
            Ok((out, p)) => {
                if le16(d[5], d[6]) == p {
                    Ok(out)
                } else {
                    Err(DecodeFail::Mismatch)
                }
            },
            Err(e) => Err(e),
        }
    }
}

} // verus!
