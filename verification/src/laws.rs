//! Laws relating the codec's operations: the encoder/decoder round trip,
//! what the sniffer accepts, and the shape of what the encoder emits.

use vstd::prelude::*;

use vstd::arithmetic::div_mod::lemma_fundamental_div_mod;

use crate::bits::{bit_of, le16};
use crate::error::PXError;
use crate::model::{
    decode_bits, decode_cmd, le16_bytes, le32_bytes, magic_at4px, magic_pkdpx, naive_body,
    naive_compress_spec, padded_len, pre_pad_len, px_decompress_spec, px_dlen, px_hlen,
    px_raw_decode, DecodeFail,
};
use crate::sniff::is_px_spec;

verus! {

/// The bytes still to be consumed when the decoder stands at bit `8 - slots`
/// of an all-ones command byte with the literals `rest` outstanding: the
/// literals that fit the current command byte, then the bitstream of the
/// remainder.
pub open spec fn tail_body(rest: Seq<u8>, slots: int) -> Seq<u8> {
    if rest.len() <= slots {
        rest
    } else {
        rest.take(slots) + naive_body(rest.skip(slots))
    }
}

/// Decoding an all-literal bitstream mid-command-byte appends exactly the
/// outstanding literals and consumes exactly their encoding.
proof fn lemma_decode_literals_bits(
    data: Seq<u8>,
    flags: Seq<u8>,
    dlen: int,
    pos: int,
    out: Seq<u8>,
    rest: Seq<u8>,
    bit: int,
)
    requires
        0 <= bit < 8,
        1 <= rest.len(),
        out.len() + rest.len() == dlen,
        0 <= pos,
        pos + tail_body(rest, 8 - bit).len() <= data.len(),
        data.subrange(pos, pos + tail_body(rest, 8 - bit).len() as int) == tail_body(
            rest,
            8 - bit,
        ),
    ensures
        decode_bits(data, flags, dlen, pos, out, 0xffu8, bit) == Ok::<(Seq<u8>, int), DecodeFail>(
            (out + rest, pos + tail_body(rest, 8 - bit).len() as int),
        ),
    decreases rest.len(), 0int,
{
    let slots = 8 - bit;
    let tb = tail_body(rest, slots);
    assert(tb[0] == rest[0]);
    assert(data[pos] == tb[0]);
    let bu = bit as u8;
    assert((0xffu8 >> ((7 - bu) as u8)) & 1u8 == 1u8) by (bit_vector)
        requires
            bu < 8,
    ;
    assert(bit_of(0xffu8, bu));
    let out2 = out.push(rest[0]);
    if rest.len() == 1 {
        assert(out2 =~= out + rest);
        assert(tb.len() == 1);
    } else {
        let rest2 = rest.skip(1);
        if bit < 7 {
            let tb2 = tail_body(rest2, slots - 1);
            assert(tb2 =~= tb.skip(1)) by {
                if rest.len() > slots {
                    assert(rest2.skip(slots - 1) =~= rest.skip(slots));
                    assert(rest2.take(slots - 1) =~= rest.take(slots).skip(1));
                }
            }
            assert(data.subrange(pos + 1, pos + 1 + tb2.len() as int) =~= tb.skip(1));
            lemma_decode_literals_bits(data, flags, dlen, pos + 1, out2, rest2, bit + 1);
            assert(out2 + rest2 =~= out + rest);
            assert(tb.len() == 1 + tb2.len());
        } else {
            // slots == 1 and at least one literal remains: a new command
            // byte follows
            assert(rest.len() > slots);
            assert(tb =~= rest.take(1) + naive_body(rest2));
            assert(data.subrange(pos + 1, pos + 1 + naive_body(rest2).len() as int) =~= tb.skip(
                1,
            ));
            assert(tb.skip(1) =~= naive_body(rest2));
            lemma_decode_literals_cmd(data, flags, dlen, pos + 1, out2, rest2);
            assert(out2 + rest2 =~= out + rest);
            assert(tb.len() == 1 + naive_body(rest2).len());
        }
    }
}

/// Decoding an all-literal bitstream from a command-byte boundary appends
/// exactly the outstanding literals and consumes exactly their encoding.
proof fn lemma_decode_literals_cmd(
    data: Seq<u8>,
    flags: Seq<u8>,
    dlen: int,
    pos: int,
    out: Seq<u8>,
    rest: Seq<u8>,
)
    requires
        1 <= rest.len(),
        out.len() + rest.len() == dlen,
        0 <= pos,
        pos + naive_body(rest).len() <= data.len(),
        data.subrange(pos, pos + naive_body(rest).len() as int) == naive_body(rest),
    ensures
        decode_cmd(data, flags, dlen, pos, out) == Ok::<(Seq<u8>, int), DecodeFail>(
            (out + rest, pos + naive_body(rest).len() as int),
        ),
    decreases rest.len(), 1int,
{
    let nb = naive_body(rest);
    assert(nb[0] == 0xffu8);
    assert(data[pos] == 0xffu8);
    let tb = tail_body(rest, 8);
    assert(nb =~= seq![0xffu8] + tb) by {
        if rest.len() > 8 {
            assert(nb == seq![0xffu8] + rest.take(8) + naive_body(rest.skip(8)));
        }
    }
    assert(data.subrange(pos + 1, pos + 1 + tb.len() as int) =~= nb.skip(1));
    assert(nb.skip(1) =~= tb);
    lemma_decode_literals_bits(data, flags, dlen, pos + 1, out, rest, 0);
}

/// Round trip: decompressing what the naive encoder produced gives back the
/// original bytes, for every input the encoder accepts (at least one byte,
/// and an unpadded container length that fits the 16-bit length field).
#[verifier::rlimit(100)]
pub proof fn lemma_round_trip(b: Seq<u8>)
    requires
        1 <= b.len(),
        pre_pad_len(b) <= 65535,
    ensures
        px_decompress_spec(naive_compress_spec(b)) == Ok::<Seq<u8>, DecodeFail>(b),
{
    let c = naive_compress_spec(b);
    let n = b.len() as int;
    let body = naive_body(b);
    let clen = pre_pad_len(b);
    let unpadded = magic_pkdpx() + le16_bytes(clen) + Seq::new(9, |i: int| 0u8) + le32_bytes(n)
        + body;
    let pad = Seq::new((padded_len(clen) - clen) as nat, |i: int| 0xaau8);
    assert(c == unpadded + pad);
    assert(body.len() >= 2) by {
        if b.len() <= 8 {
            assert(body == seq![0xffu8] + b);
        }
    }
    assert(clen % 16 == 0 ==> padded_len(clen) == clen);
    assert(c.len() >= clen);
    assert(c.take(5) =~= magic_pkdpx());
    assert(c.take(5) != magic_at4px()) by {
        assert(magic_pkdpx()[0] != magic_at4px()[0]);
    }
    assert(px_hlen(c) == 20);
    assert(c.subrange(5, 7) =~= le16_bytes(clen));
    assert(c[5] == (clen % 256) as u8 && c[6] == ((clen / 256) % 256) as u8);
    assert(le16(c[5], c[6]) == clen) by {
        lemma_fundamental_div_mod(clen, 256);
        assert(clen / 256 < 256);
    }
    assert(c.subrange(16, 20) =~= le32_bytes(n));
    crate::model::lemma_naive_body_len(b);
    assert(px_dlen(c) == n) by {
        assert(n <= 65535);
        assert(n / 65536 == 0 && n / 16777216 == 0);
        lemma_fundamental_div_mod(n, 256);
        assert(n / 256 < 256);
    }
    let flags = c.subrange(7, 16);
    assert(c.subrange(20, 20 + body.len() as int) =~= body);
    lemma_decode_literals_cmd(c, flags, n, 20, Seq::empty(), b);
    assert(Seq::empty() + b =~= b);
    assert(px_raw_decode(c, flags, n, 20) == Ok::<(Seq<u8>, int), DecodeFail>((b, clen)));
}

/// Sniffing: a buffer of at least five bytes is accepted exactly when its
/// first five bytes equal one of the two magic tags; fewer than four bytes
/// are rejected outright; exactly four end in an I/O failure.
pub proof fn lemma_sniff(d: Seq<u8>)
    ensures
        d.len() >= 5 ==> is_px_spec(d) == Ok::<bool, PXError>(
            d.take(5) == magic_pkdpx() || d.take(5) == magic_at4px(),
        ),
        d.len() < 4 ==> is_px_spec(d) == Ok::<bool, PXError>(false),
        d.len() == 4 ==> is_px_spec(d) == Err::<bool, PXError>(PXError::IOError),
{
}

/// Sniffing accepts everything the naive encoder produces.
pub proof fn lemma_sniff_compressed(b: Seq<u8>)
    requires
        1 <= b.len(),
        pre_pad_len(b) <= 65535,
    ensures
        is_px_spec(naive_compress_spec(b)) == Ok::<bool, PXError>(true),
{
    let c = naive_compress_spec(b);
    assert(c.take(5) =~= magic_pkdpx());
    assert(c.len() >= 5);
}

/// Magic dispatch: a complete header whose first five bytes match neither
/// tag fails with the bad-magic error, whatever the rest of the buffer
/// holds.
pub proof fn lemma_bad_magic(d: Seq<u8>)
    requires
        d.len() >= 16,
        d.take(5) != magic_pkdpx(),
        d.take(5) != magic_at4px(),
    ensures
        px_decompress_spec(d) == Err::<Seq<u8>, DecodeFail>(DecodeFail::BadMagic),
{
}

/// Length accounting: when the payload decodes completely but the
/// container-length field disagrees with the bytes consumed, the decode
/// fails with the length-mismatch error even though the output itself is
/// fully populated.
pub proof fn lemma_length_accounting(d: Seq<u8>, out: Seq<u8>, p: int)
    requires
        d.len() >= 16,
        d.take(5) == magic_pkdpx() || d.take(5) == magic_at4px(),
        d.len() >= px_hlen(d),
        px_raw_decode(d, d.subrange(7, 16), px_dlen(d), px_hlen(d)) == Ok::<
            (Seq<u8>, int),
            DecodeFail,
        >((out, p)),
        le16(d[5], d[6]) != p,
    ensures
        px_decompress_spec(d) == Err::<Seq<u8>, DecodeFail>(DecodeFail::Mismatch),
{
}

/// Encoder padding: for every accepted input the container's total length
/// is a multiple of 16, the container-length field holds the unpadded
/// length, and every byte beyond it is 0xAA.
pub proof fn lemma_encoder_padding(b: Seq<u8>)
    requires
        1 <= b.len(),
        pre_pad_len(b) <= 65535,
    ensures
        naive_compress_spec(b).len() % 16 == 0,
        naive_compress_spec(b).len() == padded_len(pre_pad_len(b)),
        le16(naive_compress_spec(b)[5], naive_compress_spec(b)[6]) == pre_pad_len(b),
        forall|j: int|
            pre_pad_len(b) <= j < naive_compress_spec(b).len() ==> naive_compress_spec(b)[j]
                == 0xaau8,
{
    let c = naive_compress_spec(b);
    let clen = pre_pad_len(b);
    assert(c.len() == padded_len(clen));
    assert(padded_len(clen) % 16 == 0);
    assert(c.subrange(5, 7) =~= le16_bytes(clen));
    assert(le16(c[5], c[6]) == clen) by {
        lemma_fundamental_div_mod(clen, 256);
        assert(clen / 256 < 256);
    }
}

} // verus!
