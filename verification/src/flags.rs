//! The control-flag table and the nybble-pattern byte-pair synthesis it
//! selects.

use vstd::prelude::*;

verus! {

/// The smallest index `>= i` at which `t` holds `nb`, or `None`.
pub open spec fn find_from(t: Seq<u8>, nb: u8, i: int) -> Option<int>
    decreases t.len() - i,
{
    if i < 0 || i >= t.len() {
        None
    } else if t[i] == nb {
        Some(i)
    } else {
        find_from(t, nb, i + 1)
    }
}

/// The smallest index at which `t` holds `nb`, or `None`: the first match of
/// a linear scan, so a duplicate entry resolves to the lowest index.
pub open spec fn find_first(t: Seq<u8>, nb: u8) -> Option<int> {
    find_from(t, nb, 0)
}

/// The pre-adjusted base value for a nybble-pattern synthesis at table index
/// `i`: the low nibble, incremented once for index 1 and decremented once for
/// index 5, modulo 256.
pub open spec fn pair_base(i: int, nb_low: u8) -> int {
    if i == 1 {
        (nb_low + 1) % 256
    } else if i == 5 {
        (nb_low - 1) % 256
    } else {
        nb_low as int
    }
}

/// The `k`-th of the four nibble values (modulo 256) synthesized at table
/// index `i`: the base, with one per-position adjustment — indices 1 to 4
/// decrement position `i - 1`, indices 5 to 8 increment position `i - 5`.
pub open spec fn pair_nybble(i: int, k: int, nb_low: u8) -> int {
    let base = pair_base(i, nb_low);
    if (i == 1 && k == 0) || (i == 2 && k == 1) || (i == 3 && k == 2) || (i == 4 && k == 3) {
        (base - 1) % 256
    } else if (i == 5 && k == 0) || (i == 6 && k == 1) || (i == 7 && k == 2) || (i == 8 && k == 3) {
        (base + 1) % 256
    } else {
        base
    }
}

/// The two bytes appended for a nybble-pattern byte at table index `i`:
/// nibbles 0 and 1 packed high/low into the first byte, nibbles 2 and 3 into
/// the second. For index 0 all four nibbles equal the low nibble, so both
/// bytes are the nibble-doubled value.
pub open spec fn pair_bytes(i: int, nb_low: u8) -> Seq<u8> {
    seq![
        ((pair_nybble(i, 0, nb_low) * 16 + pair_nybble(i, 1, nb_low)) % 256) as u8,
        ((pair_nybble(i, 2, nb_low) * 16 + pair_nybble(i, 3, nb_low)) % 256) as u8,
    ]
}

/// Synthesize the byte pair for a non-literal byte whose high nibble was
/// found at `ctrlflagindex` in the control-flag table, from its low nibble.
/// Nibble arithmetic wraps modulo 256, as the byte registers do.
pub fn nybble_pair(ctrlflagindex: usize, nb_low: u8) -> (r: (u8, u8))
    requires
        ctrlflagindex < 9,
        nb_low < 16,
    ensures
        seq![r.0, r.1] == pair_bytes(ctrlflagindex as int, nb_low),
{
    if ctrlflagindex == 0 {
        proof {
            assert(nb_low < 16 ==> ((nb_low << 4u8) == nb_low * 16 && nb_low * 16 + nb_low
                < 256)) by (bit_vector);
        }
        let byte1: u8 = (nb_low << 4u8) + nb_low;
        proof {
            assert(seq![byte1, byte1] =~= pair_bytes(ctrlflagindex as int, nb_low));
        }
        (byte1, byte1)
    } else {
        let mut nybbleval: u8 = nb_low;
        if ctrlflagindex == 1 {
            nybbleval = nybbleval.wrapping_add(1);
        } else if ctrlflagindex == 5 {
            nybbleval = nybbleval.wrapping_sub(1);
        }
        assert(nybbleval as int == pair_base(ctrlflagindex as int, nb_low));
        let mut n0: u8 = nybbleval;
        let mut n1: u8 = nybbleval;
        let mut n2: u8 = nybbleval;
        let mut n3: u8 = nybbleval;
        if ctrlflagindex == 1 {
            n0 = n0.wrapping_sub(1);
        } else if ctrlflagindex == 2 {
            n1 = n1.wrapping_sub(1);
        } else if ctrlflagindex == 3 {
            n2 = n2.wrapping_sub(1);
        } else if ctrlflagindex == 4 {
            n3 = n3.wrapping_sub(1);
        } else if ctrlflagindex == 5 {
            n0 = n0.wrapping_add(1);
        } else if ctrlflagindex == 6 {
            n1 = n1.wrapping_add(1);
        } else if ctrlflagindex == 7 {
            n2 = n2.wrapping_add(1);
        } else {
            n3 = n3.wrapping_add(1);
        }
        let b1: u8 = pack_nibbles(n0, n1);
        let b2: u8 = pack_nibbles(n2, n3);
        proof {
            assert(seq![b1, b2] =~= pair_bytes(ctrlflagindex as int, nb_low));
        }
        (b1, b2)
    }
}

/// Pack two nibble values into one byte, `hi` in the upper four bits,
/// wrapping modulo 256 when a pre-adjusted nibble value overflows four bits.
fn pack_nibbles(hi: u8, lo: u8) -> (r: u8)
    ensures
        r as int == (hi * 16 + lo) % 256,
{
    let r: u8 = (hi << 4u8).wrapping_add(lo);
    proof {
        assert((hi << 4u8) as int == (hi * 16) % 256) by (bit_vector);
        assert(((hi * 16) % 256 + lo) % 256 == (hi * 16 + lo) % 256) by (nonlinear_arith);
    }
    r
}

/// The 9-entry table of marker nibbles read from a container header. A
/// 4-bit value is looked up by a first-match linear scan; the index found
/// selects the decode mode for a non-literal byte.
#[derive(Debug)]
pub struct ControlFlags {
    value: [u8; 9],
}

impl View for ControlFlags {
    type V = Seq<u8>;

    closed spec fn view(&self) -> Seq<u8> {
        self.value@
    }
}

impl ControlFlags {
    /// Wrap the 9 marker-nibble bytes of a header as a table.
    pub fn new(value: [u8; 9]) -> (r: ControlFlags)
        ensures
            r@ == value@,
    {
        ControlFlags { value }
    }

    /// The first index whose entry equals `nb_high`, scanning from index 0,
    /// or `None` when no entry does.
    pub fn find(&self, nb_high: u8) -> (r: Option<usize>)
        ensures
            r matches Some(i) ==> i < 9 && find_first(self@, nb_high) == Some(i as int),
            r is None ==> find_first(self@, nb_high) is None,
    {
        let mut v: usize = 0;
        while v < 9
            invariant
                v <= 9,
                self@.len() == 9,
                find_from(self@, nb_high, 0) == find_from(self@, nb_high, v as int),
            decreases 9 - v,
        {
            if self.value[v] == nb_high {
                return Some(v);
            }
            v = v + 1;
        }
        None
    }
}

} // verus!
