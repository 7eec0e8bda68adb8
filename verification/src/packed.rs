//! Layout that stores integers tightly packed, *across* cell boundaries.

use vstd::arithmetic::div_mod::{
    lemma_div_is_ordered, lemma_fundamental_div_mod, lemma_fundamental_div_mod_converse,
    lemma_mod_division_less_than_divisor,
};
use vstd::pervasive::VecAdditionalExecFns;
use vstd::prelude::*;

use crate::{
    div_ceil, lemma_mask_facts, lemma_mask_spec_form, mask_spec, CellLayout, UnthBuf,
    BITS_PER_CELL,
};

verus! {

/// Layout that stores integers tightly packed, *across* cell boundaries:
/// zero padding between elements, at the price of elements that straddle
/// two neighbouring cells.
#[derive(Clone, Copy)]
pub struct PackedLayout;

/// A packed location of an element within an [`UnthBuf`]: the first cell
/// the element touches, its bit offsets in the low and high cell, and
/// its contribution masks for both. The high mask is zero exactly when
/// the element does not cross a cell boundary.
#[derive(Clone, Copy, Debug)]
pub struct PackedLocation {
    /// Index of the first (low) cell the element touches.
    pub cell: usize,
    /// Bit offset of the element within the low cell.
    pub offset0: u8,
    /// Bit offset just past the element within the high cell.
    pub offset1: u8,
    /// Mask covering the element's bits within the low cell.
    pub mask0: u64,
    /// Mask covering the element's bits within the high cell; zero when
    /// the element does not cross.
    pub mask1: u64,
}

/// The number of cells the packed layout needs: `capacity * bits` bits,
/// rounded up to whole cells.
pub open spec fn packed_cell_count_spec(capacity: nat, bits: nat) -> nat {
    div_ceil(capacity * bits, 64)
}

/// The exact number of bits the packed layout stores: no padding at all
/// between elements.
pub open spec fn packed_exact_bit_count_spec(capacity: nat, bits: nat) -> nat {
    capacity * bits
}

/// The element's contribution mask in its high cell: zero when it does
/// not cross the boundary, else the mask's bits that spill over.
pub open spec fn packed_mask_high_spec(mask: u64, off: nat, bits: nat) -> u64 {
    if off + bits <= 64 {
        0u64
    } else {
        mask >> ((64 - off) as u64)
    }
}

/// The element a packed cell buffer holds at `index`: `bits` bits
/// starting at overall bit `index * bits`, reassembled from one cell or
/// from two neighbouring cells.
pub open spec fn packed_element_spec(cells: Seq<u64>, bits: nat, index: nat) -> u64 {
    if bits == 0 {
        0u64
    } else {
        let bi = index * bits;
        let cell = bi / 64;
        let off = bi % 64;
        let m = mask_spec(bits);
        let low = if cell < cells.len() {
            (cells[cell as int] & (m << (off as u64))) >> (off as u64)
        } else {
            0u64
        };
        if off + bits <= 64 {
            low
        } else {
            let high = if cell + 1 < cells.len() {
                (cells[cell as int + 1] & (m >> ((64 - off) as u64))) << ((64 - off) as u64)
            } else {
                0u64
            };
            low | high
        }
    }
}

/// The cells after writing `value` at `index`: the low cell always
/// changes, and the high cell changes too when the element crosses.
pub(crate) closed spec fn packed_written_cells(
    cells: Seq<u64>,
    bits: nat,
    index: nat,
    value: u64,
) -> Seq<u64> {
    let bi = index * bits;
    let ci = bi / 64;
    let off = bi % 64;
    let m = mask_spec(bits);
    let low = (cells[ci as int] & !(m << (off as u64))) | (value << (off as u64));
    if off + bits <= 64 {
        cells.update(ci as int, low)
    } else {
        let high = (cells[ci as int + 1] & !(m >> ((64 - off) as u64))) | (value >> ((64
            - off) as u64));
        cells.update(ci as int, low).update(ci as int + 1, high)
    }
}

/// Reassembling a value split across two cells gives the value back.
pub(crate) proof fn lemma_packed_write_read_same_cross(
    w0: u64,
    w0n: u64,
    w1: u64,
    w1n: u64,
    v: u64,
    bits: u64,
    off: u64,
    m: u64,
)
    by (bit_vector)
    requires
        1 <= bits <= 64,
        off < 64,
        off + bits > 64,
        m == u64::MAX >> ((64 - bits) as u64),
        v & m == v,
        w0n == (w0 & !(m << off)) | (v << off),
        w1n == (w1 & !(m >> ((64 - off) as u64))) | (v >> ((64 - off) as u64)),
    ensures
        ((w0n & (m << off)) >> off) | ((w1n & (m >> ((64 - off) as u64))) << ((64
            - off) as u64)) == v,
{
}

/// A write into the low end of a cell leaves any disjoint low-cell read
/// range of that cell unchanged, whether or not either range is cut off
/// by the cell boundary.
pub(crate) proof fn lemma_write_low_read_low(
    w: u64,
    w2: u64,
    v: u64,
    bits: u64,
    off: u64,
    off2: u64,
    m: u64,
)
    by (bit_vector)
    requires
        1 <= bits <= 64,
        off < 64,
        off2 < 64,
        off2 + bits <= off || off + bits <= off2,
        m == u64::MAX >> ((64 - bits) as u64),
        v & m == v,
        w2 == (w & !(m << off)) | (v << off),
    ensures
        (w2 & (m << off2)) >> off2 == (w & (m << off2)) >> off2,
{
}

/// A write starting at `off` of a cell leaves the spill-over read of an
/// element that ends at or below `off` of that cell unchanged.
pub(crate) proof fn lemma_write_low_read_high(
    w: u64,
    w2: u64,
    v: u64,
    bits: u64,
    off: u64,
    off2: u64,
    m: u64,
)
    by (bit_vector)
    requires
        1 <= bits <= 64,
        off < 64,
        off2 < 64,
        off2 + bits > 64,
        off2 + bits <= off + 64,
        m == u64::MAX >> ((64 - bits) as u64),
        v & m == v,
        w2 == (w & !(m << off)) | (v << off),
    ensures
        (w2 & (m >> ((64 - off2) as u64))) << ((64 - off2) as u64) == (w & (m >> ((64
            - off2) as u64))) << ((64 - off2) as u64),
{
}

/// A spill-over write into the low end of a cell leaves any read range
/// of that cell that starts at or above the spill unchanged.
pub(crate) proof fn lemma_write_high_read_low(
    w1: u64,
    w1n: u64,
    v: u64,
    bits: u64,
    off: u64,
    off2: u64,
    m: u64,
)
    by (bit_vector)
    requires
        1 <= bits <= 64,
        off < 64,
        off + bits > 64,
        off + bits <= off2 + 64,
        off2 < 64,
        m == u64::MAX >> ((64 - bits) as u64),
        v & m == v,
        w1n == (w1 & !(m >> ((64 - off) as u64))) | (v >> ((64 - off) as u64)),
    ensures
        (w1n & (m << off2)) >> off2 == (w1 & (m << off2)) >> off2,
{
}

/// The low-cell mask of an element is never zero, and the high-cell mask
/// of a crossing element is never zero.
pub(crate) proof fn lemma_packed_masks_nonzero(bits: u64, off: u64, m: u64)
    by (bit_vector)
    requires
        1 <= bits <= 64,
        off < 64,
        m == u64::MAX >> ((64 - bits) as u64),
    ensures
        (m << off) != 0,
        off + bits > 64 ==> (m >> ((64 - off) as u64)) != 0,
{
}

/// A reassembled crossing element fits in the element mask, and a
/// crossing element of all-zero cells is zero.
pub(crate) proof fn lemma_packed_cross_facts(w0: u64, w1: u64, bits: u64, off: u64, m: u64)
    by (bit_vector)
    requires
        1 <= bits <= 64,
        off < 64,
        off + bits > 64,
        m == u64::MAX >> ((64 - bits) as u64),
    ensures
        (((w0 & (m << off)) >> off) | ((w1 & (m >> ((64 - off) as u64))) << ((64
            - off) as u64))) & m == ((w0 & (m << off)) >> off) | ((w1 & (m >> ((64
            - off) as u64))) << ((64 - off) as u64)),
        ((0u64 & (m << off)) >> off) | ((0u64 & (m >> ((64 - off) as u64))) << ((64
            - off) as u64)) == 0u64,
{
}

/// A non-crossing packed read, masked in place, fits in the element
/// mask; and a non-crossing read of a zero cell is zero.
pub(crate) proof fn lemma_packed_low_facts(w: u64, bits: u64, off: u64, m: u64)
    by (bit_vector)
    requires
        1 <= bits <= 64,
        off < 64,
        m == u64::MAX >> ((64 - bits) as u64),
    ensures
        ((w & (m << off)) >> off) & m == (w & (m << off)) >> off,
        (0u64 & (m << off)) >> off == 0u64,
{
}

/// Bounds for a valid index's packed location: its low cell lies inside
/// the backing buffer, and so does its high cell when it crosses.
pub(crate) proof fn lemma_packed_location_bounds(bits: nat, capacity: nat, len: nat, index: nat)
    requires
        1 <= bits <= 64,
        index < capacity,
        len == packed_cell_count_spec(capacity, bits),
    ensures
        (index * bits) % 64 < 64,
        (index * bits) % 64 + bits <= 64 ==> (index * bits) / 64 < len,
        (index * bits) % 64 + bits > 64 ==> (index * bits) / 64 + 1 < len,
        (index * bits) / 64 < len,
        index * bits + bits <= capacity * bits,
{
    let bi = index * bits;
    let total = capacity * bits;
    assert(bi + bits <= total && 1 <= total) by (nonlinear_arith)
        requires
            index < capacity,
            1 <= bits,
            bi == index * bits,
            total == capacity * bits,
    ;
    lemma_mod_division_less_than_divisor(bi as int, 64);
    lemma_fundamental_div_mod(bi as int, 64);
    // len == (total - 1) / 64 + 1
    lemma_div_is_ordered(bi as int, total - 1, 64);
    if bi % 64 + bits > 64 {
        // the element's last bit lies in cell bi/64 + 1
        lemma_div_is_ordered(bi + bits - 1, total - 1, 64);
        lemma_fundamental_div_mod_converse(
            bi + bits - 1,
            64,
            bi as int / 64 + 1,
            bi % 64 + bits - 65,
        );
    }
}

/// How one packed write changes the elements: the written index now
/// holds the value, and every other index holds what it held before.
pub(crate) proof fn lemma_packed_set_elements(
    cells: Seq<u64>,
    bits: nat,
    index: nat,
    capacity: nat,
    value: u64,
)
    requires
        1 <= bits <= 64,
        index < capacity,
        cells.len() == packed_cell_count_spec(capacity, bits),
        value & mask_spec(bits) == value,
    ensures
        packed_written_cells(cells, bits, index, value).len() == cells.len(),
        packed_element_spec(packed_written_cells(cells, bits, index, value), bits, index)
            == value,
        forall|j: nat|
            j < capacity && j != index ==> #[trigger] packed_element_spec(
                packed_written_cells(cells, bits, index, value),
                bits,
                j,
            ) == packed_element_spec(cells, bits, j),
{
    let bi = index * bits;
    let ci = bi / 64;
    let off = bi % 64;
    let m = mask_spec(bits);
    let cells2 = packed_written_cells(cells, bits, index, value);
    lemma_packed_location_bounds(bits, capacity, cells.len(), index);
    lemma_mask_spec_form(bits as u64);
    let w0 = cells[ci as int];
    let w0n = (w0 & !(m << (off as u64))) | (value << (off as u64));
    if off + bits <= 64 {
        crate::lemma_write_read_same(w0, w0n, value, bits as u64, off as u64, m);
        crate::lemma_masked_extract(w0n, bits as u64, off as u64, m);
    } else {
        let w1 = cells[ci as int + 1];
        let w1n = (w1 & !(m >> ((64 - off) as u64))) | (value >> ((64 - off) as u64));
        lemma_packed_write_read_same_cross(
            w0,
            w0n,
            w1,
            w1n,
            value,
            bits as u64,
            off as u64,
            m,
        );
    }
    assert(packed_element_spec(cells2, bits, index) == value);
    assert forall|j: nat| j < capacity && j != index implies packed_element_spec(
        cells2,
        bits,
        j,
    ) == packed_element_spec(cells, bits, j) by {
        let bj = j * bits;
        let cj = bj / 64;
        let offj = bj % 64;
        lemma_packed_location_bounds(bits, capacity, cells.len(), j);
        lemma_fundamental_div_mod(bi as int, 64);
        lemma_fundamental_div_mod(bj as int, 64);
        if j < index {
            assert(bj + bits <= bi) by (nonlinear_arith)
                requires
                    j < index,
                    1 <= bits,
                    bi == index * bits,
                    bj == j * bits,
            ;
        } else {
            assert(bi + bits <= bj) by (nonlinear_arith)
                requires
                    index < j,
                    1 <= bits,
                    bi == index * bits,
                    bj == j * bits,
            ;
        }
        // the reader's low-cell read
        if cj == ci {
            lemma_write_low_read_low(
                cells[cj as int],
                w0n,
                value,
                bits as u64,
                off as u64,
                offj as u64,
                m,
            );
        } else if off + bits > 64 && cj == ci + 1 {
            let w1 = cells[ci as int + 1];
            let w1n = (w1 & !(m >> ((64 - off) as u64))) | (value >> ((64 - off) as u64));
            lemma_write_high_read_low(
                w1,
                w1n,
                value,
                bits as u64,
                off as u64,
                offj as u64,
                m,
            );
        }
        // the reader's high-cell read, when it crosses
        if offj + bits > 64 {
            if cj + 1 == ci {
                lemma_write_low_read_high(
                    cells[ci as int],
                    w0n,
                    value,
                    bits as u64,
                    off as u64,
                    offj as u64,
                    m,
                );
            }
        }
    }
}

impl CellLayout for PackedLayout {
    type Location = PackedLocation;

    open spec fn spec_cell_count(capacity: nat, bits: nat) -> nat {
        packed_cell_count_spec(capacity, bits)
    }

    open spec fn spec_exact_bit_count(capacity: nat, bits: nat) -> nat {
        packed_exact_bit_count_spec(capacity, bits)
    }

    open spec fn spec_element(cells: Seq<u64>, bits: nat, index: nat) -> u64 {
        packed_element_spec(cells, bits, index)
    }

    open spec fn spec_location_of(buf: UnthBuf<PackedLayout>, index: nat) -> PackedLocation {
        if buf.bits == 0 {
            PackedLocation { cell: 0, offset0: 0, offset1: 0, mask0: 0, mask1: 0 }
        } else {
            let bi = index * (buf.bits as nat);
            PackedLocation {
                cell: (bi / 64) as usize,
                offset0: (bi % 64) as u8,
                offset1: ((bi + buf.bits as nat) % 64) as u8,
                mask0: buf.mask << ((bi % 64) as u64),
                mask1: packed_mask_high_spec(buf.mask, bi % 64, buf.bits as nat),
            }
        }
    }

    proof fn lemma_cell_count_le_capacity(capacity: nat, bits: nat) {
        let total = capacity * bits;
        if bits == 0 {
            assert(total == 0) by (nonlinear_arith)
                requires
                    bits == 0,
                    total == capacity * bits,
            ;
        } else {
            assert(1 <= total <= capacity * 64) by (nonlinear_arith)
                requires
                    1 <= capacity,
                    1 <= bits <= 64,
                    total == capacity * bits,
            ;
            lemma_div_is_ordered(total - 1, capacity * 64 - 1, 64);
            lemma_fundamental_div_mod_converse(capacity * 64 - 1, 64, capacity as int - 1, 63);
        }
    }

    proof fn lemma_exact_le_total(capacity: nat, bits: nat) {
        let total = capacity * bits;
        if total == 0 {
        } else {
            lemma_fundamental_div_mod(total - 1, 64);
            lemma_mod_division_less_than_divisor(total - 1, 64);
        }
    }

    proof fn lemma_element_of_zeros(cells: Seq<u64>, bits: nat, index: nat) {
        if bits != 0 {
            let bi = index * bits;
            let off = bi % 64;
            let m = mask_spec(bits);
            lemma_mod_division_less_than_divisor(bi as int, 64);
            lemma_mask_spec_form(bits as u64);
            if off + bits <= 64 {
                lemma_packed_low_facts(0u64, bits as u64, off as u64, m);
            } else {
                lemma_packed_cross_facts(0u64, 0u64, bits as u64, off as u64, m);
                lemma_packed_low_facts(0u64, bits as u64, off as u64, m);
                lemma_mask_facts(0u64, 0u64, 0u64);
            }
        }
    }

    proof fn lemma_element_fits(cells: Seq<u64>, bits: nat, index: nat) {
        if bits == 0 {
            lemma_mask_facts(0u64, 0u64, 0u64);
        } else {
            let bi = index * bits;
            let cell = bi / 64;
            let off = bi % 64;
            let m = mask_spec(bits);
            lemma_mod_division_less_than_divisor(bi as int, 64);
            lemma_mask_spec_form(bits as u64);
            if off + bits <= 64 {
                if cell < cells.len() {
                    lemma_packed_low_facts(cells[cell as int], bits as u64, off as u64, m);
                } else {
                    lemma_mask_facts(0u64, 0u64, m);
                }
            } else {
                if cell < cells.len() && cell + 1 < cells.len() {
                    lemma_packed_cross_facts(
                        cells[cell as int],
                        cells[cell as int + 1],
                        bits as u64,
                        off as u64,
                        m,
                    );
                } else if cell < cells.len() {
                    lemma_packed_low_facts(cells[cell as int], bits as u64, off as u64, m);
                    lemma_mask_facts(
                        (cells[cell as int] & (m << (off as u64))) >> (off as u64),
                        off as u64,
                        m,
                    );
                } else {
                    lemma_packed_cross_facts(0u64, 0u64, bits as u64, off as u64, m);
                    lemma_mask_facts(0u64, 0u64, m);
                }
            }
        }
    }

    fn get_cell_count(capacity: usize, bits: u8) -> (count: usize) {
        if bits == 0 {
            proof {
                assert(capacity as nat * (bits as nat) == 0) by (nonlinear_arith)
                    requires
                        bits == 0,
                ;
            }
            return 0;
        }
        proof {
            assert(1 <= capacity * bits <= capacity * 64) by (nonlinear_arith)
                requires
                    1 <= capacity,
                    1 <= bits <= 64,
            ;
        }
        let total_bits = capacity * (bits as usize);
        (total_bits - 1) / (BITS_PER_CELL as usize) + 1
    }

    fn get_exact_bit_count(buf: &UnthBuf<PackedLayout>) -> (count: usize) {
        proof {
            assert(buf.capacity * buf.bits <= buf.capacity * 64) by (nonlinear_arith)
                requires
                    0 <= buf.capacity,
                    buf.bits <= 64,
            ;
        }
        buf.capacity * (buf.bits as usize)
    }

    fn location_of(buf: &UnthBuf<PackedLayout>, index: usize) -> (loc: PackedLocation) {
        if buf.bits == 0 {
            return PackedLocation { cell: 0, offset0: 0, offset1: 0, mask0: 0, mask1: 0 };
        }
        proof {
            lemma_packed_location_bounds(
                buf.bits as nat,
                buf.capacity as nat,
                buf.data@.len(),
                index as nat,
            );
            assert(index * buf.bits <= buf.capacity * 64) by (nonlinear_arith)
                requires
                    index < buf.capacity,
                    1 <= buf.bits <= 64,
            ;
        }
        let bitindex = get_packed_bitindex(index, buf.bits);
        let cell = get_packed_cellindex_low(bitindex);
        let offset_low = get_packed_element_offset_low(bitindex);
        let offset_high = get_packed_element_offset_high(bitindex, buf.bits);
        let mask0 = get_packed_element_mask_low(buf.mask, offset_low);
        let mask1 = get_packed_element_mask_high(buf.mask, offset_low, buf.bits);
        PackedLocation { cell, offset0: offset_low, offset1: offset_high, mask0, mask1 }
    }

    fn set_unchecked(buf: &mut UnthBuf<PackedLayout>, index: usize, value: u64) {
        if buf.bits == 0 {
            proof {
                lemma_mask_facts(value, 0, 0);
            }
            return ;
        }
        let ghost prior = buf.data@;
        let location = Self::location_of(buf, index);
        proof {
            lemma_packed_location_bounds(
                buf.bits as nat,
                buf.capacity as nat,
                buf.data@.len(),
                index as nat,
            );
            lemma_mask_spec_form(buf.bits as u64);
            lemma_packed_masks_nonzero(
                buf.bits as u64,
                ((index as nat * buf.bits as nat) % 64) as u64,
                buf.mask,
            );
            lemma_packed_offsets(buf.bits as nat, index as nat);
        }
        if location.mask0 != 0 {
            let mut lcell = buf.data[location.cell];
            lcell = lcell & !location.mask0;  // unset the bits of the old value
            lcell = lcell | (value << (location.offset0 as u64));  // set bits for new value
            buf.data.set(location.cell, lcell);
        }
        if location.mask1 != 0 {
            proof {
                assert(location.cell + 1 < buf.data.len());
            }
            let mut hcell = buf.data[location.cell + 1];
            hcell = hcell & !location.mask1;  // unset the bits of the old value
            hcell = hcell | (value >> ((buf.bits - location.offset1) as u64));  // set bits for new value
            buf.data.set(location.cell + 1, hcell);
        }
        proof {
            assert(buf.data@ =~= packed_written_cells(
                prior,
                buf.bits as nat,
                index as nat,
                value,
            ));
            lemma_packed_set_elements(
                prior,
                buf.bits as nat,
                index as nat,
                buf.capacity as nat,
                value,
            );
        }
    }

    fn get_unchecked(buf: &UnthBuf<PackedLayout>, index: usize) -> (value: u64) {
        if buf.bits == 0 {
            return 0;
        }
        let location = Self::location_of(buf, index);
        proof {
            lemma_packed_location_bounds(
                buf.bits as nat,
                buf.capacity as nat,
                buf.data@.len(),
                index as nat,
            );
            lemma_mask_spec_form(buf.bits as u64);
            lemma_packed_masks_nonzero(
                buf.bits as u64,
                ((index as nat * buf.bits as nat) % 64) as u64,
                buf.mask,
            );
            lemma_packed_offsets(buf.bits as nat, index as nat);
        }
        let ghost bi = index as nat * (buf.bits as nat);
        let ghost off = bi % 64;
        let ghost m = mask_spec(buf.bits as nat);
        proof {
            assert(bi / 64 < buf.data.len());
            assert(location.cell == (bi / 64) as usize);
            assert(location.mask0 == m << (off as u64));
            assert(location.offset0 as u64 == off as u64);
        }
        let mut low = buf.data[location.cell];
        low = low & location.mask0;
        low = low >> (location.offset0 as u64);
        proof {
            assert(low == (buf.data@[bi as int / 64] & (m << (off as u64))) >> (off as u64));
        }
        if location.mask1 != 0 {
            proof {
                assert(off + buf.bits > 64);
                assert(location.cell + 1 < buf.data.len());
                assert(location.mask1 == m >> ((64 - off) as u64));
                assert((buf.bits - location.offset1) as u64 == (64 - off) as u64);
            }
            let mut high = buf.data[location.cell + 1];
            high = high & location.mask1;
            high = high << ((buf.bits - location.offset1) as u64);
            low = low | high;
            proof {
                assert(low == packed_element_spec(buf.data@, buf.bits as nat, index as nat));
            }
        } else {
            proof {
                assert(off + buf.bits <= 64);
                assert(low == packed_element_spec(buf.data@, buf.bits as nat, index as nat));
            }
        }
        low
    }
}

/// Where the element's bits begin, counted over the whole buffer.
pub(crate) fn get_packed_bitindex(index: usize, bits: u8) -> (bitindex: usize)
    requires
        index * bits <= usize::MAX,
    ensures
        bitindex == index * bits,
{
    index * (bits as usize)
}

/// The cell in which the element's bits begin.
pub(crate) fn get_packed_cellindex_low(bitindex: usize) -> (cell: usize)
    ensures
        cell == bitindex as nat / 64,
{
    bitindex / (BITS_PER_CELL as usize)
}

/// The cell just past the one in which the element's bits begin.
#[allow(dead_code)]
pub(crate) fn get_packed_cellindex_high(bitindex: usize) -> (cell: usize)
    requires
        bitindex as nat / 64 + 1 <= usize::MAX,
    ensures
        cell == bitindex as nat / 64 + 1,
{
    bitindex / (BITS_PER_CELL as usize) + 1
}

/// The element's bit offset within its low cell.
pub(crate) fn get_packed_element_offset_low(bitindex: usize) -> (offset: u8)
    ensures
        offset == bitindex as nat % 64,
{
    (bitindex % (BITS_PER_CELL as usize)) as u8
}

/// The bit offset just past the element within its high cell.
pub(crate) fn get_packed_element_offset_high(bitindex: usize, bits: u8) -> (offset: u8)
    requires
        bitindex + bits <= usize::MAX,
    ensures
        offset == (bitindex + bits) as nat % 64,
{
    ((bitindex + (bits as usize)) % (BITS_PER_CELL as usize)) as u8
}

/// The element's contribution mask within its low cell.
pub(crate) fn get_packed_element_mask_low(mask: u64, offset_low: u8) -> (mask_low: u64)
    requires
        offset_low < 64,
    ensures
        mask_low == mask << (offset_low as u64),
{
    mask << offset_low
}

/// The element's contribution mask within its high cell: zero when the
/// element does not cross the cell boundary.
pub(crate) fn get_packed_element_mask_high(mask: u64, offset_low: u8, bits: u8) -> (mask_high:
    u64)
    requires
        offset_low < 64,
        bits <= 64,
    ensures
        mask_high == packed_mask_high_spec(mask, offset_low as nat, bits as nat),
{
    if offset_low + bits <= BITS_PER_CELL {
        0
    } else {
        mask >> (BITS_PER_CELL - offset_low)
    }
}

/// The packed layout stores with zero padding: whenever the stored bits
/// fill whole cells, every allocated bit is a stored bit. (When
/// `capacity * bits` is not a multiple of the cell width, only the
/// trailing bits of the last cell are padding: always fewer than one
/// cell's worth.)
pub proof fn lemma_packed_no_padding(buf: UnthBuf<PackedLayout>)
    requires
        buf.wf(),
        (buf.capacity * buf.bits) % 64 == 0,
    ensures
        buf.spec_padding_bit_count() == 0,
{
    let total = buf.capacity as nat * (buf.bits as nat);
    if buf.bits == 0 {
        assert(total == 0) by (nonlinear_arith)
            requires
                total == buf.capacity as nat * (buf.bits as nat),
                buf.bits == 0,
        ;
    } else {
        assert(1 <= total) by (nonlinear_arith)
            requires
                total == buf.capacity as nat * (buf.bits as nat),
                1 <= buf.capacity,
                1 <= buf.bits,
        ;
        let q = total as int / 64;
        lemma_fundamental_div_mod(total as int, 64);
        lemma_fundamental_div_mod_converse(total - 1, 64, q - 1, 63);
        assert(buf.data@.len() * 64 == total);
    }
}

/// The high offset of a crossing element is the spill length, and lies
/// below the element's bit-size; for a non-crossing element it is where
/// the element ends in its cell, modulo the cell width.
pub(crate) proof fn lemma_packed_offsets(bits: nat, index: nat)
    requires
        1 <= bits <= 64,
    ensures
        (index * bits) % 64 + bits > 64 ==> ((index * bits) + bits) % 64 == (index * bits) % 64
            + bits - 64,
        (index * bits) % 64 + bits > 64 ==> ((index * bits) + bits) % 64 < bits,
        (index * bits) % 64 + bits > 64 ==> bits - (((index * bits) + bits) % 64) == 64 - (index
            * bits) % 64,
{
    let bi = index * bits;
    let off = bi % 64;
    lemma_mod_division_less_than_divisor(bi as int, 64);
    lemma_fundamental_div_mod(bi as int, 64);
    if off + bits > 64 {
        lemma_fundamental_div_mod_converse(
            (bi + bits) as int,
            64,
            bi as int / 64 + 1,
            off + bits - 64,
        );
    }
}

} // verus!
