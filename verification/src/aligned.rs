//! Layout that stores integers in groups *within* cell boundaries.

use vstd::arithmetic::div_mod::{
    lemma_div_is_ordered, lemma_div_non_zero, lemma_div_nonincreasing, lemma_fundamental_div_mod,
    lemma_mod_division_less_than_divisor,
};
use vstd::pervasive::VecAdditionalExecFns;
use vstd::prelude::*;

use crate::{
    div_ceil, elpc_spec, lemma_mask_facts, lemma_mask_spec_form, lemma_masked_extract,
    lemma_write_read_other, lemma_write_read_same, mask_spec, CellLayout, UnthBuf, BITS_PER_CELL,
};

verus! {

/// Layout that stores integers in groups *within* cell boundaries:
/// an element never crosses a cell boundary, at the price of unused
/// padding bits whenever the bit-size does not divide the cell width.
#[derive(Clone, Copy)]
pub struct AlignedLayout;

/// An aligned location of an element within an [`UnthBuf`]: one cell,
/// one bit offset into it, and the element's mask already in position.
#[derive(Clone, Copy, Debug)]
pub struct AlignedLocation {
    /// Index of the cell holding the element.
    pub cell: usize,
    /// Bit offset of the element within its cell.
    pub offset: u8,
    /// Mask covering the element's bits within its cell.
    pub mask: u64,
}

/// The number of cells the aligned layout needs: enough whole cells for
/// `capacity` elements in groups of `elpc_spec(bits)` per cell.
pub open spec fn aligned_cell_count_spec(capacity: nat, bits: nat) -> nat {
    if bits == 0 {
        0
    } else {
        div_ceil(capacity, elpc_spec(bits))
    }
}

/// The exact number of bits the aligned layout stores: every group slot
/// of every allocated cell counts (including trailing unused slots), but
/// the intra-cell padding past the last group slot does not.
pub open spec fn aligned_exact_bit_count_spec(capacity: nat, bits: nat) -> nat {
    aligned_cell_count_spec(capacity, bits) * elpc_spec(bits) * bits
}

/// The element an aligned cell buffer holds at `index`: `bits` bits of
/// cell `index / elpc`, starting at bit `(index % elpc) * bits`.
pub open spec fn aligned_element_spec(cells: Seq<u64>, bits: nat, index: nat) -> u64 {
    if bits == 0 {
        0u64
    } else {
        let e = elpc_spec(bits);
        let cell = index / e;
        let offset = (index % e) * bits;
        if cell < cells.len() {
            (cells[cell as int] >> (offset as u64)) & mask_spec(bits)
        } else {
            0u64
        }
    }
}

/// For a bit-size between 1 and 64, a cell holds between 1 and 64
/// elements, and they never outgrow the cell.
pub(crate) proof fn lemma_elpc_bounds(bits: nat)
    requires
        1 <= bits <= 64,
    ensures
        1 <= elpc_spec(bits) <= 64,
        elpc_spec(bits) * bits <= 64,
{
    lemma_div_non_zero(64, bits as int);
    lemma_div_nonincreasing(64, bits as int);
    lemma_fundamental_div_mod(64, bits as int);
    lemma_mod_division_less_than_divisor(64, bits as int);
    assert(elpc_spec(bits) * bits == bits as int * (64int / (bits as int))) by (nonlinear_arith);
}

/// Bounds for a valid index's aligned location: its cell lies inside
/// the backing buffer and its bit range lies inside the cell.
pub(crate) proof fn lemma_aligned_location_bounds(bits: nat, capacity: nat, len: nat, index: nat)
    requires
        1 <= bits <= 64,
        index < capacity,
        len == aligned_cell_count_spec(capacity, bits),
    ensures
        1 <= elpc_spec(bits) <= 64,
        index / elpc_spec(bits) < len,
        (index % elpc_spec(bits)) * bits + bits <= 64,
{
    let e = elpc_spec(bits);
    lemma_elpc_bounds(bits);
    lemma_div_is_ordered(index as int, (capacity - 1) as int, e as int);
    lemma_mod_division_less_than_divisor(index as int, e as int);
    let r = index % e;
    assert(r * bits + bits <= e * bits) by (nonlinear_arith)
        requires
            r < e,
            1 <= bits,
    ;
}

/// How one aligned write changes the elements: the written index now
/// holds the value, and every other index holds what it held before.
pub(crate) proof fn lemma_aligned_set_elements(
    cells: Seq<u64>,
    bits: nat,
    index: nat,
    capacity: nat,
    value: u64,
    w2: u64,
)
    requires
        1 <= bits <= 64,
        index < capacity,
        cells.len() == aligned_cell_count_spec(capacity, bits),
        value & mask_spec(bits) == value,
        w2 == (cells[(index / elpc_spec(bits)) as int] & !(mask_spec(bits) << (((index
            % elpc_spec(bits)) * bits) as u64))) | (value << (((index % elpc_spec(bits))
            * bits) as u64)),
    ensures
        aligned_element_spec(
            cells.update((index / elpc_spec(bits)) as int, w2),
            bits,
            index,
        ) == value,
        forall|j: nat|
            j < capacity && j != index ==> aligned_element_spec(
                cells.update((index / elpc_spec(bits)) as int, w2),
                bits,
                j,
            ) == aligned_element_spec(cells, bits, j),
{
    let e = elpc_spec(bits);
    let ci = index / e;
    let ri = index % e;
    let offi = ri * bits;
    let m = mask_spec(bits);
    let cells2 = cells.update(ci as int, w2);
    lemma_elpc_bounds(bits);
    lemma_aligned_location_bounds(bits, capacity, cells.len(), index);
    lemma_mask_spec_form(bits as u64);
    lemma_write_read_same(cells[ci as int], w2, value, bits as u64, offi as u64, m);
    assert(aligned_element_spec(cells2, bits, index) == value);
    assert forall|j: nat| j < capacity && j != index implies aligned_element_spec(
        cells2,
        bits,
        j,
    ) == aligned_element_spec(cells, bits, j) by {
        let cj = j / e;
        let rj = j % e;
        let offj = rj * bits;
        lemma_aligned_location_bounds(bits, capacity, cells.len(), j);
        if cj == ci {
            lemma_fundamental_div_mod(index as int, e as int);
            lemma_fundamental_div_mod(j as int, e as int);
            assert(rj != ri);
            if ri < rj {
                assert(offi + bits <= offj) by (nonlinear_arith)
                    requires
                        offi == ri * bits,
                        offj == rj * bits,
                        ri < rj,
                        1 <= bits,
                ;
            } else {
                assert(offj + bits <= offi) by (nonlinear_arith)
                    requires
                        offi == ri * bits,
                        offj == rj * bits,
                        rj < ri,
                        1 <= bits,
                ;
            }
            lemma_write_read_other(
                cells[ci as int],
                w2,
                value,
                bits as u64,
                offi as u64,
                offj as u64,
                m,
            );
        }
    }
}

impl CellLayout for AlignedLayout {
    type Location = AlignedLocation;

    open spec fn spec_cell_count(capacity: nat, bits: nat) -> nat {
        aligned_cell_count_spec(capacity, bits)
    }

    open spec fn spec_exact_bit_count(capacity: nat, bits: nat) -> nat {
        aligned_exact_bit_count_spec(capacity, bits)
    }

    open spec fn spec_element(cells: Seq<u64>, bits: nat, index: nat) -> u64 {
        aligned_element_spec(cells, bits, index)
    }

    open spec fn spec_location_of(buf: UnthBuf<AlignedLayout>, index: nat) -> AlignedLocation {
        if buf.bits == 0 {
            AlignedLocation { cell: 0, offset: 0, mask: 0 }
        } else {
            AlignedLocation {
                cell: (index / elpc_spec(buf.bits as nat)) as usize,
                offset: ((index % elpc_spec(buf.bits as nat)) * buf.bits) as u8,
                mask: buf.mask << (((index % elpc_spec(buf.bits as nat)) * buf.bits) as u64),
            }
        }
    }

    proof fn lemma_cell_count_le_capacity(capacity: nat, bits: nat) {
        if bits != 0 {
            let e = elpc_spec(bits);
            lemma_elpc_bounds(bits);
            lemma_div_nonincreasing((capacity - 1) as int, e as int);
        }
    }

    proof fn lemma_exact_le_total(capacity: nat, bits: nat) {
        if bits != 0 {
            let e = elpc_spec(bits);
            let count = aligned_cell_count_spec(capacity, bits);
            lemma_elpc_bounds(bits);
            assert(count * e * bits <= count * 64) by (nonlinear_arith)
                requires
                    e * bits <= 64,
                    0 <= count,
            ;
        }
    }

    proof fn lemma_element_of_zeros(cells: Seq<u64>, bits: nat, index: nat) {
        if bits != 0 {
            lemma_elpc_bounds(bits);
            let e = elpc_spec(bits);
            let cell = index / e;
            if cell < cells.len() {
                lemma_mask_facts(
                    cells[cell as int],
                    ((index % e) * bits) as u64,
                    mask_spec(bits),
                );
            }
        }
    }

    proof fn lemma_element_fits(cells: Seq<u64>, bits: nat, index: nat) {
        if bits != 0 {
            lemma_elpc_bounds(bits);
            let e = elpc_spec(bits);
            lemma_mask_facts(
                cells[(index / e) as int],
                ((index % e) * bits) as u64,
                mask_spec(bits),
            );
        } else {
            lemma_mask_facts(0u64, 0u64, 0u64);
        }
    }

    fn get_cell_count(capacity: usize, bits: u8) -> (count: usize) {
        if bits == 0 {
            return 0;
        }
        proof {
            lemma_elpc_bounds(bits as nat);
            lemma_div_nonincreasing((capacity - 1) as int, elpc_spec(bits as nat) as int);
        }
        let elements_per_cell = (BITS_PER_CELL / bits) as usize;
        (capacity - 1) / elements_per_cell + 1
    }

    fn get_exact_bit_count(buf: &UnthBuf<AlignedLayout>) -> (count: usize) {
        if buf.bits == 0 {
            return 0;
        }
        let elements_per_cell = (BITS_PER_CELL / buf.bits) as usize;
        proof {
            lemma_elpc_bounds(buf.bits as nat);
            AlignedLayout::lemma_cell_count_le_capacity(buf.capacity as nat, buf.bits as nat);
            assert(buf.data@.len() * elements_per_cell * buf.bits <= buf.data@.len() * 64
                && buf.data@.len() * elements_per_cell <= buf.data@.len() * 64)
                by (nonlinear_arith)
                requires
                    elements_per_cell * buf.bits <= 64,
                    1 <= buf.bits,
                    elements_per_cell == elpc_spec(buf.bits as nat),
                    0 <= buf.data@.len(),
            ;
        }
        buf.data.len() * elements_per_cell * (buf.bits as usize)
    }

    fn location_of(buf: &UnthBuf<AlignedLayout>, index: usize) -> (loc: AlignedLocation) {
        if buf.bits == 0 {
            return AlignedLocation { cell: 0, offset: 0, mask: 0 };
        }
        proof {
            lemma_aligned_location_bounds(
                buf.bits as nat,
                buf.capacity as nat,
                buf.data@.len(),
                index as nat,
            );
        }
        let elements_per_cell = buf.elpc as usize;
        let cell = index / elements_per_cell;
        let offset = ((index % elements_per_cell) as u8) * buf.bits;
        let mask = buf.mask << (offset as u64);
        AlignedLocation { cell, offset, mask }
    }

    fn set_unchecked(buf: &mut UnthBuf<AlignedLayout>, index: usize, value: u64) {
        if buf.bits == 0 {
            proof {
                lemma_mask_facts(value, 0, 0);
            }
            return ;
        }
        let loc = Self::location_of(buf, index);
        proof {
            lemma_aligned_location_bounds(
                buf.bits as nat,
                buf.capacity as nat,
                buf.data@.len(),
                index as nat,
            );
        }
        let mut cell = buf.data[loc.cell];
        cell = cell & !loc.mask;  // unset the bits of the old value
        cell = cell | (value << (loc.offset as u64));  // set bits for new value
        buf.data.set(loc.cell, cell);
        proof {
            lemma_aligned_set_elements(
                old(buf).data@,
                buf.bits as nat,
                index as nat,
                buf.capacity as nat,
                value,
                cell,
            );
        }
    }

    fn get_unchecked(buf: &UnthBuf<AlignedLayout>, index: usize) -> (value: u64) {
        if buf.bits == 0 {
            return 0;
        }
        let loc = Self::location_of(buf, index);
        proof {
            lemma_aligned_location_bounds(
                buf.bits as nat,
                buf.capacity as nat,
                buf.data@.len(),
                index as nat,
            );
            lemma_mask_spec_form(buf.bits as u64);
            lemma_masked_extract(
                buf.data@[loc.cell as int],
                buf.bits as u64,
                loc.offset as u64,
                buf.mask,
            );
        }
        (buf.data[loc.cell] & loc.mask) >> (loc.offset as u64)
    }
}

} // verus!
