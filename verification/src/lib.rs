//! A fixed-capacity container that stores a sequence of fixed-bit-width
//! unsigned integers (0 to 64 bits each) packed into an array of 64-bit
//! cells, using far less memory than one word per element.
//!
//! Two cell layouts are available: [`aligned::AlignedLayout`] keeps every
//! element inside a single cell (padding the cell when the width does not
//! divide 64), while [`packed::PackedLayout`] packs elements back to back,
//! letting an element straddle two neighbouring cells.
//!
//! The abstract contents of a buffer are its view `buf@`: a sequence of
//! `capacity` values, each fitting in `bits` bits. Construction yields the
//! all-zero sequence, `set` updates one entry, `get` reads one entry, and
//! both layouts realise exactly this one abstract behaviour.

use vstd::prelude::*;

pub mod aligned;
pub mod iter;
pub mod packed;

pub use iter::UnthBufIter;

verus! {

use vstd::pervasive::VecAdditionalExecFns;

/// The number of bits a single cell can hold.
pub const BITS_PER_CELL: u8 = 64;

/// Relies on `core::marker::PhantomData`'s `Clone`, which returns the
/// only value of the type; the derived `Clone` of [`UnthBuf`] calls it
/// for its layout-marker field.
pub assume_specification<T: core::marker::PointeeSized>[ <core::marker::PhantomData<T> as Clone>::clone ](
    v: &core::marker::PhantomData<T>,
) -> (r: core::marker::PhantomData<T>)
    ensures
        r == *v,
;

/// A [`UnthBuf`] using the [`aligned::AlignedLayout`].
pub type AlignedUnthBuf = UnthBuf<aligned::AlignedLayout>;

/// A [`UnthBuf`] using the [`packed::PackedLayout`].
pub type PackedUnthBuf = UnthBuf<packed::PackedLayout>;

/// The ways an indexed write can be refused. Both conditions are caller
/// errors; the buffer is left unmodified when they are reported.
#[derive(Clone, Copy, Debug, PartialEq, Eq, Structural)]
pub enum ErrorKind {
    /// The value has a bit set above position `bits - 1`.
    ValueTooWide,
    /// The index is not below the buffer's capacity.
    IndexOutOfBounds,
}

/// A bitmask of exactly `bits` low set bits: the value mask of an element
/// that is `bits` wide. Zero bits give an empty mask.
pub open spec fn mask_spec(bits: nat) -> u64 {
    if bits == 0 {
        0u64
    } else if bits >= 64 {
        u64::MAX
    } else {
        u64::MAX >> ((64 - bits) as u64)
    }
}

/// How many elements fit in one cell: exact for the aligned layout,
/// advisory for the packed one. Zero bits store nothing.
pub open spec fn elpc_spec(bits: nat) -> nat {
    if bits == 0 {
        0
    } else {
        64nat / bits
    }
}

/// The quotient of `x` by `d`, rounded up.
pub open spec fn div_ceil(x: nat, d: nat) -> nat {
    if x == 0 {
        0
    } else {
        (((x - 1) / (d as int)) + 1) as nat
    }
}

/// For a bit-size between 1 and 64, the element mask is the all-ones
/// cell shifted right by the unused bit count.
pub(crate) proof fn lemma_mask_spec_form(bits: u64)
    requires
        1 <= bits <= 64,
    ensures
        mask_spec(bits as nat) == u64::MAX >> ((64 - bits) as u64),
{
    if bits == 64 {
        assert(u64::MAX >> ((64 - 64u64) as u64) == u64::MAX) by (bit_vector);
    }
}

/// Assorted mask facts: masking zero gives zero, reading a zero cell
/// gives zero, masking is idempotent, and an empty mask blanks anything.
pub(crate) proof fn lemma_mask_facts(x: u64, off: u64, m: u64)
    by (bit_vector)
    ensures
        (0u64 >> off) & m == 0u64,
        0u64 & m == 0u64,
        ((x >> off) & m) & m == (x >> off) & m,
        x & 0u64 == 0u64,
        x | 0u64 == x,
{
}

/// Writing a `bits`-wide value at bit `off` of a cell and reading the
/// same bit range back yields the value again.
pub(crate) proof fn lemma_write_read_same(w: u64, w2: u64, v: u64, bits: u64, off: u64, m: u64)
    by (bit_vector)
    requires
        1 <= bits <= 64,
        off + bits <= 64,
        m == u64::MAX >> ((64 - bits) as u64),
        v & m == v,
        w2 == (w & !(m << off)) | (v << off),
    ensures
        (w2 >> off) & m == v,
{
}

/// Writing a `bits`-wide value at bit `off` of a cell leaves any other
/// `bits`-wide range of the cell that does not overlap it unchanged.
pub(crate) proof fn lemma_write_read_other(
    w: u64,
    w2: u64,
    v: u64,
    bits: u64,
    off: u64,
    off2: u64,
    m: u64,
)
    by (bit_vector)
    requires
        1 <= bits <= 64,
        off + bits <= 64,
        off2 + bits <= 64,
        off2 + bits <= off || off + bits <= off2,
        m == u64::MAX >> ((64 - bits) as u64),
        v & m == v,
        w2 == (w & !(m << off)) | (v << off),
    ensures
        (w2 >> off2) & m == (w >> off2) & m,
{
}

/// Masking a cell in place and then shifting is the same as shifting
/// and then masking, for a `bits`-wide range that lies inside the cell.
pub(crate) proof fn lemma_masked_extract(w: u64, bits: u64, off: u64, m: u64)
    by (bit_vector)
    requires
        1 <= bits <= 64,
        off + bits <= 64,
        m == u64::MAX >> ((64 - bits) as u64),
    ensures
        (w & (m << off)) >> off == (w >> off) & m,
{
}

/// A structure that holds a fixed buffer of `bits`-sized unsigned integer
/// elements.
///
/// If the bit-size is `0`, the buffer is degenerate: no cells are
/// allocated, every read returns `0`, and only `0` can be written.
#[derive(Clone)]
pub struct UnthBuf<CL: CellLayout> {
    /// Capacity of the buffer.
    pub capacity: usize,
    /// Buffer of cells, containing `bits`-sized unsigned integer elements.
    pub data: Vec<u64>,
    /// Bit-size of an individual element in `data`.
    pub bits: u8,
    /// Mask of bits covering a single element.
    pub mask: u64,
    /// Elements per cell; exact when aligned, advisory when packed.
    pub elpc: u8,
    /// Marker for the cell layout.
    pub cell_layout: core::marker::PhantomData<CL>,
}

/// The internal layout of the cells held by an [`UnthBuf`].
pub trait CellLayout: Sized + Clone + Copy {
    /// Type representing an element's location.
    type Location;

    /// The number of cells a buffer with this layout allocates for
    /// `capacity` elements of `bits` bits each.
    spec fn spec_cell_count(capacity: nat, bits: nat) -> nat;

    /// The exact number of bits this layout stores, excluding padding.
    spec fn spec_exact_bit_count(capacity: nat, bits: nat) -> nat;

    /// The element value that `cells` holds at `index` under this layout:
    /// the mathematical meaning of the buffer's raw cells.
    spec fn spec_element(cells: Seq<u64>, bits: nat, index: nat) -> u64;

    /// The location this layout computes for `index`.
    spec fn spec_location_of(buf: UnthBuf<Self>, index: nat) -> Self::Location;

    /// A buffer never allocates more cells than it has elements.
    proof fn lemma_cell_count_le_capacity(capacity: nat, bits: nat)
        requires
            1 <= capacity,
            bits <= 64,
        ensures
            Self::spec_cell_count(capacity, bits) <= capacity,
    ;

    /// The stored bits never outnumber the allocated bits.
    proof fn lemma_exact_le_total(capacity: nat, bits: nat)
        requires
            1 <= capacity,
            bits <= 64,
        ensures
            Self::spec_exact_bit_count(capacity, bits) <= Self::spec_cell_count(capacity, bits)
                * 64,
    ;

    /// All-zero cells hold the element `0` at every index.
    proof fn lemma_element_of_zeros(cells: Seq<u64>, bits: nat, index: nat)
        requires
            bits <= 64,
            forall|j: int| 0 <= j < cells.len() ==> cells[j] == 0u64,
        ensures
            Self::spec_element(cells, bits, index) == 0u64,
    ;

    /// Every stored element fits in `bits` bits.
    proof fn lemma_element_fits(cells: Seq<u64>, bits: nat, index: nat)
        requires
            bits <= 64,
        ensures
            Self::spec_element(cells, bits, index) & mask_spec(bits) == Self::spec_element(
                cells,
                bits,
                index,
            ),
    ;

    /// Returns the number of cells needed to fit `capacity` elements of
    /// `bits` bits each.
    fn get_cell_count(capacity: usize, bits: u8) -> (count: usize)
        requires
            1 <= capacity,
            bits <= 64,
            capacity * 64 <= usize::MAX,
        ensures
            count == Self::spec_cell_count(capacity as nat, bits as nat),
    ;

    /// Returns the exact number of bits that are stored, excluding padding.
    fn get_exact_bit_count(buf: &UnthBuf<Self>) -> (count: usize)
        requires
            1 <= buf.capacity,
            buf.bits <= 64,
            buf.capacity * 64 <= usize::MAX,
            buf.data@.len() == Self::spec_cell_count(buf.capacity as nat, buf.bits as nat),
        ensures
            count == Self::spec_exact_bit_count(buf.capacity as nat, buf.bits as nat),
    ;

    /// Calculates the exact location of the given index.
    fn location_of(buf: &UnthBuf<Self>, index: usize) -> (loc: Self::Location)
        requires
            1 <= buf.capacity,
            buf.bits <= 64,
            buf.capacity * 64 <= usize::MAX,
            buf.mask == mask_spec(buf.bits as nat),
            buf.elpc == elpc_spec(buf.bits as nat),
            buf.data@.len() == Self::spec_cell_count(buf.capacity as nat, buf.bits as nat),
            index < buf.capacity,
        ensures
            loc == Self::spec_location_of(*buf, index as nat),
    ;

    /// Stores the given value at the given index in the buffer. The caller
    /// must have checked the index and pre-validated the value's width.
    fn set_unchecked(buf: &mut UnthBuf<Self>, index: usize, value: u64)
        requires
            1 <= old(buf).capacity,
            old(buf).bits <= 64,
            old(buf).capacity * 64 <= usize::MAX,
            old(buf).mask == mask_spec(old(buf).bits as nat),
            old(buf).elpc == elpc_spec(old(buf).bits as nat),
            old(buf).data@.len() == Self::spec_cell_count(
                old(buf).capacity as nat,
                old(buf).bits as nat,
            ),
            index < old(buf).capacity,
            value & old(buf).mask == value,
        ensures
            final(buf).capacity == old(buf).capacity,
            final(buf).bits == old(buf).bits,
            final(buf).mask == old(buf).mask,
            final(buf).elpc == old(buf).elpc,
            final(buf).data@.len() == old(buf).data@.len(),
            Self::spec_element(final(buf).data@, old(buf).bits as nat, index as nat) == value,
            forall|j: nat|
                j < old(buf).capacity && j != index ==> #[trigger] Self::spec_element(
                    final(buf).data@,
                    old(buf).bits as nat,
                    j,
                ) == Self::spec_element(old(buf).data@, old(buf).bits as nat, j),
    ;

    /// Retrieves the value at the given index from the buffer. The caller
    /// must have checked the index.
    fn get_unchecked(buf: &UnthBuf<Self>, index: usize) -> (value: u64)
        requires
            1 <= buf.capacity,
            buf.bits <= 64,
            buf.capacity * 64 <= usize::MAX,
            buf.mask == mask_spec(buf.bits as nat),
            buf.elpc == elpc_spec(buf.bits as nat),
            buf.data@.len() == Self::spec_cell_count(buf.capacity as nat, buf.bits as nat),
            index < buf.capacity,
        ensures
            value == Self::spec_element(buf.data@, buf.bits as nat, index as nat),
    ;
}

impl<CL: CellLayout> View for UnthBuf<CL> {
    type V = Seq<u64>;

    open spec fn view(&self) -> Seq<u64> {
        self.contents()
    }
}

impl<CL: CellLayout> UnthBuf<CL> {
    /// The abstract contents: the sequence of element values the buffer
    /// currently holds, one for each valid index.
    pub open spec fn contents(&self) -> Seq<u64> {
        Seq::new(
            self.capacity as nat,
            |i: int| CL::spec_element(self.data@, self.bits as nat, i as nat),
        )
    }

    /// The layout-independent part of well-formedness: the capacity is
    /// positive, the bit-size fits a cell, the buffer's bit total fits
    /// comfortably in a `usize`, and the cached constants match the
    /// bit-size.
    pub open spec fn params_ok(&self) -> bool {
        &&& 1 <= self.capacity
        &&& self.bits <= 64
        &&& self.capacity * 64 <= usize::MAX
        &&& self.mask == mask_spec(self.bits as nat)
        &&& self.elpc == elpc_spec(self.bits as nat)
    }

    /// Well-formedness: the derived constants match the bit-size, and the
    /// backing length is exactly the layout's cell count.
    pub open spec fn wf(&self) -> bool {
        &&& self.params_ok()
        &&& self.data@.len() == CL::spec_cell_count(self.capacity as nat, self.bits as nat)
    }

    /// The total number of allocated bits, including all padding.
    pub open spec fn spec_total_bit_count(&self) -> nat {
        self.data@.len() * 64
    }

    /// The exact number of stored bits, excluding any padding.
    pub open spec fn spec_exact_bit_count(&self) -> nat {
        CL::spec_exact_bit_count(self.capacity as nat, self.bits as nat)
    }

    /// The number of allocated bits that are padding.
    pub open spec fn spec_padding_bit_count(&self) -> nat {
        (self.spec_total_bit_count() - self.spec_exact_bit_count()) as nat
    }

    /// Creates a new [`UnthBuf`] with the given `capacity` and `bits`-size,
    /// filled with `0`.
    ///
    /// The capacity must not be zero, the bit-size must not exceed the
    /// cell width, and the requested bit total must fit in a `usize`;
    /// violating any of these is a construction-time caller error that no
    /// buffer can be returned for.
    pub fn new(bits: u8, capacity: usize) -> (buf: Self)
        requires
            1 <= capacity,
            bits <= 64,
            capacity * 64 <= usize::MAX,
        ensures
            buf.wf(),
            buf.bits == bits,
            buf.capacity == capacity,
            buf@ == Seq::new(capacity as nat, |i: int| 0u64),
    {
        let size = CL::get_cell_count(capacity, bits);
        let mut data: Vec<u64> = Vec::new();
        while data.len() < size
            invariant
                data@.len() <= size,
                forall|j: int| 0 <= j < data@.len() ==> data@[j] == 0u64,
            decreases size - data@.len(),
        {
            data.push(0u64);
        }
        let mask = Self::mask_from_bits(bits);
        let elpc: u8 = if bits == 0 {
            0
        } else {
            BITS_PER_CELL / bits
        };
        let buf = UnthBuf {
            capacity,
            data,
            bits,
            mask,
            elpc,
            cell_layout: core::marker::PhantomData,
        };
        proof {
            assert forall|i: int| 0 <= i < capacity implies buf.contents()[i] == 0u64 by {
                CL::lemma_element_of_zeros(buf.data@, bits as nat, i as nat);
            }
            assert(buf.contents() =~= Seq::new(capacity as nat, |i: int| 0u64));
        }
        buf
    }

    /// Gets the capacity of this buffer: how many elements are stored
    /// within.
    pub fn get_capacity(&self) -> (capacity: usize)
        ensures
            capacity == self.capacity,
    {
        self.capacity
    }

    /// Gets a range of all valid indices of this buffer; the same as
    /// `0..get_capacity()`.
    pub fn get_indices(&self) -> (indices: core::ops::Range<usize>)
        ensures
            indices.start == 0,
            indices.end == self.capacity,
    {
        0..self.capacity
    }

    /// Returns the total number of bits allocated by this buffer,
    /// including all padding.
    pub fn get_total_bit_count(&self) -> (count: usize)
        requires
            self.wf(),
        ensures
            count == self.spec_total_bit_count(),
    {
        proof {
            CL::lemma_cell_count_le_capacity(self.capacity as nat, self.bits as nat);
        }
        self.data.len() * (BITS_PER_CELL as usize)
    }

    /// Returns the exact number of bits that are stored, excluding any
    /// padding.
    pub fn get_exact_bit_count(&self) -> (count: usize)
        requires
            self.wf(),
        ensures
            count == self.spec_exact_bit_count(),
    {
        CL::get_exact_bit_count(self)
    }

    /// Returns the number of allocated bits that are padding.
    pub fn get_padding_bit_count(&self) -> (count: usize)
        requires
            self.wf(),
        ensures
            count == self.spec_padding_bit_count(),
    {
        proof {
            CL::lemma_exact_le_total(self.capacity as nat, self.bits as nat);
        }
        self.get_total_bit_count() - self.get_exact_bit_count()
    }

    /// Returns a reference to the raw backing buffer of cells.
    pub fn raw(&self) -> (cells: &[u64])
        ensures
            cells@ == self.data@,
    {
        self.data.as_slice()
    }

    /// Returns a mutable reference to the raw backing buffer of cells.
    ///
    /// This is an escape hatch: writing through it changes the stored
    /// elements, and shrinking or growing it breaks well-formedness.
    pub fn raw_mut(&mut self) -> (cells: &mut Vec<u64>)
        ensures
            cells@ == old(self).data@,
            final(self).data@ == final(cells)@,
            final(self).capacity == old(self).capacity,
            final(self).bits == old(self).bits,
            final(self).mask == old(self).mask,
            final(self).elpc == old(self).elpc,
    {
        &mut self.data
    }

    /// Gets the length of the backing buffer, in cells.
    pub fn raw_len(&self) -> (len: usize)
        ensures
            len == self.data@.len(),
    {
        self.data.len()
    }

    /// Gets the length of the backing buffer, in bytes.
    pub fn raw_byte_len(&self) -> (len: usize)
        requires
            self.wf(),
        ensures
            len == self.data@.len() * 8,
    {
        proof {
            CL::lemma_cell_count_le_capacity(self.capacity as nat, self.bits as nat);
        }
        self.data.len() * ((BITS_PER_CELL / 8) as usize)
    }

    /// Checks if the given value can be stored in this buffer.
    pub fn can_element_fit(&self, value: u64) -> (fits: bool)
        ensures
            fits == (value & self.mask == value),
    {
        (value & self.mask) == value
    }

    /// Returns the bitmask that is used to check if elements can fit in
    /// this buffer; see [`Self::can_element_fit`].
    pub fn get_element_mask(&self) -> (mask: u64)
        ensures
            mask == self.mask,
    {
        self.mask
    }

    /// Returns the bit-size of the individual elements in this buffer.
    pub fn get_element_bits(&self) -> (bits: u8)
        ensures
            bits == self.bits,
    {
        self.bits
    }

    /// Is the given index (`0..capacity`) valid for this buffer?
    pub fn is_index(&self, index: usize) -> (valid: bool)
        ensures
            valid == (index < self.capacity),
    {
        index < self.capacity
    }

    /// Is the given cell-id (`0..raw_len()`) valid for this buffer? That
    /// is: does it point inside the *backing buffer*?
    pub fn is_cell(&self, cell: usize) -> (valid: bool)
        ensures
            valid == (cell < self.data@.len()),
    {
        cell < self.data.len()
    }

    /// Returns the location of the element at the given `index`.
    pub fn location_of(&self, index: usize) -> (loc: CL::Location)
        requires
            self.wf(),
            index < self.capacity,
        ensures
            loc == CL::spec_location_of(*self, index as nat),
    {
        CL::location_of(self, index)
    }

    /// Fills the buffer with the given value, which must fit; filling
    /// with `0` takes the bulk-zero fast path.
    pub fn fill_with(&mut self, value: u64)
        requires
            old(self).wf(),
            value & old(self).mask == value,
        ensures
            final(self).wf(),
            final(self).capacity == old(self).capacity,
            final(self).bits == old(self).bits,
            final(self)@ == Seq::new(old(self).capacity as nat, |i: int| value),
    {
        if value == 0 {
            self.fill_with_default();
            proof {
                assert(self@ =~= Seq::new(old(self).capacity as nat, |i: int| value));
            }
            return ;
        }
        let capacity = self.capacity;
        let mut index: usize = 0;
        while index < capacity
            invariant
                self.wf(),
                self.capacity == capacity,
                self.bits == old(self).bits,
                self.mask == old(self).mask,
                value & self.mask == value,
                index <= capacity,
                self@ == Seq::new(
                    capacity as nat,
                    |i: int| if i < index { value } else { old(self)@[i] },
                ),
            decreases capacity - index,
        {
            self.set_unchecked(index, value);
            index = index + 1;
            proof {
                assert(self@ =~= Seq::new(
                    capacity as nat,
                    |i: int| if i < index { value } else { old(self)@[i] },
                ));
            }
        }
        proof {
            assert(self@ =~= Seq::new(capacity as nat, |i: int| value));
        }
    }

    /// Fills the buffer with `0`, clearing everything: the fastest
    /// possible reset.
    pub fn fill_with_default(&mut self)
        requires
            old(self).wf(),
        ensures
            final(self).wf(),
            final(self).capacity == old(self).capacity,
            final(self).bits == old(self).bits,
            final(self)@ == Seq::new(old(self).capacity as nat, |i: int| 0u64),
    {
        let len = self.data.len();
        let mut cell: usize = 0;
        while cell < len
            invariant
                self.capacity == old(self).capacity,
                self.bits == old(self).bits,
                self.mask == old(self).mask,
                self.elpc == old(self).elpc,
                self.data@.len() == old(self).data@.len(),
                len == self.data@.len(),
                cell <= len,
                forall|j: int| 0 <= j < cell ==> self.data@[j] == 0u64,
            decreases len - cell,
        {
            self.data.set(cell, 0u64);
            cell = cell + 1;
        }
        proof {
            assert forall|i: int| 0 <= i < self.capacity implies self.contents()[i] == 0u64 by {
                CL::lemma_element_of_zeros(self.data@, self.bits as nat, i as nat);
            }
            assert(self@ =~= Seq::new(old(self).capacity as nat, |i: int| 0u64));
        }
    }

    /// Fills the buffer front-to-back with the values of the given slice:
    /// as many as fit. Excess values are discarded, and slots past the
    /// slice's length keep their old contents. Every value that is
    /// written must fit in `bits` bits.
    pub fn fill_from(&mut self, values: &[u64])
        requires
            old(self).wf(),
            forall|i: int|
                0 <= i < values@.len() && i < old(self).capacity ==> values@[i] & old(
                    self,
                ).mask == values@[i],
        ensures
            final(self).wf(),
            final(self).capacity == old(self).capacity,
            final(self).bits == old(self).bits,
            final(self)@ == Seq::new(
                old(self).capacity as nat,
                |i: int| if i < values@.len() { values@[i] } else { old(self)@[i] },
            ),
    {
        let capacity = self.capacity;
        let count = if values.len() < capacity {
            values.len()
        } else {
            capacity
        };
        let mut index: usize = 0;
        while index < count
            invariant
                self.wf(),
                self.capacity == capacity,
                self.bits == old(self).bits,
                self.mask == old(self).mask,
                count <= capacity,
                count <= values@.len(),
                index <= count,
                forall|i: int|
                    0 <= i < values@.len() && i < capacity ==> values@[i] & self.mask
                        == values@[i],
                self@ == Seq::new(
                    capacity as nat,
                    |i: int| if i < index { values@[i] } else { old(self)@[i] },
                ),
            decreases count - index,
        {
            let value = values[index];
            self.set_unchecked(index, value);
            index = index + 1;
            proof {
                assert(self@ =~= Seq::new(
                    capacity as nat,
                    |i: int| if i < index { values@[i] } else { old(self)@[i] },
                ));
            }
        }
        proof {
            assert(self@ =~= Seq::new(
                capacity as nat,
                |i: int| if i < values@.len() { values@[i] } else { old(self)@[i] },
            ));
        }
    }

    /// Creates a new [`UnthBuf`] from the given slice and `bits`-size,
    /// with one slot for each of its values. The slice must not be empty.
    pub fn new_from_sized_iter(bits: u8, values: &[u64]) -> (buf: Self)
        requires
            1 <= values@.len(),
            bits <= 64,
            values@.len() * 64 <= usize::MAX,
            forall|i: int| 0 <= i < values@.len() ==> values@[i] & mask_spec(bits as nat)
                == values@[i],
        ensures
            buf.wf(),
            buf.bits == bits,
            buf.capacity == values@.len(),
            buf@ == values@,
    {
        let mut buf = Self::new(bits, values.len());
        buf.fill_from(values);
        proof {
            assert(buf@ =~= values@);
        }
        buf
    }

    /// Creates a new [`UnthBuf`] with the given `capacity` and
    /// `bits`-size, filling it with as many values from the slice as fit;
    /// remaining slots stay `0`, excess values are discarded.
    pub fn new_from_capacity_and_iter(bits: u8, capacity: usize, values: &[u64]) -> (buf: Self)
        requires
            1 <= capacity,
            bits <= 64,
            capacity * 64 <= usize::MAX,
            forall|i: int|
                0 <= i < values@.len() && i < capacity ==> values@[i] & mask_spec(bits as nat)
                    == values@[i],
        ensures
            buf.wf(),
            buf.bits == bits,
            buf.capacity == capacity,
            buf@ == Seq::new(
                capacity as nat,
                |i: int| if i < values@.len() { values@[i] } else { 0u64 },
            ),
    {
        let mut buf = Self::new(bits, capacity);
        buf.fill_from(values);
        proof {
            assert(buf@ =~= Seq::new(
                capacity as nat,
                |i: int| if i < values@.len() { values@[i] } else { 0u64 },
            ));
        }
        buf
    }

    /// Creates a new [`UnthBuf`] with the given `capacity` and
    /// `bits`-size, filling it with the provided `default_value`, which
    /// must fit in `bits` bits.
    pub fn new_with_default(bits: u8, capacity: usize, default_value: u64) -> (buf: Self)
        requires
            1 <= capacity,
            bits <= 64,
            capacity * 64 <= usize::MAX,
            default_value & mask_spec(bits as nat) == default_value,
        ensures
            buf.wf(),
            buf.bits == bits,
            buf.capacity == capacity,
            buf@ == Seq::new(capacity as nat, |i: int| default_value),
    {
        let mut buf = Self::new(bits, capacity);
        // The buffer is already zero-filled at creation.
        if default_value != 0 {
            buf.fill_with(default_value);
        } else {
            proof {
                assert(buf@ =~= Seq::new(capacity as nat, |i: int| default_value));
            }
        }
        buf
    }

    /// Tries to set the element at the given `index` to the provided
    /// `value`.
    ///
    /// # Errors
    /// - [`ErrorKind::ValueTooWide`] if the value does not fit; check with
    ///   [`Self::can_element_fit`].
    /// - [`ErrorKind::IndexOutOfBounds`] if the index is out of bounds;
    ///   check with [`Self::is_index`].
    pub fn set(&mut self, index: usize, value: u64) -> (result: Result<(), ErrorKind>)
        requires
            old(self).wf(),
        ensures
            final(self).wf(),
            final(self).capacity == old(self).capacity,
            final(self).bits == old(self).bits,
            value & old(self).mask != value ==> result == Err::<(), ErrorKind>(
                ErrorKind::ValueTooWide,
            ) && *final(self) == *old(self),
            value & old(self).mask == value && index >= old(self).capacity
                ==> result == Err::<(), ErrorKind>(ErrorKind::IndexOutOfBounds) && *final(self)
                == *old(self),
            value & old(self).mask == value && index < old(self).capacity
                ==> result == Ok::<(), ErrorKind>(()) && final(self)@ == old(self)@.update(
                index as int,
                value,
            ),
    {
        if !self.can_element_fit(value) {
            return Err(ErrorKind::ValueTooWide);
        }
        if !self.is_index(index) {
            return Err(ErrorKind::IndexOutOfBounds);
        }
        self.set_unchecked(index, value);
        Ok(())
    }

    /// Sets the element at the given `index` to the provided `value`,
    /// *without* checking bounds or width: the caller must have proved
    /// the index valid (see [`Self::is_index`]) and the value fitting
    /// (see [`Self::can_element_fit`]).
    pub fn set_unchecked(&mut self, index: usize, value: u64)
        requires
            old(self).wf(),
            index < old(self).capacity,
            value & old(self).mask == value,
        ensures
            final(self).wf(),
            final(self).capacity == old(self).capacity,
            final(self).bits == old(self).bits,
            final(self)@ == old(self)@.update(index as int, value),
    {
        CL::set_unchecked(self, index, value);
        proof {
            assert forall|i: int| 0 <= i < self.capacity implies self.contents()[i] == old(
                self,
            )@.update(index as int, value)[i] by {
                if i != index {
                    assert(CL::spec_element(self.data@, self.bits as nat, i as nat)
                        == CL::spec_element(old(self).data@, self.bits as nat, i as nat));
                }
            }
            assert(self@ =~= old(self)@.update(index as int, value));
        }
    }

    /// Returns the element at the given `index`; out-of-bounds access
    /// returns [`Option::None`].
    pub fn get(&self, index: usize) -> (result: Option<u64>)
        requires
            self.wf(),
        ensures
            index < self.capacity ==> result == Some(self@[index as int]),
            index >= self.capacity ==> result == None::<u64>,
    {
        if !self.is_index(index) {
            return None;
        }
        Some(CL::get_unchecked(self, index))
    }

    /// Returns the element at the given `index`, *without* checking
    /// bounds: the caller must have proved the index valid (see
    /// [`Self::is_index`]).
    pub fn get_unchecked(&self, index: usize) -> (value: u64)
        requires
            self.wf(),
            index < self.capacity,
        ensures
            value == self@[index as int],
    {
        CL::get_unchecked(self, index)
    }

    /// Returns a LSB-first bitmask of the given bit-length, which must
    /// not exceed the cell width. Zero bits give an empty mask.
    pub(crate) fn mask_from_bits(bits: u8) -> (mask: u64)
        requires
            bits <= 64,
        ensures
            mask == mask_spec(bits as nat),
    {
        if bits == 0 {
            return 0;
        }
        if bits == BITS_PER_CELL {
            return u64::MAX;
        }
        assert((1u64 << bits) >= 1 && (1u64 << bits) - 1 == u64::MAX >> ((64 - bits) as u64))
            by (bit_vector)
            requires
                1 <= bits && bits < 64,
        ;
        (1u64 << bits) - 1
    }
}

/// Every element a well-formed buffer holds fits in its element mask: no
/// sign bits, no overflow beyond `bits`.
pub proof fn lemma_contents_fit<CL: CellLayout>(buf: UnthBuf<CL>, index: int)
    requires
        buf.wf(),
        0 <= index < buf@.len(),
    ensures
        buf@[index] & buf.mask == buf@[index],
{
    CL::lemma_element_fits(buf.data@, buf.bits as nat, index as nat);
}

/// Round-trip: writing `value` at `index` (as `set` and `set_unchecked`
/// relate a buffer to its updated view) makes `index` read back exactly
/// `value` (as `get` and `get_unchecked` read the view), and leaves every
/// other index unchanged.
pub proof fn lemma_round_trip<CL: CellLayout>(
    before: UnthBuf<CL>,
    after: UnthBuf<CL>,
    index: usize,
    value: u64,
)
    requires
        before.wf(),
        index < before.capacity,
        value & before.mask == value,
        after@ == before@.update(index as int, value),
    ensures
        after@.len() == before@.len(),
        after@[index as int] == value,
        forall|j: int| 0 <= j < before@.len() && j != index ==> after@[j] == before@[j],
{
}

/// Bit accounting: the exact (stored) bits and the padding bits together
/// are the total allocated bits, for either layout.
pub proof fn lemma_bit_accounting<CL: CellLayout>(buf: UnthBuf<CL>)
    requires
        buf.wf(),
    ensures
        buf.spec_exact_bit_count() + buf.spec_padding_bit_count() == buf.spec_total_bit_count(),
{
    CL::lemma_exact_le_total(buf.capacity as nat, buf.bits as nat);
}

/// Applies a sequence of indexed writes to an abstract buffer content.
pub open spec fn apply_sets(s: Seq<u64>, ops: Seq<(usize, u64)>) -> Seq<u64>
    decreases ops.len(),
{
    if ops.len() == 0 {
        s
    } else {
        apply_sets(s.update(ops[0].0 as int, ops[0].1), ops.subrange(1, ops.len() as int))
    }
}

/// Layout equivalence: an aligned and a packed buffer of the same
/// bit-size and capacity that went through the same history of writes
/// (each buffer starts as the all-zero view `new` ensures, and each write
/// updates the view as `set` and `set_unchecked` ensure) produce the same
/// `get` results at every index, however their raw cells may differ.
pub proof fn lemma_layout_equivalence(
    aligned_buf: UnthBuf<aligned::AlignedLayout>,
    packed_buf: UnthBuf<packed::PackedLayout>,
    ops: Seq<(usize, u64)>,
)
    requires
        aligned_buf.capacity == packed_buf.capacity,
        aligned_buf@ == apply_sets(
            Seq::new(aligned_buf.capacity as nat, |i: int| 0u64),
            ops,
        ),
        packed_buf@ == apply_sets(Seq::new(packed_buf.capacity as nat, |i: int| 0u64), ops),
    ensures
        aligned_buf@ == packed_buf@,
{
    assert(Seq::new(aligned_buf.capacity as nat, |i: int| 0u64) =~= Seq::new(
        packed_buf.capacity as nat,
        |i: int| 0u64,
    ));
}

} // verus!
