use unthbuf::aligned::AlignedLayout;
use unthbuf::packed::PackedLayout;
use unthbuf::{ErrorKind, UnthBuf};

const PRIMES: &[u64] = &[
    2,
    5,
    13,
    29,
    61,
    113,
    251,
    509,
    1021,
    2039,
    4093,
    8179,
    16381,
    32749,
    65521,
    131063,
    262139,
    524269,
    1048573,
    2097143,
    4194301,
    8388593,
    16777213,
    33554393,
    67108859,
    134217689,
    268435399,
    536870909,
    1073741789,
    2147483629,
    4294967291,
    8589934583,
    17179869143,
    34359738337,
    68719476731,
    137438953447,
    274877906899,
    549755813881,
    1099511627689,
    2199023255531,
    4398046511093,
    8796093022151,
    17592186044399,
    35184372088777,
    70368744177643,
    140737488355213,
    281474976710597,
    562949953421231,
    1125899906842597,
    2251799813685119,
    4503599627370449,
    9007199254740881,
    18014398509481951,
    36028797018963913,
    72057594037927931,
    144115188075855859,
    288230376151711717,
    576460752303423433,
    1152921504606846883,
    2305843009213693921,
    4611686018427387847,
    9223372036854775783,
    18446744073709551557,
];

fn test_primes() -> Vec<u64> {
    let mut values: Vec<u64> = PRIMES.to_vec();
    for b in 1..64u32 {
        values.push(2u64.pow(b) - 1);
    }
    values
}

#[test]
fn aligned_setget() {
    for prime in test_primes() {
        let bits: u8 = match prime.checked_next_power_of_two() {
            Some(pot) => pot.trailing_zeros() as u8 + 1,
            None => 64,
        };

        let fill = vec![prime; 4096];
        let mut buf = UnthBuf::<AlignedLayout>::new_from_capacity_and_iter(bits, 4096, &fill);
        if !buf.can_element_fit(prime) {
            continue;
        }

        for idx in buf.get_indices() {
            let in_prime = prime;
            buf.set(idx, in_prime).unwrap();
            let out_prime = buf.get(idx).unwrap();
            assert_eq!(in_prime, out_prime, "{bits} bits, index {idx}");
        }
    }
}

#[test]
fn unaligned_setget() {
    for prime in test_primes() {
        let bits: u8 = match prime.checked_next_power_of_two() {
            Some(pot) => (pot - 1).count_ones() as u8,
            None => 64,
        };

        let fill = vec![prime; 4096];
        let mut buf = UnthBuf::<PackedLayout>::new_from_capacity_and_iter(bits, 4096, &fill);
        if !buf.can_element_fit(prime) {
            continue;
        }

        for idx in buf.get_indices() {
            let in_prime = prime;
            buf.set(idx, in_prime).unwrap();
            let out_prime = buf.get(idx).unwrap();
            assert_eq!(in_prime, out_prime, "{bits} bits, index {idx}");
        }
    }
}

fn mask_of(bits: u8) -> u64 {
    if bits == 0 {
        0
    } else if bits == 64 {
        u64::MAX
    } else {
        (1u64 << bits) - 1
    }
}

#[test]
fn round_trip_every_width_aligned() {
    for bits in 1..=64u8 {
        let mask = mask_of(bits);
        let mut buf = UnthBuf::<AlignedLayout>::new(bits, 9);
        for idx in 0..9usize {
            let value = (0x9E37_79B9_7F4A_7C15u64.wrapping_mul(idx as u64 + 1)) & mask;
            buf.set(idx, value).unwrap();
            assert_eq!(buf.get(idx), Some(value));
        }
        // a second pass: earlier writes were not disturbed by later ones
        for idx in 0..9usize {
            let value = (0x9E37_79B9_7F4A_7C15u64.wrapping_mul(idx as u64 + 1)) & mask;
            assert_eq!(buf.get(idx), Some(value), "{bits} bits, index {idx}");
        }
    }
}

#[test]
fn round_trip_every_width_packed() {
    for bits in 1..=64u8 {
        let mask = mask_of(bits);
        let mut buf = UnthBuf::<PackedLayout>::new(bits, 9);
        for idx in 0..9usize {
            let value = (0x9E37_79B9_7F4A_7C15u64.wrapping_mul(idx as u64 + 1)) & mask;
            buf.set(idx, value).unwrap();
            assert_eq!(buf.get(idx), Some(value));
        }
        for idx in 0..9usize {
            let value = (0x9E37_79B9_7F4A_7C15u64.wrapping_mul(idx as u64 + 1)) & mask;
            assert_eq!(buf.get(idx), Some(value), "{bits} bits, index {idx}");
        }
    }
}

#[test]
fn width_rejection_leaves_buffer_unchanged() {
    let mut buf = UnthBuf::<AlignedLayout>::new(3, 4);
    buf.set(2, 6).unwrap();
    assert_eq!(buf.set(2, 8), Err(ErrorKind::ValueTooWide));
    assert_eq!(buf.set(0, u64::MAX), Err(ErrorKind::ValueTooWide));
    assert_eq!(buf.get(0), Some(0));
    assert_eq!(buf.get(1), Some(0));
    assert_eq!(buf.get(2), Some(6));
    assert_eq!(buf.get(3), Some(0));

    let mut packed = UnthBuf::<PackedLayout>::new(7, 4);
    assert_eq!(packed.set(1, 128), Err(ErrorKind::ValueTooWide));
    assert_eq!(packed.get(1), Some(0));
}

#[test]
fn bounds_rejection() {
    let mut buf = UnthBuf::<PackedLayout>::new(11, 5);
    assert_eq!(buf.get(5), None);
    assert_eq!(buf.get(usize::MAX), None);
    assert_eq!(buf.set(5, 1), Err(ErrorKind::IndexOutOfBounds));
    assert_eq!(buf.set(usize::MAX, 0), Err(ErrorKind::IndexOutOfBounds));
    // a value that is both too wide and out of bounds: width is checked first
    assert_eq!(buf.set(5, 1 << 12), Err(ErrorKind::ValueTooWide));
    for idx in buf.get_indices() {
        assert_eq!(buf.get(idx), Some(0));
    }
}

#[test]
fn zero_fill_idempotence() {
    let mut buf = UnthBuf::<AlignedLayout>::new(6, 40);
    buf.fill_with(63);
    for idx in buf.get_indices() {
        assert_eq!(buf.get(idx), Some(63));
    }
    buf.fill_with_default();
    for idx in buf.get_indices() {
        assert_eq!(buf.get(idx), Some(0));
    }
    // filling with zero takes the same fast path
    buf.fill_with(21);
    buf.fill_with(0);
    for idx in buf.get_indices() {
        assert_eq!(buf.get(idx), Some(0));
    }
}

#[test]
fn cross_boundary_packed() {
    // 5-bit elements in 64-bit cells: several elements straddle two cells
    let mut buf = UnthBuf::<PackedLayout>::new(5, 64);
    for idx in 0..64usize {
        let value = (idx % 32) as u64;
        buf.set(idx, value).unwrap();
    }
    for idx in 0..64usize {
        let value = (idx % 32) as u64;
        assert_eq!(buf.get(idx), Some(value), "index {idx}");
    }
    // the indices whose bit range ends within 5 bits of a cell boundary
    for idx in [12usize, 25, 38, 51] {
        assert!((idx * 5) % 64 + 5 > 64);
        assert_eq!(buf.get(idx), Some((idx % 32) as u64), "straddling index {idx}");
    }
}

#[test]
fn layout_equivalence() {
    let values: [u64; 10] = [1, 2, 3, 4, 5, 6, 7, 0, 1, 2];
    let mut aligned = UnthBuf::<AlignedLayout>::new(3, 10);
    let mut packed = UnthBuf::<PackedLayout>::new(3, 10);
    for (idx, value) in values.iter().enumerate() {
        aligned.set(idx, *value).unwrap();
        packed.set(idx, *value).unwrap();
    }
    for idx in 0..10usize {
        assert_eq!(aligned.get(idx), packed.get(idx), "index {idx}");
        assert_eq!(aligned.get(idx), Some(values[idx]));
    }

    // a width that does not divide the cell width: the backing cells
    // differ between the layouts, the visible elements do not
    let mut aligned5 = UnthBuf::<AlignedLayout>::new(5, 64);
    let mut packed5 = UnthBuf::<PackedLayout>::new(5, 64);
    for idx in 0..64usize {
        aligned5.set(idx, (idx % 32) as u64).unwrap();
        packed5.set(idx, (idx % 32) as u64).unwrap();
    }
    assert_ne!(aligned5.raw(), packed5.raw());
    for idx in 0..64usize {
        assert_eq!(aligned5.get(idx), packed5.get(idx), "index {idx}");
    }
}

#[test]
fn bit_accounting() {
    // aligned, 3-bit elements: one cell holds 21 of them, 1 bit padding
    let buf = UnthBuf::<AlignedLayout>::new(3, 10);
    assert_eq!(buf.raw_len(), 1);
    assert_eq!(buf.get_total_bit_count(), 64);
    assert_eq!(buf.get_exact_bit_count(), 63);
    assert_eq!(buf.get_padding_bit_count(), 1);
    assert_eq!(
        buf.get_exact_bit_count() + buf.get_padding_bit_count(),
        buf.get_total_bit_count()
    );

    // packed, 5 * 64 bits fill exactly five cells: zero padding
    let packed = UnthBuf::<PackedLayout>::new(5, 64);
    assert_eq!(packed.raw_len(), 5);
    assert_eq!(packed.get_total_bit_count(), 320);
    assert_eq!(packed.get_exact_bit_count(), 320);
    assert_eq!(packed.get_padding_bit_count(), 0);

    // packed, a single 5-bit element still allocates one whole cell
    let small = UnthBuf::<PackedLayout>::new(5, 1);
    assert_eq!(small.raw_len(), 1);
    assert_eq!(small.get_total_bit_count(), 64);
    assert_eq!(small.get_exact_bit_count(), 5);
    assert_eq!(small.get_padding_bit_count(), 59);
    assert_eq!(
        small.get_exact_bit_count() + small.get_padding_bit_count(),
        small.get_total_bit_count()
    );
}

#[test]
fn introspection() {
    let buf = UnthBuf::<AlignedLayout>::new(5, 100);
    assert_eq!(buf.get_capacity(), 100);
    assert_eq!(buf.get_element_bits(), 5);
    assert_eq!(buf.get_element_mask(), 0b11111);
    assert_eq!(buf.get_indices(), 0..100);
    // 12 five-bit elements per cell, 100 elements need ceil(100 / 12) = 9 cells
    assert_eq!(buf.raw_len(), 9);
    assert_eq!(buf.raw_byte_len(), 72);
    assert_eq!(buf.raw().len(), 9);
    assert!(buf.is_index(0));
    assert!(buf.is_index(99));
    assert!(!buf.is_index(100));
    assert!(buf.is_cell(8));
    assert!(!buf.is_cell(9));
    assert!(buf.can_element_fit(31));
    assert!(!buf.can_element_fit(32));

    // packed: 100 five-bit elements need ceil(500 / 64) = 8 cells
    let packed = UnthBuf::<PackedLayout>::new(5, 100);
    assert_eq!(packed.raw_len(), 8);
    assert_eq!(packed.raw_byte_len(), 64);
}

#[test]
fn locations() {
    let buf = UnthBuf::<AlignedLayout>::new(16, 20);
    let loc = buf.location_of(5);
    assert_eq!(loc.cell, 1);
    assert_eq!(loc.offset, 16);
    assert_eq!(loc.mask, 0xFFFFu64 << 16);

    let packed = UnthBuf::<PackedLayout>::new(5, 64);
    // element 13 starts at bit 65: inside cell 1, no crossing
    let inside = packed.location_of(13);
    assert_eq!(inside.cell, 1);
    assert_eq!(inside.offset0, 1);
    assert_eq!(inside.offset1, 6);
    assert_eq!(inside.mask0, 0b11111u64 << 1);
    assert_eq!(inside.mask1, 0);
    // element 12 starts at bit 60: its top bit spills into cell 1
    let crossing = packed.location_of(12);
    assert_eq!(crossing.cell, 0);
    assert_eq!(crossing.offset0, 60);
    assert_eq!(crossing.offset1, 1);
    assert_eq!(crossing.mask0, 0b1111u64 << 60);
    assert_eq!(crossing.mask1, 0b1);
}

#[test]
fn constructors() {
    let values: [u64; 5] = [3, 1, 4, 1, 5];
    let buf = UnthBuf::<PackedLayout>::new_from_sized_iter(3, &values);
    assert_eq!(buf.get_capacity(), 5);
    for (idx, value) in values.iter().enumerate() {
        assert_eq!(buf.get(idx), Some(*value));
    }

    // a shorter producer leaves the remaining slots at zero
    let short = UnthBuf::<AlignedLayout>::new_from_capacity_and_iter(3, 8, &values);
    assert_eq!(short.get_capacity(), 8);
    for idx in 5..8usize {
        assert_eq!(short.get(idx), Some(0));
    }
    assert_eq!(short.get(0), Some(3));

    // a longer producer is silently cut off at the capacity
    let long = UnthBuf::<AlignedLayout>::new_from_capacity_and_iter(3, 3, &values);
    assert_eq!(long.get_capacity(), 3);
    assert_eq!(long.get(0), Some(3));
    assert_eq!(long.get(1), Some(1));
    assert_eq!(long.get(2), Some(4));
    assert_eq!(long.get(3), None);

    let defaulted = UnthBuf::<PackedLayout>::new_with_default(7, 6, 99);
    for idx in defaulted.get_indices() {
        assert_eq!(defaulted.get(idx), Some(99));
    }
}

#[test]
fn full_width_elements() {
    let mut buf = UnthBuf::<PackedLayout>::new(64, 3);
    buf.set(0, u64::MAX).unwrap();
    buf.set(1, 0x0123_4567_89AB_CDEF).unwrap();
    assert_eq!(buf.get(0), Some(u64::MAX));
    assert_eq!(buf.get(1), Some(0x0123_4567_89AB_CDEF));
    assert_eq!(buf.get(2), Some(0));
    assert_eq!(buf.get_element_mask(), u64::MAX);
    assert_eq!(buf.get_padding_bit_count(), 0);
}

#[test]
fn zero_width_elements() {
    let mut buf = UnthBuf::<AlignedLayout>::new(0, 5);
    assert_eq!(buf.raw_len(), 0);
    assert_eq!(buf.get_element_mask(), 0);
    assert_eq!(buf.get_total_bit_count(), 0);
    assert_eq!(buf.get_exact_bit_count(), 0);
    assert_eq!(buf.get_padding_bit_count(), 0);
    assert_eq!(buf.get(0), Some(0));
    assert_eq!(buf.get(4), Some(0));
    assert_eq!(buf.get(5), None);
    assert_eq!(buf.set(0, 0), Ok(()));
    assert_eq!(buf.set(0, 1), Err(ErrorKind::ValueTooWide));
    buf.fill_with_default();
    assert_eq!(buf.get(2), Some(0));

    let mut packed = UnthBuf::<PackedLayout>::new(0, 3);
    assert_eq!(packed.raw_len(), 0);
    assert_eq!(packed.get(1), Some(0));
    assert_eq!(packed.set(1, 0), Ok(()));
}

#[test]
fn raw_access() {
    // elements are stored least-significant-first within a cell
    let mut buf = UnthBuf::<AlignedLayout>::new(8, 8);
    buf.raw_mut()[0] = 0x0102_0304_0506_0708;
    assert_eq!(buf.get(0), Some(0x08));
    assert_eq!(buf.get(7), Some(0x01));
    assert_eq!(buf.raw()[0], 0x0102_0304_0506_0708);

    buf.set(0, 0xFF).unwrap();
    assert_eq!(buf.raw()[0], 0x0102_0304_0506_07FF);
}

#[test]
fn iteration() {
    let values: [u64; 6] = [9, 8, 7, 0, 5, 4];
    let buf = UnthBuf::<PackedLayout>::new_from_sized_iter(4, &values);
    let mut it = buf.iter();
    assert_eq!(it.len(), 6);
    let mut seen: Vec<u64> = Vec::new();
    while let Some(value) = it.next() {
        seen.push(value);
    }
    assert_eq!(seen, values.to_vec());
    assert_eq!(it.len(), 0);
    assert_eq!(it.next(), None);
}
