use smallbigint::{BigUint, INLINE_MAX};

#[test]
fn display_inline() {
    assert_eq!(BigUint::from(0).to_string(), "0");
    assert_eq!(BigUint::from(1).to_string(), "1");
}

#[test]
fn eq_inline() {
    assert_eq!(BigUint::from(0), BigUint::from(0));
    assert_eq!(BigUint::from(1), BigUint::from(1));
    assert_ne!(BigUint::from(0), BigUint::from(1));
    assert_ne!(BigUint::from(1), BigUint::from(0));
}

#[test]
fn strip_trailing_zeros() {
    assert_eq!(smallbigint::strip_trailing_zeros(&[]), &[]);
    assert_eq!(smallbigint::strip_trailing_zeros(&[1]), &[1]);
    assert_eq!(smallbigint::strip_trailing_zeros(&[1, 2, 3]), &[1, 2, 3]);
    assert_eq!(smallbigint::strip_trailing_zeros(&[1, 0]), &[1]);
    assert_eq!(smallbigint::strip_trailing_zeros(&[1, 0, 0]), &[1]);
    assert_eq!(smallbigint::strip_trailing_zeros(&[1, 0, 0, 0]), &[1]);
    assert_eq!(smallbigint::strip_trailing_zeros(&[1, 2, 0, 0]), &[1, 2]);
    assert_eq!(smallbigint::strip_trailing_zeros(&[0, 2, 0, 0]), &[0, 2]);
    assert_eq!(smallbigint::strip_trailing_zeros(&[0, 0, 0]), &[]);
}

#[test]
fn strip_keeps_inner_zeros() {
    assert_eq!(smallbigint::strip_trailing_zeros(&[0, 0, 7]), &[0, 0, 7]);
    assert_eq!(smallbigint::strip_trailing_zeros(&[0]), &[]);
    assert_eq!(
        smallbigint::strip_trailing_zeros(&[u64::MAX, 0, u64::MAX, 0]),
        &[u64::MAX, 0, u64::MAX]
    );
}

#[test]
fn inline_round_trip() {
    for n in [0u64, 1, 2, 9, 10, 255, 1 << 32, (1 << 62) + 5, INLINE_MAX - 1, INLINE_MAX] {
        let x = BigUint::from(n);
        assert!(x.is_inline());
        assert!(!x.is_heap());
        assert_eq!(x.inline_val(), Some(n));
        assert_eq!(x.heap_value(), None);
        assert_eq!(x.to_string(), format!("{}", n));
    }
}

#[test]
fn inline_max_is_the_boundary() {
    assert_eq!(INLINE_MAX, (1u64 << 63) - 1);
    assert_eq!(INLINE_MAX, !0u64 >> 1);
    assert!(BigUint::from(INLINE_MAX).is_inline());
    let above = BigUint::from(INLINE_MAX + 1);
    assert!(above.is_heap());
    assert_eq!(above.inline_val(), None);
    assert_eq!(above.heap_value(), Some(&[1u64 << 63][..]));
    let top = BigUint::from(u64::MAX);
    assert!(top.is_heap());
    assert_eq!(top.heap_value(), Some(&[u64::MAX][..]));
}

#[test]
fn rendering_of_inline_values() {
    assert_eq!(BigUint::from(7).to_string(), "7");
    assert_eq!(BigUint::from(10).to_string(), "10");
    assert_eq!(BigUint::from(1_000_000).to_string(), "1000000");
    assert_eq!(BigUint::from(9_007_199_254_740_993).to_string(), "9007199254740993");
    assert_eq!(BigUint::from(INLINE_MAX).to_string(), "9223372036854775807");
    assert_eq!(smallbigint::decimal::decimal_string(u64::MAX), "18446744073709551615");
    assert_eq!(smallbigint::decimal::decimal_string(0), "0");
}

#[test]
fn default_is_inline_zero() {
    let zero = BigUint::default();
    assert!(zero.is_inline());
    assert_eq!(zero.inline_val(), Some(0));
    assert_eq!(zero, BigUint::from(0));
}

#[test]
fn from_slice_never_inlines() {
    let x = BigUint::from_slice(&[5]);
    assert!(x.is_heap());
    assert_eq!(x.inline_val(), None);
    assert_eq!(x.heap_value(), Some(&[5u64][..]));
    assert_eq!(x, BigUint::from(5));

    let y = BigUint::from_slice(&[0, 0, 1]);
    assert!(y.is_heap());
    assert_eq!(y.heap_value(), Some(&[0u64, 0, 1][..]));

    let z = BigUint::from_slice(&[3, 0, 0]);
    assert_eq!(z.heap_value(), Some(&[3u64, 0, 0][..]));
}

#[test]
fn from_slice_of_nothing_is_zero() {
    let empty = BigUint::from_slice(&[]);
    assert!(empty.is_heap());
    assert_eq!(empty.heap_value(), Some(&[][..]));
    assert_eq!(empty, BigUint::from(0));
    assert_eq!(empty, BigUint::from_slice(&[0, 0]));
    assert_ne!(empty, BigUint::from(1));
}

#[test]
fn with_capacity_is_zeroed() {
    let x = BigUint::with_capacity(3);
    assert!(x.is_heap());
    assert_eq!(x.heap_value(), Some(&[0u64, 0, 0][..]));
    assert_eq!(x, BigUint::from(0));
    let none = BigUint::with_capacity(0);
    assert_eq!(none.heap_value(), Some(&[][..]));
}

#[test]
fn heap_value_mut_writes_in_place() {
    let mut x = BigUint::with_capacity(2);
    {
        let words = x.heap_value_mut().unwrap();
        assert_eq!(words.len(), 2);
        words[0] = 11;
        words[1] = 22;
    }
    assert_eq!(x.heap_value(), Some(&[11u64, 22][..]));
    assert_eq!(x, BigUint::from_slice(&[11, 22]));

    let mut small = BigUint::from(4);
    assert!(small.heap_value_mut().is_none());
    assert_eq!(small.inline_val(), Some(4));
}

#[test]
fn storage_round_trip() {
    let x = BigUint::from_storage(vec![9, 8, 7]);
    assert!(x.is_heap());
    assert_eq!(x.heap_value(), Some(&[9u64, 8, 7][..]));
    assert_eq!(x.into_storage(), Some(vec![9, 8, 7]));
    assert_eq!(BigUint::from(3).into_storage(), None);
    assert_eq!(BigUint::from(u64::MAX).into_storage(), Some(vec![u64::MAX]));
}

#[test]
fn equality_ignores_representation() {
    assert_eq!(BigUint::from(0), BigUint::from_slice(&[0]));
    assert_eq!(BigUint::from_slice(&[0]), BigUint::from(0));
    assert_eq!(BigUint::from(42), BigUint::from_slice(&[42, 0, 0]));
    assert_eq!(BigUint::from_slice(&[42, 0, 0]), BigUint::from(42));
    assert_eq!(BigUint::from_slice(&[1, 2]), BigUint::from_slice(&[1, 2, 0, 0, 0]));
    assert_eq!(BigUint::from_slice(&[1, 2, 0]), BigUint::from_slice(&[1, 2, 0]));
    assert_ne!(BigUint::from_slice(&[1, 2, 0]), BigUint::from_slice(&[1, 3, 0]));
    assert_ne!(BigUint::from_slice(&[1, 2]), BigUint::from_slice(&[2, 1]));
    assert_ne!(BigUint::from_slice(&[0, 1]), BigUint::from(0));
    assert_ne!(BigUint::from(1), BigUint::from_slice(&[1, 1]));
    assert_eq!(BigUint::from(u64::MAX), BigUint::from_slice(&[u64::MAX, 0]));
}

#[test]
fn equality_is_reflexive_and_symmetric() {
    let values = [
        BigUint::from(0),
        BigUint::from(1),
        BigUint::from(u64::MAX),
        BigUint::from_slice(&[]),
        BigUint::from_slice(&[1]),
        BigUint::from_slice(&[1, 0]),
        BigUint::from_slice(&[0, 1]),
        BigUint::from_slice(&[u64::MAX, 0, 0]),
    ];
    for x in values.iter() {
        assert!(x == x);
        for y in values.iter() {
            assert_eq!(x == y, y == x);
        }
    }
}

#[test]
fn eq_of_word_slices() {
    assert!(smallbigint::eq(&[], &[]));
    assert!(smallbigint::eq(&[], &[0, 0]));
    assert!(smallbigint::eq(&[1, 2], &[1, 2]));
    assert!(smallbigint::eq(&[1, 2, 0], &[1, 2]));
    assert!(!smallbigint::eq(&[1, 2], &[1, 3]));
    assert!(!smallbigint::eq(&[1, 0], &[0, 1]));
    assert!(!smallbigint::eq(&[1], &[1, 0, 1]));
}

#[test]
fn clone_is_equal() {
    let small = BigUint::from(12);
    let copy = small.clone();
    assert!(copy.is_inline());
    assert_eq!(copy.inline_val(), Some(12));

    let big = BigUint::from_slice(&[1, 2, 3, 0]);
    let copy = big.clone();
    assert_eq!(copy.heap_value(), Some(&[1u64, 2, 3, 0][..]));
    assert_eq!(copy, big);
}

#[test]
fn clone_is_independent() {
    let source = BigUint::from_slice(&[1, 2, 3]);
    let mut copy = source.clone();
    copy.heap_value_mut().unwrap()[1] = 99;
    assert_eq!(copy.heap_value(), Some(&[1u64, 99, 3][..]));
    assert_eq!(source.heap_value(), Some(&[1u64, 2, 3][..]));

    let mut other = source.clone();
    other += BigUint::from(5);
    assert_eq!(other, BigUint::from_slice(&[6, 2, 3]));
    assert_eq!(source.heap_value(), Some(&[1u64, 2, 3][..]));

    for _ in 0..1000 {
        let scratch = source.clone();
        drop(scratch);
    }
    drop(copy);
    drop(other);
    assert_eq!(source.heap_value(), Some(&[1u64, 2, 3][..]));
    assert_eq!(source, BigUint::from_slice(&[1, 2, 3]));
}
