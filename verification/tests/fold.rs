//! Fold levels, conversion, and XOR folding.

use bitb_rs::fold::{fold_contiguous, xor_into, xor_into_at};
use bitb_rs::{BitBabblerError, Fold};

#[test]
fn fold_default_is_raw() {
    assert_eq!(Fold::default(), Fold::Raw);
    assert_eq!(Fold::Raw.as_u8(), 0);
}

#[test]
fn try_from_accepts_zero_through_four() {
    for v in 0u8..=4 {
        let fold = Fold::try_from(v).expect("valid fold");
        assert_eq!(fold.as_u8(), v);
        assert_eq!(fold.segment_count(), 1usize << v);
    }
}

#[test]
fn try_from_rejects_out_of_range() {
    for v in [5u8, 6, 10, 255] {
        assert!(matches!(
            Fold::try_from(v),
            Err(BitBabblerError::InvalidFold { value }) if value == v
        ));
    }
}

#[test]
fn segmented_xor_matches_contiguous_for_all_folds() {
    // Deterministic raw stream: 16 segments of 8 bytes for fold 4.
    let mut raw = Vec::with_capacity(16 * 8);
    for seg in 0u8..16 {
        for i in 0u8..8 {
            raw.push(seg.wrapping_mul(17).wrapping_add(i));
        }
    }

    for fold_n in 0u8..=4 {
        let fold = Fold::try_from(fold_n).unwrap();
        let segments = fold.segment_count();
        let n = 8usize;
        let block = &raw[..segments * n];

        // Contiguous whole-block fold.
        let expected = fold_contiguous(block, fold);

        // Segmented path: first segment then XOR the rest.
        let mut out = block[..n].to_vec();
        for seg in 1..segments {
            let start = seg * n;
            xor_into(&mut out, &block[start..start + n]);
        }
        assert_eq!(out, expected, "fold {fold_n}");
        assert_eq!(out.len(), n);
    }
}

#[test]
fn try_from_accepts_0_through_4() {
    for v in 0u8..=4 {
        let fold = Fold::try_from(v).expect("valid");
        assert_eq!(fold.as_u8(), v);
        assert_eq!(fold.segment_count(), 1usize << v);
    }
}

#[test]
fn try_from_rejects_others() {
    for v in [5u8, 7, 100, 255] {
        let err = Fold::try_from(v).unwrap_err();
        assert!(matches!(
            err,
            BitBabblerError::InvalidFold { value } if value == v
        ));
    }
}

#[test]
fn raw_fold_returns_the_block() {
    let block = [9u8, 8, 7, 6, 5];
    assert_eq!(fold_contiguous(&block, Fold::Raw), block.to_vec());
}

#[test]
fn fold_one_xors_two_segments() {
    let block = [0x0Fu8, 0xF0, 0xFF, 0xFF];
    assert_eq!(fold_contiguous(&block, Fold::One), vec![0xF0, 0x0F]);
}

#[test]
fn fold_four_xors_sixteen_segments() {
    // 16 single-byte segments 1..=16: XOR of 1..=16 is 16.
    let block: Vec<u8> = (1u8..=16).collect();
    assert_eq!(fold_contiguous(&block, Fold::Four), vec![16]);
}

#[test]
fn xor_into_at_touches_only_its_window() {
    let mut dst = vec![0xAAu8, 0xAA, 0xAA, 0xAA];
    xor_into_at(&mut dst, 1, &[0xFF, 0x0F]);
    assert_eq!(dst, vec![0xAA, 0x55, 0xA5, 0xAA]);
}

#[test]
fn xor_into_twice_restores() {
    let original = vec![1u8, 2, 3];
    let mut dst = original.clone();
    xor_into(&mut dst, &[7, 7, 7]);
    assert_ne!(dst, original);
    xor_into(&mut dst, &[7, 7, 7]);
    assert_eq!(dst, original);
}
