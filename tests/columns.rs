use chunked_kernels::align::align_chunks;
use chunked_kernels::chunked::ChunkedArray;
use chunked_kernels::elementwise::{apply, binary_elementwise, broadcast_binary_elementwise};
use chunked_kernels::error::ComputeError;
use chunked_kernels::kernels::{abs_i32, abs_i64, abs_i64_fast, add_i64, cum_sum, cum_sum_carried, sum_i64};

fn col(v: Vec<Option<i64>>) -> ChunkedArray<i64> {
    ChunkedArray::from_options(&v)
}

fn chunked(parts: Vec<Vec<Option<i64>>>) -> ChunkedArray<i64> {
    ChunkedArray::from_chunk_options(&parts)
}

#[test]
fn abs_over_nulls() {
    let a = col(vec![Some(-3), None, Some(5)]);
    let r = abs_i64(&a);
    assert_eq!(r.to_options(), vec![Some(3), None, Some(5)]);
}

#[test]
fn abs_keeps_chunking_and_wraps_minimum() {
    let a = chunked(vec![vec![Some(-1), Some(i64::MIN)], vec![None, Some(7)]]);
    let r = abs_i64(&a);
    assert_eq!(r.chunk_count(), 2);
    assert_eq!(r.to_options(), vec![Some(1), Some(i64::MIN), None, Some(7)]);
}

#[test]
fn abs_fast_matches_abs() {
    let a = chunked(vec![vec![Some(-4), None], vec![], vec![Some(2), Some(-9)]]);
    let r = abs_i64_fast(&a);
    assert_eq!(r.chunk_count(), 3);
    assert_eq!(r.to_options(), abs_i64(&a).to_options());
    assert_eq!(r.to_options(), vec![Some(4), None, Some(2), Some(9)]);
}

#[test]
fn abs_of_i32_column() {
    let a = ChunkedArray::from_options(&vec![Some(-2i32), None, Some(i32::MIN)]);
    assert_eq!(abs_i32(&a).to_options(), vec![Some(2), None, Some(i32::MIN)]);
}

#[test]
fn length_get_and_builder_mask() {
    let a = chunked(vec![vec![Some(1)], vec![], vec![Some(2), None]]);
    assert_eq!(a.len(), 3);
    assert_eq!(a.chunk_count(), 3);
    assert_eq!(a.get(0), Some(1));
    assert_eq!(a.get(1), Some(2));
    assert_eq!(a.get(2), None);
    let dense = col(vec![Some(1), Some(2)]);
    assert!(dense.chunks[0].validity.is_none());
    assert!(a.chunks[2].validity.is_some());
}

#[test]
fn apply_maps_every_slot() {
    let a = col(vec![Some(1), None, Some(3)]);
    let r = apply(&a, |o: Option<i64>| match o {
        Some(v) => Some(v * 10),
        None => Some(-1),
    });
    assert_eq!(r.to_options(), vec![Some(10), Some(-1), Some(30)]);
}

#[test]
fn alignment_splits_at_both_boundaries() {
    let a = chunked(vec![vec![Some(1), Some(2)], vec![Some(3), Some(4), Some(5)]]);
    let b = chunked(vec![vec![Some(1)], vec![Some(2), Some(3), Some(4), Some(5)]]);
    let segs = align_chunks(&a, &b).unwrap();
    let lens: Vec<usize> = segs.iter().map(|s| s.len).collect();
    assert_eq!(lens, vec![1, 1, 3]);
    assert_eq!((segs[1].left_chunk, segs[1].left_offset), (0, 1));
    assert_eq!((segs[1].right_chunk, segs[1].right_offset), (1, 0));
    let short = col(vec![Some(1)]);
    assert_eq!(align_chunks(&a, &short).err(), Some(ComputeError::ShapeMismatch));
}

#[test]
fn add_propagates_nulls() {
    let a = col(vec![Some(1), None, Some(3)]);
    let b = col(vec![Some(10), Some(20), None]);
    assert_eq!(add_i64(&a, &b).unwrap().to_options(), vec![Some(11), None, None]);
}

#[test]
fn add_is_chunk_invariant() {
    let a1 = chunked(vec![vec![Some(1)], vec![Some(2), Some(3)], vec![None]]);
    let a2 = chunked(vec![vec![Some(1), Some(2), Some(3), None]]);
    let b1 = chunked(vec![vec![Some(10), Some(20)], vec![Some(30), Some(40)]]);
    let b2 = chunked(vec![vec![Some(10)], vec![Some(20)], vec![Some(30)], vec![Some(40)]]);
    let expected = vec![Some(11), Some(22), Some(33), None];
    assert_eq!(add_i64(&a1, &b1).unwrap().to_options(), expected);
    assert_eq!(add_i64(&a2, &b2).unwrap().to_options(), expected);
    assert_eq!(add_i64(&a1, &b2).unwrap().to_options(), expected);
    assert_eq!(add_i64(&a2, &b1).unwrap().to_options(), expected);
}

#[test]
fn add_rejects_length_mismatch() {
    let a = col(vec![Some(1), Some(2)]);
    let b = col(vec![Some(1), Some(2), Some(3)]);
    assert_eq!(add_i64(&a, &b).err(), Some(ComputeError::ShapeMismatch));
}

#[test]
fn add_wraps_on_overflow() {
    let a = col(vec![Some(i64::MAX)]);
    let b = col(vec![Some(1)]);
    assert_eq!(add_i64(&a, &b).unwrap().to_options(), vec![Some(i64::MIN)]);
}

#[test]
fn binary_elementwise_custom_combinator() {
    let a = chunked(vec![vec![Some(4), None], vec![Some(1)]]);
    let b = chunked(vec![vec![Some(2)], vec![Some(9), Some(8)]]);
    let r = binary_elementwise(&a, &b, |x: Option<i64>, y: Option<i64>| match (x, y) {
        (Some(p), Some(q)) => Some(p.max(q)),
        (None, q) => q,
        (p, None) => p,
    })
    .unwrap();
    assert_eq!(r.to_options(), vec![Some(4), Some(9), Some(8)]);
    assert_eq!(r.chunk_count(), 3);
}

#[test]
fn broadcast_right_scalar() {
    let a = chunked(vec![vec![Some(1), None], vec![Some(3)]]);
    let b = col(vec![Some(5)]);
    assert_eq!(sum_i64(&a, &b).unwrap().to_options(), vec![Some(6), None, Some(8)]);
}

#[test]
fn broadcast_left_scalar() {
    let a = col(vec![Some(100)]);
    let b = col(vec![Some(1), Some(2), None]);
    assert_eq!(sum_i64(&a, &b).unwrap().to_options(), vec![Some(101), Some(102), None]);
}

#[test]
fn broadcast_null_scalar_gives_nulls() {
    let a = col(vec![Some(1), Some(2)]);
    let b = col(vec![None]);
    assert_eq!(sum_i64(&a, &b).unwrap().to_options(), vec![None, None]);
}

#[test]
fn broadcast_equals_repeated_operand() {
    let a = chunked(vec![vec![Some(1), None], vec![Some(-3), Some(4)]]);
    let b = col(vec![Some(7)]);
    let rep = col(vec![Some(7); 4]);
    let f = |x: Option<i64>, y: Option<i64>| match (x, y) {
        (Some(p), Some(q)) => Some(p * q - 1),
        _ => Some(0),
    };
    let broadcast = broadcast_binary_elementwise(&a, &b, f).unwrap();
    let full = binary_elementwise(&a, &rep, f).unwrap();
    assert_eq!(broadcast.to_options(), full.to_options());
    assert_eq!(sum_i64(&a, &b).unwrap().to_options(), add_i64(&a, &rep).unwrap().to_options());
}

#[test]
fn sum_of_equal_lengths_and_mismatch() {
    let a = col(vec![Some(1), Some(2)]);
    let b = col(vec![Some(3), Some(4)]);
    assert_eq!(sum_i64(&a, &b).unwrap().to_options(), vec![Some(4), Some(6)]);
    let c = col(vec![Some(1), Some(2), Some(3)]);
    assert_eq!(sum_i64(&a, &c).err(), Some(ComputeError::ShapeMismatch));
}

#[test]
fn cumulative_sum_skips_nulls() {
    let a = chunked(vec![vec![Some(1), None], vec![Some(2), Some(3)]]);
    assert_eq!(cum_sum(&a).to_options(), vec![Some(1), None, Some(3), Some(6)]);
}

#[test]
fn cumulative_sum_carries_across_nulls() {
    let a = col(vec![None, Some(1), None, Some(2)]);
    assert_eq!(cum_sum_carried(&a).to_options(), vec![None, Some(1), Some(1), Some(3)]);
}

#[test]
fn error_messages_are_readable() {
    assert!(ComputeError::NotContiguous.message().contains("contiguous"));
    assert_eq!(ComputeError::MissingValue.message(), "unexpected null value");
    assert!(!ComputeError::ShapeMismatch.message().is_empty());
}

#[test]
fn abs_fast_keeps_chunk_masks() {
    let a = chunked(vec![vec![Some(-1), None, Some(-2)], vec![Some(3)]]);
    let r = abs_i64_fast(&a);
    assert_eq!(r.chunks[0].values.len(), 3);
    assert_eq!(r.chunks[0].validity, Some(vec![true, false, true]));
    assert_eq!(r.chunks[1].validity, None);
}

#[test]
fn single_slot_detection() {
    let one = chunked(vec![vec![], vec![Some(4)], vec![]]);
    assert!(one.is_unit());
    let two = chunked(vec![vec![Some(1)], vec![Some(2)]]);
    assert!(!two.is_unit());
    assert!(!col(vec![]).is_unit());
}
