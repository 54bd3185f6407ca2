use chunked_kernels::chunked::ChunkedArray;
use chunked_kernels::distance::previous_larger_distance;
use chunked_kernels::error::ComputeError;
use chunked_kernels::interpolate::interpolate;
use chunked_kernels::life::life_step;

fn col(v: Vec<Option<i64>>) -> ChunkedArray<i64> {
    ChunkedArray::from_options(&v)
}

fn plain(v: Vec<i64>) -> ChunkedArray<i64> {
    ChunkedArray::from_options(&v.into_iter().map(Some).collect::<Vec<_>>())
}

#[test]
fn interpolate_fills_interior_runs_only() {
    let a = col(vec![None, Some(1), None, None, Some(7), None]);
    assert_eq!(interpolate(&a).to_options(), vec![None, Some(1), Some(3), Some(5), Some(7), None]);
}

#[test]
fn interpolate_truncates_slope_toward_zero() {
    let up = col(vec![Some(0), None, None, Some(10)]);
    assert_eq!(interpolate(&up).to_options(), vec![Some(0), Some(3), Some(6), Some(10)]);
    let down = col(vec![Some(10), None, None, Some(0)]);
    assert_eq!(interpolate(&down).to_options(), vec![Some(10), Some(7), Some(4), Some(0)]);
}

#[test]
fn interpolate_across_chunks() {
    let a = ChunkedArray::from_chunk_options(&vec![vec![Some(2), None], vec![None, Some(8)]]);
    assert_eq!(interpolate(&a).to_options(), vec![Some(2), Some(4), Some(6), Some(8)]);
}

#[test]
fn interpolate_without_gaps_is_unchanged_and_idempotent() {
    let a = col(vec![None, Some(4), Some(5), None]);
    let once = interpolate(&a);
    assert_eq!(once.to_options(), a.to_options());
    let b = col(vec![Some(1), None, Some(5), None, None, Some(-1)]);
    let first = interpolate(&b);
    let second = interpolate(&first);
    assert_eq!(first.to_options(), vec![Some(1), Some(3), Some(5), Some(3), Some(1), Some(-1)]);
    assert_eq!(second.to_options(), first.to_options());
}

#[test]
fn interpolate_keeps_boundary_nulls() {
    let a = col(vec![None, None, Some(3), None, Some(5), None, None]);
    let r = interpolate(&a).to_options();
    assert_eq!(&r[0..2], &[None, None]);
    assert_eq!(&r[5..7], &[None, None]);
    assert_eq!(r[3], Some(4));
    let mask = interpolate(&a).chunks[0].validity.clone().unwrap();
    assert_eq!(mask, vec![false, false, true, true, true, false, false]);
}

#[test]
fn interpolate_edge_cases() {
    let all_null = col(vec![None, None]);
    assert_eq!(interpolate(&all_null).to_options(), vec![None, None]);
    let dense = col(vec![Some(1), Some(2)]);
    assert_eq!(interpolate(&dense).to_options(), vec![Some(1), Some(2)]);
    let empty = col(vec![]);
    assert_eq!(interpolate(&empty).to_options(), vec![]);
    let extreme = col(vec![Some(i64::MIN), None, Some(i64::MAX)]);
    assert_eq!(interpolate(&extreme).to_options(), vec![Some(i64::MIN), Some(-1), Some(i64::MAX)]);
}

#[test]
fn larger_distance_example() {
    let a = plain(vec![5, 3, 4, 6, 2]);
    let r = previous_larger_distance(&a).unwrap();
    assert_eq!(r.to_options(), vec![None, Some(1), Some(2), Some(0), Some(1)]);
}

#[test]
fn larger_distance_monotone_sequences() {
    let dec = plain(vec![9, 7, 5, 1]);
    assert_eq!(previous_larger_distance(&dec).unwrap().to_options(), vec![None, Some(1), Some(1), Some(1)]);
    let inc = plain(vec![1, 2, 3, 4]);
    assert_eq!(previous_larger_distance(&inc).unwrap().to_options(), vec![None, Some(0), Some(0), Some(0)]);
    let equal = plain(vec![3, 3]);
    assert_eq!(previous_larger_distance(&equal).unwrap().to_options(), vec![None, Some(0)]);
}

#[test]
fn larger_distance_follows_back_pointers() {
    let a = ChunkedArray::from_chunk_options(&vec![
        vec![Some(10), Some(1), Some(2)],
        vec![Some(3), Some(4), Some(11), Some(5)],
    ]);
    let r = previous_larger_distance(&a).unwrap();
    assert_eq!(r.to_options(), vec![None, Some(1), Some(2), Some(3), Some(4), Some(0), Some(1)]);
}

#[test]
fn larger_distance_rejects_nulls() {
    let a = col(vec![Some(1), None]);
    assert_eq!(previous_larger_distance(&a).err(), Some(ComputeError::MissingValue));
    let empty = col(vec![]);
    assert_eq!(previous_larger_distance(&empty).unwrap().to_options(), vec![]);
}

#[test]
fn life_all_zero_stays_zero() {
    let z = plain(vec![0, 0, 0, 0]);
    let r = life_step(&z, &z, &z).unwrap();
    assert_eq!(r.to_options(), vec![Some(0); 4]);
}

#[test]
fn life_single_cell_dies() {
    let z = plain(vec![0, 0, 0]);
    let mid = plain(vec![1, 0, 0]);
    let r = life_step(&z, &mid, &z).unwrap();
    assert_eq!(r.to_options(), vec![Some(0), Some(0), Some(0)]);
}

#[test]
fn life_wraps_at_both_ends() {
    let lf = plain(vec![1, 0, 0]);
    let mid = plain(vec![0, 0, 1]);
    let rt = plain(vec![0, 0, 1]);
    let r = life_step(&lf, &mid, &rt).unwrap();
    // index 0 sees index 2 as its predecessor: 2 + 1 + 0 = 3, a birth
    // index 2 sees index 0 as its successor: 0 + 1 + 1 = 2, survival
    assert_eq!(r.to_options(), vec![Some(1), Some(1), Some(1)]);
}

#[test]
fn life_birth_through_wrapped_neighbours() {
    let col3 = plain(vec![0, 0, 0, 1]);
    let r = life_step(&col3, &col3, &col3).unwrap();
    // index 0 sees the three cells of index 3: a birth; index 3 keeps two neighbours
    assert_eq!(r.to_options(), vec![Some(1), Some(0), Some(1), Some(1)]);
}

#[test]
fn life_requires_contiguous_equal_inputs() {
    let ok = plain(vec![0, 1, 0]);
    let split = ChunkedArray::from_chunk_options(&vec![vec![Some(0)], vec![Some(1), Some(0)]]);
    assert_eq!(life_step(&ok, &split, &ok).err(), Some(ComputeError::NotContiguous));
    let holey = col(vec![Some(0), None, Some(0)]);
    assert_eq!(life_step(&holey, &ok, &ok).err(), Some(ComputeError::NotContiguous));
    let short = plain(vec![0, 1]);
    assert_eq!(life_step(&ok, &ok, &short).err(), Some(ComputeError::ShapeMismatch));
}
