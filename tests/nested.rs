use chunked_kernels::list::{ListChunked, binary_amortized_elementwise, mean_by_rows, non_zero_indices};
use chunked_kernels::error::ComputeError;
use chunked_kernels::schema::{
    DataType, Field, list_idx_dtype, point_2d_output, same_output_type, shifted_struct,
    struct_point_2d_output,
};
use chunked_kernels::strings::{add_suffix, pig_latinnify, remove_extension};
use chunked_kernels::structs::{StructColumn, shift_struct};

fn ints(rows: Vec<Option<Vec<i64>>>) -> ListChunked<i64> {
    let rows: Vec<Option<Vec<Option<i64>>>> =
        rows.into_iter().map(|r| r.map(|v| v.into_iter().map(Some).collect())).collect();
    ListChunked::from_rows(&rows)
}

fn floats(rows: Vec<Option<Vec<f64>>>) -> ListChunked<f64> {
    let rows: Vec<Option<Vec<Option<f64>>>> =
        rows.into_iter().map(|r| r.map(|v| v.into_iter().map(Some).collect())).collect();
    ListChunked::from_rows(&rows)
}

fn weighted(values: &Vec<Option<i64>>, weights: &Vec<Option<f64>>) -> Option<f64> {
    if values.is_empty() {
        return None;
    }
    let mut num = 0.0;
    let mut den = 0.0;
    for (v, w) in values.iter().zip(weights.iter()) {
        if let (Some(v), Some(w)) = (v, w) {
            num += *v as f64 * w;
            den += w;
        }
    }
    Some(num / den)
}

fn strs(v: Vec<Option<&str>>) -> ListChunked<char> {
    let rows: Vec<Option<Vec<Option<char>>>> =
        v.into_iter().map(|s| s.map(|s| s.chars().map(Some).collect())).collect();
    ListChunked::from_rows(&rows)
}

fn texts(c: &ListChunked<char>) -> Vec<Option<String>> {
    c.to_rows()
        .into_iter()
        .map(|r| r.map(|v| v.into_iter().map(|c| c.unwrap()).collect()))
        .collect()
}

fn weighted_sum_ratio(values: &Vec<Option<i64>>, weights: &Vec<Option<f64>>) -> f64 {
    let mut num = 0.0;
    let mut den = 0.0;
    for (v, w) in values.iter().zip(weights.iter()) {
        if let (Some(v), Some(w)) = (v, w) {
            num += *v as f64 * w;
            den += w;
        }
    }
    num / den
}

#[test]
fn mean_by_rows_weighted() {
    let values = ints(vec![Some(vec![1, 2, 3]), Some(vec![]), Some(vec![1, 2]), None, Some(vec![4])]);
    let weights = floats(vec![
        Some(vec![1.0, 1.0, 1.0]),
        Some(vec![]),
        Some(vec![0.0, 0.0]),
        Some(vec![1.0]),
        None,
    ]);
    let r = mean_by_rows(&values, &weights, weighted_sum_ratio).unwrap().to_options();
    assert_eq!(r[0], Some(2.0));
    assert_eq!(r[1], None);
    // zero total weight: 0.0 / 0.0 under float division
    assert!(r[2].unwrap().is_nan());
    assert_eq!(r[3], None);
    assert_eq!(r[4], None);
    let short = floats(vec![Some(vec![1.0])]);
    assert_eq!(mean_by_rows(&values, &short, weighted_sum_ratio).err(), Some(ComputeError::ShapeMismatch));
}

#[test]
fn weighted_mean_rows() {
    let values = ints(vec![Some(vec![1, 2, 3]), Some(vec![]), Some(vec![1, 2]), None]);
    let weights = floats(vec![Some(vec![1.0, 1.0, 1.0]), Some(vec![]), Some(vec![0.0, 0.0]), Some(vec![1.0])]);
    let r = binary_amortized_elementwise(&values, &weights, weighted).unwrap().to_options();
    assert_eq!(r[0], Some(2.0));
    assert_eq!(r[1], None);
    // zero total weight: 0.0 / 0.0 under float division
    assert!(r[2].unwrap().is_nan());
    assert_eq!(r[3], None);
}

#[test]
fn amortized_rows_mismatch() {
    let values = ints(vec![Some(vec![1])]);
    let weights = floats(vec![Some(vec![1.0]), Some(vec![2.0])]);
    assert_eq!(
        binary_amortized_elementwise(&values, &weights, weighted).err(),
        Some(ComputeError::ShapeMismatch)
    );
}

#[test]
fn amortized_rows_across_chunks() {
    let mut values = ints(vec![Some(vec![2, 4])]);
    values.chunks.push(ints(vec![Some(vec![10]), Some(vec![1, 1, 4])]).chunks.remove(0));
    let weights = floats(vec![Some(vec![1.0, 3.0]), Some(vec![2.0]), Some(vec![1.0, 1.0, 2.0])]);
    let r = binary_amortized_elementwise(&values, &weights, weighted).unwrap().to_options();
    assert_eq!(r, vec![Some(3.5), Some(10.0), Some(2.5)]);
}

#[test]
fn nonzero_positions_per_row() {
    let rows: Vec<Option<Vec<Option<i64>>>> = vec![
        Some(vec![Some(0), Some(1), None, Some(0), Some(3)]),
        None,
        Some(vec![]),
    ];
    let a = ListChunked::from_rows(&rows);
    let r = non_zero_indices(&a).to_rows();
    assert_eq!(r, vec![Some(vec![Some(1), Some(2), Some(4)]), None, Some(vec![])]);
}

#[test]
fn pig_latin_strings() {
    let a = strs(vec![Some("hello"), Some(""), None, Some("a")]);
    assert_eq!(
        texts(&pig_latinnify(&a)),
        vec![Some("ellohay".to_string()), Some(String::new()), None, Some("aay".to_string())]
    );
}

#[test]
fn remove_last_extension_strings() {
    let a = strs(vec![Some("archive.tar.gz"), Some("README"), Some(".hidden"), None]);
    assert_eq!(
        texts(&remove_extension(&a)),
        vec![Some("archive.tar".to_string()), Some("README".to_string()), Some(String::new()), None]
    );
}

#[test]
fn suffix_strings() {
    let a = strs(vec![Some("bar"), None, Some("")]);
    let suffix: Vec<Option<char>> = "_foo".chars().map(Some).collect();
    assert_eq!(
        texts(&add_suffix(&a, &suffix)),
        vec![Some("bar_foo".to_string()), None, Some("_foo".to_string())]
    );
}

fn named(names: &[&str], values: Vec<Vec<i64>>) -> StructColumn<Vec<i64>> {
    StructColumn {
        name: "s".to_string(),
        len: 2,
        field_names: names.iter().map(|n| n.to_string()).collect(),
        fields: values,
    }
}

#[test]
fn shift_struct_rotates_values() {
    let s = named(&["a", "b", "c"], vec![vec![1, 2], vec![3, 4], vec![5, 6]]);
    let r = shift_struct(s);
    assert_eq!(r.name, "a");
    assert_eq!(r.field_names, vec!["a", "b", "c"]);
    assert_eq!(r.fields, vec![vec![3, 4], vec![5, 6], vec![1, 2]]);
    assert_eq!(r.len, 2);
}

#[test]
fn shift_struct_full_cycle_restores_fields() {
    let initial = vec![vec![1, 2], vec![3, 4], vec![5, 6]];
    let mut s = named(&["x", "y", "z"], initial.clone());
    for _ in 0..3 {
        s = shift_struct(s);
    }
    assert_eq!(s.fields, initial);
    assert_eq!(s.field_names, vec!["x", "y", "z"]);
    // the struct now carries its first field's name
    assert_eq!(s.name, "x");
}

#[test]
fn shift_struct_without_fields() {
    let s = named(&[], vec![]);
    let r = shift_struct(s);
    assert_eq!(r.name, "s");
    assert!(r.fields.is_empty());
}

fn field(name: &str, dtype: DataType) -> Field {
    Field { name: name.to_string(), dtype }
}

#[test]
fn shifted_struct_type() {
    let input = field("s", DataType::Struct(vec![field("a", DataType::Int64), field("b", DataType::String)]));
    let r = shifted_struct(vec![input]).unwrap();
    assert_eq!(
        r,
        field("a", DataType::Struct(vec![field("a", DataType::String), field("b", DataType::Int64)]))
    );
    assert_eq!(
        shifted_struct(vec![field("x", DataType::Int64)]).err(),
        Some(ComputeError::InvalidDtype(DataType::Int64))
    );
    let empty = field("e", DataType::Struct(vec![]));
    assert_eq!(shifted_struct(vec![empty]).unwrap(), field("e", DataType::Struct(vec![])));
}

#[test]
fn output_types() {
    let p = point_2d_output(&[]).unwrap();
    assert_eq!(p, field("point_2d", DataType::Array(Box::new(DataType::Float64), 2)));
    let same = same_output_type(vec![field("v", DataType::Int32), field("w", DataType::Int64)]).unwrap();
    assert_eq!(same, field("v", DataType::Int32));
    assert_eq!(same_output_type(vec![]).err(), Some(ComputeError::MissingInput));
    let idx = list_idx_dtype(vec![field("l", DataType::List(Box::new(DataType::Int64)))]).unwrap();
    assert_eq!(idx, field("l", DataType::List(Box::new(DataType::UInt32))));
    let st = struct_point_2d_output(vec![field("p", DataType::Struct(vec![field("x", DataType::Float64)]))]).unwrap();
    assert_eq!(st, field("struct_point_2d", DataType::Struct(vec![field("x", DataType::Float64)])));
    assert_eq!(
        struct_point_2d_output(vec![field("p", DataType::Int64)]).err(),
        Some(ComputeError::InvalidDtype(DataType::Int64))
    );
}

#[test]
fn dtype_errors_name_the_dtype() {
    let list = ComputeError::InvalidDtype(DataType::List(Box::new(DataType::Int64)));
    assert_eq!(list.message(), "dtype not supported by this operation: List(Int64)");
    let arr = ComputeError::InvalidDtype(DataType::Array(Box::new(DataType::Float64), 12));
    assert_eq!(arr.message(), "dtype not supported by this operation: Array(Float64, 12)");
    let st = ComputeError::InvalidDtype(DataType::Struct(vec![field("a", DataType::Int64), field("b", DataType::String)]));
    assert_eq!(st.message(), "dtype not supported by this operation: Struct(a, b)");
    assert_eq!(ComputeError::MissingInput.message(), "expected at least one input");
}
