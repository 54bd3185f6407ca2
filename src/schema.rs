//! Column metadata: element types and named fields, and the output types
//! computed from input fields alone.
use vstd::prelude::*;
use crate::error::ComputeError;

verus! {

/// The element types a column can have.
#[derive(Debug, PartialEq, Eq)]
pub enum DataType {
    Boolean,
    Int32,
    Int64,
    UInt32,
    UInt64,
    Float32,
    Float64,
    String,
    /// Variable-length rows of the inner type.
    List(Box<DataType>),
    /// Fixed-width rows of the inner type.
    Array(Box<DataType>, usize),
    /// Rows of named fields.
    Struct(Vec<Field>),
    /// A type that no kernel here computes on, by name.
    Other(String),
}

/// A named, typed column slot.
#[derive(Debug, PartialEq, Eq)]
pub struct Field {
    pub name: String,
    pub dtype: DataType,
}

/// The type of row indices in list outputs.
pub open spec fn idx_dtype() -> DataType {
    DataType::UInt32
}

/// The fields of a struct type, in order; empty for any other type.
pub open spec fn struct_fields(d: DataType) -> Seq<Field> {
    match d {
        DataType::Struct(fs) => fs@,
        _ => Seq::empty(),
    }
}

/// The slot after `i` among `n`, wrapping to the first.
pub open spec fn next_slot(i: int, n: int) -> int {
    if i + 1 < n {
        i + 1
    } else {
        0
    }
}

/// The first field rotated: slot `i` keeps its name and takes the type of
/// slot `i + 1`, the last slot taking the type of the first.
pub open spec fn rotated_fields(fs: Seq<Field>) -> Seq<Field> {
    Seq::new(
        fs.len(),
        |i: int| Field { name: fs[i].name, dtype: fs[next_slot(i, fs.len() as int)].dtype },
    )
}

/// Output type of an operation that returns its first input as it is.
/// Fails with `MissingInput` when no field is given.
pub fn same_output_type(input_fields: Vec<Field>) -> (r: Result<Field, ComputeError>)
    ensures
        input_fields@.len() == 0 <==> r is Err,
        r is Err ==> r == Err::<Field, ComputeError>(ComputeError::MissingInput),
        r is Ok ==> r->Ok_0 == input_fields@[0],
{
    let mut fs = input_fields;
    if fs.len() == 0 {
        return Err(ComputeError::MissingInput);
    }
    Ok(fs.remove(0))
}

/// Output type of an operation producing two-element float rows named
/// `point_2d`, whatever the inputs.
pub fn point_2d_output(_input_fields: &[Field]) -> (r: Result<Field, ComputeError>)
    ensures
        r is Ok,
        r->Ok_0.name@ == "point_2d"@,
        r->Ok_0.dtype == DataType::Array(Box::new(DataType::Float64), 2),
{
    Ok(Field { name: "point_2d".to_string(), dtype: DataType::Array(Box::new(DataType::Float64), 2) })
}

/// Output type of an operation returning its first input, a struct, under the
/// name `struct_point_2d`. Fails with `InvalidDtype` on any other type, and
/// with `MissingInput` when no field is given.
pub fn struct_point_2d_output(input_fields: Vec<Field>) -> (r: Result<Field, ComputeError>)
    ensures
        input_fields@.len() == 0 ==> r == Err::<Field, ComputeError>(ComputeError::MissingInput),
        input_fields@.len() > 0 && !(input_fields@[0].dtype is Struct) ==> r == Err::<
            Field,
            ComputeError,
        >(ComputeError::InvalidDtype(input_fields@[0].dtype)),
        input_fields@.len() > 0 && input_fields@[0].dtype is Struct ==> r is Ok
            && r->Ok_0.name@ == "struct_point_2d"@ && r->Ok_0.dtype == input_fields@[0].dtype,
{
    let mut fs = input_fields;
    if fs.len() == 0 {
        return Err(ComputeError::MissingInput);
    }
    let f = fs.remove(0);
    match f.dtype {
        DataType::Struct(fields) => Ok(
            Field { name: "struct_point_2d".to_string(), dtype: DataType::Struct(fields) },
        ),
        other => Err(ComputeError::InvalidDtype(other)),
    }
}

/// Output type of a list-of-row-indices operation: the first input's name,
/// with lists of the index type.
pub fn list_idx_dtype(input_fields: Vec<Field>) -> (r: Result<Field, ComputeError>)
    ensures
        input_fields@.len() == 0 <==> r is Err,
        r is Err ==> r == Err::<Field, ComputeError>(ComputeError::MissingInput),
        r is Ok ==> r->Ok_0.name == input_fields@[0].name && r->Ok_0.dtype == DataType::List(
            Box::new(idx_dtype()),
        ),
{
    let mut fs = input_fields;
    if fs.len() == 0 {
        return Err(ComputeError::MissingInput);
    }
    let f = fs.remove(0);
    Ok(Field { name: f.name, dtype: DataType::List(Box::new(DataType::UInt32)) })
}

/// Output type of struct field rotation: the struct takes the name of its
/// first field, each field keeps its name and takes the type of the next, and
/// the last takes the type of the first. A struct without fields is returned
/// as it is. Fails with `InvalidDtype` on a type that is not a struct.
pub fn shifted_struct(input_fields: Vec<Field>) -> (r: Result<Field, ComputeError>)
    ensures
        input_fields@.len() == 0 ==> r == Err::<Field, ComputeError>(ComputeError::MissingInput),
        input_fields@.len() > 0 && !(input_fields@[0].dtype is Struct) ==> r == Err::<
            Field,
            ComputeError,
        >(ComputeError::InvalidDtype(input_fields@[0].dtype)),
        input_fields@.len() > 0 && input_fields@[0].dtype is Struct && struct_fields(
            input_fields@[0].dtype,
        ).len() == 0 ==> r == Ok::<Field, ComputeError>(input_fields@[0]),
        input_fields@.len() > 0 && input_fields@[0].dtype is Struct && struct_fields(
            input_fields@[0].dtype,
        ).len() > 0 ==> r is Ok && r->Ok_0.name == struct_fields(input_fields@[0].dtype)[0].name
            && r->Ok_0.dtype is Struct && struct_fields(r->Ok_0.dtype) == rotated_fields(
            struct_fields(input_fields@[0].dtype),
        ),
{
    let mut fs = input_fields;
    if fs.len() == 0 {
        return Err(ComputeError::MissingInput);
    }
    let f = fs.remove(0);
    match f.dtype {
        DataType::Struct(fields) => {
            if fields.len() == 0 {
                return Ok(Field { name: f.name, dtype: DataType::Struct(fields) });
            }
            let ghost orig = fields@;
            let n = fields.len();
            let mut names: Vec<String> = Vec::new();
            let mut dtypes: Vec<DataType> = Vec::new();
            let mut rest = fields;
            assert(rest@ =~= orig.subrange(0, n as int));
            while rest.len() > 0
                invariant
                    n == orig.len(),
                    names@.len() == dtypes@.len(),
                    names@.len() + rest@.len() == n,
                    rest@ == orig.subrange(names@.len() as int, n as int),
                    forall|i: int| 0 <= i < names@.len() ==> #[trigger] names@[i] == orig[i].name,
                    forall|i: int| 0 <= i < dtypes@.len() ==> #[trigger] dtypes@[i] == orig[i].dtype,
                decreases rest@.len(),
            {
                let g = rest.remove(0);
                names.push(g.name);
                dtypes.push(g.dtype);
                assert(rest@ =~= orig.subrange(names@.len() as int, n as int));
            }
            let ghost old_dtypes = dtypes@;
            let first_type = dtypes.remove(0);
            dtypes.push(first_type);
            assert forall|i: int| 0 <= i < dtypes@.len() implies #[trigger] dtypes@[i] == orig[next_slot(
                i,
                n as int,
            )].dtype by {
                if i + 1 < n {
                    assert(dtypes@[i] == old_dtypes[i + 1]);
                }
            }
            let struct_name = names[0].clone();
            let mut out: Vec<Field> = Vec::new();
            let mut nm = names;
            let mut dt = dtypes;
            while nm.len() > 0
                invariant
                    n == orig.len(),
                    n > 0,
                    nm@.len() == dt@.len(),
                    out@.len() + nm@.len() == n,
                    forall|i: int| 0 <= i < nm@.len() ==> #[trigger] nm@[i] == orig[out@.len() + i].name,
                    forall|i: int|
                        0 <= i < dt@.len() ==> #[trigger] dt@[i] == orig[next_slot(
                            out@.len() + i,
                            n as int,
                        )].dtype,
                    forall|i: int|
                        0 <= i < out@.len() ==> #[trigger] out@[i] == rotated_fields(orig)[i],
                decreases nm@.len(),
            {
                let ghost nm0 = nm@;
                let ghost dt0 = dt@;
                let name = nm.remove(0);
                let dtype = dt.remove(0);
                out.push(Field { name, dtype });
                assert forall|i: int| 0 <= i < nm@.len() implies #[trigger] nm@[i] == orig[out@.len() + i].name by {
                    assert(nm@[i] == nm0[i + 1]);
                }
                assert forall|i: int| 0 <= i < dt@.len() implies #[trigger] dt@[i] == orig[next_slot(
                    out@.len() + i,
                    n as int,
                )].dtype by {
                    assert(dt@[i] == dt0[i + 1]);
                }
            }
            assert(out@ =~= rotated_fields(orig));
            Ok(Field { name: struct_name, dtype: DataType::Struct(out) })
        },
        other => Err(ComputeError::InvalidDtype(other)),
    }
}

} // verus!
