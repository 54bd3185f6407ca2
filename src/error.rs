//! Typed failures of the kernels, and their messages.
use vstd::prelude::*;
use crate::schema::{DataType, Field};

verus! {

#[derive(Debug, PartialEq, Eq)]
pub enum ComputeError {
    /// Operand lengths disagree.
    ShapeMismatch,
    /// An operand was required to be one chunk with no null.
    NotContiguous,
    /// A null appeared where every slot must hold a value.
    MissingValue,
    /// A field's dtype, given here, is not the one the operation requires.
    InvalidDtype(DataType),
    /// An operation was given fewer inputs than it reads.
    MissingInput,
}

/// Relies on `String::push_str`: appends the characters of `t`.
#[verifier::external_body]
fn push_str(s: &mut String, t: &str)
    ensures
        final(s)@ == old(s)@ + t@,
{
    s.push_str(t)
}

/// Relies on `String::push`: appends one character.
#[verifier::external_body]
fn push_char(s: &mut String, c: char)
    ensures
        final(s)@ == old(s)@.push(c),
{
    s.push(c)
}

pub open spec fn digit_char(d: int) -> char {
    if d == 0 { '0' } else if d == 1 { '1' } else if d == 2 { '2' } else if d == 3 { '3' }
    else if d == 4 { '4' } else if d == 5 { '5' } else if d == 6 { '6' } else if d == 7 { '7' }
    else if d == 8 { '8' } else { '9' }
}

/// Decimal digits of `n`, most significant first.
pub open spec fn decimal(n: nat) -> Seq<char>
    decreases n,
{
    if n < 10 {
        seq![digit_char(n as int)]
    } else {
        decimal(n / 10).push(digit_char((n % 10) as int))
    }
}

/// Field names separated by ", ".
pub open spec fn names_text(fs: Seq<Field>) -> Seq<char>
    decreases fs.len(),
{
    if fs.len() == 0 {
        Seq::empty()
    } else if fs.len() == 1 {
        fs[0].name@
    } else {
        names_text(fs.drop_last()) + ", "@ + fs.last().name@
    }
}

/// How a dtype is written in messages, for example `List(Int64)`,
/// `Array(Float64, 2)` or `Struct(a, b)`.
pub open spec fn dtype_text(d: DataType) -> Seq<char>
    decreases d,
{
    match d {
        DataType::Boolean => "Boolean"@,
        DataType::Int32 => "Int32"@,
        DataType::Int64 => "Int64"@,
        DataType::UInt32 => "UInt32"@,
        DataType::UInt64 => "UInt64"@,
        DataType::Float32 => "Float32"@,
        DataType::Float64 => "Float64"@,
        DataType::String => "String"@,
        DataType::List(inner) => "List("@ + dtype_text(*inner) + ")"@,
        DataType::Array(inner, width) => "Array("@ + dtype_text(*inner) + ", "@ + decimal(
            width as nat,
        ) + ")"@,
        DataType::Struct(fs) => "Struct("@ + names_text(fs@) + ")"@,
        DataType::Other(name) => name@,
    }
}

pub open spec fn message_text(e: ComputeError) -> Seq<char> {
    match e {
        ComputeError::ShapeMismatch => "operand lengths do not match"@,
        ComputeError::NotContiguous => "expected input to be contiguous (in a single chunk without nulls)"@,
        ComputeError::MissingValue => "unexpected null value"@,
        ComputeError::InvalidDtype(d) => "dtype not supported by this operation: "@ + dtype_text(d),
        ComputeError::MissingInput => "expected at least one input"@,
    }
}

fn push_decimal(n: usize, out: &mut String)
    ensures
        final(out)@ == old(out)@ + decimal(n as nat),
    decreases n,
{
    if n >= 10 {
        push_decimal(n / 10, out);
    }
    let d = n % 10;
    let c = if d == 0 { '0' } else if d == 1 { '1' } else if d == 2 { '2' } else if d == 3 { '3' }
    else if d == 4 { '4' } else if d == 5 { '5' } else if d == 6 { '6' } else if d == 7 { '7' }
    else if d == 8 { '8' } else { '9' };
    push_char(out, c);
    if n < 10 {
        assert(out@ =~= old(out)@ + decimal(n as nat));
    } else {
        assert(out@ =~= old(out)@ + decimal(n as nat));
    }
}

/// Appends how `d` is written in messages.
fn push_dtype(d: &DataType, out: &mut String)
    ensures
        final(out)@ == old(out)@ + dtype_text(*d),
    decreases d,
{
    let ghost start = out@;
    match d {
        DataType::Boolean => push_str(out, "Boolean"),
        DataType::Int32 => push_str(out, "Int32"),
        DataType::Int64 => push_str(out, "Int64"),
        DataType::UInt32 => push_str(out, "UInt32"),
        DataType::UInt64 => push_str(out, "UInt64"),
        DataType::Float32 => push_str(out, "Float32"),
        DataType::Float64 => push_str(out, "Float64"),
        DataType::String => push_str(out, "String"),
        DataType::List(inner) => {
            push_str(out, "List(");
            push_dtype(inner, out);
            push_str(out, ")");
            assert(out@ =~= start + dtype_text(*d));
        },
        DataType::Array(inner, width) => {
            push_str(out, "Array(");
            push_dtype(inner, out);
            push_str(out, ", ");
            push_decimal(*width, out);
            push_str(out, ")");
            assert(out@ =~= start + dtype_text(*d));
        },
        DataType::Struct(fs) => {
            push_str(out, "Struct(");
            let ghost mid = out@;
            let mut i: usize = 0;
            while i < fs.len()
                invariant
                    0 <= i <= fs@.len(),
                    out@ == mid + names_text(fs@.take(i as int)),
                decreases fs@.len() - i,
            {
                let ghost before = out@;
                assert(fs@.take(i as int + 1).drop_last() =~= fs@.take(i as int));
                if i > 0 {
                    push_str(out, ", ");
                }
                push_str(out, fs[i].name.as_str());
                proof {
                    if i == 0 {
                        assert(names_text(fs@.take(0)) =~= Seq::<char>::empty());
                        assert(out@ =~= mid + names_text(fs@.take(1)));
                    } else {
                        assert(out@ =~= mid + names_text(fs@.take(i as int + 1)));
                    }
                }
                i = i + 1;
            }
            assert(fs@.take(i as int) =~= fs@);
            push_str(out, ")");
            assert(out@ =~= start + dtype_text(*d));
        },
        DataType::Other(name) => push_str(out, name.as_str()),
    }
}

impl ComputeError {
    /// A human-readable description; a dtype failure names the dtype.
    pub fn message(&self) -> (r: String)
        ensures
            r@ == message_text(*self),
    {
        let mut s = String::new();
        match self {
            ComputeError::ShapeMismatch => push_str(&mut s, "operand lengths do not match"),
            ComputeError::NotContiguous => push_str(
                &mut s,
                "expected input to be contiguous (in a single chunk without nulls)",
            ),
            ComputeError::MissingValue => push_str(&mut s, "unexpected null value"),
            ComputeError::InvalidDtype(d) => {
                push_str(&mut s, "dtype not supported by this operation: ");
                push_dtype(d, &mut s);
            },
            ComputeError::MissingInput => push_str(&mut s, "expected at least one input"),
        }
        assert(s@ =~= message_text(*self));
        s
    }
}

} // verus!
