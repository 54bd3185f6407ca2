//! String kernels. A string column is a list column of characters: each row
//! is one string, stored as a slot range of a shared character arena.
use vstd::prelude::*;
use crate::list::{ListChunked, apply_amortized, row_map_result};

verus! {

/// The first character moved to the end, followed by "ay"; an empty string
/// stays empty.
pub open spec fn pig_latin(s: Seq<Option<char>>) -> Seq<Option<char>> {
    if s.len() == 0 {
        s
    } else {
        s.subrange(1, s.len() as int) + seq![s[0], Some('a'), Some('y')]
    }
}

/// Index of the last '.' among the first `n` characters, or -1.
pub open spec fn last_dot(s: Seq<Option<char>>, n: int) -> int
    decreases n,
{
    if n <= 0 {
        -1
    } else if s[n - 1] == Some('.') {
        n - 1
    } else {
        last_dot(s, n - 1)
    }
}

/// Everything before the last '.', or the whole string when it has none.
pub open spec fn without_last_extension(s: Seq<Option<char>>) -> Seq<Option<char>> {
    let d = last_dot(s, s.len() as int);
    if d < 0 {
        s
    } else {
        s.subrange(0, d)
    }
}

/// Maps each valid row with `g`; null rows stay null.
pub open spec fn map_rows(
    a: Seq<Option<Seq<Option<char>>>>,
    g: spec_fn(Seq<Option<char>>) -> Seq<Option<char>>,
) -> Seq<Option<Seq<Option<char>>>> {
    Seq::new(
        a.len(),
        |i: int|
            match a[i] {
                Some(s) => Some(g(s)),
                None => None,
            },
    )
}

fn copy_range(row: &Vec<Option<char>>, from: usize, to: usize, out: &mut Vec<Option<char>>)
    requires
        from <= to <= row@.len(),
    ensures
        final(out)@ == old(out)@ + row@.subrange(from as int, to as int),
{
    let mut j: usize = from;
    while j < to
        invariant
            from <= j <= to <= row@.len(),
            out@ == old(out)@ + row@.subrange(from as int, j as int),
        decreases to - j,
    {
        out.push(row[j]);
        assert(out@ =~= old(out)@ + row@.subrange(from as int, j as int + 1));
        j = j + 1;
    }
}

fn row_pig_latin(row: &Vec<Option<char>>) -> (r: Vec<Option<char>>)
    ensures
        r@ == pig_latin(row@),
{
    let mut out: Vec<Option<char>> = Vec::new();
    if row.len() == 0 {
        assert(out@ =~= row@);
        return out;
    }
    copy_range(row, 1, row.len(), &mut out);
    out.push(row[0]);
    out.push(Some('a'));
    out.push(Some('y'));
    assert(out@ =~= pig_latin(row@));
    out
}

fn row_remove_last_extension(row: &Vec<Option<char>>) -> (r: Vec<Option<char>>)
    ensures
        r@ == without_last_extension(row@),
{
    let mut n: usize = row.len();
    let ghost full = row@.len() as int;
    while n > 0 && row[n - 1] != Some('.')
        invariant
            0 <= n <= row@.len(),
            last_dot(row@, full) == last_dot(row@, n as int),
            full == row@.len(),
        decreases n,
    {
        n = n - 1;
    }
    let mut out: Vec<Option<char>> = Vec::new();
    if n == 0 {
        copy_range(row, 0, row.len(), &mut out);
        assert(out@ =~= row@);
    } else {
        copy_range(row, 0, n - 1, &mut out);
        assert(out@ =~= row@.subrange(0, n - 1));
    }
    out
}

fn row_with_suffix(row: &Vec<Option<char>>, suffix: &Vec<Option<char>>) -> (r: Vec<Option<char>>)
    ensures
        r@ == row@ + suffix@,
{
    let mut out: Vec<Option<char>> = Vec::new();
    copy_range(row, 0, row.len(), &mut out);
    copy_range(suffix, 0, suffix.len(), &mut out);
    assert(out@ =~= row@ + suffix@);
    out
}

/// Pig latin of every valid string.
pub fn pig_latinnify(a: &ListChunked<char>) -> (r: ListChunked<char>)
    requires
        a.wf(),
    ensures
        r.wf(),
        r@ == map_rows(a@, |s: Seq<Option<char>>| pig_latin(s)),
{
    let f = |row: &Vec<Option<char>>| -> (z: Vec<Option<char>>)
        ensures
            z@ == pig_latin(row@),
        { row_pig_latin(row) };
    let r = apply_amortized(a, f);
    assert forall|i: int| 0 <= i < a@.len() && a@[i] is Some implies (#[trigger] r@[i])->0
        == pig_latin(a@[i]->0) by {
        assert(row_map_result(f, a@[i]->0, r@[i]->0));
        let (x, v) = choose|x: Vec<Option<char>>, v: Vec<Option<char>>|
            x@ == a@[i]->0 && v@ == r@[i]->0 && #[trigger] call_ensures(f, (&x,), v);
    }
    assert(r@ =~= map_rows(a@, |s: Seq<Option<char>>| pig_latin(s)));
    r
}

/// Every valid string without its last extension: the text before its last
/// '.', or the whole string when it has none.
pub fn remove_extension(a: &ListChunked<char>) -> (r: ListChunked<char>)
    requires
        a.wf(),
    ensures
        r.wf(),
        r@ == map_rows(a@, |s: Seq<Option<char>>| without_last_extension(s)),
{
    let f = |row: &Vec<Option<char>>| -> (z: Vec<Option<char>>)
        ensures
            z@ == without_last_extension(row@),
        { row_remove_last_extension(row) };
    let r = apply_amortized(a, f);
    assert forall|i: int| 0 <= i < a@.len() && a@[i] is Some implies (#[trigger] r@[i])->0
        == without_last_extension(a@[i]->0) by {
        assert(row_map_result(f, a@[i]->0, r@[i]->0));
        let (x, v) = choose|x: Vec<Option<char>>, v: Vec<Option<char>>|
            x@ == a@[i]->0 && v@ == r@[i]->0 && #[trigger] call_ensures(f, (&x,), v);
    }
    assert(r@ =~= map_rows(a@, |s: Seq<Option<char>>| without_last_extension(s)));
    r
}

/// Every valid string followed by `suffix`.
pub fn add_suffix(a: &ListChunked<char>, suffix: &Vec<Option<char>>) -> (r: ListChunked<char>)
    requires
        a.wf(),
    ensures
        r.wf(),
        r@ == map_rows(a@, |s: Seq<Option<char>>| s + suffix@),
{
    let f = |row: &Vec<Option<char>>| -> (z: Vec<Option<char>>)
        ensures
            z@ == row@ + suffix@,
        { row_with_suffix(row, suffix) };
    let r = apply_amortized(a, f);
    assert forall|i: int| 0 <= i < a@.len() && a@[i] is Some implies (#[trigger] r@[i])->0
        == a@[i]->0 + suffix@ by {
        assert(row_map_result(f, a@[i]->0, r@[i]->0));
        let (x, v) = choose|x: Vec<Option<char>>, v: Vec<Option<char>>|
            x@ == a@[i]->0 && v@ == r@[i]->0 && #[trigger] call_ensures(f, (&x,), v);
    }
    assert(r@ =~= map_rows(a@, |s: Seq<Option<char>>| s + suffix@));
    r
}

} // verus!
