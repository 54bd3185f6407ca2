//! Row-structured columns: named fields sharing one row count.
use vstd::prelude::*;

verus! {

/// A struct column. Field `i` is named `field_names[i]` and stored in
/// `fields[i]`; the payload type `C` is whatever column type the caller uses.
pub struct StructColumn<C> {
    pub name: String,
    pub len: usize,
    pub field_names: Vec<String>,
    pub fields: Vec<C>,
}

impl<C> StructColumn<C> {
    /// One name per field.
    pub open spec fn wf(&self) -> bool {
        self.field_names@.len() == self.fields@.len()
    }
}

/// The sequence moved one place to the left, the first element going last.
pub open spec fn rotate_left<C>(s: Seq<C>) -> Seq<C> {
    if s.len() == 0 {
        s
    } else {
        s.subrange(1, s.len() as int).push(s[0])
    }
}

/// `k` successive left rotations.
pub open spec fn rotate_times<C>(s: Seq<C>, k: nat) -> Seq<C>
    decreases k,
{
    if k == 0 {
        s
    } else {
        rotate_left(rotate_times(s, (k - 1) as nat))
    }
}

/// One shift of a struct given as its name, field names and field values:
/// the values rotate left, the names stay, and the struct takes the first
/// field's name. Without fields nothing changes.
pub open spec fn shifted_parts<C>(name: String, names: Seq<String>, fields: Seq<C>) -> (
    String,
    Seq<String>,
    Seq<C>,
) {
    if fields.len() == 0 {
        (name, names, fields)
    } else {
        (names[0], names, rotate_left(fields))
    }
}

/// `k` successive shifts.
pub open spec fn shifted_parts_times<C>(name: String, names: Seq<String>, fields: Seq<C>, k: nat) -> (
    String,
    Seq<String>,
    Seq<C>,
)
    decreases k,
{
    if k == 0 {
        (name, names, fields)
    } else {
        let p = shifted_parts_times(name, names, fields, (k - 1) as nat);
        shifted_parts(p.0, p.1, p.2)
    }
}

/// Moves the values of each field one position earlier, the first field's
/// values going to the last position. Field names stay where they are, so
/// each moved column takes the name of the slot it lands in; the struct takes
/// the first field's name. A struct without fields is returned as it is.
pub fn shift_struct<C>(s: StructColumn<C>) -> (r: StructColumn<C>)
    requires
        s.wf(),
    ensures
        r.wf(),
        r.len == s.len,
        r.field_names@ == s.field_names@,
        r.fields@ == rotate_left(s.fields@),
        r.name == (if s.fields@.len() == 0 {
            s.name
        } else {
            s.field_names@[0]
        }),
        (r.name, r.field_names@, r.fields@) == shifted_parts(s.name, s.field_names@, s.fields@),
{
    if s.fields.len() == 0 {
        return s;
    }
    let StructColumn { name: _, len, field_names, fields } = s;
    let struct_name = field_names[0].clone();
    let mut fields = fields;
    let first = fields.remove(0);
    fields.push(first);
    assert(fields@ =~= rotate_left(s.fields@));
    StructColumn { name: struct_name, len, field_names, fields }
}

proof fn lemma_rotate_times_split<C>(s: Seq<C>, k: nat)
    requires
        k <= s.len(),
    ensures
        rotate_times(s, k) == s.subrange(k as int, s.len() as int) + s.subrange(0, k as int),
    decreases k,
{
    if k == 0 {
        assert(s.subrange(0, s.len() as int) + s.subrange(0, 0) =~= s);
    } else {
        lemma_rotate_times_split(s, (k - 1) as nat);
        let prev = s.subrange(k - 1, s.len() as int) + s.subrange(0, k - 1);
        assert(prev.len() > 0);
        assert(prev[0] == s[k - 1]);
        assert(prev.subrange(1, prev.len() as int).push(prev[0]) =~= s.subrange(
            k as int,
            s.len() as int,
        ) + s.subrange(0, k as int));
    }
}

/// Rotating the fields of a struct with `n` fields `n` times restores them:
/// names never move, and the values come back to their own slots.
pub proof fn lemma_rotation_cycle<C>(fields: Seq<C>)
    ensures
        rotate_times(fields, fields.len()) == fields,
{
    lemma_rotate_times_split(fields, fields.len());
    assert(fields.subrange(fields.len() as int, fields.len() as int) + fields.subrange(
        0,
        fields.len() as int,
    ) =~= fields);
}

proof fn lemma_shifts_keep_names<C>(name: String, names: Seq<String>, fields: Seq<C>, k: nat)
    requires
        names.len() == fields.len(),
    ensures
        shifted_parts_times(name, names, fields, k).1 == names,
        shifted_parts_times(name, names, fields, k).2 == rotate_times(fields, k),
        shifted_parts_times(name, names, fields, k).0 == (if k == 0 || fields.len() == 0 {
            name
        } else {
            names[0]
        }),
    decreases k,
{
    if k > 0 {
        lemma_shifts_keep_names(name, names, fields, (k - 1) as nat);
        lemma_rotate_times_len(fields, (k - 1) as nat);
    }
}

proof fn lemma_rotate_times_len<C>(s: Seq<C>, k: nat)
    ensures
        rotate_times(s, k).len() == s.len(),
    decreases k,
{
    if k > 0 {
        lemma_rotate_times_len(s, (k - 1) as nat);
    }
}

/// Shifting a struct with `n` fields `n` times gives back its field names and
/// field values; its name becomes that of its first field, so the whole
/// struct comes back exactly when it was already named after that field (or
/// has no fields).
pub proof fn lemma_shift_struct_cycle<C>(name: String, names: Seq<String>, fields: Seq<C>)
    requires
        names.len() == fields.len(),
    ensures
        shifted_parts_times(name, names, fields, fields.len()).1 == names,
        shifted_parts_times(name, names, fields, fields.len()).2 == fields,
        (fields.len() == 0 || name == names[0]) ==> shifted_parts_times(
            name,
            names,
            fields,
            fields.len(),
        ) == (name, names, fields),
{
    lemma_shifts_keep_names(name, names, fields, fields.len());
    lemma_rotation_cycle(fields);
}

} // verus!
