//! Field-level migration plans between two versions of a struct, and their application.
use vstd::prelude::*;
use crate::table::TypeTable;
use crate::marshal::{decode_u64, encode_u64, le_bytes, le_value};
use crate::type_info::{spec_type_guid, type_guid, TypeInfo};

verus! {

/// How one field fares between an old and a new layout of a struct.
#[derive(Clone, Copy, Debug, PartialEq, Eq, Structural)]
pub enum FieldDiff {
    /// Same name, same type, same offset.
    Unchanged { old_index: usize, new_index: usize },
    /// Same name, same type, another offset.
    Moved { old_index: usize, new_index: usize },
    /// Same name, another type: the new field starts zeroed, but for a change
    /// between `core::int` and `core::bool`, which converts the value.
    TypeChanged { old_index: usize, new_index: usize },
    /// Only in the new layout: the field starts zeroed.
    Added { new_index: usize },
    /// Only in the old layout: its bytes are dropped.
    Removed { old_index: usize },
}

/// Both descriptors are struct layouts consistent with `table`.
pub open spec fn diffable(table: Seq<TypeInfo>, before: TypeInfo, after: TypeInfo) -> bool {
    &&& before.layout_wf(table)
    &&& after.layout_wf(table)
    &&& before.struct_info is Some
    &&& after.struct_info is Some
}

/// Whether old field `i` and new field `j` hold values of one type, stored alike.
pub open spec fn same_field_type(table: Seq<TypeInfo>, before: TypeInfo, i: int, after: TypeInfo, j: int) -> bool {
    let a = table[before.field_type(i)];
    let b = table[after.field_type(j)];
    a.guid@ == b.guid@ && a.spec_field_size() == b.spec_field_size()
}

/// Whether some field of `t` is called `name`.
pub open spec fn has_field(t: TypeInfo, name: Seq<char>) -> bool {
    exists|i: int| 0 <= i < t.field_count() && t.field_name(i) == name
}

/// The index of the field of `t` called `name`.
pub open spec fn field_index(t: TypeInfo, name: Seq<char>) -> int {
    choose|i: int| 0 <= i < t.field_count() && t.field_name(i) == name
}

/// What becomes of new field `j`: fields are matched by name, never by position.
pub open spec fn spec_entry(table: Seq<TypeInfo>, before: TypeInfo, after: TypeInfo, j: int) -> FieldDiff {
    let name = after.field_name(j);
    if !has_field(before, name) {
        FieldDiff::Added { new_index: j as usize }
    } else {
        let i = field_index(before, name);
        if !same_field_type(table, before, i, after, j) {
            FieldDiff::TypeChanged { old_index: i as usize, new_index: j as usize }
        } else if before.field_offset(i) == after.field_offset(j) {
            FieldDiff::Unchanged { old_index: i as usize, new_index: j as usize }
        } else {
            FieldDiff::Moved { old_index: i as usize, new_index: j as usize }
        }
    }
}

/// The plan between `old` and `new`: one entry per new field, in order, followed by
/// a `Removed` entry for each old field whose name the new layout lacks, in order.
pub open spec fn is_diff(table: Seq<TypeInfo>, before: TypeInfo, after: TypeInfo, d: Seq<FieldDiff>) -> bool {
    let n = after.field_count() as int;
    &&& d.len() >= n
    &&& forall|j: int| 0 <= j < n ==> #[trigger] d[j] == spec_entry(table, before, after, j)
    &&& forall|k: int| n <= k < d.len() ==> (#[trigger] d[k]) is Removed
        && 0 <= d[k]->Removed_old_index < before.field_count()
        && !has_field(after, before.field_name(d[k]->Removed_old_index as int))
    &&& forall|k1: int, k2: int| n <= k1 < k2 < d.len()
        ==> (#[trigger] d[k1])->Removed_old_index < (#[trigger] d[k2])->Removed_old_index
    &&& forall|i: int| 0 <= i < before.field_count() && !has_field(after, before.field_name(i))
        ==> exists|k: int| n <= k < d.len() && (#[trigger] d[k]) == (FieldDiff::Removed { old_index: i as usize })
}

/// Finds the field of `t` called `name`.
pub(crate) fn find_field(t: &TypeInfo, name: &String) -> (r: Option<usize>)
    requires
        t.struct_info is Some,
        t.struct_info->0.field_names@.len() == t.field_count(),
    ensures
        r is Some <==> has_field(*t, name@),
        r is Some ==> r->0 < t.field_count() && t.field_name(r->0 as int) == name@,
{
    match &t.struct_info {
        None => None,
        Some(s) => {
            let mut i: usize = 0;
            while i < s.field_names.len()
                invariant
                    t.struct_info == Some(*s),
                    s.field_names@.len() == t.field_count(),
                    0 <= i <= s.field_names@.len(),
                    forall|k: int| 0 <= k < i ==> t.field_name(k) != name@,
                decreases s.field_names@.len() - i,
            {
                if s.field_names[i] == *name {
                    assert(t.field_name(i as int) == name@);
                    return Some(i);
                }
                i = i + 1;
            }
            None
        },
    }
}

/// Computes the migration plan from the `old` to the `new` layout of a struct.
pub fn diff(table: &TypeTable, before: &TypeInfo, after: &TypeInfo) -> (r: Vec<FieldDiff>)
    requires
        diffable(table@, *before, *after),
    ensures
        is_diff(table@, *before, *after, r@),
{
    let os = before.struct_info.as_ref().unwrap();
    let ns = after.struct_info.as_ref().unwrap();
    let mut r: Vec<FieldDiff> = Vec::new();
    let mut j: usize = 0;
    while j < ns.field_types.len()
        invariant
            diffable(table@, *before, *after),
            before.struct_info == Some(*os),
            after.struct_info == Some(*ns),
            0 <= j <= after.field_count(),
            r@.len() == j,
            forall|k: int| 0 <= k < j ==> #[trigger] r@[k] == spec_entry(table@, *before, *after, k),
        decreases after.field_count() - j,
    {
        let e = match find_field(before, &ns.field_names[j]) {
            None => FieldDiff::Added { new_index: j },
            Some(i) => {
                proof {
                    let name = after.field_name(j as int);
                    let c = field_index(*before, name);
                    assert(before.field_name(i as int) == name);
                    if c != i {
                        assert(before.field_name(c) != before.field_name(i as int));
                    }
                }
                assert(before.field_placed(table@, i as int));
                assert(after.field_placed(table@, j as int));
                let a = table.get(os.field_types[i]);
                let b = table.get(ns.field_types[j]);
                if !(a.guid == b.guid) || a.field_size() != b.field_size() {
                    FieldDiff::TypeChanged { old_index: i, new_index: j }
                } else if os.field_offsets[i] == ns.field_offsets[j] {
                    FieldDiff::Unchanged { old_index: i, new_index: j }
                } else {
                    FieldDiff::Moved { old_index: i, new_index: j }
                }
            },
        };
        r.push(e);
        j = j + 1;
    }
    let ghost n = after.field_count() as int;
    let mut i: usize = 0;
    while i < os.field_types.len()
        invariant
            diffable(table@, *before, *after),
            before.struct_info == Some(*os),
            after.struct_info == Some(*ns),
            n == after.field_count(),
            0 <= i <= before.field_count(),
            r@.len() >= n,
            forall|k: int| 0 <= k < n ==> #[trigger] r@[k] == spec_entry(table@, *before, *after, k),
            forall|k: int| n <= k < r@.len() ==> (#[trigger] r@[k]) is Removed
                && 0 <= r@[k]->Removed_old_index < i
                && !has_field(*after, before.field_name(r@[k]->Removed_old_index as int)),
            forall|k1: int, k2: int| n <= k1 < k2 < r@.len()
                ==> (#[trigger] r@[k1])->Removed_old_index < (#[trigger] r@[k2])->Removed_old_index,
            forall|m: int| 0 <= m < i && !has_field(*after, before.field_name(m))
                ==> exists|k: int| n <= k < r@.len() && (#[trigger] r@[k]) == (FieldDiff::Removed { old_index: m as usize }),
        decreases before.field_count() - i,
    {
        if find_field(after, &os.field_names[i]).is_none() {
            let ghost prev = r@;
            r.push(FieldDiff::Removed { old_index: i });
            proof {
                assert forall|m: int| 0 <= m <= i && !has_field(*after, before.field_name(m))
                    implies exists|k: int| n <= k < r@.len() && (#[trigger] r@[k]) == (FieldDiff::Removed { old_index: m as usize }) by {
                    if m < i {
                        let k = choose|k: int| n <= k < prev.len() && (#[trigger] prev[k]) == (FieldDiff::Removed { old_index: m as usize });
                        assert(r@[k] == prev[k]);
                    } else {
                        assert(r@[r@.len() - 1] == (FieldDiff::Removed { old_index: m as usize }));
                    }
                }
            }
        }
        i = i + 1;
    }
    r
}

/// The bytes of old field `i`.
pub open spec fn old_field_bytes(table: Seq<TypeInfo>, before: TypeInfo, old_bytes: Seq<u8>, i: int) -> Seq<u8> {
    let off = before.field_offset(i) as int;
    old_bytes.subrange(off, off + table[before.field_type(i)].spec_field_size())
}

/// The type of old field `i` is `core::int` and that of new field `j` is
/// `core::bool`, each of its usual size.
pub open spec fn int_to_bool(table: Seq<TypeInfo>, before: TypeInfo, i: int, after: TypeInfo, j: int) -> bool {
    let a = table[before.field_type(i)];
    let b = table[after.field_type(j)];
    &&& a.guid@ == spec_type_guid("core::int"@) && a.spec_field_size() == 8
    &&& b.guid@ == spec_type_guid("core::bool"@) && b.spec_field_size() == 1
}

/// The type of old field `i` is `core::bool` and that of new field `j` is
/// `core::int`, each of its usual size.
pub open spec fn bool_to_int(table: Seq<TypeInfo>, before: TypeInfo, i: int, after: TypeInfo, j: int) -> bool {
    let a = table[before.field_type(i)];
    let b = table[after.field_type(j)];
    &&& a.guid@ == spec_type_guid("core::bool"@) && a.spec_field_size() == 1
    &&& b.guid@ == spec_type_guid("core::int"@) && b.spec_field_size() == 8
}

/// The bytes that new field `j` receives: the old field's bytes when it keeps its
/// name and type; when its type changed from `core::int` to `core::bool`, whether
/// the old value was nonzero; from `core::bool` to `core::int`, 0 or 1. Any other
/// field receives nothing and stays zero.
pub open spec fn fill_bytes(table: Seq<TypeInfo>, before: TypeInfo, after: TypeInfo, old_bytes: Seq<u8>, j: int) -> Option<Seq<u8>> {
    match spec_entry(table, before, after, j) {
        FieldDiff::Unchanged { old_index, .. } => Some(old_field_bytes(table, before, old_bytes, old_index as int)),
        FieldDiff::Moved { old_index, .. } => Some(old_field_bytes(table, before, old_bytes, old_index as int)),
        FieldDiff::TypeChanged { old_index, .. } => {
            let i = old_index as int;
            let src = old_field_bytes(table, before, old_bytes, i);
            if int_to_bool(table, before, i, after, j) {
                Some(seq![if le_value(src) != 0 { 1u8 } else { 0u8 }])
            } else if bool_to_int(table, before, i, after, j) {
                Some(le_bytes(if src[0] != 0 { 1u64 } else { 0u64 }))
            } else {
                None
            }
        },
        _ => None,
    }
}

/// Whether byte `p` of a new object lies in a field that receives bytes.
pub open spec fn in_filled_field(table: Seq<TypeInfo>, before: TypeInfo, after: TypeInfo, old_bytes: Seq<u8>, p: int) -> bool {
    exists|j: int|
        0 <= j < after.field_count() && (#[trigger] fill_bytes(table, before, after, old_bytes, j)) is Some
            && after.field_offset(j) <= p < after.field_end(table, j)
}

/// `out` is the migration of the old object `old_bytes`: every field that
/// receives bytes holds them, and every other byte is zero.
pub open spec fn is_migration(
    table: Seq<TypeInfo>,
    before: TypeInfo,
    after: TypeInfo,
    old_bytes: Seq<u8>,
    out: Seq<u8>,
) -> bool {
    &&& out.len() == after.spec_size_in_bytes()
    &&& forall|j: int, k: int|
        0 <= j < after.field_count() && (#[trigger] fill_bytes(table, before, after, old_bytes, j)) is Some
            && 0 <= k < fill_bytes(table, before, after, old_bytes, j)->0.len()
            ==> #[trigger] out[after.field_offset(j) + k] == fill_bytes(table, before, after, old_bytes, j)->0[k]
    &&& forall|p: int|
        0 <= p < out.len() && !in_filled_field(table, before, after, old_bytes, p) ==> #[trigger] out[p] == 0
}

/// The bytes new field `j` receives fill it exactly.
proof fn lemma_fill_fits(table: Seq<TypeInfo>, before: TypeInfo, after: TypeInfo, old_bytes: Seq<u8>, j: int)
    requires
        diffable(table, before, after),
        old_bytes.len() == before.spec_size_in_bytes(),
        0 <= j < after.field_count(),
        fill_bytes(table, before, after, old_bytes, j) is Some,
    ensures
        fill_bytes(table, before, after, old_bytes, j)->0.len() == table[after.field_type(j)].spec_field_size(),
        spec_entry(table, before, after, j) is Unchanged || spec_entry(table, before, after, j) is Moved
            || spec_entry(table, before, after, j) is TypeChanged,
        ({
            let e = spec_entry(table, before, after, j);
            let i = if e is Unchanged { e->Unchanged_old_index as int } else if e is Moved {
                e->Moved_old_index as int } else { e->TypeChanged_old_index as int };
            &&& 0 <= i < before.field_count()
            &&& before.field_name(i) == after.field_name(j)
            &&& before.field_placed(table, i)
        }),
{
    let name = after.field_name(j);
    assert(has_field(before, name));
    let c = field_index(before, name);
    assert(0 <= c < before.field_count() && before.field_name(c) == name);
    assert(before.field_placed(table, c));
}

/// Rewrites `new_buffer` as the migration of the old object `old_bytes` under the
/// plan `d` from `before` to `after`.
pub fn apply(
    table: &TypeTable,
    d: &[FieldDiff],
    before: &TypeInfo,
    after: &TypeInfo,
    old_bytes: &[u8],
    new_buffer: &mut Vec<u8>,
)
    requires
        diffable(table@, *before, *after),
        is_diff(table@, *before, *after, d@),
        old_bytes@.len() == before.spec_size_in_bytes(),
        old(new_buffer)@.len() == after.spec_size_in_bytes(),
    ensures
        is_migration(table@, *before, *after, old_bytes@, final(new_buffer)@),
{
    let ns = after.struct_info.as_ref().unwrap();
    let os = before.struct_info.as_ref().unwrap();
    let len = new_buffer.len();
    let olen = old_bytes.len();
    let ocount = os.field_types.len();
    let int_guid = type_guid("core::int");
    let bool_guid = type_guid("core::bool");
    let mut p: usize = 0;
    while p < len
        invariant
            new_buffer@.len() == len,
            0 <= p <= len,
            forall|q: int| 0 <= q < p ==> new_buffer@[q] == 0,
        decreases len - p,
    {
        new_buffer.set(p, 0);
        p = p + 1;
    }
    let ghost tb = table@;
    let ghost ob = old_bytes@;
    let mut j: usize = 0;
    while j < ns.field_types.len()
        invariant
            diffable(tb, *before, *after),
            is_diff(tb, *before, *after, d@),
            tb == table@,
            ob == old_bytes@,
            int_guid@ == spec_type_guid("core::int"@),
            bool_guid@ == spec_type_guid("core::bool"@),
            before.struct_info == Some(*os),
            after.struct_info == Some(*ns),
            old_bytes@.len() == before.spec_size_in_bytes(),
            olen == old_bytes@.len(),
            ocount == before.field_count(),
            new_buffer@.len() == len,
            len == after.spec_size_in_bytes(),
            0 <= j <= after.field_count(),
            forall|j2: int, k: int|
                0 <= j2 < j && (#[trigger] fill_bytes(tb, *before, *after, ob, j2)) is Some
                    && 0 <= k < fill_bytes(tb, *before, *after, ob, j2)->0.len()
                    ==> #[trigger] new_buffer@[after.field_offset(j2) + k] == fill_bytes(tb, *before, *after, ob, j2)->0[k],
            forall|q: int|
                0 <= q < len && !(exists|j2: int|
                    0 <= j2 < j && (#[trigger] fill_bytes(tb, *before, *after, ob, j2)) is Some
                        && after.field_offset(j2) <= q < after.field_end(tb, j2))
                    ==> #[trigger] new_buffer@[q] == 0,
        decreases after.field_count() - j,
    {
        assert(d@[j as int] == spec_entry(tb, *before, *after, j as int));
        assert(after.field_placed(tb, j as int));
        let noff = ns.field_offsets[j] as usize;
        let nt = table.get(ns.field_types[j]);
        let size = nt.field_size() as usize;
        let fill: Option<Vec<u8>> = match d[j] {
            FieldDiff::Unchanged { old_index, .. } | FieldDiff::Moved { old_index, .. } => {
                proof {
                    let name = after.field_name(j as int);
                    assert(has_field(*before, name));
                    let c = field_index(*before, name);
                    assert(0 <= c < before.field_count() && before.field_name(c) == name);
                    assert(c == old_index);
                    assert(same_field_type(tb, *before, c, *after, j as int));
                }
                assert(before.field_placed(tb, old_index as int));
                let ooff = os.field_offsets[old_index] as usize;
                let mut b: Vec<u8> = Vec::new();
                let mut k: usize = 0;
                while k < size
                    invariant
                        ooff + size <= old_bytes@.len(),
                        olen == old_bytes@.len(),
                        0 <= k <= size,
                        b@ == old_bytes@.subrange(ooff as int, ooff + k),
                    decreases size - k,
                {
                    b.push(old_bytes[ooff + k]);
                    k = k + 1;
                    assert(b@ =~= old_bytes@.subrange(ooff as int, ooff + k));
                }
                Some(b)
            },
            FieldDiff::TypeChanged { old_index, .. } => {
                proof {
                    let name = after.field_name(j as int);
                    assert(has_field(*before, name));
                    let c = field_index(*before, name);
                    assert(0 <= c < before.field_count() && before.field_name(c) == name);
                    assert(c == old_index);
                }
                assert(before.field_placed(tb, old_index as int));
                let ooff = os.field_offsets[old_index] as usize;
                let ot = table.get(os.field_types[old_index]);
                let osize = ot.field_size();
                if ot.guid == int_guid && osize == 8 && nt.guid == bool_guid && size == 1 {
                    let v = decode_u64(old_bytes, ooff);
                    let mut b: Vec<u8> = Vec::new();
                    b.push(if v != 0 { 1u8 } else { 0u8 });
                    proof {
                        assert(old_bytes@.subrange(ooff as int, ooff + 8) == old_field_bytes(tb, *before, ob, old_index as int));
                        assert(b@ =~= seq![if v != 0 { 1u8 } else { 0u8 }]);
                    }
                    Some(b)
                } else if ot.guid == bool_guid && osize == 1 && nt.guid == int_guid && size == 8 {
                    let b = encode_u64(if old_bytes[ooff] != 0 { 1u64 } else { 0u64 });
                    proof {
                        let src = old_field_bytes(tb, *before, ob, old_index as int);
                        assert(src[0] == old_bytes@[ooff as int]);
                    }
                    Some(b)
                } else {
                    None
                }
            },
            _ => None,
        };
        assert(fill.is_some() ==> fill_bytes(tb, *before, *after, ob, j as int) == Some(fill->0@));
        assert(fill.is_none() ==> fill_bytes(tb, *before, *after, ob, j as int) is None);
        if let Some(b) = fill {
            proof {
                lemma_fill_fits(tb, *before, *after, ob, j as int);
            }
            let ghost start = new_buffer@;
            let mut k: usize = 0;
            while k < size
                invariant
                    new_buffer@.len() == len,
                    start.len() == len,
                    noff + size <= len,
                    b@.len() == size,
                    0 <= k <= size,
                    forall|k2: int| 0 <= k2 < k ==> #[trigger] new_buffer@[noff + k2] == b@[k2],
                    forall|q: int| 0 <= q < len && !(noff <= q < noff + k) ==> new_buffer@[q] == start[q],
                decreases size - k,
            {
                new_buffer.set(noff + k, b[k]);
                k = k + 1;
            }
            proof {
                assert forall|j2: int, k2: int|
                    0 <= j2 < j + 1 && (#[trigger] fill_bytes(tb, *before, *after, ob, j2)) is Some
                        && 0 <= k2 < fill_bytes(tb, *before, *after, ob, j2)->0.len()
                        implies #[trigger] new_buffer@[after.field_offset(j2) + k2] == fill_bytes(tb, *before, *after, ob, j2)->0[k2] by {
                    if j2 < j {
                        lemma_fill_fits(tb, *before, *after, ob, j2);
                        assert(after.fields_apart(tb, j2, j as int));
                        assert(after.field_placed(tb, j2));
                        assert(new_buffer@[after.field_offset(j2) + k2] == start[after.field_offset(j2) + k2]);
                    } else {
                        assert(new_buffer@[noff + k2] == b@[k2]);
                    }
                }
                assert forall|q: int|
                    0 <= q < len && !(exists|j2: int|
                        0 <= j2 < j + 1 && (#[trigger] fill_bytes(tb, *before, *after, ob, j2)) is Some
                            && after.field_offset(j2) <= q < after.field_end(tb, j2))
                        implies #[trigger] new_buffer@[q] == 0 by {
                    if noff <= q < noff + size {
                        assert(fill_bytes(tb, *before, *after, ob, j as int) is Some
                            && after.field_offset(j as int) <= q < after.field_end(tb, j as int));
                    }
                    assert(start[q] == 0);
                }
            }
        }
        j = j + 1;
    }
    proof {
        assert forall|q: int| 0 <= q < len && !in_filled_field(tb, *before, *after, ob, q)
            implies #[trigger] new_buffer@[q] == 0 by {
            if exists|j2: int|
                0 <= j2 < after.field_count() && (#[trigger] fill_bytes(tb, *before, *after, ob, j2)) is Some
                    && after.field_offset(j2) <= q < after.field_end(tb, j2) {
                assert(in_filled_field(tb, *before, *after, ob, q));
            }
        }
    }
}

/// Applying the plan between two layouts leaves no byte undetermined: each byte of
/// the new object lies in a field that receives bytes, or is zero. A field that
/// the plan marks unchanged keeps its bytes exactly, at the same offset.
pub proof fn lemma_diff_complete(
    table: Seq<TypeInfo>,
    before: TypeInfo,
    after: TypeInfo,
    old_bytes: Seq<u8>,
    out: Seq<u8>,
    j: int,
)
    requires
        diffable(table, before, after),
        is_migration(table, before, after, old_bytes, out),
        old_bytes.len() == before.spec_size_in_bytes(),
        0 <= j < after.field_count(),
        spec_entry(table, before, after, j) is Unchanged,
    ensures
        forall|p: int| 0 <= p < out.len() ==> in_filled_field(table, before, after, old_bytes, p) || out[p] == 0,
        ({
            let i = spec_entry(table, before, after, j)->Unchanged_old_index as int;
            let off = after.field_offset(j) as int;
            let size = table[after.field_type(j)].spec_field_size() as int;
            &&& before.field_offset(i) == off
            &&& out.subrange(off, off + size) == old_bytes.subrange(off, off + size)
        }),
{
    let i = spec_entry(table, before, after, j)->Unchanged_old_index as int;
    let off = after.field_offset(j) as int;
    let size = table[after.field_type(j)].spec_field_size() as int;
    lemma_fill_fits(table, before, after, old_bytes, j);
    let name = after.field_name(j);
    let c = field_index(before, name);
    assert(c == i);
    assert(same_field_type(table, before, i, after, j));
    let fb = fill_bytes(table, before, after, old_bytes, j)->0;
    assert(fb == old_field_bytes(table, before, old_bytes, i));
    assert(after.field_placed(table, j));
    assert(before.field_placed(table, i));
    assert(before.field_offset(i) == off);
    assert(fb.len() == size);
    assert forall|k: int| 0 <= k < size implies #[trigger] out.subrange(off, off + size)[k] == old_bytes.subrange(off, off + size)[k] by {
        assert(out[after.field_offset(j) + k] == fb[k]);
        assert(fb[k] == old_bytes[off + k]);
    }
    assert(out.subrange(off, off + size) =~= old_bytes.subrange(off, off + size));
}

} // verus!
