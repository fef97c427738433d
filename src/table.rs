//! The set of type descriptors that a compiled module provides.
use vstd::prelude::*;
use crate::type_info::{is_valid_alignment, type_guid, Guid, StructInfo, StructMemoryKind, TypeGroup, TypeInfo};

verus! {

/// Whether `b` holds the types of `a` at the same indices.
pub open spec fn extends(a: Seq<TypeInfo>, b: Seq<TypeInfo>) -> bool {
    &&& a.len() <= b.len()
    &&& forall|k: int| 0 <= k < a.len() ==> #[trigger] b[k] == a[k]
}

/// A descriptor stays consistent when its table gains entries.
pub proof fn lemma_layout_wf_extends(t: TypeInfo, a: Seq<TypeInfo>, b: Seq<TypeInfo>)
    requires
        t.layout_wf(a),
        extends(a, b),
    ensures
        t.layout_wf(b),
{
    if t.struct_info is Some {
        assert forall|i: int| 0 <= i < t.field_count() implies #[trigger] t.field_placed(b, i) by {
            assert(t.field_placed(a, i));
            assert(b[t.field_type(i)] == a[t.field_type(i)]);
        }
        assert forall|i: int, j: int|
            0 <= i < t.field_count() && 0 <= j < t.field_count() && i != j
                implies #[trigger] t.fields_apart(b, i, j) by {
            assert(t.field_placed(a, i));
            assert(t.field_placed(a, j));
            assert(t.fields_apart(a, i, j));
            assert(b[t.field_type(i)] == a[t.field_type(i)]);
            assert(b[t.field_type(j)] == a[t.field_type(j)]);
        }
    }
}

/// Decides whether `t` is consistent with the types in `table`.
pub fn check_layout(table: &Vec<TypeInfo>, t: &TypeInfo) -> (r: bool)
    ensures
        r == t.layout_wf(table@),
{
    let g = type_guid(t.name());
    if !(g == t.guid) || !is_valid_alignment(t.alignment) {
        return false;
    }
    match &t.struct_info {
        None => !t.group.is_struct(),
        Some(s) => {
            if !t.group.is_struct() {
                return false;
            }
            let n = s.field_types.len();
            if s.field_names.len() != n || s.field_offsets.len() != n {
                return false;
            }
            let size = t.size_in_bytes() as u64;
            let mut i: usize = 0;
            while i < n
                invariant
                    t.struct_info == Some(*s),
                    n == t.field_count(),
                    s.field_names@.len() == n,
                    s.field_offsets@.len() == n,
                    size == t.spec_size_in_bytes(),
                    0 <= i <= n,
                    forall|k: int| 0 <= k < i ==> #[trigger] t.field_placed(table@, k),
                decreases n - i,
            {
                let ft = s.field_types[i];
                if ft >= table.len() {
                    assert(!t.field_placed(table@, i as int));
                    return false;
                }
                let fa = table[ft].field_alignment();
                let fs = table[ft].field_size();
                let off = s.field_offsets[i] as u64;
                if fa == 0 || fa > t.alignment as u64 || off % fa != 0 || fs > size || off > size - fs {
                    assert(!t.field_placed(table@, i as int));
                    return false;
                }
                i = i + 1;
            }
            let mut i: usize = 0;
            while i < n
                invariant
                    t.struct_info == Some(*s),
                    n == t.field_count(),
                    s.field_names@.len() == n,
                    s.field_offsets@.len() == n,
                    forall|k: int| 0 <= k < n ==> #[trigger] t.field_placed(table@, k),
                    0 <= i <= n,
                    forall|a: int, b: int|
                        0 <= a < i && 0 <= b < n && a != b ==> #[trigger] t.fields_apart(table@, a, b),
                    forall|a: int, b: int|
                        0 <= a < i && 0 <= b < n && a != b ==> #[trigger] t.field_name(a) != #[trigger] t.field_name(b),
                decreases n - i,
            {
                let mut j: usize = 0;
                while j < n
                    invariant
                        t.struct_info == Some(*s),
                        n == t.field_count(),
                        s.field_names@.len() == n,
                        s.field_offsets@.len() == n,
                        forall|k: int| 0 <= k < n ==> #[trigger] t.field_placed(table@, k),
                        0 <= i < n,
                        0 <= j <= n,
                        forall|b: int| 0 <= b < j && i != b ==> #[trigger] t.fields_apart(table@, i as int, b),
                        forall|b: int| 0 <= b < j && i != b ==> t.field_name(i as int) != #[trigger] t.field_name(b),
                    decreases n - j,
                {
                    if i != j {
                        assert(t.field_placed(table@, i as int));
                        assert(t.field_placed(table@, j as int));
                        let ei = s.field_offsets[i] as u64 + table[s.field_types[i]].field_size();
                        let ej = s.field_offsets[j] as u64 + table[s.field_types[j]].field_size();
                        if i < j && s.field_offsets[i] > s.field_offsets[j] {
                            assert(!t.fields_apart(table@, i as int, j as int));
                            return false;
                        }
                        if !(ei <= s.field_offsets[j] as u64 || ej <= s.field_offsets[i] as u64) {
                            assert(!t.fields_apart(table@, i as int, j as int));
                            return false;
                        }
                        if s.field_names[i] == s.field_names[j] {
                            assert(t.field_name(i as int) == t.field_name(j as int));
                            return false;
                        }
                    }
                    j = j + 1;
                }
                i = i + 1;
            }
            true
        },
    }
}

/// Index of `core::bool` in a table made by `TypeTable::with_core_types`.
pub const CORE_BOOL: usize = 0;
/// Index of `core::int` in a table made by `TypeTable::with_core_types`.
pub const CORE_INT: usize = 1;
/// Index of `core::float` in a table made by `TypeTable::with_core_types`.
pub const CORE_FLOAT: usize = 2;
/// Index of `core::empty` in a table made by `TypeTable::with_core_types`.
pub const CORE_EMPTY: usize = 3;

/// The type descriptors of a module. Descriptors are only ever added: one that a
/// reload supersedes stays at its index, so that every index handed out stays valid.
pub struct TypeTable {
    pub types: Vec<TypeInfo>,
}

impl TypeTable {
    pub open spec fn view(&self) -> Seq<TypeInfo> {
        self.types@
    }

    /// Every descriptor is consistent with the table.
    pub open spec fn wf(&self) -> bool {
        forall|i: int| 0 <= i < self@.len() ==> #[trigger] self@[i].layout_wf(self@)
    }

    /// Creates an empty table.
    pub fn new() -> (r: TypeTable)
        ensures
            r@ == Seq::<TypeInfo>::empty(),
            r.wf(),
    {
        TypeTable { types: Vec::new() }
    }

    /// Returns the number of descriptors.
    pub fn len(&self) -> (r: usize)
        ensures
            r == self@.len(),
    {
        self.types.len()
    }

    /// Returns the descriptor at `index`.
    pub fn get(&self, index: usize) -> (r: &TypeInfo)
        requires
            index < self@.len(),
        ensures
            *r == self@[index as int],
    {
        &self.types[index]
    }

    /// Adds `t` if it is consistent with the table, returning its index.
    pub fn add(&mut self, t: TypeInfo) -> (r: Option<usize>)
        requires
            old(self).wf(),
        ensures
            final(self).wf(),
            r is Some <==> t.layout_wf(old(self)@),
            r is Some ==> r->0 == old(self)@.len() && final(self)@ == old(self)@.push(t),
            r is None ==> final(self)@ == old(self)@,
    {
        if !check_layout(&self.types, &t) {
            return None;
        }
        let ghost before = self@;
        let index = self.types.len();
        self.types.push(t);
        proof {
            assert forall|i: int| 0 <= i < self@.len() implies #[trigger] self@[i].layout_wf(self@) by {
                assert(extends(before, self@));
                if i < before.len() {
                    assert(before[i].layout_wf(before));
                }
                lemma_layout_wf_extends(self@[i], before, self@);
            }
        }
        Some(index)
    }

    /// Adds a fundamental type, returning its index; `None` when `alignment` is not
    /// a power of two.
    pub fn add_fundamental(&mut self, name: &str, size_in_bits: u32, alignment: u8) -> (r: Option<usize>)
        requires
            old(self).wf(),
        ensures
            final(self).wf(),
            r is Some <==> crate::type_info::valid_alignment(alignment),
            r is Some ==> r->0 == old(self)@.len() && final(self)@.len() == old(self)@.len() + 1
                && final(self)@.drop_last() == old(self)@ && {
                let t = final(self)@.last();
                &&& t.name@ == name@
                &&& t.guid@ == crate::type_info::spec_type_guid(name@)
                &&& t.size_in_bits == size_in_bits
                &&& t.alignment == alignment
                &&& t.group is FundamentalTypes
                &&& t.struct_info is None
            },
            r is None ==> final(self)@ == old(self)@,
    {
        let t = TypeInfo {
            guid: type_guid(name),
            name: name.to_owned(),
            size_in_bits,
            alignment,
            group: TypeGroup::FundamentalTypes,
            struct_info: None,
        };
        let r = self.add(t);
        proof {
            if r is Some {
                assert(self@.drop_last() =~= old(self)@);
            }
        }
        r
    }

    /// Adds a struct type with the given layout, returning its index; `None` when
    /// the layout is inconsistent (a field out of bounds, misaligned or overlapping
    /// another, a repeated field name, a field type that is not in the table).
    pub fn add_struct(
        &mut self,
        name: &str,
        field_names: Vec<String>,
        field_types: Vec<usize>,
        field_offsets: Vec<u16>,
        size_in_bits: u32,
        alignment: u8,
        memory_kind: StructMemoryKind,
    ) -> (r: Option<usize>)
        requires
            old(self).wf(),
        ensures
            final(self).wf(),
            r is Some ==> r->0 == old(self)@.len() && final(self)@.len() == old(self)@.len() + 1
                && final(self)@.drop_last() == old(self)@ && {
                let t = final(self)@.last();
                &&& t.name@ == name@
                &&& t.guid@ == crate::type_info::spec_type_guid(name@)
                &&& t.size_in_bits == size_in_bits
                &&& t.alignment == alignment
                &&& t.group is StructTypes
                &&& t.struct_info == Some(StructInfo { field_names, field_types, field_offsets, memory_kind })
                &&& t.layout_wf(old(self)@)
            },
            r is None ==> final(self)@ == old(self)@ && forall|t: TypeInfo|
                t.name@ == name@ && t.size_in_bits == size_in_bits && t.alignment == alignment
                    && t.group is StructTypes
                    && t.struct_info == Some(StructInfo { field_names, field_types, field_offsets, memory_kind })
                    ==> !#[trigger] t.layout_wf(old(self)@),
    {
        let t = TypeInfo {
            guid: type_guid(name),
            name: name.to_owned(),
            size_in_bits,
            alignment,
            group: TypeGroup::StructTypes,
            struct_info: Some(StructInfo { field_names, field_types, field_offsets, memory_kind }),
        };
        let ghost t0 = t;
        let r = self.add(t);
        proof {
            if r is Some {
                assert(self@.drop_last() =~= old(self)@);
            } else {
                let tb = old(self)@;
                assert forall|t2: TypeInfo|
                    t2.name@ == name@ && t2.size_in_bits == size_in_bits && t2.alignment == alignment
                        && t2.group is StructTypes
                        && t2.struct_info == Some(StructInfo { field_names, field_types, field_offsets, memory_kind })
                        implies !#[trigger] t2.layout_wf(tb) by {
                    if t2.layout_wf(tb) {
                        assert forall|i: int| 0 <= i < t0.field_count() implies #[trigger] t0.field_placed(tb, i) by {
                            assert(t2.field_placed(tb, i));
                        }
                        assert forall|i: int, j: int|
                            0 <= i < t0.field_count() && 0 <= j < t0.field_count() && i != j
                                implies #[trigger] t0.fields_apart(tb, i, j) by {
                            assert(t2.fields_apart(tb, i, j));
                        }
                        assert forall|i: int, j: int|
                            0 <= i < t0.field_count() && 0 <= j < t0.field_count() && i != j
                                implies #[trigger] t0.field_name(i) != #[trigger] t0.field_name(j) by {
                            assert(t2.field_name(i) != t2.field_name(j));
                        }
                        assert(t0.layout_wf(tb));
                    }
                }
            }
        }
        r
    }

    /// Returns the index of the most recently added descriptor named `name`.
    pub fn find(&self, name: &str) -> (r: Option<usize>)
        ensures
            r is Some ==> r->0 < self@.len() && self@[r->0 as int].name@ == name@
                && forall|k: int| r->0 < k < self@.len() ==> #[trigger] self@[k].name@ != name@,
            r is None ==> forall|k: int| 0 <= k < self@.len() ==> #[trigger] self@[k].name@ != name@,
    {
        let target = name.to_owned();
        let mut i: usize = self.types.len();
        while i > 0
            invariant
                i <= self@.len(),
                target@ == name@,
                forall|k: int| i <= k < self@.len() ==> #[trigger] self@[k].name@ != name@,
            decreases i,
        {
            i = i - 1;
            if self.types[i].name == target {
                return Some(i);
            }
        }
        None
    }

    /// A table holding the core fundamental types: `core::bool` (one byte),
    /// `core::int` and `core::float` (eight bytes each) and `core::empty` (no bytes),
    /// at `CORE_BOOL`, `CORE_INT`, `CORE_FLOAT` and `CORE_EMPTY`.
    pub fn with_core_types() -> (r: TypeTable)
        ensures
            r.wf(),
            r@.len() == 4,
            r@[CORE_BOOL as int].name@ == "core::bool"@,
            r@[CORE_INT as int].name@ == "core::int"@,
            r@[CORE_FLOAT as int].name@ == "core::float"@,
            r@[CORE_EMPTY as int].name@ == "core::empty"@,
            r@[CORE_BOOL as int].size_in_bits == 8 && r@[CORE_BOOL as int].alignment == 1,
            r@[CORE_INT as int].size_in_bits == 64 && r@[CORE_INT as int].alignment == 8,
            r@[CORE_FLOAT as int].size_in_bits == 64 && r@[CORE_FLOAT as int].alignment == 8,
            r@[CORE_EMPTY as int].size_in_bits == 0 && r@[CORE_EMPTY as int].alignment == 1,
            forall|i: int| 0 <= i < 4 ==> (#[trigger] r@[i]).group is FundamentalTypes,
    {
        let mut t = TypeTable::new();
        t.add_fundamental("core::bool", 8, 1);
        t.add_fundamental("core::int", 64, 8);
        t.add_fundamental("core::float", 64, 8);
        t.add_fundamental("core::empty", 0, 1);
        proof {
            assert(t@.drop_last().drop_last().drop_last().drop_last().len() == 0);
        }
        t
    }
}

} // verus!
