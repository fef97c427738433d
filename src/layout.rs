//! Memory layout and field listing of a type, as the collector reads them.
use vstd::prelude::*;
use crate::type_info::{Guid, TypeGroup, TypeInfo};

verus! {

/// The size and alignment in bytes with which memory for a value is reserved.
#[derive(Clone, Copy, Debug, PartialEq, Eq, Structural)]
pub struct MemoryLayout {
    pub size: usize,
    pub align: usize,
}

/// A type's description: name, identity and group.
pub trait TypeDesc {
    spec fn spec_name(&self) -> Seq<char>;

    spec fn spec_guid(&self) -> Guid;

    spec fn spec_group(&self) -> TypeGroup;

    /// Returns the name of this type.
    fn name(&self) -> (r: &str)
        ensures
            r@ == self.spec_name(),
    ;

    /// Returns the identity of this type.
    fn guid(&self) -> (r: &Guid)
        ensures
            *r == self.spec_guid(),
    ;

    /// Returns the group of this type.
    fn group(&self) -> (r: TypeGroup)
        ensures
            r == self.spec_group(),
    ;
}

impl TypeDesc for TypeInfo {
    open spec fn spec_name(&self) -> Seq<char> {
        self.name@
    }

    open spec fn spec_guid(&self) -> Guid {
        self.guid
    }

    open spec fn spec_group(&self) -> TypeGroup {
        self.group
    }

    fn name(&self) -> (r: &str) {
        self.name.as_str()
    }

    fn guid(&self) -> (r: &Guid) {
        &self.guid
    }

    fn group(&self) -> (r: TypeGroup) {
        self.group
    }
}

/// A type's memory layout.
pub trait TypeLayout {
    spec fn spec_layout(&self) -> MemoryLayout;

    /// The layout can be had: its alignment is a power of two.
    spec fn layout_ok(&self) -> bool;

    /// Returns the memory layout of this type.
    fn layout(&self) -> (r: MemoryLayout)
        requires
            self.layout_ok(),
        ensures
            r == self.spec_layout(),
    ;
}

/// A type's fields: their names and types, and their offsets.
pub trait TypeFields<T> {
    spec fn spec_fields(&self) -> Seq<(Seq<char>, T)>;

    spec fn spec_offsets(&self) -> Seq<u16>;

    /// Returns the type's fields, in declaration order.
    fn fields(&self) -> (r: Vec<(String, T)>)
        ensures
            r@.len() == self.spec_fields().len(),
            forall|i: int| 0 <= i < r@.len() ==> (#[trigger] r@[i]).0@ == self.spec_fields()[i].0
                && r@[i].1 == self.spec_fields()[i].1,
    ;

    /// Returns the offsets of the type's fields, in declaration order.
    fn offsets(&self) -> (r: Vec<u16>)
        ensures
            r@ == self.spec_offsets(),
    ;
}

impl TypeLayout for TypeInfo {
    /// The size in whole bytes and the alignment of the type.
    open spec fn spec_layout(&self) -> MemoryLayout {
        MemoryLayout { size: self.spec_size_in_bytes() as usize, align: self.alignment as usize }
    }

    open spec fn layout_ok(&self) -> bool {
        crate::type_info::valid_alignment(self.alignment)
    }

    fn layout(&self) -> (r: MemoryLayout) {
        MemoryLayout { size: self.size_in_bytes(), align: self.alignment() }
    }
}

impl TypeFields<usize> for TypeInfo {
    /// Each field's name with the index of its type in the table; none for a type
    /// without a struct layout.
    open spec fn spec_fields(&self) -> Seq<(Seq<char>, usize)> {
        if self.struct_info is Some && self.struct_info->0.field_names@.len() == self.field_count() {
            Seq::new(self.field_count(), |i: int| (self.field_name(i), self.struct_info->0.field_types@[i]))
        } else {
            Seq::empty()
        }
    }

    open spec fn spec_offsets(&self) -> Seq<u16> {
        if self.struct_info is Some { self.struct_info->0.field_offsets@ } else { Seq::empty() }
    }

    fn fields(&self) -> (r: Vec<(String, usize)>) {
        let mut r: Vec<(String, usize)> = Vec::new();
        match &self.struct_info {
            None => {},
            Some(s) => {
                if s.field_names.len() == s.field_types.len() {
                    let mut i: usize = 0;
                    while i < s.field_types.len()
                        invariant
                            self.struct_info == Some(*s),
                            s.field_names@.len() == s.field_types@.len(),
                            0 <= i <= s.field_types@.len(),
                            r@.len() == i,
                            forall|k: int| 0 <= k < i ==> (#[trigger] r@[k]).0@ == self.spec_fields()[k].0
                                && r@[k].1 == self.spec_fields()[k].1,
                        decreases s.field_types@.len() - i,
                    {
                        r.push((s.field_names[i].clone(), s.field_types[i]));
                        i = i + 1;
                    }
                }
            },
        }
        r
    }

    fn offsets(&self) -> (r: Vec<u16>) {
        match &self.struct_info {
            None => Vec::new(),
            Some(s) => {
                let mut r: Vec<u16> = Vec::new();
                let mut i: usize = 0;
                while i < s.field_offsets.len()
                    invariant
                        0 <= i <= s.field_offsets@.len(),
                        r@ == s.field_offsets@.subrange(0, i as int),
                    decreases s.field_offsets@.len() - i,
                {
                    r.push(s.field_offsets[i]);
                    i = i + 1;
                    assert(r@ =~= s.field_offsets@.subrange(0, i as int));
                }
                assert(r@ =~= s.field_offsets@);
                r
            },
        }
    }
}

} // verus!
