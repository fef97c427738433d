//! Type descriptors: identity, size, alignment and struct layout.
use vstd::prelude::*;
use vstd::string::StringSliceAdditionalSpecFns;
use vstd::utf8::encode_utf8;

verus! {

/// The 128-bit MD5 digest of `bytes`, as computed by the `md5` crate.
pub uninterp spec fn md5_digest(bytes: Seq<u8>) -> Seq<u8>;

/// Relies on `md5::compute`: the digest depends on the input bytes alone.
#[verifier::external_body]
fn md5_compute(bytes: &[u8]) -> (r: [u8; 16])
    ensures
        r@ == md5_digest(bytes@),
{
    md5::compute(bytes).0
}

/// A type's identity: a 128-bit value derived from its fully-qualified name.
#[derive(Clone, Copy, Debug, Hash)]
pub struct Guid {
    pub b: [u8; 16],
}

impl Guid {
    pub open spec fn view(&self) -> Seq<u8> {
        self.b@
    }
}

/// The identity of the type whose name is `name`: the digest of its UTF-8 bytes.
pub open spec fn spec_type_guid(name: Seq<char>) -> Seq<u8> {
    md5_digest(encode_utf8(name))
}

/// Computes the identity of the type called `name`.
pub fn type_guid(name: &str) -> (r: Guid)
    ensures
        r@ == spec_type_guid(name@),
{
    Guid { b: md5_compute(name.as_bytes()) }
}

/// A type's identity depends on its name alone: two computations over equal names
/// give equal identities, whenever and wherever they run.
pub proof fn lemma_type_guid_deterministic(a: Seq<char>, b: Seq<char>)
    requires
        a == b,
    ensures
        spec_type_guid(a) == spec_type_guid(b),
{
}

impl PartialEq for Guid {
    fn eq(&self, other: &Guid) -> (r: bool)
        ensures
            r == (self@ == other@),
    {
        let mut i: usize = 0;
        while i < 16
            invariant
                0 <= i <= 16,
                forall|j: int| 0 <= j < i ==> self.b@[j] == other.b@[j],
            decreases 16 - i,
        {
            if self.b[i] != other.b[i] {
                return false;
            }
            i = i + 1;
        }
        assert(self.b@ =~= other.b@);
        true
    }
}

impl vstd::std_specs::cmp::PartialEqSpecImpl for Guid {
    open spec fn obeys_eq_spec() -> bool {
        true
    }

    open spec fn eq_spec(&self, other: &Guid) -> bool {
        self@ == other@
    }
}

impl Eq for Guid {}

/// A group of types that share the same characteristics.
#[derive(Clone, Copy, Debug, PartialEq, Eq, Structural)]
pub enum TypeGroup {
    /// Fundamental types (`bool`, `float`, `int`, ...).
    FundamentalTypes,
    /// Struct types.
    StructTypes,
}

impl TypeGroup {
    /// Returns whether this is a fundamental type.
    pub fn is_fundamental(self) -> (r: bool)
        ensures
            r == (self is FundamentalTypes),
    {
        match self {
            TypeGroup::FundamentalTypes => true,
            _ => false,
        }
    }

    /// Returns whether this is a struct type.
    pub fn is_struct(self) -> (r: bool)
        ensures
            r == (self is StructTypes),
    {
        match self {
            TypeGroup::StructTypes => true,
            _ => false,
        }
    }
}

/// How instances of a struct are stored.
#[derive(Clone, Copy, Debug, PartialEq, Eq, Structural)]
pub enum StructMemoryKind {
    /// Stored inline and copied on every crossing.
    Value,
    /// Allocated on the collected heap and passed around by handle.
    Gc,
}

/// The number of bytes that a handle to a collected object occupies.
pub const HANDLE_SIZE: usize = 8;

/// Layout of a struct type: its fields, in declaration order, and how it is stored.
/// Field types are indices into the `TypeTable` that holds the struct's descriptor.
#[derive(Debug)]
pub struct StructInfo {
    pub field_names: Vec<String>,
    pub field_types: Vec<usize>,
    pub field_offsets: Vec<u16>,
    pub memory_kind: StructMemoryKind,
}

/// The declaration of a type: identity, name, size, alignment and, for structs, layout.
/// Two descriptors are equal when their identities are: equality says they name
/// the same type, not that their layouts agree.
#[derive(Debug)]
pub struct TypeInfo {
    pub guid: Guid,
    pub name: String,
    pub size_in_bits: u32,
    pub alignment: u8,
    pub group: TypeGroup,
    pub struct_info: Option<StructInfo>,
}

/// An alignment is a power of two.
pub open spec fn valid_alignment(a: u8) -> bool {
    a == 1 || a == 2 || a == 4 || a == 8 || a == 16 || a == 32 || a == 64 || a == 128
}

/// Returns whether `a` is a power of two.
pub fn is_valid_alignment(a: u8) -> (r: bool)
    ensures
        r == valid_alignment(a),
{
    a == 1 || a == 2 || a == 4 || a == 8 || a == 16 || a == 32 || a == 64 || a == 128
}

impl TypeInfo {
    pub open spec fn spec_size_in_bytes(&self) -> nat {
        ((self.size_in_bits as nat) + 7) / 8
    }

    /// Whether a field of this type is stored as a handle to a collected object.
    pub open spec fn is_gc_struct(&self) -> bool {
        &&& self.group is StructTypes
        &&& self.struct_info is Some
        &&& self.struct_info->0.memory_kind is Gc
    }

    /// Bytes that a field of this type occupies inside a struct.
    pub open spec fn spec_field_size(&self) -> nat {
        if self.is_gc_struct() { HANDLE_SIZE as nat } else { self.spec_size_in_bytes() }
    }

    /// Alignment that a field of this type needs inside a struct.
    pub open spec fn spec_field_alignment(&self) -> nat {
        if self.is_gc_struct() { HANDLE_SIZE as nat } else { self.alignment as nat }
    }

    pub open spec fn field_count(&self) -> nat {
        self.struct_info->0.field_types@.len()
    }

    pub open spec fn field_name(&self, i: int) -> Seq<char> {
        self.struct_info->0.field_names@[i]@
    }

    pub open spec fn field_type(&self, i: int) -> int {
        self.struct_info->0.field_types@[i] as int
    }

    pub open spec fn field_offset(&self, i: int) -> nat {
        self.struct_info->0.field_offsets@[i] as nat
    }

    /// The end of field `i`, with the field types looked up in `table`.
    pub open spec fn field_end(&self, table: Seq<TypeInfo>, i: int) -> nat {
        self.field_offset(i) + table[self.field_type(i)].spec_field_size()
    }

    /// Whether field `i` lies aligned inside the struct, needing no more alignment
    /// than the struct has.
    pub open spec fn field_placed(&self, table: Seq<TypeInfo>, i: int) -> bool {
        let ft = table[self.field_type(i)];
        &&& 0 <= self.field_type(i) < table.len()
        &&& ft.spec_field_alignment() > 0
        &&& ft.spec_field_alignment() <= self.alignment
        &&& self.field_offset(i) % ft.spec_field_alignment() == 0
        &&& self.field_end(table, i) <= self.spec_size_in_bytes()
    }

    /// Whether fields `i` and `j` occupy disjoint bytes, in declaration order.
    pub open spec fn fields_apart(&self, table: Seq<TypeInfo>, i: int, j: int) -> bool {
        &&& i < j ==> self.field_offset(i) <= self.field_offset(j)
        &&& self.field_end(table, i) <= self.field_offset(j) || self.field_end(table, j)
            <= self.field_offset(i)
    }

    /// The descriptor is consistent with the types in `table`: its identity is
    /// derived from its name, its alignment is a power of two, its group agrees with the presence of a layout, and
    /// every field lies aligned inside the struct, apart from every other field,
    /// under a name of its own.
    pub open spec fn layout_wf(&self, table: Seq<TypeInfo>) -> bool {
        &&& self.guid@ == spec_type_guid(self.name@)
        &&& valid_alignment(self.alignment)
        &&& (self.group is StructTypes <==> self.struct_info is Some)
        &&& self.struct_info is Some ==> {
            let s = self.struct_info->0;
            &&& s.field_types@.len() <= usize::MAX
            &&& s.field_names@.len() == s.field_types@.len()
            &&& s.field_offsets@.len() == s.field_types@.len()
            &&& forall|i: int| 0 <= i < self.field_count() ==> #[trigger] self.field_placed(table, i)
            &&& forall|i: int, j: int|
                0 <= i < self.field_count() && 0 <= j < self.field_count() && i != j
                    ==> #[trigger] self.fields_apart(table, i, j)
            &&& forall|i: int, j: int|
                0 <= i < self.field_count() && 0 <= j < self.field_count() && i != j
                    ==> #[trigger] self.field_name(i) != #[trigger] self.field_name(j)
        }
    }

    /// Returns whether a field of this type is stored as a handle to a collected object.
    pub fn is_gc_reference(&self) -> (r: bool)
        ensures
            r == self.is_gc_struct(),
    {
        self.group.is_struct() && matches!(self.struct_info, Some(StructInfo { memory_kind: StructMemoryKind::Gc, .. }))
    }

    /// Returns the number of bytes that a field of this type occupies inside a struct.
    pub fn field_size(&self) -> (r: u64)
        ensures
            r == self.spec_field_size(),
    {
        if self.group.is_struct() && self.struct_info.is_some() && matches!(self.struct_info, Some(StructInfo { memory_kind: StructMemoryKind::Gc, .. })) {
            HANDLE_SIZE as u64
        } else {
            (self.size_in_bits as u64 + 7) / 8
        }
    }

    /// Returns the alignment that a field of this type needs inside a struct.
    pub fn field_alignment(&self) -> (r: u64)
        ensures
            r == self.spec_field_alignment(),
    {
        if self.group.is_struct() && matches!(self.struct_info, Some(StructInfo { memory_kind: StructMemoryKind::Gc, .. })) {
            HANDLE_SIZE as u64
        } else {
            self.alignment as u64
        }
    }

    /// Returns the type's name.
    pub fn name(&self) -> (r: &str)
        ensures
            r@ == self.name@,
    {
        self.name.as_str()
    }

    /// Retrieves the type's struct layout, if it is a struct.
    pub fn as_struct(&self) -> (r: Option<&StructInfo>)
        ensures
            r is Some <==> (self.group is StructTypes && self.struct_info is Some),
            r is Some ==> r->0 == &self.struct_info->0,
    {
        if self.group.is_struct() {
            self.struct_info.as_ref()
        } else {
            None
        }
    }

    /// Returns the size of the type in bits.
    pub fn size_in_bits(&self) -> (r: usize)
        ensures
            r == self.size_in_bits,
    {
        self.size_in_bits as usize
    }

    /// Returns the size of the type in bytes: its size in bits rounded up to whole bytes.
    pub fn size_in_bytes(&self) -> (r: usize)
        ensures
            r == self.spec_size_in_bytes(),
    {
        ((self.size_in_bits as u64 + 7) / 8) as usize
    }

    /// Returns the alignment of the type in bytes.
    pub fn alignment(&self) -> (r: usize)
        ensures
            r == self.alignment,
    {
        self.alignment as usize
    }
}

impl PartialEq for TypeInfo {
    fn eq(&self, other: &TypeInfo) -> (r: bool)
        ensures
            r == (self.guid@ == other.guid@),
    {
        self.guid == other.guid
    }
}

impl vstd::std_specs::cmp::PartialEqSpecImpl for TypeInfo {
    open spec fn obeys_eq_spec() -> bool {
        true
    }

    open spec fn eq_spec(&self, other: &TypeInfo) -> bool {
        self.guid@ == other.guid@
    }
}

/// In a consistent struct layout every field lies aligned within the struct, no
/// byte belongs to two fields, and offsets follow declaration order.
pub proof fn lemma_layout_packing(t: TypeInfo, table: Seq<TypeInfo>, i: int, j: int)
    requires
        t.layout_wf(table),
        t.struct_info is Some,
        0 <= i < t.field_count(),
        0 <= j < t.field_count(),
        i != j,
    ensures
        t.field_end(table, i) <= t.spec_size_in_bytes(),
        t.field_end(table, i) <= t.field_offset(j) || t.field_end(table, j) <= t.field_offset(i),
        i < j ==> t.field_offset(i) <= t.field_offset(j),
        t.field_offset(i) % table[t.field_type(i)].spec_field_alignment() == 0,
        table[t.field_type(i)].spec_field_alignment() <= t.alignment,
{
    assert(t.field_placed(table, i));
    assert(t.fields_apart(table, i, j));
}

} // verus!
