//! Typed access to the fields of structs that live on the collected heap.
use vstd::prelude::*;
use crate::diff::{find_field, field_index, has_field};
use crate::gc::{GcPtr, MarkSweep, Observer};
use crate::marshal::{decode_u64, encode_u64, from_native, le_bytes, le_value, native_bytes, native_size, native_size_of, spec_from_native, spec_kind, to_native, Value, ValueKind};
use crate::reflection::{equals_argument_type, equals_return_type, kind_name, kind_type_name, return_guid, return_name, type_name_of, value_guid, value_in_heap, value_name};
use crate::type_info::{spec_type_guid, TypeInfo, HANDLE_SIZE};

verus! {

/// A struct on the collected heap, by handle, as compiled code passes it.
#[derive(Clone, Copy, Debug)]
pub struct RawStruct(pub GcPtr);

impl RawStruct {
    /// Returns the handle of the struct.
    pub fn get_ptr(&self) -> (r: GcPtr)
        ensures
            r == self.0,
    {
        self.0
    }
}


/// Why a field access failed. Each error names the struct and the field.
#[derive(Debug)]
pub enum FieldError {
    /// The struct has no field of that name.
    UnknownField { struct_name: String, field_name: String },
    /// The field's type is not the one given or expected.
    Mismatch { struct_name: String, field_name: String, expected: String, found: String },
    /// The field refers to no live object.
    NoObject { struct_name: String, field_name: String },
    /// The object the field refers to holds as many roots as can be counted.
    RootLimit { struct_name: String, field_name: String },
}

/// The type of the object that `p` names.
pub open spec fn object_type<O: Observer>(gc: MarkSweep<O>, p: GcPtr) -> TypeInfo {
    gc.types@[gc.obj(p.index as int).ty as int]
}

/// `p` names a live struct.
pub open spec fn is_struct_object<O: Observer>(gc: MarkSweep<O>, p: GcPtr) -> bool {
    &&& gc.live(p.index as int)
    &&& object_type(gc, p).group is StructTypes
    &&& object_type(gc, p).struct_info is Some
}

/// The type of field `i` of the struct that `p` names.
pub open spec fn field_ty<O: Observer>(gc: MarkSweep<O>, p: GcPtr, i: int) -> TypeInfo {
    gc.types@[object_type(gc, p).field_type(i)]
}

/// The bytes of field `i` of the struct that `p` names, `len` of them.
pub open spec fn field_bytes<O: Observer>(gc: MarkSweep<O>, p: GcPtr, i: int, len: nat) -> Seq<u8> {
    let off = object_type(gc, p).field_offset(i) as int;
    gc.obj(p.index as int).data@.subrange(off, off + len)
}

/// The code stored in the handle field `i` of the struct that `p` names: zero
/// for no object, else one more than the index of the handle.
pub open spec fn field_code<O: Observer>(gc: MarkSweep<O>, p: GcPtr, i: int) -> nat {
    le_value(field_bytes(gc, p, i, HANDLE_SIZE as nat))
}

/// The code that a handle field stores for `p`.
pub open spec fn handle_code(p: GcPtr) -> nat {
    p.index as nat + 1
}

/// A field of type `ft` can be read as kind `k`: a struct as a reference, any other
/// kind when its native representation fits in the field.
pub open spec fn readable(ft: TypeInfo, k: ValueKind) -> bool {
    if k is Struct {
        ft.group is StructTypes && ft.struct_info is Some
    } else {
        native_size(k) <= ft.spec_field_size()
    }
}

/// A field of type `ft` can take `v`: a struct reference into a struct field, by
/// handle or, for a value struct, by a copy of its bytes; any other value into a
/// fundamental field that its native representation fits in.
pub open spec fn writable<O: Observer>(gc: MarkSweep<O>, ft: TypeInfo, v: Value) -> bool {
    match v {
        Value::Struct(p) => ft.group is StructTypes && ft.struct_info is Some && (ft.is_gc_struct()
            || gc.obj(p.index as int).data@.len() == ft.spec_field_size()),
        _ => ft.group is FundamentalTypes && native_size(spec_kind(v)) <= ft.spec_field_size(),
    }
}

/// `set` accepts `v` for a field of type `ft`: same identity, and it fits.
pub open spec fn set_ok<O: Observer>(gc: MarkSweep<O>, ft: TypeInfo, v: Value) -> bool {
    ft.guid@ == value_guid(gc, v) && writable(gc, ft, v)
}

/// `get` accepts kind `k` for a field of type `ft`.
pub open spec fn get_ok(ft: TypeInfo, k: ValueKind) -> bool {
    return_guid(ft) == spec_type_guid(kind_name(k)) && readable(ft, k)
}

/// The bytes that writing `v` into a field of type `ft` stores.
pub open spec fn stored_bytes<O: Observer>(gc: MarkSweep<O>, ft: TypeInfo, v: Value) -> Seq<u8> {
    match v {
        Value::Struct(p) => if ft.is_gc_struct() {
            le_bytes(handle_code(p) as u64)
        } else {
            gc.obj(p.index as int).data@
        },
        _ => native_bytes(v),
    }
}

/// `after` is `before` with `bytes` written into the object that `p` names at `off`.
pub open spec fn wrote<O: Observer>(before: MarkSweep<O>, after: MarkSweep<O>, p: GcPtr, off: int, bytes: Seq<u8>) -> bool {
    let d = before.obj(p.index as int).data@;
    &&& after.wf()
    &&& after.types == before.types
    &&& after.objects@.len() == before.objects@.len()
    &&& forall|i: int| 0 <= i < before.objects@.len() && i != p.index ==> #[trigger] after.objects@[i] == before.objects@[i]
    &&& after.live(p.index as int)
    &&& after.obj(p.index as int).ty == before.obj(p.index as int).ty
    &&& after.obj(p.index as int).roots == before.obj(p.index as int).roots
    &&& after.obj(p.index as int).data@ == d.subrange(0, off) + bytes + d.subrange(off + bytes.len(), d.len() as int)
}

/// `after` is `before` with one more root on live object `q`.
pub open spec fn rooted_once_more<O: Observer>(before: MarkSweep<O>, after: MarkSweep<O>, q: int) -> bool {
    &&& after.wf()
    &&& after.types == before.types
    &&& after.objects@.len() == before.objects@.len()
    &&& forall|i: int| 0 <= i < before.objects@.len() && i != q ==> #[trigger] after.objects@[i] == before.objects@[i]
    &&& before.live(q)
    &&& after.live(q)
    &&& after.obj(q).ty == before.obj(q).ty
    &&& after.obj(q).data == before.obj(q).data
    &&& after.obj(q).roots == before.obj(q).roots + 1
}

/// What reading field `i` of the struct that `p` names as kind `k` gives: the value
/// that the field's bytes represent; for a struct, a reference that the read roots
/// once, to the object the handle field names or, for a value struct, to a fresh
/// copy of the field.
pub open spec fn read_outcome<O: Observer>(before: MarkSweep<O>, after: MarkSweep<O>, p: GcPtr, i: int, k: ValueKind, v: Value) -> bool {
    let ft = field_ty(before, p, i);
    if k is Struct && !ft.is_gc_struct() {
        let n = before.objects@.len();
        &&& after.wf()
        &&& after.types == before.types
        &&& after.objects@.len() == n + 1
        &&& forall|j: int| 0 <= j < n ==> #[trigger] after.objects@[j] == before.objects@[j]
        &&& v == Value::Struct(GcPtr { index: n as usize })
        &&& after.live(n as int)
        &&& after.obj(n as int).ty == object_type(before, p).field_type(i)
        &&& after.obj(n as int).roots == 1
        &&& after.obj(n as int).data@ == field_bytes(before, p, i, ft.spec_size_in_bytes())
    } else if k is Struct {
        let q = field_code(before, p, i) - 1;
        &&& v == Value::Struct(GcPtr { index: q as usize })
        &&& rooted_once_more(before, after, q)
    } else {
        &&& after == before
        &&& v == spec_from_native(k, field_bytes(before, p, i, native_size(k)))
    }
}

/// The field `name` of the struct that `p` names, if it has one.
pub open spec fn named_field<O: Observer>(gc: MarkSweep<O>, p: GcPtr, name: Seq<char>) -> int {
    field_index(object_type(gc, p), name)
}

/// A rooted reference to a struct on the collected heap. It holds one root handle
/// of its object from `new` until `into_raw`.
pub struct StructRef {
    handle: GcPtr,
}

impl StructRef {
    pub closed spec fn handle(&self) -> GcPtr {
        self.handle
    }

    /// Roots the struct `raw` and wraps it.
    pub fn new<O: Observer>(gc: &mut MarkSweep<O>, raw: RawStruct) -> (r: StructRef)
        requires
            old(gc).wf(),
            is_struct_object(*old(gc), raw.0),
            old(gc).obj(raw.0.index as int).roots < usize::MAX,
        ensures
            r.handle() == raw.0,
            final(gc).wf(),
            final(gc).types == old(gc).types,
            final(gc).objects@.len() == old(gc).objects@.len(),
            forall|i: int| 0 <= i < old(gc).objects@.len() && i != raw.0.index ==> #[trigger] final(gc).objects@[i] == old(gc).objects@[i],
            final(gc).live(raw.0.index as int),
            final(gc).obj(raw.0.index as int).ty == old(gc).obj(raw.0.index as int).ty,
            final(gc).obj(raw.0.index as int).data == old(gc).obj(raw.0.index as int).data,
            final(gc).obj(raw.0.index as int).roots == old(gc).obj(raw.0.index as int).roots + 1,
    {
        gc.root(raw.0);
        StructRef { handle: raw.0 }
    }

    /// Gives up this reference's root handle and returns the raw struct.
    pub fn into_raw<O: Observer>(self, gc: &mut MarkSweep<O>) -> (r: RawStruct)
        requires
            old(gc).wf(),
            old(gc).live(self.handle().index as int),
            old(gc).obj(self.handle().index as int).roots > 0,
        ensures
            r.0 == self.handle(),
            final(gc).wf(),
            final(gc).types == old(gc).types,
            final(gc).objects@.len() == old(gc).objects@.len(),
            forall|i: int| 0 <= i < old(gc).objects@.len() && i != r.0.index ==> #[trigger] final(gc).objects@[i] == old(gc).objects@[i],
            final(gc).live(r.0.index as int),
            final(gc).obj(r.0.index as int).ty == old(gc).obj(r.0.index as int).ty,
            final(gc).obj(r.0.index as int).data == old(gc).obj(r.0.index as int).data,
            final(gc).obj(r.0.index as int).roots == old(gc).obj(r.0.index as int).roots - 1,
    {
        gc.unroot(self.handle);
        RawStruct(self.handle)
    }

    /// Returns the handle of the struct, which stays rooted.
    pub fn raw(&self) -> (r: RawStruct)
        ensures
            r.0 == self.handle(),
    {
        RawStruct(self.handle)
    }

    /// Returns the type of the struct.
    pub fn type_info<'a, O: Observer>(&self, gc: &'a MarkSweep<O>) -> (r: &'a TypeInfo)
        requires
            gc.wf(),
            gc.live(self.handle().index as int),
        ensures
            *r == object_type(*gc, self.handle()),
    {
        gc.types.get(gc.ptr_type(self.handle))
    }

    /// Finds the field `field_name` and checks that it can take `value`, changing
    /// nothing. Returns the field's index.
    pub fn check_set<O: Observer>(&self, gc: &MarkSweep<O>, field_name: &str, value: &Value) -> (r: Result<usize, FieldError>)
        requires
            gc.wf(),
            is_struct_object(*gc, self.handle()),
            value_in_heap(*gc, *value),
        ensures
            (r matches Err(FieldError::UnknownField { struct_name, field_name: f })) <==> !has_field(object_type(*gc, self.handle()), field_name@),
            r matches Err(FieldError::UnknownField { struct_name, field_name: f }) ==> struct_name@ == object_type(*gc, self.handle()).name@ && f@ == field_name@,
            r is Err ==> r matches Err(FieldError::UnknownField { .. }) || r matches Err(FieldError::Mismatch { .. }),
            has_field(object_type(*gc, self.handle()), field_name@) ==> {
                let i = named_field(*gc, self.handle(), field_name@);
                let ft = field_ty(*gc, self.handle(), i);
                &&& (r is Err) <==> !set_ok(*gc, ft, *value)
                &&& r matches Ok(k) ==> k == i
                &&& r matches Err(FieldError::Mismatch { struct_name, field_name: f, expected, found }) ==> {
                    &&& struct_name@ == object_type(*gc, self.handle()).name@
                    &&& f@ == field_name@
                    &&& expected@ == ft.name@
                    &&& found@ == value_name(*gc, *value)
                }
            },
    {
        let h = self.handle;
        let ti = gc.ptr_type(h);
        let t = gc.types.get(ti);
        assert(gc.types@[ti as int].layout_wf(gc.types@));
        let name = field_name.to_owned();
        let i = match find_field(t, &name) {
            None => {
                return Err(FieldError::UnknownField { struct_name: t.name().to_owned(), field_name: name });
            },
            Some(i) => i,
        };
        proof {
            let c = field_index(*t, field_name@);
            if c != i {
                assert(t.field_name(c) != t.field_name(i as int));
            }
        }
        let s = t.struct_info.as_ref().unwrap();
        assert(t.field_placed(gc.types@, i as int));
        let ft = gc.types.get(s.field_types[i]);
        if let Err(m) = equals_argument_type(gc, ft, value) {
            return Err(FieldError::Mismatch { struct_name: t.name().to_owned(), field_name: name, expected: m.expected, found: m.found });
        }
        let fsize = ft.field_size();
        let fits = match value {
            Value::Struct(p) => {
                ft.group.is_struct() && ft.struct_info.is_some() && (ft.is_gc_reference()
                    || gc.objects[p.index].as_ref().unwrap().data.len() as u64 == fsize)
            },
            _ => ft.group.is_fundamental() && native_size_of(value.kind()) as u64 <= fsize,
        };
        if !fits {
            return Err(FieldError::Mismatch {
                struct_name: t.name().to_owned(),
                field_name: name,
                expected: ft.name().to_owned(),
                found: type_name_of(gc, value),
            });
        }
        Ok(i)
    }

    /// Writes `value` into field `i`, which can take it.
    fn write_field<O: Observer>(&self, gc: &mut MarkSweep<O>, i: usize, value: Value)
        requires
            old(gc).wf(),
            is_struct_object(*old(gc), self.handle()),
            value_in_heap(*old(gc), value),
            i < object_type(*old(gc), self.handle()).field_count(),
            writable(*old(gc), field_ty(*old(gc), self.handle(), i as int), value),
        ensures
            wrote(
                *old(gc),
                *final(gc),
                self.handle(),
                object_type(*old(gc), self.handle()).field_offset(i as int) as int,
                stored_bytes(*old(gc), field_ty(*old(gc), self.handle(), i as int), value),
            ),
    {
        let h = self.handle;
        let ti = gc.ptr_type(h);
        let t = gc.types.get(ti);
        assert(gc.types@[ti as int].layout_wf(gc.types@));
        let s = t.struct_info.as_ref().unwrap();
        assert(t.field_placed(gc.types@, i as int));
        let off = s.field_offsets[i] as usize;
        let ft = gc.types.get(s.field_types[i]);
        let bytes: Vec<u8> = match value {
            Value::Struct(p) => {
                if ft.is_gc_reference() {
                    let n = gc.objects.len();
                    assert(p.index < n);
                    encode_u64(p.index as u64 + 1)
                } else {
                    let psize = gc.objects[p.index].as_ref().unwrap().data.len();
                    let b = gc.read_bytes(p, 0, psize);
                    assert(b@ =~= gc.obj(p.index as int).data@);
                    b
                }
            },
            _ => to_native(&value),
        };
        assert(bytes@ == stored_bytes(*gc, *ft, value));
        gc.write_bytes(h, off, bytes.as_slice());
    }

    /// Reads the field `field_name` as a value of kind `expected`. A struct comes
    /// back rooted once: the object that a handle field names, or a fresh copy of a
    /// value-struct field.
    pub fn get<O: Observer>(&self, gc: &mut MarkSweep<O>, field_name: &str, expected: ValueKind) -> (r: Result<Value, FieldError>)
        requires
            old(gc).wf(),
            is_struct_object(*old(gc), self.handle()),
        ensures
            final(gc).wf(),
            r is Err ==> *final(gc) == *old(gc),
            (r matches Err(FieldError::UnknownField { struct_name, field_name: f })) <==> !has_field(object_type(*old(gc), self.handle()), field_name@),
            r matches Err(FieldError::UnknownField { struct_name, field_name: f }) ==> struct_name@ == object_type(*old(gc), self.handle()).name@ && f@ == field_name@,
            has_field(object_type(*old(gc), self.handle()), field_name@) ==> {
                let i = named_field(*old(gc), self.handle(), field_name@);
                let ft = field_ty(*old(gc), self.handle(), i);
                let code = field_code(*old(gc), self.handle(), i);
                let target_ok = code > 0 && old(gc).live(code - 1);
                &&& (r matches Err(FieldError::Mismatch { .. })) <==> !get_ok(ft, expected)
                &&& r matches Err(FieldError::Mismatch { struct_name, field_name: f, expected: e, found }) ==> {
                    &&& struct_name@ == object_type(*old(gc), self.handle()).name@
                    &&& f@ == field_name@
                    &&& e@ == (if return_guid(ft) == spec_type_guid(kind_name(expected)) { ft.name@ } else { return_name(ft) })
                    &&& found@ == kind_name(expected)
                }
                &&& (r matches Err(FieldError::NoObject { .. })) <==> get_ok(ft, expected) && expected is Struct
                    && ft.is_gc_struct() && !target_ok
                &&& (r matches Err(FieldError::RootLimit { .. })) <==> get_ok(ft, expected) && expected is Struct
                    && ft.is_gc_struct() && target_ok && old(gc).obj(code - 1).roots == usize::MAX
                &&& r matches Err(FieldError::NoObject { struct_name, field_name: f }) ==> struct_name@ == object_type(*old(gc), self.handle()).name@ && f@ == field_name@
                &&& r matches Err(FieldError::RootLimit { struct_name, field_name: f }) ==> struct_name@ == object_type(*old(gc), self.handle()).name@ && f@ == field_name@
                &&& r matches Ok(v) ==> read_outcome(*old(gc), *final(gc), self.handle(), i, expected, v)
            },
    {
        let h = self.handle;
        let ti = gc.ptr_type(h);
        let t = gc.types.get(ti);
        assert(gc.types@[ti as int].layout_wf(gc.types@));
        let name = field_name.to_owned();
        let i = match find_field(t, &name) {
            None => {
                return Err(FieldError::UnknownField { struct_name: t.name().to_owned(), field_name: name });
            },
            Some(i) => i,
        };
        proof {
            let c = field_index(*t, field_name@);
            if c != i {
                assert(t.field_name(c) != t.field_name(i as int));
            }
        }
        let s = t.struct_info.as_ref().unwrap();
        assert(t.field_placed(gc.types@, i as int));
        let fi = s.field_types[i];
        let off = s.field_offsets[i] as usize;
        let ft = gc.types.get(fi);
        let struct_name = t.name().to_owned();
        if let Err(m) = equals_return_type(ft, expected) {
            return Err(FieldError::Mismatch { struct_name, field_name: name, expected: m.expected, found: m.found });
        }
        let fits = match expected {
            ValueKind::Struct => ft.group.is_struct() && ft.struct_info.is_some(),
            _ => native_size_of(expected) as u64 <= ft.field_size(),
        };
        if !fits {
            return Err(FieldError::Mismatch {
                struct_name,
                field_name: name,
                expected: ft.name().to_owned(),
                found: kind_type_name(expected).to_owned(),
            });
        }
        match expected {
            ValueKind::Struct => {
                if ft.is_gc_reference() {
                    let bytes = gc.read_bytes(h, off, HANDLE_SIZE);
                    let code = decode_u64(bytes.as_slice(), 0);
                    assert(bytes@.subrange(0, 8) =~= bytes@);
                    let n = gc.objects.len();
                    if code == 0 || code - 1 >= n as u64 {
                        return Err(FieldError::NoObject { struct_name, field_name: name });
                    }
                    let q = GcPtr { index: (code - 1) as usize };
                    if !gc.is_live(q) {
                        return Err(FieldError::NoObject { struct_name, field_name: name });
                    }
                    if gc.objects[q.index].as_ref().unwrap().roots == usize::MAX {
                        return Err(FieldError::RootLimit { struct_name, field_name: name });
                    }
                    gc.root(q);
                    Ok(Value::Struct(q))
                } else {
                    let size = ft.size_in_bytes();
                    let bytes = gc.read_bytes(h, off, size);
                    let p = gc.allocate(fi);
                    gc.write_bytes(p, 0, bytes.as_slice());
                    proof {
                        let d = gc.obj(p.index as int).data@;
                        assert(d =~= bytes@);
                    }
                    gc.root(p);
                    Ok(Value::Struct(p))
                }
            },
            _ => {
                let o = gc.objects[h.index].as_ref().unwrap();
                Ok(from_native(expected, o.data.as_slice(), off))
            },
        }
    }

    /// Writes `value` into the field `field_name`.
    pub fn set<O: Observer>(&self, gc: &mut MarkSweep<O>, field_name: &str, value: Value) -> (r: Result<(), FieldError>)
        requires
            old(gc).wf(),
            is_struct_object(*old(gc), self.handle()),
            value_in_heap(*old(gc), value),
        ensures
            final(gc).wf(),
            r is Err ==> *final(gc) == *old(gc),
            (r matches Err(FieldError::UnknownField { struct_name, field_name: f })) <==> !has_field(object_type(*old(gc), self.handle()), field_name@),
            r matches Err(FieldError::UnknownField { struct_name, field_name: f }) ==> struct_name@ == object_type(*old(gc), self.handle()).name@ && f@ == field_name@,
            r is Err ==> r matches Err(FieldError::UnknownField { .. }) || r matches Err(FieldError::Mismatch { .. }),
            has_field(object_type(*old(gc), self.handle()), field_name@) ==> {
                let i = named_field(*old(gc), self.handle(), field_name@);
                let ft = field_ty(*old(gc), self.handle(), i);
                &&& (r is Err) <==> !set_ok(*old(gc), ft, value)
                &&& r matches Err(FieldError::Mismatch { struct_name, field_name: f, expected, found }) ==> {
                    &&& struct_name@ == object_type(*old(gc), self.handle()).name@
                    &&& f@ == field_name@
                    &&& expected@ == ft.name@
                    &&& found@ == value_name(*old(gc), value)
                }
                &&& r is Ok ==> wrote(
                    *old(gc),
                    *final(gc),
                    self.handle(),
                    object_type(*old(gc), self.handle()).field_offset(i) as int,
                    stored_bytes(*old(gc), ft, value),
                )
            },
    {
        match self.check_set(gc, field_name, &value) {
            Err(e) => Err(e),
            Ok(i) => {
                self.write_field(gc, i, value);
                Ok(())
            },
        }
    }

    /// Writes `value` into the field `field_name` and returns the value it held,
    /// read as a value of the same kind. Every check runs before anything changes.
    pub fn replace<O: Observer>(&self, gc: &mut MarkSweep<O>, field_name: &str, value: Value) -> (r: Result<Value, FieldError>)
        requires
            old(gc).wf(),
            is_struct_object(*old(gc), self.handle()),
            value_in_heap(*old(gc), value),
        ensures
            final(gc).wf(),
            r is Err ==> *final(gc) == *old(gc),
            (r matches Err(FieldError::UnknownField { struct_name, field_name: f })) <==> !has_field(object_type(*old(gc), self.handle()), field_name@),
            r matches Err(FieldError::UnknownField { struct_name, field_name: f }) ==> struct_name@ == object_type(*old(gc), self.handle()).name@ && f@ == field_name@,
            has_field(object_type(*old(gc), self.handle()), field_name@) ==> {
                let i = named_field(*old(gc), self.handle(), field_name@);
                let ft = field_ty(*old(gc), self.handle(), i);
                let k = spec_kind(value);
                let code = field_code(*old(gc), self.handle(), i);
                let target_ok = code > 0 && old(gc).live(code - 1);
                &&& (r matches Err(FieldError::Mismatch { .. })) <==> !(set_ok(*old(gc), ft, value) && get_ok(ft, k))
                &&& r matches Err(FieldError::Mismatch { struct_name, field_name: f, expected, found }) ==> {
                    &&& struct_name@ == object_type(*old(gc), self.handle()).name@
                    &&& f@ == field_name@
                    &&& expected@ == ft.name@
                    &&& found@ == value_name(*old(gc), value)
                }
                &&& (r matches Err(FieldError::NoObject { .. })) <==> set_ok(*old(gc), ft, value) && get_ok(ft, k)
                    && k is Struct && ft.is_gc_struct() && !target_ok
                &&& (r matches Err(FieldError::RootLimit { .. })) <==> set_ok(*old(gc), ft, value) && get_ok(ft, k)
                    && k is Struct && ft.is_gc_struct() && target_ok && old(gc).obj(code - 1).roots == usize::MAX
                &&& r matches Ok(v) ==> exists|mid: MarkSweep<O>| read_outcome(*old(gc), mid, self.handle(), i, k, v)
                    && #[trigger] wrote(
                    mid,
                    *final(gc),
                    self.handle(),
                    object_type(*old(gc), self.handle()).field_offset(i) as int,
                    stored_bytes(*old(gc), ft, value),
                )
            },
    {
        let i = match self.check_set(gc, field_name, &value) {
            Err(e) => {
                return Err(e);
            },
            Ok(i) => i,
        };
        let ghost g0 = *gc;
        let previous = self.get(gc, field_name, value.kind());
        let ghost mid = *gc;
        match previous {
            Err(e) => Err(e),
            Ok(v) => {
                proof {
                    let hi = self.handle().index as int;
                    assert(mid.live(hi));
                    assert(mid.obj(hi).ty == g0.obj(hi).ty);
                    if let Value::Struct(p) = value {
                        assert(mid.obj(p.index as int).data == g0.obj(p.index as int).data);
                        assert(mid.obj(p.index as int).ty == g0.obj(p.index as int).ty);
                    }
                    assert(stored_bytes(mid, field_ty(mid, self.handle(), i as int), value)
                        == stored_bytes(g0, field_ty(g0, self.handle(), i as int), value));
                }
                self.write_field(gc, i, value);
                Ok(v)
            },
        }
    }
}

} // verus!
