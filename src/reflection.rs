//! Type identity of values and the checks made before a native call.
use vstd::prelude::*;
use crate::gc::{MarkSweep, Observer};
use crate::marshal::{spec_kind, Value, ValueKind};
use crate::type_info::{spec_type_guid, type_guid, Guid, TypeInfo};

verus! {

/// The name of the type that a caller expects with kind `k`.
pub open spec fn kind_name(k: ValueKind) -> Seq<char> {
    match k {
        ValueKind::Empty => "core::empty"@,
        ValueKind::Bool => "core::bool"@,
        ValueKind::Int => "core::int"@,
        ValueKind::Float => "core::float"@,
        ValueKind::Struct => "struct"@,
    }
}

/// Returns the name of the type that a caller expects with kind `k`.
pub fn kind_type_name(k: ValueKind) -> (r: &'static str)
    ensures
        r@ == kind_name(k),
{
    match k {
        ValueKind::Empty => "core::empty",
        ValueKind::Bool => "core::bool",
        ValueKind::Int => "core::int",
        ValueKind::Float => "core::float",
        ValueKind::Struct => "struct",
    }
}

/// Returns the identity of the type that a caller expects with kind `k`.
pub fn kind_type_guid(k: ValueKind) -> (r: Guid)
    ensures
        r@ == spec_type_guid(kind_name(k)),
{
    type_guid(kind_type_name(k))
}

/// A value can report its type when it is not a struct reference, or when the
/// object it names is alive.
pub open spec fn value_in_heap<O: Observer>(gc: MarkSweep<O>, v: Value) -> bool {
    v is Struct ==> gc.live(v->Struct_0.index as int)
}

/// The name of the runtime type of `v`.
pub open spec fn value_name<O: Observer>(gc: MarkSweep<O>, v: Value) -> Seq<char> {
    match v {
        Value::Struct(p) => gc.types@[gc.obj(p.index as int).ty as int].name@,
        _ => kind_name(spec_kind(v)),
    }
}

/// The identity of the runtime type of `v`.
pub open spec fn value_guid<O: Observer>(gc: MarkSweep<O>, v: Value) -> Seq<u8> {
    match v {
        Value::Struct(p) => gc.types@[gc.obj(p.index as int).ty as int].guid@,
        _ => spec_type_guid(kind_name(spec_kind(v))),
    }
}

/// Returns the identity of the runtime type of `v`.
pub fn type_identity<O: Observer>(gc: &MarkSweep<O>, v: &Value) -> (r: Guid)
    requires
        gc.wf(),
        value_in_heap(*gc, *v),
    ensures
        r@ == value_guid(*gc, *v),
{
    match v {
        Value::Struct(p) => gc.types.get(gc.ptr_type(*p)).guid,
        _ => kind_type_guid(v.kind()),
    }
}

/// Returns the name of the runtime type of `v`.
pub fn type_name_of<O: Observer>(gc: &MarkSweep<O>, v: &Value) -> (r: String)
    requires
        gc.wf(),
        value_in_heap(*gc, *v),
    ensures
        r@ == value_name(*gc, *v),
{
    match v {
        Value::Struct(p) => gc.types.get(gc.ptr_type(*p)).name().to_owned(),
        _ => kind_type_name(v.kind()).to_owned(),
    }
}

/// Two types differ where the same one was expected.
#[derive(Debug)]
pub struct Mismatch {
    pub expected: String,
    pub found: String,
}

/// Checks that the argument `arg` has the type `ty`, by identity, without coercion.
pub fn equals_argument_type<O: Observer>(gc: &MarkSweep<O>, ty: &TypeInfo, arg: &Value) -> (r: Result<(), Mismatch>)
    requires
        gc.wf(),
        value_in_heap(*gc, *arg),
    ensures
        r is Ok <==> ty.guid@ == value_guid(*gc, *arg),
        r is Err ==> r->Err_0.expected@ == ty.name@ && r->Err_0.found@ == value_name(*gc, *arg),
{
    let g = type_identity(gc, arg);
    if !(ty.guid == g) {
        Err(Mismatch { expected: ty.name().to_owned(), found: type_name_of(gc, arg) })
    } else {
        Ok(())
    }
}

/// The name that a return of type `ty` is checked against: its own for a
/// fundamental type, `struct` for any struct.
pub open spec fn return_name(ty: TypeInfo) -> Seq<char> {
    if ty.group is StructTypes { "struct"@ } else { ty.name@ }
}

/// The identity that a return of type `ty` is checked against.
pub open spec fn return_guid(ty: TypeInfo) -> Seq<u8> {
    if ty.group is StructTypes { spec_type_guid("struct"@) } else { ty.guid@ }
}

/// Checks that a caller expecting kind `expected` can receive a value of type `ty`:
/// a fundamental type by identity; a struct type only as a struct reference, its
/// nominal type being checked when the struct is read.
pub fn equals_return_type(ty: &TypeInfo, expected: ValueKind) -> (r: Result<(), Mismatch>)
    ensures
        r is Ok <==> return_guid(*ty) == spec_type_guid(kind_name(expected)),
        r is Err ==> r->Err_0.expected@ == return_name(*ty) && r->Err_0.found@ == kind_name(expected),
{
    let g = kind_type_guid(expected);
    if ty.group.is_struct() {
        let s = type_guid("struct");
        if !(s == g) {
            return Err(Mismatch { expected: "struct".to_owned(), found: kind_type_name(expected).to_owned() });
        }
    } else {
        if !(ty.guid == g) {
            return Err(Mismatch { expected: ty.name().to_owned(), found: kind_type_name(expected).to_owned() });
        }
    }
    Ok(())
}

/// The signature of a compiled function: argument types and an optional return
/// type, as indices into the collector's type table. No return type means `core::empty`.
pub struct FunctionSignature {
    pub arg_types: Vec<usize>,
    pub return_type: Option<usize>,
}

/// Why a native call was refused before it touched any memory.
#[derive(Debug)]
pub enum InvokeError {
    ArgumentCount { expected: usize, found: usize },
    ArgumentType { index: usize, expected: String, found: String },
    ReturnType { expected: String, found: String },
}

/// Whether argument `i` has the declared type.
pub open spec fn arg_ok<O: Observer>(gc: MarkSweep<O>, sig: FunctionSignature, args: Seq<Value>, i: int) -> bool {
    gc.types@[sig.arg_types@[i] as int].guid@ == value_guid(gc, args[i])
}

/// Whether the declared return type can be received as `ret`.
pub open spec fn ret_ok<O: Observer>(gc: MarkSweep<O>, sig: FunctionSignature, ret: ValueKind) -> bool {
    match sig.return_type {
        Some(t) => return_guid(gc.types@[t as int]) == spec_type_guid(kind_name(ret)),
        None => spec_type_guid("core::empty"@) == spec_type_guid(kind_name(ret)),
    }
}

/// Checks a call of a function with signature `sig` on `args`, by a caller that
/// expects `ret`: the argument count, then each argument in order, then the return.
pub fn check_invocation<O: Observer>(
    gc: &MarkSweep<O>,
    sig: &FunctionSignature,
    args: &[Value],
    ret: ValueKind,
) -> (r: Result<(), InvokeError>)
    requires
        gc.wf(),
        forall|i: int| 0 <= i < sig.arg_types@.len() ==> #[trigger] sig.arg_types@[i] < gc.types@.len(),
        sig.return_type is Some ==> sig.return_type->0 < gc.types@.len(),
        forall|i: int| 0 <= i < args@.len() ==> value_in_heap(*gc, #[trigger] args@[i]),
    ensures
        r is Ok <==> sig.arg_types@.len() == args@.len()
            && (forall|i: int| 0 <= i < args@.len() ==> arg_ok(*gc, *sig, args@, i))
            && ret_ok(*gc, *sig, ret),
        (r matches Err(InvokeError::ArgumentCount { expected, found })) <==> sig.arg_types@.len() != args@.len(),
        r matches Err(InvokeError::ArgumentCount { expected, found }) ==> expected == sig.arg_types@.len() && found == args@.len(),
        r matches Err(InvokeError::ArgumentType { index, expected, found }) ==> {
            &&& sig.arg_types@.len() == args@.len()
            &&& index < args@.len()
            &&& forall|i: int| 0 <= i < index ==> arg_ok(*gc, *sig, args@, i)
            &&& !arg_ok(*gc, *sig, args@, index as int)
            &&& expected@ == gc.types@[sig.arg_types@[index as int] as int].name@
            &&& found@ == value_name(*gc, args@[index as int])
        },
        r matches Err(InvokeError::ReturnType { expected, found }) ==> {
            &&& sig.arg_types@.len() == args@.len()
            &&& forall|i: int| 0 <= i < args@.len() ==> arg_ok(*gc, *sig, args@, i)
            &&& !ret_ok(*gc, *sig, ret)
            &&& found@ == kind_name(ret)
        },
{
    if sig.arg_types.len() != args.len() {
        return Err(InvokeError::ArgumentCount { expected: sig.arg_types.len(), found: args.len() });
    }
    let mut i: usize = 0;
    while i < args.len()
        invariant
            gc.wf(),
            sig.arg_types@.len() == args@.len(),
            forall|k: int| 0 <= k < sig.arg_types@.len() ==> #[trigger] sig.arg_types@[k] < gc.types@.len(),
            forall|k: int| 0 <= k < args@.len() ==> value_in_heap(*gc, #[trigger] args@[k]),
            0 <= i <= args@.len(),
            forall|k: int| 0 <= k < i ==> arg_ok(*gc, *sig, args@, k),
        decreases args@.len() - i,
    {
        let ty = gc.types.get(sig.arg_types[i]);
        match equals_argument_type(gc, ty, &args[i]) {
            Err(m) => {
                assert(!arg_ok(*gc, *sig, args@, i as int));
                return Err(InvokeError::ArgumentType { index: i, expected: m.expected, found: m.found });
            },
            Ok(()) => {},
        }
        i = i + 1;
    }
    match sig.return_type {
        Some(t) => match equals_return_type(gc.types.get(t), ret) {
            Err(m) => Err(InvokeError::ReturnType { expected: m.expected, found: m.found }),
            Ok(()) => Ok(()),
        },
        None => {
            let e = type_guid("core::empty");
            if !(e == kind_type_guid(ret)) {
                Err(InvokeError::ReturnType { expected: "core::empty".to_owned(), found: kind_type_name(ret).to_owned() })
            } else {
                Ok(())
            }
        },
    }
}

} // verus!
