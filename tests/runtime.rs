use mun_runtime::diff::{apply, diff, FieldDiff};
use mun_runtime::gc::{Event, GcPtr, MarkSweep, NoopObserver};
use mun_runtime::layout::TypeDesc;
use mun_runtime::marshal::{decode_u64, encode_u64, from_native, to_native, Value, ValueKind};
use mun_runtime::reflection::{
    check_invocation, equals_argument_type, equals_return_type, type_identity, FunctionSignature, InvokeError,
};
use mun_runtime::reload::reload_type;
use mun_runtime::struct_ref::{FieldError, RawStruct, StructRef};
use mun_runtime::table::{TypeTable, CORE_BOOL, CORE_FLOAT, CORE_INT};
use mun_runtime::type_info::{type_guid, StructInfo, StructMemoryKind, TypeGroup, TypeInfo};

fn struct_info(name: &str, fields: &[(&str, usize, u16)], size_in_bits: u32, kind: StructMemoryKind) -> TypeInfo {
    TypeInfo {
        guid: type_guid(name),
        name: name.to_string(),
        size_in_bits,
        alignment: 8,
        group: TypeGroup::StructTypes,
        struct_info: Some(StructInfo {
            field_names: fields.iter().map(|f| f.0.to_string()).collect(),
            field_types: fields.iter().map(|f| f.1).collect(),
            field_offsets: fields.iter().map(|f| f.2).collect(),
            memory_kind: kind,
        }),
    }
}

fn point_heap() -> (MarkSweep<NoopObserver>, usize) {
    let mut table = TypeTable::with_core_types();
    let point = table
        .add(struct_info("Point", &[("x", CORE_FLOAT, 0), ("y", CORE_FLOAT, 8)], 128, StructMemoryKind::Gc))
        .unwrap();
    (MarkSweep::new(table, NoopObserver), point)
}

fn float(v: f64) -> Value {
    Value::Float(v.to_bits())
}

#[test]
fn round_trip_of_fundamental_values() {
    let values = [
        Value::Empty,
        Value::Bool(true),
        Value::Bool(false),
        Value::Int(0),
        Value::Int(-1),
        Value::Int(i64::MIN),
        Value::Int(i64::MAX),
        float(2.5),
        float(-0.0),
        float(f64::MAX),
    ];
    for v in values.iter() {
        let bytes = to_native(v);
        assert_eq!(from_native(v.kind(), &bytes, 0), *v);
    }
}

#[test]
fn native_bytes_are_little_endian() {
    assert_eq!(to_native(&Value::Int(1)), vec![1, 0, 0, 0, 0, 0, 0, 0]);
    assert_eq!(to_native(&Value::Int(-2)), vec![0xfe, 0xff, 0xff, 0xff, 0xff, 0xff, 0xff, 0xff]);
    assert_eq!(to_native(&Value::Bool(true)), vec![1]);
    assert_eq!(to_native(&Value::Empty), Vec::<u8>::new());
    assert_eq!(to_native(&float(1.0)), 1.0f64.to_le_bytes().to_vec());
    assert_eq!(encode_u64(0x0102_0304_0506_0708), vec![8, 7, 6, 5, 4, 3, 2, 1]);
    assert_eq!(decode_u64(&[0, 8, 7, 6, 5, 4, 3, 2, 1], 1), 0x0102_0304_0506_0708);
    assert_eq!(from_native(ValueKind::Bool, &[0, 7], 1), Value::Bool(true));
}

#[test]
fn allocation_is_zeroed_and_typed() {
    let (mut gc, point) = point_heap();
    let p = gc.allocate(point);
    assert_eq!(p, GcPtr { index: 0 });
    assert_eq!(gc.ptr_type(p), point);
    assert_eq!(gc.read_bytes(p, 0, 16), vec![0u8; 16]);
}

#[test]
fn dropped_root_is_reclaimed() {
    let (mut gc, point) = point_heap();
    let p = gc.allocate(point);
    let s = StructRef::new(&mut gc, RawStruct(p));
    gc.collect();
    assert!(gc.is_live(p));
    let raw = s.into_raw(&mut gc);
    assert_eq!(raw.get_ptr(), p);
    gc.collect();
    assert!(!gc.is_live(p));
    // A second collection with nothing allocated since changes nothing.
    gc.collect();
    assert!(!gc.is_live(p));
    assert_eq!(gc.objects.len(), 1);
}

#[test]
fn collection_keeps_what_roots_reach() {
    let mut table = TypeTable::with_core_types();
    let node = table.add(struct_info("Node", &[("value", CORE_INT, 0)], 64, StructMemoryKind::Gc)).unwrap();
    let list = table
        .add(struct_info("List", &[("head", node, 0), ("tail", node, 8)], 128, StructMemoryKind::Gc))
        .unwrap();
    let mut gc = MarkSweep::new(table, NoopObserver);
    let l = gc.allocate(list);
    let a = gc.allocate(node);
    let b = gc.allocate(node);
    let c = gc.allocate(node);
    let root = StructRef::new(&mut gc, RawStruct(l));
    root.set(&mut gc, "head", Value::Struct(a)).unwrap();
    root.set(&mut gc, "tail", Value::Struct(b)).unwrap();
    StructRef::new(&mut gc, RawStruct(a)).set(&mut gc, "value", Value::Int(7)).unwrap();
    gc.collect();
    assert!(gc.is_live(l));
    assert!(gc.is_live(a));
    assert!(gc.is_live(b));
    assert!(!gc.is_live(c));
    // `a` got a root of its own above; `b` only hangs off the list.
    root.into_raw(&mut gc);
    gc.collect();
    assert!(!gc.is_live(l));
    assert!(gc.is_live(a));
    assert!(!gc.is_live(b));
}

#[test]
fn unrooted_chain_is_reclaimed() {
    let mut table = TypeTable::with_core_types();
    let holder = TypeInfo {
        guid: type_guid("Cell"),
        name: "Cell".to_string(),
        size_in_bits: 64,
        alignment: 8,
        group: TypeGroup::StructTypes,
        struct_info: Some(StructInfo {
            field_names: vec![],
            field_types: vec![],
            field_offsets: vec![],
            memory_kind: StructMemoryKind::Gc,
        }),
    };
    let cell = table.add(holder).unwrap();
    let pair = table
        .add(struct_info("Pair", &[("other", cell, 0)], 64, StructMemoryKind::Gc))
        .unwrap();
    let mut gc = MarkSweep::new(table, NoopObserver);
    let a = gc.allocate(pair);
    let b = gc.allocate(cell);
    let s = StructRef::new(&mut gc, RawStruct(a));
    s.set(&mut gc, "other", Value::Struct(b)).unwrap();
    s.into_raw(&mut gc);
    gc.collect();
    assert!(!gc.is_live(a));
    assert!(!gc.is_live(b));
}

#[test]
fn get_set_replace_fields() {
    let (mut gc, point) = point_heap();
    let p = gc.allocate(point);
    let s = StructRef::new(&mut gc, RawStruct(p));
    s.set(&mut gc, "x", float(1.5)).unwrap();
    s.set(&mut gc, "y", float(-2.0)).unwrap();
    assert_eq!(s.get(&mut gc, "x", ValueKind::Float).unwrap(), float(1.5));
    assert_eq!(s.get(&mut gc, "y", ValueKind::Float).unwrap(), float(-2.0));
    assert_eq!(s.replace(&mut gc, "x", float(3.0)).unwrap(), float(1.5));
    assert_eq!(s.get(&mut gc, "x", ValueKind::Float).unwrap(), float(3.0));
    assert_eq!(gc.read_bytes(p, 8, 8), (-2.0f64).to_le_bytes().to_vec());
    assert_eq!(s.type_info(&gc).name(), "Point");
}

#[test]
fn field_errors() {
    let (mut gc, point) = point_heap();
    let p = gc.allocate(point);
    let s = StructRef::new(&mut gc, RawStruct(p));
    match s.get(&mut gc, "z", ValueKind::Float) {
        Err(FieldError::UnknownField { struct_name, field_name }) => {
            assert_eq!(struct_name, "Point");
            assert_eq!(field_name, "z");
        }
        other => panic!("unexpected {:?}", other),
    }
    match s.set(&mut gc, "x", Value::Int(3)) {
        Err(FieldError::Mismatch { expected, found, .. }) => {
            assert_eq!(expected, "core::float");
            assert_eq!(found, "core::int");
        }
        other => panic!("unexpected {:?}", other),
    }
    match s.get(&mut gc, "x", ValueKind::Bool) {
        Err(FieldError::Mismatch { expected, found, .. }) => {
            assert_eq!(expected, "core::float");
            assert_eq!(found, "core::bool");
        }
        other => panic!("unexpected {:?}", other),
    }
    assert!(matches!(s.replace(&mut gc, "w", Value::Int(1)), Err(FieldError::UnknownField { .. })));
    assert_eq!(gc.read_bytes(p, 0, 16), vec![0u8; 16]);
}

#[test]
fn value_struct_field_is_copied_on_read() {
    let mut table = TypeTable::with_core_types();
    let vec2 = table
        .add(struct_info("Vec2", &[("x", CORE_INT, 0), ("y", CORE_INT, 8)], 128, StructMemoryKind::Value))
        .unwrap();
    let body = table
        .add(struct_info("Body", &[("pos", vec2, 0), ("mass", CORE_INT, 16)], 192, StructMemoryKind::Gc))
        .unwrap();
    let mut gc = MarkSweep::new(table, NoopObserver);
    let b = gc.allocate(body);
    let v = gc.allocate(vec2);
    let vs = StructRef::new(&mut gc, RawStruct(v));
    vs.set(&mut gc, "x", Value::Int(3)).unwrap();
    vs.set(&mut gc, "y", Value::Int(4)).unwrap();
    let bs = StructRef::new(&mut gc, RawStruct(b));
    bs.set(&mut gc, "pos", Value::Struct(v)).unwrap();
    let copy = match bs.get(&mut gc, "pos", ValueKind::Struct).unwrap() {
        Value::Struct(c) => c,
        other => panic!("unexpected {:?}", other),
    };
    assert_ne!(copy, v);
    assert_eq!(gc.ptr_type(copy), vec2);
    // The copy comes back rooted, so a collection keeps it.
    assert_eq!(gc.objects[copy.index].as_ref().unwrap().roots, 1);
    gc.collect();
    assert!(gc.is_live(copy));
    let cs = StructRef::new(&mut gc, RawStruct(copy));
    assert_eq!(cs.get(&mut gc, "y", ValueKind::Int).unwrap(), Value::Int(4));
    // Changing the copy leaves the field alone.
    cs.set(&mut gc, "y", Value::Int(9)).unwrap();
    assert_eq!(gc.read_bytes(b, 8, 8), to_native(&Value::Int(4)));
}

#[test]
fn gc_struct_field_is_shared_on_read() {
    let mut table = TypeTable::with_core_types();
    let node = table.add(struct_info("Node", &[("value", CORE_INT, 0)], 64, StructMemoryKind::Gc)).unwrap();
    let holder = table.add(struct_info("Holder", &[("node", node, 0)], 64, StructMemoryKind::Gc)).unwrap();
    let mut gc = MarkSweep::new(table, NoopObserver);
    let h = gc.allocate(holder);
    let n = gc.allocate(node);
    let hs = StructRef::new(&mut gc, RawStruct(h));
    hs.set(&mut gc, "node", Value::Struct(n)).unwrap();
    assert_eq!(gc.objects[n.index].as_ref().unwrap().roots, 0);
    assert_eq!(hs.get(&mut gc, "node", ValueKind::Struct).unwrap(), Value::Struct(n));
    assert_eq!(gc.objects.len(), 2);
    assert_eq!(gc.objects[n.index].as_ref().unwrap().roots, 1);
    // The stored code is one more than the handle's index.
    assert_eq!(gc.read_bytes(h, 0, 8), encode_u64(n.index as u64 + 1));
}

#[test]
fn unset_handle_field_refers_to_nothing() {
    let mut table = TypeTable::with_core_types();
    let node = table.add(struct_info("Node", &[("value", CORE_INT, 0)], 64, StructMemoryKind::Gc)).unwrap();
    let holder = table.add(struct_info("Holder", &[("node", node, 0)], 64, StructMemoryKind::Gc)).unwrap();
    let mut gc = MarkSweep::new(table, NoopObserver);
    let first = gc.allocate(node);
    assert_eq!(first.index, 0);
    let h = gc.allocate(holder);
    let hs = StructRef::new(&mut gc, RawStruct(h));
    match hs.get(&mut gc, "node", ValueKind::Struct) {
        Err(FieldError::NoObject { struct_name, field_name }) => {
            assert_eq!(struct_name, "Holder");
            assert_eq!(field_name, "node");
        }
        other => panic!("unexpected {:?}", other),
    }
    // A zeroed handle field keeps nothing alive, object 0 included.
    gc.collect();
    assert!(!gc.is_live(first));
    assert!(gc.is_live(h));
    // A handle to a reclaimed object refers to nothing either.
    let n = gc.allocate(node);
    hs.set(&mut gc, "node", Value::Struct(n)).unwrap();
    gc.objects[n.index] = None;
    assert!(matches!(hs.get(&mut gc, "node", ValueKind::Struct), Err(FieldError::NoObject { .. })));
}

#[test]
fn failed_replace_changes_nothing() {
    let mut table = TypeTable::with_core_types();
    let vec2 = table
        .add(struct_info("Vec2", &[("x", CORE_INT, 0), ("y", CORE_INT, 8)], 128, StructMemoryKind::Value))
        .unwrap();
    let other = table.add(struct_info("Other", &[("z", CORE_INT, 0)], 64, StructMemoryKind::Gc)).unwrap();
    let body = table.add(struct_info("Body", &[("pos", vec2, 0)], 128, StructMemoryKind::Gc)).unwrap();
    let mut gc = MarkSweep::new(table, NoopObserver);
    let b = gc.allocate(body);
    let o = gc.allocate(other);
    let bs = StructRef::new(&mut gc, RawStruct(b));
    let before = gc.objects.len();
    match bs.replace(&mut gc, "pos", Value::Struct(o)) {
        Err(FieldError::Mismatch { struct_name, field_name, expected, found }) => {
            assert_eq!(struct_name, "Body");
            assert_eq!(field_name, "pos");
            assert_eq!(expected, "Vec2");
            assert_eq!(found, "Other");
        }
        other => panic!("unexpected {:?}", other),
    }
    assert_eq!(gc.objects.len(), before);
    assert_eq!(gc.read_bytes(b, 0, 16), vec![0u8; 16]);
}

#[test]
fn fundamental_value_needs_a_fundamental_field() {
    let (mut gc, point) = point_heap();
    let p = gc.allocate(point);
    let s = StructRef::new(&mut gc, RawStruct(p));
    assert!(matches!(s.set(&mut gc, "x", Value::Bool(true)), Err(FieldError::Mismatch { .. })));
}

#[test]
fn argument_type_mismatch_names_the_index() {
    let (gc, _) = point_heap();
    let sig = FunctionSignature { arg_types: vec![CORE_INT, CORE_FLOAT], return_type: Some(CORE_BOOL) };
    match check_invocation(&gc, &sig, &[Value::Int(1), Value::Int(2)], ValueKind::Bool) {
        Err(InvokeError::ArgumentType { index, expected, found }) => {
            assert_eq!(index, 1);
            assert_eq!(expected, "core::float");
            assert_eq!(found, "core::int");
        }
        other => panic!("unexpected {:?}", other),
    }
    assert!(check_invocation(&gc, &sig, &[Value::Int(1), float(2.0)], ValueKind::Bool).is_ok());
    match check_invocation(&gc, &sig, &[Value::Int(1)], ValueKind::Bool) {
        Err(InvokeError::ArgumentCount { expected, found }) => {
            assert_eq!(expected, 2);
            assert_eq!(found, 1);
        }
        other => panic!("unexpected {:?}", other),
    }
    match check_invocation(&gc, &sig, &[Value::Int(1), float(2.0)], ValueKind::Int) {
        Err(InvokeError::ReturnType { expected, found }) => {
            assert_eq!(expected, "core::bool");
            assert_eq!(found, "core::int");
        }
        other => panic!("unexpected {:?}", other),
    }
    let unit = FunctionSignature { arg_types: vec![], return_type: None };
    assert!(check_invocation(&gc, &unit, &[], ValueKind::Empty).is_ok());
    assert!(matches!(check_invocation(&gc, &unit, &[], ValueKind::Int), Err(InvokeError::ReturnType { .. })));
}

#[test]
fn struct_arguments_and_returns() {
    let (mut gc, point) = point_heap();
    let p = gc.allocate(point);
    assert!(equals_argument_type(&gc, gc.types.get(point), &Value::Struct(p)).is_ok());
    let m = equals_argument_type(&gc, gc.types.get(CORE_INT), &Value::Struct(p)).unwrap_err();
    assert_eq!(m.expected, "core::int");
    assert_eq!(m.found, "Point");
    assert_eq!(type_identity(&gc, &Value::Struct(p)), type_guid("Point"));
    assert_eq!(type_identity(&gc, &Value::Int(0)), type_guid("core::int"));
    assert!(equals_return_type(gc.types.get(point), ValueKind::Struct).is_ok());
    let m = equals_return_type(gc.types.get(point), ValueKind::Int).unwrap_err();
    assert_eq!(m.expected, "struct");
    assert_eq!(m.found, "core::int");
}

#[test]
fn diff_matches_fields_by_name() {
    let mut table = TypeTable::with_core_types();
    let before_t = struct_info("S", &[("a", CORE_INT, 0), ("b", CORE_INT, 8), ("c", CORE_INT, 16)], 192, StructMemoryKind::Gc);
    let after_t = struct_info("S", &[("b", CORE_INT, 0), ("a", CORE_INT, 8), ("c", CORE_FLOAT, 16), ("d", CORE_INT, 24)], 256, StructMemoryKind::Gc);
    let removed = struct_info("S", &[("c", CORE_INT, 16)], 192, StructMemoryKind::Gc);
    let o = table.add(before_t).unwrap();
    let n = table.add(after_t).unwrap();
    let r = table.add(removed).unwrap();
    let d = diff(&table, table.get(o), table.get(n));
    assert_eq!(
        d,
        vec![
            FieldDiff::Moved { old_index: 1, new_index: 0 },
            FieldDiff::Moved { old_index: 0, new_index: 1 },
            FieldDiff::TypeChanged { old_index: 2, new_index: 2 },
            FieldDiff::Added { new_index: 3 },
        ]
    );
    let d2 = diff(&table, table.get(o), table.get(r));
    assert_eq!(
        d2,
        vec![
            FieldDiff::Unchanged { old_index: 2, new_index: 0 },
            FieldDiff::Removed { old_index: 0 },
            FieldDiff::Removed { old_index: 1 },
        ]
    );
    let old_bytes: Vec<u8> = (1..=24).collect();
    let mut out = vec![0xaau8; 32];
    apply(&table, &d, table.get(o), table.get(n), &old_bytes, &mut out);
    let mut expected: Vec<u8> = (9..=16).collect();
    expected.extend(1..=8);
    expected.extend(vec![0u8; 16]);
    assert_eq!(out, expected);
}

fn point_xy(gc: &mut MarkSweep<NoopObserver>, point: usize, x: f64, y: f64) -> GcPtr {
    let p = gc.allocate(point);
    let s = StructRef::new(gc, RawStruct(p));
    s.set(gc, "x", float(x)).unwrap();
    s.set(gc, "y", float(y)).unwrap();
    p
}

#[test]
fn reload_adds_a_zeroed_field() {
    let (mut gc, point) = point_heap();
    let p = point_xy(&mut gc, point, 1.0, 2.0);
    let q = point_xy(&mut gc, point, 3.0, 4.0);
    let new_point = struct_info(
        "Point",
        &[("x", CORE_FLOAT, 0), ("y", CORE_FLOAT, 8), ("z", CORE_FLOAT, 16)],
        192,
        StructMemoryKind::Gc,
    );
    let t = reload_type(&mut gc, new_point).unwrap();
    for (h, x, y) in [(p, 1.0, 2.0), (q, 3.0, 4.0)] {
        assert_eq!(gc.ptr_type(h), t);
        let s = StructRef::new(&mut gc, RawStruct(h));
        assert_eq!(s.get(&mut gc, "x", ValueKind::Float).unwrap(), float(x));
        assert_eq!(s.get(&mut gc, "y", ValueKind::Float).unwrap(), float(y));
        assert_eq!(s.get(&mut gc, "z", ValueKind::Float).unwrap(), float(0.0));
    }
}

#[test]
fn reload_drops_a_removed_field() {
    let (mut gc, point) = point_heap();
    let p = point_xy(&mut gc, point, 5.0, 6.0);
    let new_point = struct_info("Point", &[("x", CORE_FLOAT, 0)], 64, StructMemoryKind::Gc);
    let t = reload_type(&mut gc, new_point).unwrap();
    assert_eq!(gc.types.get(t).size_in_bytes(), 8);
    assert_eq!(gc.objects[p.index].as_ref().unwrap().data.len(), 8);
    let s = StructRef::new(&mut gc, RawStruct(p));
    assert_eq!(s.get(&mut gc, "x", ValueKind::Float).unwrap(), float(5.0));
    assert!(matches!(s.get(&mut gc, "y", ValueKind::Float), Err(FieldError::UnknownField { .. })));
}

#[test]
fn reload_refuses_an_inconsistent_layout() {
    let (mut gc, point) = point_heap();
    let p = point_xy(&mut gc, point, 5.0, 6.0);
    let bad = struct_info("Point", &[("x", CORE_FLOAT, 0), ("y", CORE_FLOAT, 4)], 128, StructMemoryKind::Gc);
    assert!(reload_type(&mut gc, bad).is_err());
    assert_eq!(gc.ptr_type(p), point);
    assert_eq!(gc.types.len(), 5);
}

struct Recorder {
    events: Vec<mun_runtime::gc::Event>,
}

impl mun_runtime::gc::Observer for Recorder {
    fn event(&mut self, event: mun_runtime::gc::Event) {
        self.events.push(event);
    }
}

#[test]
fn observer_sees_lifecycle_events() {
    let mut table = TypeTable::with_core_types();
    let point = table
        .add(struct_info("Point", &[("x", CORE_FLOAT, 0), ("y", CORE_FLOAT, 8)], 128, StructMemoryKind::Gc))
        .unwrap();
    let mut gc = MarkSweep::new(table, Recorder { events: Vec::new() });
    let p = gc.allocate(point);
    let q = gc.allocate(point);
    gc.root(q);
    gc.collect();
    assert_eq!(
        gc.observer.events,
        vec![Event::Allocation(p), Event::Allocation(q), Event::Start, Event::Deallocation(p), Event::End]
    );
    assert!(gc.is_live(q));
    gc.unroot(q);
    gc.collect();
    assert!(!gc.is_live(q));
}

#[test]
fn type_description() {
    let (gc, point) = point_heap();
    let t = gc.types.get(point);
    assert_eq!(TypeDesc::name(t), "Point");
    assert_eq!(*TypeDesc::guid(t), type_guid("Point"));
    assert_eq!(TypeDesc::group(t), TypeGroup::StructTypes);
}

#[test]
fn well_formed_heap_check() {
    let (mut gc, point) = point_heap();
    let p = gc.allocate(point);
    assert!(gc.check_wf());
    gc.objects[p.index].as_mut().unwrap().data.pop();
    assert!(!gc.check_wf());
}

#[test]
fn second_collection_changes_nothing() {
    let (mut gc, point) = point_heap();
    let a = point_xy(&mut gc, point, 1.0, 2.0);
    let b = gc.allocate(point);
    StructRef::new(&mut gc, RawStruct(a));
    gc.collect();
    let snapshot: Vec<Option<(usize, Vec<u8>, usize)>> =
        gc.objects.iter().map(|o| o.as_ref().map(|o| (o.ty, o.data.clone(), o.roots))).collect();
    gc.collect();
    let again: Vec<Option<(usize, Vec<u8>, usize)>> =
        gc.objects.iter().map(|o| o.as_ref().map(|o| (o.ty, o.data.clone(), o.roots))).collect();
    assert_eq!(snapshot, again);
    assert!(gc.is_live(a));
    assert!(!gc.is_live(b));
}

#[test]
fn reload_converts_between_int_and_bool() {
    let mut table = TypeTable::with_core_types();
    let flags = table
        .add(struct_info("Flags", &[("on", CORE_INT, 0), ("off", CORE_INT, 8), ("b", CORE_BOOL, 16)], 192, StructMemoryKind::Gc))
        .unwrap();
    let mut gc = MarkSweep::new(table, NoopObserver);
    let p = gc.allocate(flags);
    let s = StructRef::new(&mut gc, RawStruct(p));
    s.set(&mut gc, "on", Value::Int(-7)).unwrap();
    s.set(&mut gc, "off", Value::Int(0)).unwrap();
    s.set(&mut gc, "b", Value::Bool(true)).unwrap();
    let new_flags = struct_info(
        "Flags",
        &[("on", CORE_BOOL, 0), ("off", CORE_BOOL, 1), ("b", CORE_INT, 8)],
        128,
        StructMemoryKind::Gc,
    );
    reload_type(&mut gc, new_flags).unwrap();
    assert_eq!(s.get(&mut gc, "on", ValueKind::Bool).unwrap(), Value::Bool(true));
    assert_eq!(s.get(&mut gc, "off", ValueKind::Bool).unwrap(), Value::Bool(false));
    assert_eq!(s.get(&mut gc, "b", ValueKind::Int).unwrap(), Value::Int(1));
    assert_eq!(gc.read_bytes(p, 0, 16), vec![1, 0, 0, 0, 0, 0, 0, 0, 1, 0, 0, 0, 0, 0, 0, 0]);
}

#[test]
fn reload_zeroes_a_float_that_became_an_int() {
    let (mut gc, point) = point_heap();
    let p = point_xy(&mut gc, point, 1.5, 2.5);
    let new_point = struct_info("Point", &[("x", CORE_INT, 0), ("y", CORE_FLOAT, 8)], 128, StructMemoryKind::Gc);
    reload_type(&mut gc, new_point).unwrap();
    let s = StructRef::new(&mut gc, RawStruct(p));
    assert_eq!(s.get(&mut gc, "x", ValueKind::Int).unwrap(), Value::Int(0));
    assert_eq!(s.get(&mut gc, "y", ValueKind::Float).unwrap(), float(2.5));
}
