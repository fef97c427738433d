use mun_runtime::layout::{MemoryLayout, TypeFields, TypeLayout};
use mun_runtime::table::{check_layout, TypeTable, CORE_BOOL, CORE_EMPTY, CORE_FLOAT, CORE_INT};
use mun_runtime::type_info::{type_guid, StructMemoryKind, TypeGroup, TypeInfo};

const FAKE_TYPE_NAME: &str = "type-info";

fn fake_type_info(name: &str, group: TypeGroup, size_in_bits: u32, alignment: u8) -> TypeInfo {
    TypeInfo {
        guid: type_guid(name),
        name: name.to_string(),
        size_in_bits,
        alignment,
        group,
        struct_info: None,
    }
}

fn point_table() -> (TypeTable, usize) {
    let mut table = TypeTable::with_core_types();
    let point = table
        .add_struct(
            "Point",
            vec!["x".to_string(), "y".to_string()],
            vec![CORE_FLOAT, CORE_FLOAT],
            vec![0, 8],
            128,
            8,
            StructMemoryKind::Gc,
        )
        .unwrap();
    (table, point)
}

#[test]
fn test_type_info_name() {
    let type_info = fake_type_info(FAKE_TYPE_NAME, TypeGroup::FundamentalTypes, 1, 1);
    assert_eq!(type_info.name(), FAKE_TYPE_NAME);
}

#[test]
fn test_type_info_size_alignment() {
    let type_info = fake_type_info(FAKE_TYPE_NAME, TypeGroup::FundamentalTypes, 24, 8);
    assert_eq!(type_info.size_in_bits(), 24);
    assert_eq!(type_info.size_in_bytes(), 3);
    assert_eq!(type_info.alignment(), 8);
}

#[test]
fn test_type_info_group_fundamental() {
    let type_group = TypeGroup::FundamentalTypes;
    let type_info = fake_type_info(FAKE_TYPE_NAME, type_group, 1, 1);
    assert_eq!(type_info.group, type_group);
    assert!(type_info.group.is_fundamental());
    assert!(!type_info.group.is_struct());
}

#[test]
fn test_type_info_group_struct() {
    let type_group = TypeGroup::StructTypes;
    let type_info = fake_type_info(FAKE_TYPE_NAME, type_group, 1, 1);
    assert_eq!(type_info.group, type_group);
    assert!(type_info.group.is_struct());
    assert!(!type_info.group.is_fundamental());
}

#[test]
fn test_type_info_eq() {
    let type_info = fake_type_info(FAKE_TYPE_NAME, TypeGroup::FundamentalTypes, 1, 1);
    assert_eq!(type_info, type_info);
}

#[test]
fn equality_is_by_identity_only() {
    let a = fake_type_info("Point", TypeGroup::FundamentalTypes, 64, 8);
    let b = fake_type_info("Point", TypeGroup::FundamentalTypes, 128, 8);
    let c = fake_type_info("Other", TypeGroup::FundamentalTypes, 64, 8);
    assert_eq!(a, b);
    assert_ne!(a, c);
}

#[test]
fn alignment_must_be_a_power_of_two() {
    let mut table = TypeTable::new();
    assert_eq!(table.add_fundamental("odd", 24, 3), None);
    assert_eq!(table.add_fundamental("odd", 24, 4), Some(0));
}

#[test]
fn offsets_must_follow_declaration_order() {
    let mut table = TypeTable::with_core_types();
    let r = table.add_struct(
        "Swapped",
        vec!["x".to_string(), "y".to_string()],
        vec![CORE_INT, CORE_INT],
        vec![8, 0],
        128,
        8,
        StructMemoryKind::Value,
    );
    assert_eq!(r, None);
}

#[test]
fn field_alignment_must_not_exceed_the_struct_alignment() {
    let mut table = TypeTable::with_core_types();
    let r = table.add_struct("Loose", vec!["x".to_string()], vec![CORE_INT], vec![0], 64, 4, StructMemoryKind::Value);
    assert_eq!(r, None);
}

#[test]
fn size_in_bytes_rounds_up() {
    assert_eq!(fake_type_info("a", TypeGroup::FundamentalTypes, 1, 1).size_in_bytes(), 1);
    assert_eq!(fake_type_info("a", TypeGroup::FundamentalTypes, 8, 1).size_in_bytes(), 1);
    assert_eq!(fake_type_info("a", TypeGroup::FundamentalTypes, 9, 1).size_in_bytes(), 2);
    assert_eq!(fake_type_info("a", TypeGroup::FundamentalTypes, 0, 1).size_in_bytes(), 0);
}

#[test]
fn guid_is_the_md5_of_the_name() {
    let g = type_guid("core::int");
    assert_eq!(g.b, md5::compute("core::int").0);
    assert_eq!(type_guid("core::int"), type_guid("core::int"));
    assert_ne!(type_guid("core::int"), type_guid("core::float"));
    assert_ne!(g.b, *b"core::int\0\0\0\0\0\0\0");
}

#[test]
fn guid_of_empty_name() {
    // MD5 of the empty input.
    let expected: [u8; 16] = [
        0xd4, 0x1d, 0x8c, 0xd9, 0x8f, 0x00, 0xb2, 0x04, 0xe9, 0x80, 0x09, 0x98, 0xec, 0xf8, 0x42, 0x7e,
    ];
    assert_eq!(type_guid("").b, expected);
}

#[test]
fn core_types_table() {
    let table = TypeTable::with_core_types();
    assert_eq!(table.len(), 4);
    assert_eq!(table.get(CORE_BOOL).name(), "core::bool");
    assert_eq!(table.get(CORE_INT).name(), "core::int");
    assert_eq!(table.get(CORE_FLOAT).name(), "core::float");
    assert_eq!(table.get(CORE_EMPTY).name(), "core::empty");
    assert_eq!(table.get(CORE_INT).size_in_bytes(), 8);
    assert_eq!(table.get(CORE_BOOL).size_in_bytes(), 1);
    assert_eq!(table.find("core::float"), Some(CORE_FLOAT));
    assert_eq!(table.find("Point"), None);
}

#[test]
fn point_descriptor_size_and_alignment() {
    let (table, point) = point_table();
    let t = table.get(point);
    assert_eq!(t.size_in_bytes(), 16);
    assert_eq!(t.alignment(), 8);
    assert!(t.as_struct().is_some());
    assert!(table.get(CORE_INT).as_struct().is_none());
    assert_eq!(t.layout(), MemoryLayout { size: 16, align: 8 });
    assert_eq!(t.offsets(), vec![0u16, 8]);
    let fields = t.fields();
    assert_eq!(fields.len(), 2);
    assert_eq!(fields[0].0, "x");
    assert_eq!(fields[1], ("y".to_string(), CORE_FLOAT));
}

#[test]
fn overlapping_fields_are_refused() {
    let mut table = TypeTable::with_core_types();
    let r = table.add_struct(
        "Bad",
        vec!["x".to_string(), "y".to_string()],
        vec![CORE_FLOAT, CORE_FLOAT],
        vec![0, 4],
        128,
        8,
        StructMemoryKind::Value,
    );
    assert_eq!(r, None);
    assert_eq!(table.len(), 4);
}

#[test]
fn field_past_the_end_is_refused() {
    let mut table = TypeTable::with_core_types();
    let r = table.add_struct(
        "Bad",
        vec!["x".to_string(), "y".to_string()],
        vec![CORE_FLOAT, CORE_FLOAT],
        vec![0, 8],
        64,
        8,
        StructMemoryKind::Value,
    );
    assert_eq!(r, None);
}

#[test]
fn misaligned_field_is_refused() {
    let mut table = TypeTable::with_core_types();
    let r = table.add_struct(
        "Bad",
        vec!["b".to_string(), "x".to_string()],
        vec![CORE_BOOL, CORE_INT],
        vec![0, 1],
        128,
        8,
        StructMemoryKind::Value,
    );
    assert_eq!(r, None);
}

#[test]
fn repeated_field_name_is_refused() {
    let mut table = TypeTable::with_core_types();
    let r = table.add_struct(
        "Bad",
        vec!["x".to_string(), "x".to_string()],
        vec![CORE_INT, CORE_INT],
        vec![0, 8],
        128,
        8,
        StructMemoryKind::Value,
    );
    assert_eq!(r, None);
}

#[test]
fn unknown_field_type_is_refused() {
    let mut table = TypeTable::with_core_types();
    let r = table.add_struct("Bad", vec!["x".to_string()], vec![99], vec![0], 64, 8, StructMemoryKind::Value);
    assert_eq!(r, None);
}

#[test]
fn zero_alignment_is_refused() {
    let mut table = TypeTable::new();
    assert_eq!(table.add_fundamental("core::int", 64, 0), None);
    assert_eq!(table.add_fundamental("core::int", 64, 8), Some(0));
}

#[test]
fn wrong_guid_is_refused() {
    let table = TypeTable::with_core_types();
    let mut t = fake_type_info("core::int", TypeGroup::FundamentalTypes, 64, 8);
    assert!(check_layout(&table.types, &t));
    t.guid = type_guid("core::float");
    assert!(!check_layout(&table.types, &t));
}

#[test]
fn gc_struct_field_takes_a_handle() {
    let (mut table, point) = point_table();
    let line = table
        .add_struct(
            "Line",
            vec!["from".to_string(), "to".to_string()],
            vec![point, point],
            vec![0, 8],
            128,
            8,
            StructMemoryKind::Gc,
        )
        .unwrap();
    assert_eq!(table.get(line).size_in_bytes(), 16);
    assert_eq!(table.get(point).field_size(), 8);
    assert!(table.get(point).is_gc_reference());
}
