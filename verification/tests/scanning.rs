use drop_finder::diagnostics::{
    decimal, describe, dump_file_name, malformed_message, undecodable_message,
};
use drop_finder::extract::DroppedItem;
use drop_finder::filter::{aggregate, is_archive_name, normalize_filters};
use drop_finder::scan::{
    find_dropped_items_in_entity_file, halt_on, items_in_tree, malformed_halt, scan_chunk,
    scan_payloads, undecodable_halt, ChunkFailure, FileScan, Halt,
};
use drop_finder::schema::{Fault, Field, SchemaError};
use drop_finder::tree::Tag;
use fastanvil::Region;
use fastnbt::Value;
use std::collections::HashMap;
use std::io::Cursor;

fn compound(fields: Vec<(&str, Value)>) -> Value {
    let mut map = HashMap::new();
    for (name, value) in fields {
        map.insert(name.to_string(), value);
    }
    Value::Compound(map)
}

fn text(s: &str) -> Value {
    Value::String(s.to_string())
}

fn pos(x: f64, y: f64, z: f64) -> Value {
    Value::List(vec![Value::Double(x), Value::Double(y), Value::Double(z)])
}

fn item_entity(at: (f64, f64, f64), item: &str, count: Value) -> Value {
    compound(vec![
        ("id", text("minecraft:item")),
        ("Pos", pos(at.0, at.1, at.2)),
        ("Item", compound(vec![("id", text(item)), ("count", count)])),
        ("Age", Value::Short(17)),
        ("Rotation", Value::List(vec![Value::Float(1.5), Value::Float(0.0)])),
        ("UUID", Value::IntArray(fastnbt::IntArray::new(vec![1, 2, 3, 4]))),
    ])
}

fn cow(at: (f64, f64, f64)) -> Value {
    compound(vec![("id", text("minecraft:cow")), ("Pos", pos(at.0, at.1, at.2))])
}

fn chunk(entities: Vec<Value>) -> Vec<u8> {
    let root = compound(vec![
        ("DataVersion", Value::Int(3700)),
        ("Position", Value::IntArray(fastnbt::IntArray::new(vec![0, 0]))),
        ("Entities", Value::List(entities)),
    ]);
    fastnbt::to_bytes(&root).unwrap()
}

fn chunk_without_entities() -> Vec<u8> {
    fastnbt::to_bytes(&compound(vec![("DataVersion", Value::Int(3700))])).unwrap()
}

fn archive(chunks: Vec<(usize, usize, Vec<u8>)>) -> Vec<u8> {
    let mut region = Region::create(Cursor::new(Vec::new())).unwrap();
    for (x, z, payload) in chunks {
        region.write_chunk(x, z, &payload).unwrap();
    }
    region.into_inner().unwrap().into_inner()
}

fn record(item_type: &str, at: (f64, f64, f64), count: i32, file: &str) -> DroppedItem {
    DroppedItem {
        item_type: item_type.to_string(),
        position: (at.0.to_bits(), at.1.to_bits(), at.2.to_bits()),
        count,
        entity_file: file.to_string(),
        age: Some(17),
    }
}

fn report_line(item: &DroppedItem) -> String {
    format!(
        "Entity file: {}, Item: {}, Count: {}, Position: ({:.1}, {:.1}, {:.1})",
        item.entity_file,
        item.item_type,
        item.count,
        f64::from_bits(item.position.0),
        f64::from_bits(item.position.1),
        f64::from_bits(item.position.2)
    )
}

fn is_stamped_dump_name(name: &str) -> bool {
    let Some(stamp) = name
        .strip_prefix("entity_structure_debug_")
        .and_then(|rest| rest.strip_suffix(".json"))
    else {
        return false;
    };
    let bytes = stamp.as_bytes();
    bytes.len() == 15
        && bytes[8] == b'_'
        && bytes.iter().enumerate().all(|(i, b)| i == 8 || b.is_ascii_digit())
}

#[test]
fn numbers_are_written_in_decimal() {
    assert_eq!(decimal(0), "0");
    assert_eq!(decimal(7), "7");
    assert_eq!(decimal(10), "10");
    assert_eq!(decimal(1023), "1023");
    assert_eq!(decimal(9_000_001), "9000001");
    assert_eq!(decimal(usize::MAX), usize::MAX.to_string());
}

#[test]
fn errors_are_put_into_words() {
    let at = |entity, field, fault| describe(&SchemaError { entity, field, fault });
    assert_eq!(at(None, Field::Entities, Fault::Missing), "missing field `Entities`");
    assert_eq!(at(None, Field::Root, Fault::WrongKind), "unexpected kind of value for the root");
    assert_eq!(
        at(None, Field::Entities, Fault::WrongKind),
        "unexpected kind of value for `Entities`"
    );
    assert_eq!(
        at(Some(0), Field::Entity, Fault::WrongKind),
        "unexpected kind of value for an entity at entity 0"
    );
    assert_eq!(at(Some(12), Field::Id, Fault::Missing), "missing field `id` at entity 12");
    assert_eq!(
        at(Some(3), Field::Pos, Fault::WrongKind),
        "unexpected kind of value for `Pos` at entity 3"
    );
    assert_eq!(
        at(Some(3), Field::Item, Fault::WrongKind),
        "unexpected kind of value for `Item` at entity 3"
    );
    assert_eq!(at(Some(3), Field::ItemId, Fault::Missing), "missing field `Item.id` at entity 3");
    assert_eq!(
        at(Some(250), Field::ItemCount, Fault::OutOfRange),
        "value out of range for `Item.count` at entity 250"
    );
    assert_eq!(at(Some(1), Field::Age, Fault::OutOfRange), "value out of range for `Age` at entity 1");
}

#[test]
fn the_dump_file_is_named_after_the_stamp() {
    assert_eq!(
        dump_file_name("20240229_235959"),
        "entity_structure_debug_20240229_235959.json"
    );
    assert_eq!(dump_file_name(""), "entity_structure_debug_.json");
}

#[test]
fn the_messages_quote_the_error() {
    assert_eq!(
        malformed_message("missing field `Entities`", "entity_structure_debug_1.json"),
        "Failed to parse entity data: missing field `Entities`. Structure saved to file entity_structure_debug_1.json"
    );
    assert_eq!(
        undecodable_message("eof: unexpectedly ran out of input"),
        "Complete failure in parsing entity data: eof: unexpectedly ran out of input"
    );
}

#[test]
fn a_halt_on_an_undecodable_chunk_has_no_dump_file() {
    assert_eq!(
        undecodable_halt(4, "no root".to_string()),
        Halt {
            chunk: 4,
            failure: ChunkFailure::Undecodable { reason: "no root".to_string() },
            message: "Complete failure in parsing entity data: no root".to_string(),
            dump_file: None,
        }
    );
    assert_eq!(
        halt_on(4, ChunkFailure::Undecodable { reason: "no root".to_string() }),
        undecodable_halt(4, "no root".to_string())
    );
}

#[test]
fn a_halt_on_a_malformed_chunk_names_the_dump_file() {
    let error = SchemaError { entity: Some(2), field: Field::Pos, fault: Fault::Missing };
    assert_eq!(
        malformed_halt(9, error, "Compound({})".to_string(), "20240102_030405"),
        Halt {
            chunk: 9,
            failure: ChunkFailure::Malformed { error, dump: "Compound({})".to_string() },
            message: "Failed to parse entity data: missing field `Pos` at entity 2. Structure saved to file entity_structure_debug_20240102_030405.json"
                .to_string(),
            dump_file: Some("entity_structure_debug_20240102_030405.json".to_string()),
        }
    );
}

#[test]
fn a_halt_on_a_malformed_chunk_is_stamped_with_the_time() {
    let error = SchemaError { entity: None, field: Field::Entities, fault: Fault::Missing };
    let halt = halt_on(0, ChunkFailure::Malformed { error, dump: "tree".to_string() });
    let name = halt.dump_file.clone().unwrap();
    assert!(is_stamped_dump_name(&name), "{}", name);
    assert_eq!(halt.chunk, 0);
    assert_eq!(halt.failure, ChunkFailure::Malformed { error, dump: "tree".to_string() });
    assert_eq!(
        halt.message,
        format!("Failed to parse entity data: missing field `Entities`. Structure saved to file {}", name)
    );
}

#[test]
fn the_records_of_a_tree_are_those_of_its_item_drops() {
    let tree = Tag::Compound(vec![(
        "Entities".to_string(),
        Tag::List(vec![Tag::Compound(vec![
            ("id".to_string(), Tag::Text("minecraft:item".to_string())),
            (
                "Pos".to_string(),
                Tag::List(vec![
                    Tag::Double(1.0f64.to_bits()),
                    Tag::Double(2.0f64.to_bits()),
                    Tag::Double(3.0f64.to_bits()),
                ]),
            ),
            (
                "Item".to_string(),
                Tag::Compound(vec![
                    ("id".to_string(), Tag::Text("minecraft:egg".to_string())),
                    ("count".to_string(), Tag::Byte(16)),
                ]),
            ),
            ("Age".to_string(), Tag::Short(17)),
        ])]),
    )]);
    assert_eq!(
        items_in_tree(&tree, "r.mca"),
        Ok(vec![record("minecraft:egg", (1.0, 2.0, 3.0), 16, "r.mca")])
    );
    assert_eq!(
        items_in_tree(&Tag::Compound(vec![]), "r.mca"),
        Err(SchemaError { entity: None, field: Field::Entities, fault: Fault::Missing })
    );
}

#[test]
fn a_chunk_is_decoded_and_its_item_drops_selected() {
    let payload = chunk(vec![
        cow((1.0, 2.0, 3.0)),
        item_entity((100.5, 64.0, -32.25), "minecraft:diamond", Value::Int(3)),
        item_entity((-0.5, 300.0, 8.125), "minecraft:egg", Value::Byte(-16)),
    ]);
    assert_eq!(
        scan_chunk(&payload, "r.0.0.mca"),
        Ok(vec![
            record("minecraft:diamond", (100.5, 64.0, -32.25), 3, "r.0.0.mca"),
            record("minecraft:egg", (-0.5, 300.0, 8.125), -16, "r.0.0.mca"),
        ])
    );
}

#[test]
fn a_chunk_without_entities_of_interest_gives_no_records() {
    assert_eq!(scan_chunk(&chunk(vec![]), "r.mca"), Ok(vec![]));
    assert_eq!(scan_chunk(&chunk(vec![cow((1.0, 2.0, 3.0)), cow((4.0, 5.0, 6.0))]), "r.mca"), Ok(vec![]));
}

#[test]
fn bytes_that_hold_no_tree_are_undecodable() {
    for payload in [&b""[..], &b"\x0a"[..], &b"not a tree"[..], &[0x1f, 0x8b, 8, 0][..]] {
        match scan_chunk(payload, "r.mca") {
            Err(ChunkFailure::Undecodable { reason }) => assert!(!reason.is_empty()),
            other => panic!("{:?}", other),
        }
    }
}

#[test]
fn a_truncated_chunk_is_undecodable() {
    let mut payload = chunk(vec![item_entity((1.0, 2.0, 3.0), "minecraft:egg", Value::Int(1))]);
    payload.truncate(payload.len() - 5);
    assert!(matches!(scan_chunk(&payload, "r.mca"), Err(ChunkFailure::Undecodable { .. })));
}

#[test]
fn a_tree_without_entities_is_malformed_and_dumped() {
    match scan_chunk(&chunk_without_entities(), "r.mca") {
        Err(ChunkFailure::Malformed { error, dump }) => {
            assert_eq!(
                error,
                SchemaError { entity: None, field: Field::Entities, fault: Fault::Missing }
            );
            assert!(dump.contains("DataVersion"));
            assert!(dump.contains("3700"));
            assert!(dump.contains('\n'));
        }
        other => panic!("{:?}", other),
    }
}

#[test]
fn a_count_out_of_range_makes_the_chunk_malformed() {
    let payload = chunk(vec![
        cow((0.0, 0.0, 0.0)),
        item_entity((1.0, 2.0, 3.0), "minecraft:egg", Value::Int(128)),
    ]);
    match scan_chunk(&payload, "r.mca") {
        Err(ChunkFailure::Malformed { error, .. }) => assert_eq!(
            error,
            SchemaError { entity: Some(1), field: Field::ItemCount, fault: Fault::OutOfRange }
        ),
        other => panic!("{:?}", other),
    }
}

#[test]
fn one_item_drop_in_one_archive_gives_one_report_line() {
    let bytes = archive(vec![(
        0,
        0,
        chunk(vec![item_entity((100.5, 64.0, -32.25), "minecraft:diamond", Value::Int(3))]),
    )]);
    let scan = find_dropped_items_in_entity_file("r.0.0.mca", bytes);
    let FileScan::Items(items) = scan else { panic!("{:?}", scan) };
    let report = aggregate(&vec![items], &None);
    assert_eq!(report, vec![record("minecraft:diamond", (100.5, 64.0, -32.25), 3, "r.0.0.mca")]);
    assert_eq!(
        report_line(&report[0]),
        "Entity file: r.0.0.mca, Item: minecraft:diamond, Count: 3, Position: (100.5, 64.0, -32.2)"
    );
}

#[test]
fn an_archive_without_item_drops_gives_no_records() {
    let bytes = archive(vec![
        (0, 0, chunk(vec![cow((1.0, 2.0, 3.0))])),
        (1, 0, chunk(vec![])),
        (7, 9, chunk(vec![cow((4.0, 5.0, 6.0)), cow((7.0, 8.0, 9.0))])),
    ]);
    assert_eq!(find_dropped_items_in_entity_file("r.mca", bytes), FileScan::Items(vec![]));
    assert_eq!(
        find_dropped_items_in_entity_file("r.mca", archive(vec![])),
        FileScan::Items(vec![])
    );
}

#[test]
fn the_records_of_an_archive_follow_the_order_of_its_slots() {
    let bytes = archive(vec![
        (2, 1, chunk(vec![item_entity((3.0, 0.0, 0.0), "minecraft:c", Value::Int(3))])),
        (
            0,
            0,
            chunk(vec![
                item_entity((1.0, 0.0, 0.0), "minecraft:a", Value::Int(1)),
                cow((0.0, 0.0, 0.0)),
                item_entity((2.0, 0.0, 0.0), "minecraft:b", Value::Int(2)),
            ]),
        ),
        (31, 31, chunk(vec![item_entity((4.0, 0.0, 0.0), "minecraft:d", Value::Int(4))])),
    ]);
    assert_eq!(
        find_dropped_items_in_entity_file("r.3.4.mca", bytes),
        FileScan::Items(vec![
            record("minecraft:a", (1.0, 0.0, 0.0), 1, "r.3.4.mca"),
            record("minecraft:b", (2.0, 0.0, 0.0), 2, "r.3.4.mca"),
            record("minecraft:c", (3.0, 0.0, 0.0), 3, "r.3.4.mca"),
            record("minecraft:d", (4.0, 0.0, 0.0), 4, "r.3.4.mca"),
        ])
    );
}

#[test]
fn a_chunk_without_entities_halts_the_scan_with_a_dump() {
    let bytes = archive(vec![
        (0, 0, chunk(vec![item_entity((1.0, 0.0, 0.0), "minecraft:a", Value::Int(1))])),
        (1, 0, chunk_without_entities()),
        (2, 0, b"not a tree".to_vec()),
    ]);
    let scan = find_dropped_items_in_entity_file("r.0.0.mca", bytes);
    let FileScan::Halted(halt) = scan else { panic!("{:?}", scan) };
    assert_eq!(halt.chunk, 1);
    let ChunkFailure::Malformed { error, dump } = &halt.failure else { panic!("{:?}", halt.failure) };
    assert_eq!(*error, SchemaError { entity: None, field: Field::Entities, fault: Fault::Missing });
    assert!(dump.contains("DataVersion"));
    let name = halt.dump_file.clone().unwrap();
    assert!(is_stamped_dump_name(&name), "{}", name);
    assert_eq!(
        halt.message,
        format!("Failed to parse entity data: missing field `Entities`. Structure saved to file {}", name)
    );
}

#[test]
fn an_undecodable_chunk_halts_the_scan_without_a_dump() {
    let bytes = archive(vec![
        (0, 0, chunk(vec![])),
        (5, 5, b"not a tree".to_vec()),
        (6, 5, chunk_without_entities()),
    ]);
    let scan = find_dropped_items_in_entity_file("r.0.0.mca", bytes);
    let FileScan::Halted(halt) = scan else { panic!("{:?}", scan) };
    assert_eq!(halt.chunk, 1);
    let ChunkFailure::Undecodable { reason } = &halt.failure else { panic!("{:?}", halt.failure) };
    assert_eq!(halt.dump_file, None);
    assert_eq!(halt.message, format!("Complete failure in parsing entity data: {}", reason));
}

#[test]
fn payloads_are_scanned_up_to_the_first_that_fails() {
    let good = chunk(vec![item_entity((1.0, 0.0, 0.0), "minecraft:a", Value::Int(1))]);
    assert_eq!(
        scan_payloads(&vec![good.clone(), good.clone()], "r.mca"),
        FileScan::Items(vec![
            record("minecraft:a", (1.0, 0.0, 0.0), 1, "r.mca"),
            record("minecraft:a", (1.0, 0.0, 0.0), 1, "r.mca"),
        ])
    );
    assert_eq!(scan_payloads(&vec![], "r.mca"), FileScan::Items(vec![]));
    let scan = scan_payloads(&vec![good.clone(), good, vec![1, 2, 3], chunk_without_entities()], "r.mca");
    let FileScan::Halted(halt) = scan else { panic!("{:?}", scan) };
    assert_eq!(halt.chunk, 2);
    assert!(matches!(halt.failure, ChunkFailure::Undecodable { .. }));
}

#[test]
fn a_file_that_is_no_archive_is_skipped_and_the_others_still_count() {
    let good = archive(vec![(
        4,
        4,
        chunk(vec![item_entity((1.0, 2.0, 3.0), "minecraft:shulker_shell", Value::Int(2))]),
    )]);
    let files = vec![
        ("r.0.0.mca", Vec::new()),
        ("r.0.1.mca", good),
        ("r.0.2.mca", b"neither an archive nor long".to_vec()),
        ("notes.txt", b"ignored".to_vec()),
    ];
    let mut per_file = Vec::new();
    let mut skipped = Vec::new();
    for (name, bytes) in files {
        if !is_archive_name(name) {
            continue;
        }
        match find_dropped_items_in_entity_file(name, bytes) {
            FileScan::Items(items) => per_file.push(items),
            FileScan::Skipped { reason } => {
                assert!(!reason.is_empty());
                skipped.push(name);
            }
            FileScan::Halted(halt) => panic!("{:?}", halt),
        }
    }
    assert_eq!(skipped, vec!["r.0.0.mca", "r.0.2.mca"]);
    let filters = Some(normalize_filters(&vec!["shulker_shell".to_string()]));
    assert_eq!(
        aggregate(&per_file, &filters),
        vec![record("minecraft:shulker_shell", (1.0, 2.0, 3.0), 2, "r.0.1.mca")]
    );
    assert_eq!(aggregate(&per_file, &Some(vec!["minecraft:diamond".to_string()])), vec![]);
}

#[test]
fn a_file_adds_its_records_or_nothing_or_ends_the_run() {
    let items = vec![record("minecraft:a", (1.0, 0.0, 0.0), 1, "r.mca")];
    assert_eq!(
        FileScan::Items(vec![record("minecraft:a", (1.0, 0.0, 0.0), 1, "r.mca")]).contribution(),
        Ok(items)
    );
    assert_eq!(FileScan::Skipped { reason: "too short".to_string() }.contribution(), Ok(vec![]));
    assert_eq!(
        FileScan::Halted(undecodable_halt(3, "no root".to_string())).contribution(),
        Err(undecodable_halt(3, "no root".to_string()))
    );
}

#[test]
fn integers_of_every_width_come_through_the_decoder() {
    let entity = |count: Value, age: Value| {
        compound(vec![
            ("id", text("minecraft:item")),
            ("Pos", pos(1.0, 2.0, 3.0)),
            ("Item", compound(vec![("id", text("minecraft:egg")), ("count", count)])),
            ("Age", age),
        ])
    };
    let payload = chunk(vec![
        entity(Value::Byte(-128), Value::Byte(-1)),
        entity(Value::Short(127), Value::Short(-32768)),
        entity(Value::Int(-5), Value::Int(32767)),
        entity(Value::Long(6), Value::Long(0)),
    ]);
    let items = scan_chunk(&payload, "r.mca").unwrap();
    let seen: Vec<(i32, Option<i16>)> = items.iter().map(|i| (i.count, i.age)).collect();
    assert_eq!(
        seen,
        vec![(-128, Some(-1)), (127, Some(-32768)), (-5, Some(32767)), (6, Some(0))]
    );
}

#[test]
fn a_position_of_single_precision_floats_makes_the_chunk_malformed() {
    let payload = chunk(vec![compound(vec![
        ("id", text("minecraft:item")),
        ("Pos", Value::List(vec![Value::Float(1.0), Value::Float(2.0), Value::Float(3.0)])),
    ])]);
    match scan_chunk(&payload, "r.mca") {
        Err(ChunkFailure::Malformed { error, .. }) => assert_eq!(
            error,
            SchemaError { entity: Some(0), field: Field::Pos, fault: Fault::WrongKind }
        ),
        other => panic!("{:?}", other),
    }
}

#[test]
fn an_item_block_with_a_count_under_another_name_makes_the_chunk_malformed() {
    let payload = chunk(vec![compound(vec![
        ("id", text("minecraft:item")),
        ("Pos", pos(1.0, 2.0, 3.0)),
        ("Item", compound(vec![("id", text("minecraft:egg")), ("Count", Value::Byte(1))])),
    ])]);
    match scan_chunk(&payload, "r.mca") {
        Err(ChunkFailure::Malformed { error, .. }) => assert_eq!(
            error,
            SchemaError { entity: Some(0), field: Field::ItemCount, fault: Fault::Missing }
        ),
        other => panic!("{:?}", other),
    }
}

#[test]
fn the_exact_bits_of_a_coordinate_are_kept() {
    let odd = [f64::MIN_POSITIVE, -0.0, 1.0e308, 0.1 + 0.2];
    for value in odd {
        let payload = chunk(vec![item_entity((value, value, value), "minecraft:egg", Value::Int(1))]);
        let items = scan_chunk(&payload, "r.mca").unwrap();
        assert_eq!(items[0].position, (value.to_bits(), value.to_bits(), value.to_bits()));
    }
}
