use manifest::fixed::Fx;
use manifest::header::{Header, Rgb};
use manifest::project::Project;
use manifest::shape::{Move, Shape, ShapeType};
use manifest::wire::{DecodeError, Entry, Value};

fn entry(key: &str, value: Value) -> Entry {
    Entry { key: key.to_owned(), value }
}

fn obj(entries: Vec<Entry>) -> Value {
    Value::Obj(entries)
}

fn header_obj(bpm: i64, bg_color: i64) -> Vec<Entry> {
    vec![
        entry("name", Value::Str("Test".to_owned())),
        entry("genre", Value::Str("Unknown".to_owned())),
        entry("level_author", Value::Str("Anonymous".to_owned())),
        entry("song_author", Value::Str("Anonymous".to_owned())),
        entry("background_effect", Value::Str("none".to_owned())),
        entry("bpm", Value::Int(bpm)),
        entry("bg_color", Value::Int(bg_color)),
    ]
}

#[test]
fn header_as_json() {
    let header = Header {
        name: "Test".to_owned(),
        genre: "Maybe".to_owned(),
        ..Default::default()
    };

    assert_eq!(header.as_json().pretty(4), "{\n    \"name\": \"Test\",\n    \"genre\": \"Maybe\",\n    \"level_author\": \"Anonymous\",\n    \"song_author\": \"Anonymous\",\n    \"background_effect\": \"none\",\n    \"bpm\": 120,\n    \"offset\": 32,\n    \"time_signature_top\": 4,\n    \"time_signature_bottom\": 4,\n    \"bg_color\": 15,\n    \"color_table\": [\n        \"#FFFFFF\",\n        \"#0000FF\",\n        \"#00FF00\",\n        \"#00FFFF\",\n        \"#FF0000\",\n        \"#FF00FF\",\n        \"#FF6600\",\n        \"#AAAAAA\",\n        \"#666666\",\n        \"#6666FF\",\n        \"#66FF66\",\n        \"#66FFFF\",\n        \"#FF6666\",\n        \"#FF66FF\",\n        \"#FFFF22\",\n        \"#000000\"\n    ]\n}");
}

#[test]
fn default_header_encodes_exactly() {
    let text = Header::default().as_json().dump();
    assert_eq!(
        text,
        "{\"name\":\"Untitled\",\"genre\":\"Unknown\",\"level_author\":\"Anonymous\",\"song_author\":\"Anonymous\",\"background_effect\":\"none\",\"bpm\":120,\"offset\":32,\"time_signature_top\":4,\"time_signature_bottom\":4,\"bg_color\":15,\"color_table\":[\"#FFFFFF\",\"#0000FF\",\"#00FF00\",\"#00FFFF\",\"#FF0000\",\"#FF00FF\",\"#FF6600\",\"#AAAAAA\",\"#666666\",\"#6666FF\",\"#66FF66\",\"#66FFFF\",\"#FF6666\",\"#FF66FF\",\"#FFFF22\",\"#000000\"]}"
    );
}

#[test]
fn circle_encodes_exactly() {
    let shape = Shape {
        pos: manifest::fixed::Vec2 { x: Fx::from_int(4), y: Fx::from_int(3) },
        size: Fx::from_int(1),
        ty: ShapeType::Circle,
        color: 2,
        moves: None,
        auto_shapes: vec![],
    };
    assert_eq!(
        shape.as_json().dump(),
        "{\"shape\":0,\"color\":2,\"x\":4.0,\"y\":3.0,\"scale\":2.0}"
    );
}

#[test]
fn square_decodes_with_zero_size() {
    let v = obj(vec![
        entry("shape", Value::Int(1)),
        entry("color", Value::Int(0)),
        entry("x", Value::Int(0)),
        entry("y", Value::Int(0)),
        entry("scale", Value::Fix(Fx { units: 1000 })),
    ]);
    let s = Shape::from_json(&v).unwrap();
    assert_eq!(s.ty, ShapeType::Square);
    assert_eq!(s.size, Fx { units: 0 });
    assert_eq!(s.pos.x, Fx { units: 0 });
    assert_eq!(s.pos.y, Fx { units: 0 });
    assert!(s.moves.is_none());
    assert!(s.auto_shapes.is_empty());
}

#[test]
fn bad_shape_kind_fails_decode() {
    let v = obj(vec![
        entry("shape", Value::Int(9)),
        entry("color", Value::Int(0)),
        entry("x", Value::Int(0)),
        entry("y", Value::Int(0)),
        entry("scale", Value::Fix(Fx { units: 1000 })),
    ]);
    assert_eq!(Shape::from_json(&v).unwrap_err(), DecodeError::InvalidShapeKind);
}

#[test]
fn shape_color_out_of_range_fails_decode() {
    let v = obj(vec![
        entry("shape", Value::Int(0)),
        entry("color", Value::Int(16)),
        entry("x", Value::Int(0)),
        entry("y", Value::Int(0)),
        entry("scale", Value::Fix(Fx { units: 1000 })),
    ]);
    assert_eq!(Shape::from_json(&v).unwrap_err(), DecodeError::InvalidColorIndex);
}

#[test]
fn missing_coordinate_fails_decode() {
    let v = obj(vec![
        entry("shape", Value::Int(0)),
        entry("color", Value::Int(0)),
        entry("y", Value::Int(0)),
        entry("scale", Value::Fix(Fx { units: 1000 })),
    ]);
    assert_eq!(Shape::from_json(&v).unwrap_err(), DecodeError::MalformedJson);
}

#[test]
fn scale_round_trip_offset_by_one() {
    let v = obj(vec![
        entry("shape", Value::Int(0)),
        entry("color", Value::Int(0)),
        entry("x", Value::Int(0)),
        entry("y", Value::Int(0)),
        entry("scale", Value::Fix(Fx { units: 2500 })),
    ]);
    let s = Shape::from_json(&v).unwrap();
    assert_eq!(s.size, Fx { units: 1500 });

    let z = Shape {
        size: Fx { units: 0 },
        ..Default::default()
    };
    let text = z.as_json().dump();
    assert!(text.contains("\"scale\":1.0"));
}

#[test]
fn shape_round_trip_without_moves() {
    let nested = Shape {
        pos: manifest::fixed::Vec2 { x: Fx::from_int(1), y: Fx::from_int(2) },
        size: Fx { units: 500 },
        ty: ShapeType::Triangle,
        color: 7,
        moves: None,
        auto_shapes: vec![],
    };
    let shape = Shape {
        pos: manifest::fixed::Vec2 { x: Fx::from_int(4), y: Fx::from_int(3) },
        size: Fx::from_int(2),
        ty: ShapeType::Square,
        color: 3,
        moves: None,
        auto_shapes: vec![nested],
    };
    let decoded = Shape::from_json(&shape.as_json()).unwrap();
    assert_eq!(decoded, shape);
}

#[test]
fn document_round_trip_resets_moves() {
    let mover = Shape {
        moves: Some(vec![Move::Up, Move::Expand]),
        color: 5,
        ..Default::default()
    };
    let still = Shape {
        ty: ShapeType::Triangle,
        color: 9,
        ..Default::default()
    };
    let project = Project {
        header: Header {
            name: "Roundtrip".to_owned(),
            bpm: 93,
            offset: 11,
            bg_color: 3,
            ..Default::default()
        },
        shapes: vec![mover, still],
    };
    let decoded = Project::from_json(&project.as_json()).unwrap();
    assert_eq!(decoded.header, project.header);
    assert_eq!(decoded.shapes.len(), 2);
    assert_eq!(decoded.shapes[0].moves, None);
    let mut expected_first = Shape { color: 5, ..Default::default() };
    expected_first.moves = None;
    assert_eq!(decoded.shapes[0], expected_first);
    assert_eq!(decoded.shapes[1], project.shapes[1]);
}

#[test]
fn header_decode_defaults_missing_fields() {
    let v = obj(header_obj(150, 2));
    let h = Header::from_json(&v).unwrap();
    assert_eq!(h.name, "Test");
    assert_eq!(h.bpm, 150);
    assert_eq!(h.bg_color, 2);
    assert_eq!(h.offset, 32);
    assert_eq!(h.time_signature_top, 4);
    assert_eq!(h.time_signature_bottom, 4);
    assert!(!h.manual_offset);
    assert_eq!(h.color_table, Header::default().color_table);
}

#[test]
fn header_zero_bpm_fails_decode() {
    let v = obj(header_obj(0, 2));
    assert_eq!(Header::from_json(&v).unwrap_err(), DecodeError::InvalidBpm);
}

#[test]
fn header_bg_color_out_of_range_fails_decode() {
    let v = obj(header_obj(120, 16));
    assert_eq!(Header::from_json(&v).unwrap_err(), DecodeError::InvalidColorIndex);
}

#[test]
fn header_zero_offset_fails_decode() {
    let mut entries = header_obj(120, 2);
    entries.push(entry("offset", Value::Int(0)));
    assert_eq!(Header::from_json(&obj(entries)).unwrap_err(), DecodeError::InvalidOffset);
}

#[test]
fn header_zero_time_signature_fails_decode() {
    let mut entries = header_obj(120, 2);
    entries.push(entry("time_signature_top", Value::Int(0)));
    assert_eq!(
        Header::from_json(&obj(entries)).unwrap_err(),
        DecodeError::InvalidTimeSignature
    );
}

#[test]
fn header_missing_name_fails_decode() {
    let mut entries = header_obj(120, 2);
    entries.remove(0);
    assert_eq!(Header::from_json(&obj(entries)).unwrap_err(), DecodeError::MalformedJson);
}

#[test]
fn header_reads_optional_fields_when_present() {
    let mut entries = header_obj(120, 2);
    entries.push(entry("offset", Value::Int(48)));
    entries.push(entry("time_signature_top", Value::Int(3)));
    entries.push(entry("time_signature_bottom", Value::Int(8)));
    let h = Header::from_json(&obj(entries)).unwrap();
    assert_eq!(h.offset, 48);
    assert_eq!(h.time_signature_top, 3);
    assert_eq!(h.time_signature_bottom, 8);
}

#[test]
fn header_color_table_round_trips() {
    let mut header = Header::default();
    header.color_table[4] = Rgb { r: 0x12, g: 0xAB, b: 0x09 };
    let decoded = Header::from_json(&header.as_json()).unwrap();
    assert_eq!(decoded.color_table, header.color_table);
}

#[test]
fn non_array_document_fails_decode() {
    assert_eq!(
        Project::from_json(&Value::Int(3)).unwrap_err(),
        DecodeError::MalformedJson
    );
    assert_eq!(
        Project::from_json(&Value::Arr(vec![])).unwrap_err(),
        DecodeError::MalformedJson
    );
}

#[test]
fn bad_shape_aborts_whole_document() {
    let bad_shape = obj(vec![
        entry("shape", Value::Int(9)),
        entry("color", Value::Int(0)),
        entry("x", Value::Int(0)),
        entry("y", Value::Int(0)),
        entry("scale", Value::Fix(Fx { units: 1000 })),
    ]);
    let doc = Value::Arr(vec![obj(header_obj(120, 2)), bad_shape]);
    assert_eq!(Project::from_json(&doc).unwrap_err(), DecodeError::InvalidShapeKind);
}

#[test]
fn dump_number_forms() {
    assert_eq!(Value::Int(-42).dump(), "-42");
    assert_eq!(Value::Int(0).dump(), "0");
    assert_eq!(Value::Fix(Fx { units: -500 }).dump(), "-0.5");
    assert_eq!(Value::Fix(Fx { units: 1 }).dump(), "0.001");
    assert_eq!(Value::Fix(Fx { units: 10 }).dump(), "0.01");
    assert_eq!(Value::Fix(Fx { units: 4250 }).dump(), "4.25");
    assert_eq!(Value::Fix(Fx { units: 0 }).dump(), "0.0");
}

#[test]
fn dump_escapes_strings() {
    let v = Value::Str("a\"b\\c\nd\u{1}".to_owned());
    assert_eq!(v.dump(), "\"a\\\"b\\\\c\\nd\\u0001\"");
}

#[test]
fn dump_output_is_valid_json() {
    let project = Project {
        header: Header::default(),
        shapes: vec![Shape::default()],
    };
    let text = project.as_json().dump();
    let reparsed = json::parse(&text).expect("the writer must emit well-formed JSON");
    assert_eq!(reparsed[0]["bpm"].as_u16(), Some(120));
    assert_eq!(reparsed[1]["scale"].as_f32(), Some(1.0));
}

#[test]
fn default_shape_fields() {
    let s = Shape::default();
    assert_eq!(s.pos.x, Fx { units: 7000 });
    assert_eq!(s.pos.y, Fx { units: 7000 });
    assert_eq!(s.size, Fx { units: 0 });
    assert_eq!(s.ty, ShapeType::Circle);
    assert_eq!(s.color, 0);
    assert!(s.moves.is_none());
    assert!(s.auto_shapes.is_empty());
}

#[test]
fn default_project_is_empty() {
    let p = Project::default();
    assert_eq!(p.header, Header::default());
    assert!(p.shapes.is_empty());
}
