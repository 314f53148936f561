use osmdb_extract::geometry::{Coord, GeometryKind, GeometryValue};
use osmdb_extract::lua::{
    build_row, check_column_types, combine_outcomes, convert_value, layer_from_text, lua_to_json, object_outcome,
    CallbackReport, JsonProblem, JsonValue, LayerRegistry, ObjectOutcome, RowError, ScriptValue,
    ValueProblem, WorkerError, MAX_JSON_DEPTH,
};
use osmdb_extract::schema::{
    ColumnDef, ColumnType, LayerDef, OutputRow, OutputValue, SchemaError, SourceKind,
};

fn integer(value: i64) -> ScriptValue {
    ScriptValue::Integer { value, as_double: (value as f64).to_bits() }
}

fn number(value: f64) -> ScriptValue {
    let whole = if value.is_finite()
        && value.fract() == 0.0
        && value >= i64::MIN as f64
        && value <= i64::MAX as f64
    {
        Some(value as i64)
    } else {
        None
    };
    ScriptValue::Number { bits: value.to_bits(), finite: value.is_finite(), whole }
}

fn text(value: &str) -> ScriptValue {
    ScriptValue::Text(value.to_string())
}

fn column(name: &str, column_type: ColumnType, required: bool) -> ColumnDef {
    ColumnDef { name: name.to_string(), column_type, required }
}

fn pois() -> LayerDef {
    LayerDef {
        name: "pois".to_string(),
        source: SourceKind::Node,
        columns: vec![
            column("name", ColumnType::String, true),
            column("population", ColumnType::Int64, false),
            column("geom", ColumnType::Point, false),
        ],
    }
}

#[test]
fn json_scalars_convert() {
    assert!(matches!(lua_to_json(&ScriptValue::Nil, 0), Ok(JsonValue::Null)));
    assert!(matches!(lua_to_json(&ScriptValue::Boolean(true), 0), Ok(JsonValue::Bool(true))));
    assert!(matches!(lua_to_json(&integer(-7), 0), Ok(JsonValue::Integer(-7))));
    let half = lua_to_json(&number(0.5), 0).unwrap();
    assert!(matches!(half, JsonValue::Float(bits) if bits == 0.5f64.to_bits()));
    assert!(matches!(lua_to_json(&text("café"), 0), Ok(JsonValue::Text(t)) if t == "café"));
    assert_eq!(lua_to_json(&number(f64::NAN), 0).unwrap_err(), JsonProblem::Unsupported);
    assert_eq!(lua_to_json(&number(f64::INFINITY), 0).unwrap_err(), JsonProblem::Unsupported);
    assert_eq!(lua_to_json(&ScriptValue::InvalidText, 0).unwrap_err(), JsonProblem::InvalidText);
    assert_eq!(lua_to_json(&ScriptValue::Other, 0).unwrap_err(), JsonProblem::Unsupported);
    let point = ScriptValue::Geometry(GeometryValue::Point(Coord { lon: 1, lat: 2 }));
    assert_eq!(lua_to_json(&point, 0).unwrap_err(), JsonProblem::Unsupported);
}

#[test]
fn json_arrays_follow_key_order() {
    let table = ScriptValue::Table(vec![(integer(2), text("b")), (integer(1), text("a")), (integer(3), integer(3))]);
    match lua_to_json(&table, 0).unwrap() {
        JsonValue::Array(items) => {
            assert_eq!(items.len(), 3);
            assert!(matches!(&items[0], JsonValue::Text(t) if t == "a"));
            assert!(matches!(&items[1], JsonValue::Text(t) if t == "b"));
            assert!(matches!(&items[2], JsonValue::Integer(3)));
        }
        other => panic!("expected an array, got {other:?}"),
    }

    let gap = ScriptValue::Table(vec![(integer(1), text("a")), (integer(3), text("c"))]);
    assert_eq!(lua_to_json(&gap, 0).unwrap_err(), JsonProblem::ArrayKeys);
    let zero = ScriptValue::Table(vec![(integer(0), text("a"))]);
    assert_eq!(lua_to_json(&zero, 0).unwrap_err(), JsonProblem::ArrayKeys);
}

#[test]
fn json_objects_need_string_keys() {
    let table = ScriptValue::Table(vec![(text("amenity"), text("cafe")), (text("level"), integer(2))]);
    match lua_to_json(&table, 0).unwrap() {
        JsonValue::Object(fields) => {
            assert_eq!(fields.len(), 2);
            assert_eq!(fields[0].0, "amenity");
            assert!(matches!(&fields[0].1, JsonValue::Text(t) if t == "cafe"));
            assert_eq!(fields[1].0, "level");
            assert!(matches!(&fields[1].1, JsonValue::Integer(2)));
        }
        other => panic!("expected an object, got {other:?}"),
    }

    let empty = ScriptValue::Table(Vec::new());
    assert!(matches!(lua_to_json(&empty, 0), Ok(JsonValue::Object(f)) if f.is_empty()));

    let mixed = ScriptValue::Table(vec![(integer(1), text("a")), (text("b"), text("c"))]);
    assert_eq!(lua_to_json(&mixed, 0).unwrap_err(), JsonProblem::ObjectKeys);
    let boolean_key = ScriptValue::Table(vec![(ScriptValue::Boolean(true), text("c"))]);
    assert_eq!(lua_to_json(&boolean_key, 0).unwrap_err(), JsonProblem::ObjectKeys);
}

fn nested(levels: usize) -> ScriptValue {
    let mut value = integer(1);
    for _ in 0..levels {
        value = ScriptValue::Table(vec![(integer(1), value)]);
    }
    value
}

#[test]
fn json_depth_is_limited() {
    assert_eq!(MAX_JSON_DEPTH, 64);
    assert!(lua_to_json(&nested(64), 0).is_ok());
    assert_eq!(lua_to_json(&nested(65), 0).unwrap_err(), JsonProblem::TooDeep);
    assert_eq!(lua_to_json(&integer(1), 65).unwrap_err(), JsonProblem::TooDeep);
    assert!(lua_to_json(&integer(1), 64).is_ok());
}

#[test]
fn values_convert_per_column_type() {
    assert!(matches!(convert_value(text("x"), ColumnType::String), Ok(OutputValue::String(s)) if s == "x"));
    assert_eq!(
        convert_value(integer(1), ColumnType::String).unwrap_err(),
        ValueProblem::ExpectedString
    );
    assert_eq!(
        convert_value(ScriptValue::InvalidText, ColumnType::String).unwrap_err(),
        ValueProblem::InvalidText
    );

    assert!(matches!(convert_value(integer(42), ColumnType::Int64), Ok(OutputValue::Int64(42))));
    assert!(matches!(convert_value(number(3.0), ColumnType::Int64), Ok(OutputValue::Int64(3))));
    assert_eq!(
        convert_value(number(3.5), ColumnType::Int64).unwrap_err(),
        ValueProblem::ExpectedInt64
    );
    assert_eq!(
        convert_value(text("3"), ColumnType::Int64).unwrap_err(),
        ValueProblem::ExpectedInt64
    );

    let double = convert_value(integer(2), ColumnType::Double).unwrap();
    assert!(matches!(double, OutputValue::Double(bits) if f64::from_bits(bits) == 2.0));
    let double = convert_value(number(2.25), ColumnType::Double).unwrap();
    assert!(matches!(double, OutputValue::Double(bits) if f64::from_bits(bits) == 2.25));
    assert_eq!(
        convert_value(number(f64::INFINITY), ColumnType::Double).unwrap_err(),
        ValueProblem::ExpectedFiniteNumber
    );

    assert!(matches!(
        convert_value(ScriptValue::Boolean(false), ColumnType::Boolean),
        Ok(OutputValue::Boolean(false))
    ));
    assert_eq!(
        convert_value(integer(0), ColumnType::Boolean).unwrap_err(),
        ValueProblem::ExpectedBoolean
    );

    let json = convert_value(ScriptValue::Table(vec![(text("a"), integer(1))]), ColumnType::Json);
    assert!(matches!(json, Ok(OutputValue::Json(JsonValue::Object(_)))));
    assert_eq!(
        convert_value(ScriptValue::Other, ColumnType::Json).unwrap_err(),
        ValueProblem::Json(JsonProblem::Unsupported)
    );
}

#[test]
fn geometry_values_must_match_the_column() {
    let point = GeometryValue::Point(Coord { lon: 5, lat: 6 });
    assert!(matches!(
        convert_value(ScriptValue::Geometry(point), ColumnType::Point),
        Ok(OutputValue::Geometry(GeometryValue::Point(Coord { lon: 5, lat: 6 })))
    ));
    let line = GeometryValue::LineString(vec![Coord { lon: 0, lat: 0 }, Coord { lon: 1, lat: 0 }]);
    let problem = convert_value(ScriptValue::Geometry(line), ColumnType::MultiPoint).unwrap_err();
    assert_eq!(problem, ValueProblem::GeometryMismatch(GeometryKind::LineString));
    assert_eq!(
        problem.message(ColumnType::MultiPoint),
        "expected multipoint geometry, got linestring"
    );
    let problem = convert_value(text("x"), ColumnType::Point).unwrap_err();
    assert_eq!(problem, ValueProblem::ExpectedGeometry);
    assert_eq!(problem.message(ColumnType::Point), "expected point geometry");
}

#[test]
fn rows_are_built_column_by_column() {
    let layer = pois();
    let keys = vec![text("name"), text("geom")];
    let values = vec![
        text("Café"),
        ScriptValue::Nil,
        ScriptValue::Geometry(GeometryValue::Point(Coord { lon: 1, lat: 2 })),
    ];
    let row = build_row(3, &layer, Some(SourceKind::Node), &keys, values).unwrap();
    assert_eq!(row.layer_index, 3);
    assert_eq!(row.values.len(), 3);
    assert!(matches!(&row.values[0], OutputValue::String(s) if s == "Café"));
    assert!(matches!(row.values[1], OutputValue::Null));
    assert!(matches!(row.values[2], OutputValue::Geometry(GeometryValue::Point(_))));
}

#[test]
fn rows_report_each_refusal() {
    let layer = pois();
    let ok_values = || vec![text("x"), ScriptValue::Nil, ScriptValue::Nil];

    let wrong = build_row(0, &layer, Some(SourceKind::Way), &vec![], ok_values()).unwrap_err();
    assert!(matches!(wrong, RowError::WrongSource { current: Some(SourceKind::Way) }));
    assert_eq!(
        wrong.message(&layer, 17),
        "layer 'pois' accepts node objects but insert was called while processing way 17"
    );
    let none = build_row(0, &layer, None, &vec![], ok_values()).unwrap_err();
    assert_eq!(
        none.message(&layer, 17),
        "layer 'pois' accepts node objects but insert was called while processing no 17"
    );

    let unknown = build_row(0, &layer, Some(SourceKind::Node), &vec![text("name"), text("height")], ok_values())
        .unwrap_err();
    assert!(matches!(&unknown, RowError::UnknownColumn { key } if key == "height"));
    assert_eq!(unknown.message(&layer, 5), "unknown column 'height' for layer 'pois' (object 5)");

    let non_string = build_row(0, &layer, Some(SourceKind::Node), &vec![integer(1)], ok_values()).unwrap_err();
    assert!(matches!(non_string, RowError::NonStringKey));
    assert_eq!(non_string.message(&layer, -2), "layer 'pois' row keys must be strings (object -2)");

    let invalid_key =
        build_row(0, &layer, Some(SourceKind::Node), &vec![ScriptValue::InvalidText], ok_values()).unwrap_err();
    assert!(matches!(invalid_key, RowError::InvalidKeyText));

    let missing = build_row(
        0,
        &layer,
        Some(SourceKind::Node),
        &vec![],
        vec![ScriptValue::Nil, ScriptValue::Nil, ScriptValue::Nil],
    )
    .unwrap_err();
    assert!(matches!(missing, RowError::MissingRequired { column: 0 }));
    assert_eq!(missing.message(&layer, 9), "required column 'pois.name' is missing for node 9");

    let invalid = build_row(
        0,
        &layer,
        Some(SourceKind::Node),
        &vec![text("population")],
        vec![text("x"), number(1.5), ScriptValue::Nil],
    )
    .unwrap_err();
    assert!(matches!(
        invalid,
        RowError::InvalidValue { column: 1, problem: ValueProblem::ExpectedInt64 }
    ));
    assert_eq!(
        invalid.message(&layer, 9),
        "invalid value for column 'pois.population' while processing node 9: expected int64"
    );
}

#[test]
fn key_faults_come_before_value_faults() {
    let layer = pois();
    let error = build_row(
        0,
        &layer,
        Some(SourceKind::Node),
        &vec![text("nope")],
        vec![ScriptValue::Nil, ScriptValue::Nil, ScriptValue::Nil],
    )
    .unwrap_err();
    assert!(matches!(error, RowError::UnknownColumn { .. }));
}

fn row(layer_index: usize) -> OutputRow {
    OutputRow { layer_index, values: vec![OutputValue::Int64(layer_index as i64)] }
}

fn report() -> CallbackReport {
    CallbackReport { fatal_error: None, geometry_failure: None, callback_error: None, rows: vec![row(0)] }
}

#[test]
fn object_outcome_priorities() {
    let rows = object_outcome(SourceKind::Node, 1, report()).unwrap();
    assert!(matches!(rows, ObjectOutcome::Rows(r) if r.len() == 1));

    let mut r = report();
    r.callback_error = Some("boom".to_string());
    let error = object_outcome(SourceKind::Way, 8, r).unwrap_err();
    assert!(matches!(&error, WorkerError::Callback { source: SourceKind::Way, id: 8, message } if message == "boom"));
    assert_eq!(error.message(), "Lua process_way failed for way 8: boom");

    let mut r = report();
    r.callback_error = Some("boom".to_string());
    r.geometry_failure = Some("way 8 has fewer than two nodes".to_string());
    let skipped = object_outcome(SourceKind::Way, 8, r).unwrap();
    assert!(matches!(skipped, ObjectOutcome::GeometrySkipped(m) if m == "way 8 has fewer than two nodes"));

    let mut r = report();
    r.geometry_failure = Some("skip".to_string());
    r.fatal_error = Some("bad row".to_string());
    let fatal = object_outcome(SourceKind::Node, 1, r).unwrap_err();
    assert!(matches!(&fatal, WorkerError::Fatal(m) if m == "bad row"));
    assert_eq!(fatal.message(), "bad row");
}

#[test]
fn geometry_failure_in_one_script_discards_all_rows_for_the_object() {
    let outcomes = vec![
        Ok(ObjectOutcome::Rows(vec![row(0)])),
        Ok(ObjectOutcome::GeometrySkipped("relation 30 contains no way geometry".to_string())),
        Ok(ObjectOutcome::Rows(vec![row(2)])),
    ];
    let combined = combine_outcomes(outcomes).unwrap();
    assert!(matches!(combined, ObjectOutcome::GeometrySkipped(m) if m == "relation 30 contains no way geometry"));
}

#[test]
fn combined_outcomes_concatenate_rows_in_script_order() {
    let outcomes = vec![
        Ok(ObjectOutcome::Rows(vec![row(0), row(1)])),
        Ok(ObjectOutcome::Rows(vec![])),
        Ok(ObjectOutcome::Rows(vec![row(2)])),
    ];
    match combine_outcomes(outcomes).unwrap() {
        ObjectOutcome::Rows(rows) => {
            let indexes: Vec<usize> = rows.iter().map(|r| r.layer_index).collect();
            assert_eq!(indexes, vec![0, 1, 2]);
        }
        other => panic!("expected rows, got {other:?}"),
    }
    assert!(matches!(combine_outcomes(Vec::new()), Ok(ObjectOutcome::Rows(r)) if r.is_empty()));

    let outcomes = vec![
        Ok(ObjectOutcome::GeometrySkipped("skip".to_string())),
        Err(WorkerError::Fatal("first".to_string())),
        Err(WorkerError::Fatal("second".to_string())),
    ];
    assert!(matches!(combine_outcomes(outcomes), Err(WorkerError::Fatal(m)) if m == "first"));
}

#[test]
fn layers_are_read_from_script_text() {
    let layer = layer_from_text(
        "roads".to_string(),
        "way",
        vec![
            ("name".to_string(), "string".to_string(), true),
            ("geom".to_string(), "linestring".to_string(), false),
        ],
    )
    .unwrap();
    assert_eq!(layer.name, "roads");
    assert_eq!(layer.source, SourceKind::Way);
    assert_eq!(layer.columns.len(), 2);
    assert_eq!(layer.columns[0], ColumnDef { name: "name".to_string(), column_type: ColumnType::String, required: true });
    assert_eq!(layer.columns[1].column_type, ColumnType::LineString);

    let bad_type = layer_from_text(
        "roads".to_string(),
        "area",
        vec![("geom".to_string(), "polygon".to_string(), false)],
    )
    .unwrap_err();
    assert!(matches!(&bad_type, SchemaError::UnknownColumnType(t) if t == "polygon"));

    let bad_source = layer_from_text(
        "roads".to_string(),
        "area",
        vec![("geom".to_string(), "linestring".to_string(), false)],
    )
    .unwrap_err();
    assert!(matches!(&bad_source, SchemaError::UnknownSource(t) if t == "area"));
}

fn shared(source: SourceKind) -> LayerDef {
    LayerDef {
        name: "shared".to_string(),
        source,
        columns: vec![column("id", ColumnType::Int64, false)],
    }
}

#[test]
fn rejects_duplicate_layers_across_scripts() {
    let mut registry = LayerRegistry::new();
    assert_eq!(registry.define(shared(SourceKind::Node), "first.lua").unwrap(), 0);
    let error = registry.define(shared(SourceKind::Way), "second.lua").unwrap_err();
    let message = error.message();
    assert!(message.contains("duplicate layer name 'shared'"), "{message}");
    assert!(message.contains("first.lua"), "{message}");
    assert!(message.contains("second.lua"), "{message}");
    assert_eq!(registry.layers().len(), 1);
}

#[test]
fn registry_indexes_layers_in_definition_order() {
    let mut registry = LayerRegistry::new();
    let pois = pois();
    assert_eq!(registry.define(pois.clone(), "a.lua").unwrap(), 0);
    assert_eq!(registry.define(shared(SourceKind::Way), "b.lua").unwrap(), 1);
    let invalid = LayerDef { name: "fid".to_string(), source: SourceKind::Node, columns: vec![] };
    assert!(matches!(registry.define(invalid, "b.lua"), Err(SchemaError::ReservedName { .. })));
    let layers = registry.into_layers();
    assert_eq!(layers.len(), 2);
    assert_eq!(layers[0], pois);
    assert_eq!(layers[1].name, "shared");
}

#[test]
fn wikidata_json_survives_a_trip_through_a_script() {
    let entity = ScriptValue::Table(vec![
        (text("id"), text("Q42")),
        (
            text("aliases"),
            ScriptValue::Table(vec![(text("en"), ScriptValue::Array(Vec::new()))]),
        ),
        (text("claims"), ScriptValue::Table(Vec::new())),
        (text("sizes"), ScriptValue::Array(vec![integer(5), number(200.5), ScriptValue::JsonNull])),
        (text("lastrevid"), ScriptValue::JsonNull),
    ]);
    match lua_to_json(&entity, 0).unwrap() {
        JsonValue::Object(fields) => {
            assert_eq!(fields.len(), 5);
            assert!(matches!(&fields[1].1, JsonValue::Object(inner)
                if inner.len() == 1 && matches!(&inner[0].1, JsonValue::Array(items) if items.is_empty())));
            assert!(matches!(&fields[2].1, JsonValue::Object(inner) if inner.is_empty()));
            match &fields[3].1 {
                JsonValue::Array(items) => {
                    assert!(matches!(items[0], JsonValue::Integer(5)));
                    assert!(matches!(items[1], JsonValue::Float(bits) if f64::from_bits(bits) == 200.5));
                    assert!(matches!(items[2], JsonValue::Null));
                }
                other => panic!("expected an array, got {other:?}"),
            }
            assert!(matches!(fields[4].1, JsonValue::Null));
        }
        other => panic!("expected an object, got {other:?}"),
    }
    let deep = ScriptValue::Array(vec![nested(64)]);
    assert_eq!(lua_to_json(&deep, 0).unwrap_err(), JsonProblem::TooDeep);
}

#[test]
fn column_types_are_checked_in_order() {
    let columns = vec![
        ("a".to_string(), "string".to_string(), false),
        ("b".to_string(), "polygon".to_string(), false),
        ("c".to_string(), "raster".to_string(), false),
    ];
    let error = check_column_types(&columns).unwrap_err();
    assert!(matches!(&error, SchemaError::UnknownColumnType(t) if t == "polygon"));
    assert!(check_column_types(&columns[..1].to_vec()).is_ok());
    assert!(check_column_types(&Vec::new()).is_ok());
}

#[test]
fn a_script_repeating_its_own_layer_is_refused_by_name() {
    let mut registry = LayerRegistry::new();
    assert_eq!(registry.define(shared(SourceKind::Node), "a.lua").unwrap(), 0);
    let error = registry.define(shared(SourceKind::Way), "a.lua").unwrap_err();
    assert!(matches!(&error, SchemaError::DuplicateLayer { layer } if layer == "shared"));
    assert_eq!(error.message(), "duplicate layer name 'shared'");
    let error = registry.define(shared(SourceKind::Way), "b.lua").unwrap_err();
    assert!(matches!(&error, SchemaError::DuplicateLayerDefinition { first_script, .. } if first_script == "a.lua"));
}
