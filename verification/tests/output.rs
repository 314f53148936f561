use osmdb_extract::lua::JsonValue;
use osmdb_extract::geometry::{Coord, GeometryValue};
use osmdb_extract::output::{
    arrow_column, boolean_cells, create_table_statement, double_cells, geometry_extent, json_cells,
    gpkg_geometry_type, insert_statement, int64_cells, quote_identifier, string_cells,
    to_gpkg_geometry, ArrowKind, Extent, OutputError, RowBatcher, BATCH_SIZE,
};
use osmdb_extract::schema::{ColumnDef, ColumnType, LayerDef, OutputRow, OutputValue, SourceKind};

fn row(layer_index: usize, value: i64) -> OutputRow {
    OutputRow { layer_index, values: vec![OutputValue::Int64(value)] }
}

fn roads() -> LayerDef {
    LayerDef {
        name: "roads".to_string(),
        source: SourceKind::Way,
        columns: vec![
            ColumnDef { name: "name".to_string(), column_type: ColumnType::String, required: true },
            ColumnDef { name: "lanes".to_string(), column_type: ColumnType::Int64, required: false },
            ColumnDef { name: "geom".to_string(), column_type: ColumnType::LineString, required: false },
        ],
    }
}

#[test]
fn batcher_hands_back_full_batches() {
    assert_eq!(BATCH_SIZE, 2048);
    let mut batcher = RowBatcher::new(2);
    for i in 0..(BATCH_SIZE - 1) {
        assert!(batcher.push_row(row(1, i as i64)).unwrap().is_none());
    }
    assert!(batcher.push_row(row(0, -1)).unwrap().is_none());
    let (index, batch) = batcher.push_row(row(1, 9999)).unwrap().unwrap();
    assert_eq!(index, 1);
    assert_eq!(batch.len(), BATCH_SIZE);
    assert!(matches!(batch[0].values[0], OutputValue::Int64(0)));
    assert!(matches!(batch[BATCH_SIZE - 1].values[0], OutputValue::Int64(9999)));

    let rest = batcher.drain();
    assert_eq!(rest.len(), 1);
    assert_eq!(rest[0].0, 0);
    assert_eq!(rest[0].1.len(), 1);
    assert!(batcher.drain().is_empty());
}

#[test]
fn batcher_refuses_unknown_layers() {
    let mut batcher = RowBatcher::new(1);
    assert_eq!(
        batcher.push_row(row(3, 1)).unwrap_err(),
        OutputError::UnknownLayer { index: 3 }
    );
    assert!(batcher.drain().is_empty());
}

#[test]
fn drained_batches_come_in_layer_order() {
    let mut batcher = RowBatcher::new(3);
    batcher.push_row(row(2, 1)).unwrap();
    batcher.push_row(row(0, 2)).unwrap();
    batcher.push_row(row(2, 3)).unwrap();
    let batches = batcher.drain();
    let shape: Vec<(usize, usize)> = batches.iter().map(|(i, rows)| (*i, rows.len())).collect();
    assert_eq!(shape, vec![(0, 1), (2, 2)]);
    assert!(matches!(batches[1].1[1].values[0], OutputValue::Int64(3)));
}

#[test]
fn geopackage_statements() {
    assert_eq!(quote_identifier("roads"), "\"roads\"");
    assert_eq!(
        create_table_statement(&roads()),
        "CREATE TABLE \"roads\" (fid INTEGER PRIMARY KEY AUTOINCREMENT, \"name\" TEXT NOT NULL, \"lanes\" INTEGER, \"geom\" BLOB)"
    );
    assert_eq!(
        insert_statement(&roads()),
        "INSERT INTO \"roads\" (\"name\", \"lanes\", \"geom\") VALUES (?1, ?2, ?3)"
    );
    let attributes = LayerDef {
        name: "attrs".to_string(),
        source: SourceKind::Node,
        columns: vec![
            ColumnDef { name: "tags".to_string(), column_type: ColumnType::Json, required: false },
            ColumnDef { name: "height".to_string(), column_type: ColumnType::Double, required: false },
            ColumnDef { name: "open".to_string(), column_type: ColumnType::Boolean, required: true },
        ],
    };
    assert_eq!(
        create_table_statement(&attributes),
        "CREATE TABLE \"attrs\" (fid INTEGER PRIMARY KEY AUTOINCREMENT, \"tags\" TEXT, \"height\" REAL, \"open\" INTEGER NOT NULL)"
    );
}

#[test]
fn insert_statement_numbers_many_columns() {
    let columns: Vec<ColumnDef> = (0..12)
        .map(|i| ColumnDef { name: format!("c{i}"), column_type: ColumnType::Int64, required: false })
        .collect();
    let layer = LayerDef { name: "wide".to_string(), source: SourceKind::Node, columns };
    let statement = insert_statement(&layer);
    assert!(statement.ends_with("VALUES (?1, ?2, ?3, ?4, ?5, ?6, ?7, ?8, ?9, ?10, ?11, ?12)"));
}

#[test]
fn geopackage_geometry_types() {
    assert_eq!(gpkg_geometry_type(ColumnType::Point), "POINT");
    assert_eq!(gpkg_geometry_type(ColumnType::LineString), "LINESTRING");
    assert_eq!(gpkg_geometry_type(ColumnType::MultiPoint), "MULTIPOINT");
    assert_eq!(gpkg_geometry_type(ColumnType::MultiLineString), "MULTILINESTRING");
    assert_eq!(gpkg_geometry_type(ColumnType::GeometryCollection), "GEOMETRYCOLLECTION");
}

#[test]
fn geopackage_blobs_carry_the_header() {
    let wkb = vec![1u8, 1, 0, 0, 0];
    let blob = to_gpkg_geometry(&wkb);
    assert_eq!(blob, vec![0x47, 0x50, 0, 1, 0xE6, 0x10, 0, 0, 1, 1, 0, 0, 0]);
    assert_eq!(to_gpkg_geometry(&Vec::new()).len(), 8);
}

#[test]
fn extents_cover_every_position() {
    let point = GeometryValue::Point(Coord { lon: 5, lat: -3 });
    assert_eq!(
        geometry_extent(&point),
        Some(Extent { min_lon: 5, min_lat: -3, max_lon: 5, max_lat: -3 })
    );
    let collection = GeometryValue::GeometryCollection(vec![
        GeometryValue::LineString(vec![Coord { lon: 1, lat: 2 }, Coord { lon: -4, lat: 8 }]),
        GeometryValue::MultiLineString(vec![vec![Coord { lon: 10, lat: 0 }], vec![]]),
        GeometryValue::MultiPoint(vec![Coord { lon: 0, lat: -9 }]),
    ]);
    assert_eq!(
        geometry_extent(&collection),
        Some(Extent { min_lon: -4, min_lat: -9, max_lon: 10, max_lat: 8 })
    );
    assert_eq!(geometry_extent(&GeometryValue::MultiPoint(Vec::new())), None);
    assert_eq!(geometry_extent(&GeometryValue::GeometryCollection(Vec::new())), None);

    let mut extent = Extent { min_lon: 0, min_lat: 0, max_lon: 1, max_lat: 1 };
    extent.cover(Extent { min_lon: -1, min_lat: 0, max_lon: 0, max_lat: 5 });
    assert_eq!(extent, Extent { min_lon: -1, min_lat: 0, max_lon: 1, max_lat: 5 });
}

#[test]
fn arrow_columns_follow_the_column_type() {
    assert_eq!(arrow_column(ColumnType::String, true), (ArrowKind::Utf8, false));
    assert_eq!(arrow_column(ColumnType::Json, false), (ArrowKind::Utf8, true));
    assert_eq!(arrow_column(ColumnType::Int64, false), (ArrowKind::Int64, true));
    assert_eq!(arrow_column(ColumnType::Double, false), (ArrowKind::Float64, true));
    assert_eq!(arrow_column(ColumnType::Boolean, false), (ArrowKind::Boolean, true));
    assert_eq!(arrow_column(ColumnType::MultiPoint, false), (ArrowKind::Wkb, true));
}

#[test]
fn cells_are_read_per_column() {
    let rows = vec![
        OutputRow {
            layer_index: 0,
            values: vec![
                OutputValue::Int64(4),
                OutputValue::Double(1.5f64.to_bits()),
                OutputValue::Boolean(true),
                OutputValue::String("a".to_string()),
            ],
        },
        OutputRow {
            layer_index: 0,
            values: vec![OutputValue::Null, OutputValue::Null, OutputValue::Null, OutputValue::Null],
        },
    ];
    assert_eq!(int64_cells(&rows, 0), vec![Some(4), None]);
    assert_eq!(double_cells(&rows, 1), vec![Some(1.5f64.to_bits()), None]);
    assert_eq!(boolean_cells(&rows, 2), vec![Some(true), None]);
    assert_eq!(string_cells(&rows, 3), vec![Some("a".to_string()), None]);
    assert_eq!(int64_cells(&rows, 3), vec![None, None]);
}

#[test]
fn json_cells_pick_the_json_values() {
    let rows = vec![
        OutputRow { layer_index: 0, values: vec![OutputValue::Json(JsonValue::Integer(7))] },
        OutputRow { layer_index: 0, values: vec![OutputValue::Null] },
    ];
    let cells = json_cells(&rows, 0);
    assert_eq!(cells.len(), 2);
    assert!(matches!(cells[0], Some(JsonValue::Integer(7))));
    assert!(cells[1].is_none());
}
