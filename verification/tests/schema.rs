use osmdb_extract::geometry::{Coord, GeometryValue};
use osmdb_extract::schema::{
    validate_identifier, validate_schema, ColumnDef, ColumnType, LayerDef, NameKind, SchemaError,
    SourceKind,
};

fn column(name: &str, column_type: ColumnType) -> ColumnDef {
    ColumnDef { name: name.to_string(), column_type, required: false }
}

fn layer(name: &str, source: SourceKind, columns: Vec<ColumnDef>) -> LayerDef {
    LayerDef { name: name.to_string(), source, columns }
}

#[test]
fn source_names_parse_and_print() {
    for (text, kind) in [
        ("node", SourceKind::Node),
        ("way", SourceKind::Way),
        ("relation", SourceKind::Relation),
    ] {
        assert_eq!(SourceKind::parse(text).unwrap(), kind);
        assert_eq!(kind.as_str(), text);
    }
    let error = SourceKind::parse("area").unwrap_err();
    assert!(matches!(&error, SchemaError::UnknownSource(t) if t == "area"));
    assert_eq!(
        error.message(),
        "unknown layer source 'area' (expected node, way, or relation)"
    );
    assert!(SourceKind::parse("Node").is_err());
}

#[test]
fn column_type_names_parse_and_print() {
    let all = [
        ("string", ColumnType::String),
        ("int64", ColumnType::Int64),
        ("double", ColumnType::Double),
        ("boolean", ColumnType::Boolean),
        ("json", ColumnType::Json),
        ("point", ColumnType::Point),
        ("linestring", ColumnType::LineString),
        ("multipoint", ColumnType::MultiPoint),
        ("multilinestring", ColumnType::MultiLineString),
        ("geometrycollection", ColumnType::GeometryCollection),
    ];
    for (text, kind) in all {
        assert_eq!(ColumnType::parse(text).unwrap(), kind);
        assert_eq!(kind.as_str(), text);
    }
    let error = ColumnType::parse("polygon").unwrap_err();
    assert_eq!(error.message(), "unknown column type 'polygon'");
}

#[test]
fn geometry_column_types() {
    assert!(!ColumnType::String.is_geometry());
    assert!(!ColumnType::Json.is_geometry());
    assert!(ColumnType::Point.is_geometry());
    assert!(ColumnType::GeometryCollection.is_geometry());
    let point = GeometryValue::Point(Coord { lon: 10, lat: 20 });
    let line = GeometryValue::LineString(vec![Coord { lon: 0, lat: 0 }, Coord { lon: 1, lat: 1 }]);
    assert!(ColumnType::Point.accepts(&point));
    assert!(!ColumnType::Point.accepts(&line));
    assert!(ColumnType::LineString.accepts(&line));
    assert!(!ColumnType::MultiPoint.accepts(&point));
    assert!(!ColumnType::String.accepts(&point));
}

#[test]
fn identifiers_are_checked() {
    assert!(validate_identifier(NameKind::Layer, "roads").is_ok());
    assert!(validate_identifier(NameKind::Column, "_id2").is_ok());

    let empty = validate_identifier(NameKind::Layer, "").unwrap_err();
    assert_eq!(empty.message(), "layer name must not be empty");

    let digit = validate_identifier(NameKind::Column, "1st").unwrap_err();
    assert_eq!(
        digit.message(),
        "invalid column name '1st'; use ASCII letters, digits, and underscores and do not start with a digit"
    );
    assert!(validate_identifier(NameKind::Column, "a-b").is_err());
    assert!(validate_identifier(NameKind::Column, "café").is_err());

    let reserved = validate_identifier(NameKind::Column, "fid").unwrap_err();
    assert_eq!(
        reserved.message(),
        "column name 'fid' is reserved by the GeoPackage backend"
    );
    assert!(validate_identifier(NameKind::Column, "FID").is_ok());
}

#[test]
fn layer_validation_reports_each_fault() {
    let good = layer(
        "pois",
        SourceKind::Node,
        vec![column("name", ColumnType::String), column("geom", ColumnType::Point)],
    );
    assert!(good.validate().is_ok());

    let no_columns = layer("empty", SourceKind::Node, vec![]);
    assert_eq!(
        no_columns.validate().unwrap_err().message(),
        "layer 'empty' must define at least one column"
    );

    let duplicate = layer(
        "pois",
        SourceKind::Node,
        vec![column("name", ColumnType::String), column("name", ColumnType::Int64)],
    );
    assert_eq!(
        duplicate.validate().unwrap_err().message(),
        "layer 'pois' has duplicate column 'name'"
    );

    let wrong_geometry = layer("roads", SourceKind::Way, vec![column("geom", ColumnType::Point)]);
    let error = wrong_geometry.validate().unwrap_err();
    assert!(matches!(
        error,
        SchemaError::GeometryNotValidForSource {
            column_type: ColumnType::Point,
            source: SourceKind::Way,
            ..
        }
    ));
    assert_eq!(error.message(), "geometry type 'point' is not valid for way layer 'roads'");

    let two_geometries = layer(
        "areas",
        SourceKind::Relation,
        vec![column("a", ColumnType::MultiPoint), column("b", ColumnType::GeometryCollection)],
    );
    assert_eq!(
        two_geometries.validate().unwrap_err().message(),
        "layer 'areas' may define at most one geometry column"
    );

    let bad_name = layer("9lives", SourceKind::Node, vec![column("a", ColumnType::String)]);
    assert!(matches!(
        bad_name.validate().unwrap_err(),
        SchemaError::InvalidName { kind: NameKind::Layer, .. }
    ));
}

#[test]
fn relation_layers_accept_each_relation_geometry() {
    for column_type in [
        ColumnType::MultiPoint,
        ColumnType::MultiLineString,
        ColumnType::GeometryCollection,
    ] {
        let relations = layer("relations", SourceKind::Relation, vec![column("g", column_type)]);
        assert!(relations.validate().is_ok());
    }
    let lines = layer("relations", SourceKind::Relation, vec![column("g", ColumnType::LineString)]);
    assert!(lines.validate().is_err());
}

#[test]
fn first_geometry_column_is_found() {
    let roads = layer(
        "roads",
        SourceKind::Way,
        vec![column("name", ColumnType::String), column("geom", ColumnType::LineString)],
    );
    let (index, found) = roads.geometry_column().unwrap();
    assert_eq!(index, 1);
    assert_eq!(found.name, "geom");

    let attributes = layer("attributes", SourceKind::Node, vec![column("name", ColumnType::String)]);
    assert!(attributes.geometry_column().is_none());
}

#[test]
fn schemas_need_layers_with_unique_names() {
    let empty: Vec<LayerDef> = Vec::new();
    assert_eq!(
        validate_schema(&empty).unwrap_err().message(),
        "Lua script did not define any output layers"
    );

    let a = layer("pois", SourceKind::Node, vec![column("name", ColumnType::String)]);
    let b = layer("roads", SourceKind::Way, vec![column("name", ColumnType::String)]);
    assert!(validate_schema(&[a.clone(), b.clone()]).is_ok());

    let again = layer("pois", SourceKind::Way, vec![column("id", ColumnType::Int64)]);
    let error = validate_schema(&[a.clone(), b, again]).unwrap_err();
    assert_eq!(error.message(), "duplicate layer name 'pois'");

    let invalid = layer("bad", SourceKind::Node, vec![]);
    assert!(matches!(
        validate_schema(&[a, invalid]).unwrap_err(),
        SchemaError::NoColumns { .. }
    ));
}
