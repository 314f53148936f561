use std::collections::HashMap;
use std::path::Path;
use std::sync::Arc;

use osmdb::database::BatchData;
use osmdb::{
    Database, DatabaseConfig, DatabaseWriter, Location, LocationStoreWriter, Member, MemberType,
    Relation, Way,
};
use osmdb_extract::geometry::{
    geometry_name, line_from_locations, way_is_closed, Coord, Fetched, GeometryError,
    GeometryKind, GeometryResolver, GeometryValue, MemberKind, RelationGeometryKind,
    RelationGraph, RelationMember, MAX_NODE_ID,
};
use tempfile::TempDir;

fn member(kind: MemberKind, id: i64) -> RelationMember {
    RelationMember { kind, id }
}

fn c(lon: i32, lat: i32) -> Coord {
    Coord { lon, lat }
}

#[test]
fn lines_need_two_located_nodes() {
    let one = line_from_locations(7, &vec![1], &vec![Some(c(0, 0))]).unwrap_err();
    assert_eq!(one, GeometryError::TooFewNodes { way_id: 7 });
    assert_eq!(one.message(), "way 7 has fewer than two nodes");

    let missing = line_from_locations(7, &vec![1, 2, 3], &vec![Some(c(0, 0)), None, None]).unwrap_err();
    assert_eq!(missing, GeometryError::MissingLocation { node_id: 2 });
    assert_eq!(missing.message(), "location for node 2 is missing");

    let line = line_from_locations(7, &vec![1, 2], &vec![Some(c(1, 2)), Some(c(3, 4))]).unwrap();
    assert_eq!(line, vec![c(1, 2), c(3, 4)]);
}

fn graph() -> RelationGraph {
    RelationGraph {
        relations: vec![
            (
                20,
                Fetched::Found(vec![
                    member(MemberKind::Node, 1),
                    member(MemberKind::Way, 10),
                    member(MemberKind::Relation, 21),
                ]),
            ),
            (21, Fetched::Found(vec![member(MemberKind::Node, 2), member(MemberKind::Way, 11)])),
        ],
        ways: vec![(10, Fetched::Found(vec![1, 2])), (11, Fetched::Found(vec![3, 4]))],
        nodes: vec![
            (1, Some(c(20, 10))),
            (2, Some(c(30, 20))),
            (3, Some(c(40, 30))),
            (4, Some(c(50, 40))),
        ],
    }
}

fn route_members() -> Vec<RelationMember> {
    vec![member(MemberKind::Node, 1), member(MemberKind::Way, 10), member(MemberKind::Relation, 21)]
}

#[test]
fn relation_pieces_come_in_member_order() {
    let g = graph();
    match g.resolve(20, &route_members(), RelationGeometryKind::MultiPoint).unwrap() {
        GeometryValue::MultiPoint(points) => assert_eq!(points, vec![c(20, 10), c(30, 20)]),
        other => panic!("unexpected {other:?}"),
    }
    match g.resolve(20, &route_members(), RelationGeometryKind::MultiLineString).unwrap() {
        GeometryValue::MultiLineString(lines) => {
            assert_eq!(lines, vec![vec![c(20, 10), c(30, 20)], vec![c(40, 30), c(50, 40)]])
        }
        other => panic!("unexpected {other:?}"),
    }
    match g.resolve(20, &route_members(), RelationGeometryKind::GeometryCollection).unwrap() {
        GeometryValue::GeometryCollection(parts) => {
            let kinds: Vec<GeometryKind> = parts.iter().map(|p| p.kind()).collect();
            assert_eq!(
                kinds,
                vec![
                    GeometryKind::Point,
                    GeometryKind::LineString,
                    GeometryKind::Point,
                    GeometryKind::LineString
                ]
            );
        }
        other => panic!("unexpected {other:?}"),
    }
}

#[test]
fn relation_failures_are_reported() {
    let missing_way = RelationGraph {
        relations: vec![(30, Fetched::Found(vec![member(MemberKind::Way, 999)]))],
        ways: vec![(999, Fetched::Missing)],
        nodes: vec![],
    };
    let error = missing_way
        .resolve(30, &vec![member(MemberKind::Way, 999)], RelationGeometryKind::MultiLineString)
        .unwrap_err();
    assert_eq!(error, GeometryError::MissingWay { way_id: 999, relation_id: 30 });
    assert_eq!(error.message(), "way member 999 of relation 30 is missing");

    let no_points = missing_way
        .resolve(30, &vec![member(MemberKind::Way, 999)], RelationGeometryKind::MultiPoint)
        .unwrap_err();
    assert_eq!(no_points, GeometryError::NoNodeGeometry { relation_id: 30 });
    assert_eq!(no_points.message(), "relation 30 contains no node geometry");

    let cycle = RelationGraph {
        relations: vec![
            (40, Fetched::Found(vec![member(MemberKind::Relation, 41)])),
            (41, Fetched::Found(vec![member(MemberKind::Relation, 40)])),
        ],
        ways: vec![],
        nodes: vec![],
    };
    let error = cycle
        .resolve(40, &vec![member(MemberKind::Relation, 41)], RelationGeometryKind::GeometryCollection)
        .unwrap_err();
    assert_eq!(error, GeometryError::Cycle { member_id: 40, relation_id: 41 });
    assert_eq!(
        error.message(),
        "cycle detected at nested relation 40 while resolving relation 41"
    );

    let missing_node = RelationGraph {
        relations: vec![(50, Fetched::Found(vec![member(MemberKind::Node, 5)]))],
        ways: vec![],
        nodes: vec![(5, None)],
    };
    let error = missing_node
        .resolve(50, &vec![member(MemberKind::Node, 5)], RelationGeometryKind::MultiPoint)
        .unwrap_err();
    assert_eq!(error, GeometryError::NodeMemberLocation { node_id: 5, relation_id: 50 });
    assert_eq!(error.message(), "while resolving node member 5 of relation 50");

    let missing_relation = RelationGraph {
        relations: vec![
            (60, Fetched::Found(vec![member(MemberKind::Relation, 61)])),
            (61, Fetched::Missing),
        ],
        ways: vec![],
        nodes: vec![],
    };
    let error = missing_relation
        .resolve(60, &vec![member(MemberKind::Relation, 61)], RelationGeometryKind::MultiPoint)
        .unwrap_err();
    assert_eq!(error, GeometryError::MissingRelation { member_id: 61, relation_id: 60 });
}

#[test]
fn self_member_is_a_cycle() {
    let own = RelationGraph {
        relations: vec![(70, Fetched::Found(vec![member(MemberKind::Relation, 70)]))],
        ways: vec![],
        nodes: vec![],
    };
    let error = own
        .resolve(70, &vec![member(MemberKind::Relation, 70)], RelationGeometryKind::MultiPoint)
        .unwrap_err();
    assert_eq!(error, GeometryError::Cycle { member_id: 70, relation_id: 70 });
}

#[test]
fn geometry_names_and_closed_ways() {
    assert_eq!(geometry_name(GeometryKind::Point), "point");
    assert_eq!(geometry_name(GeometryKind::GeometryCollection), "geometrycollection");
    assert_eq!(MemberKind::Way.as_str(), "way");
    assert!(way_is_closed(&vec![1, 2, 3, 1]));
    assert!(!way_is_closed(&vec![1, 2, 3]));
    assert!(!way_is_closed(&vec![1]));
    assert!(!way_is_closed(&Vec::new()));
}

fn relation(members: &[(MemberType, i64)]) -> Relation {
    Relation {
        members: members
            .iter()
            .map(|(member_type, id)| Member { member_type: *member_type, id: *id, role: String::new() })
            .collect(),
        tags: HashMap::new(),
        version: 1,
    }
}

fn store(root: &Path) -> (Arc<Database>, String) {
    let sqlite = root.join("data.sqlite");
    {
        let database = Arc::new(Database::open(&DatabaseConfig::for_bulk_load(&sqlite)).unwrap());
        let writer = DatabaseWriter::new(Arc::clone(&database));
        writer
            .write_batch(BatchData::Ways(vec![
                (10, Way { node_ids: vec![1, 2], tags: HashMap::new(), version: 1 }),
                (11, Way { node_ids: vec![3, 4], tags: HashMap::new(), version: 1 }),
            ]))
            .unwrap();
        writer
            .write_batch(BatchData::Relations(vec![
                (20, relation(&[(MemberType::Node, 1), (MemberType::Way, 10), (MemberType::Relation, 21)])),
                (21, relation(&[(MemberType::Node, 2), (MemberType::Way, 11)])),
                (30, relation(&[(MemberType::Way, 999)])),
                (40, relation(&[(MemberType::Relation, 41)])),
                (41, relation(&[(MemberType::Relation, 40)])),
            ]))
            .unwrap();
    }
    let locations_path = root.join("locations.bin");
    let mut locations = LocationStoreWriter::create(&locations_path).unwrap();
    locations
        .write_batch(&[
            (1, Location::from_degrees(1.0, 2.0, 1)),
            (2, Location::from_degrees(2.0, 3.0, 1)),
            (3, Location::from_degrees(3.0, 4.0, 1)),
            (4, Location::from_degrees(4.0, 5.0, 1)),
        ])
        .unwrap();
    locations.finish().unwrap();
    let database = Arc::new(Database::open_read_only(&DatabaseConfig::for_reading(&sqlite)).unwrap());
    (database, locations_path.to_str().unwrap().to_string())
}

fn members_of(ids: &[(MemberKind, i64)]) -> Vec<RelationMember> {
    ids.iter().map(|(kind, id)| member(*kind, *id)).collect()
}

#[test]
fn resolver_reads_the_store() {
    let temp = TempDir::new().unwrap();
    let (database, locations) = store(temp.path());
    let resolver = GeometryResolver::new(database, &locations).unwrap();

    assert_eq!(resolver.point(1).unwrap(), c(20_000_000, 10_000_000));
    assert_eq!(resolver.point(0).unwrap_err(), GeometryError::MissingLocation { node_id: 0 });
    assert_eq!(resolver.point(99).unwrap_err(), GeometryError::MissingLocation { node_id: 99 });
    assert_eq!(
        resolver.point(MAX_NODE_ID + 1).unwrap_err(),
        GeometryError::MissingLocation { node_id: MAX_NODE_ID + 1 }
    );

    assert_eq!(
        resolver.way_geometry(10, &vec![1, 2]).unwrap(),
        vec![c(20_000_000, 10_000_000), c(30_000_000, 20_000_000)]
    );
    assert_eq!(
        resolver.way_geometry(12, &vec![1, 5]).unwrap_err(),
        GeometryError::MissingLocation { node_id: 5 }
    );

    let route = members_of(&[(MemberKind::Node, 1), (MemberKind::Way, 10), (MemberKind::Relation, 21)]);
    match resolver.relation_geometry(20, &route, RelationGeometryKind::GeometryCollection).unwrap() {
        GeometryValue::GeometryCollection(parts) => {
            assert_eq!(parts.len(), 4);
            assert!(matches!(&parts[0], GeometryValue::Point(p) if *p == c(20_000_000, 10_000_000)));
            assert!(matches!(&parts[3], GeometryValue::LineString(l) if l.len() == 2));
        }
        other => panic!("unexpected {other:?}"),
    }
    match resolver.relation_geometry(20, &route, RelationGeometryKind::MultiPoint).unwrap() {
        GeometryValue::MultiPoint(points) => {
            assert_eq!(points, vec![c(20_000_000, 10_000_000), c(30_000_000, 20_000_000)])
        }
        other => panic!("unexpected {other:?}"),
    }

    let broken = members_of(&[(MemberKind::Way, 999)]);
    assert_eq!(
        resolver
            .relation_geometry(30, &broken, RelationGeometryKind::MultiLineString)
            .unwrap_err(),
        GeometryError::MissingWay { way_id: 999, relation_id: 30 }
    );

    let looped = members_of(&[(MemberKind::Relation, 41)]);
    assert_eq!(
        resolver
            .relation_geometry(40, &looped, RelationGeometryKind::GeometryCollection)
            .unwrap_err(),
        GeometryError::Cycle { member_id: 40, relation_id: 41 }
    );
}

#[test]
fn resolver_reports_a_missing_location_store() {
    let temp = TempDir::new().unwrap();
    let (database, _) = store(temp.path());
    let missing = temp.path().join("nowhere.bin");
    let error = GeometryResolver::new(database, missing.to_str().unwrap()).err().unwrap();
    assert!(matches!(&error, GeometryError::LocationStoreUnavailable { path, .. } if path == missing.to_str().unwrap()));
    assert!(error.message().starts_with("failed to open location store '"));
}
