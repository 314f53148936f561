//! Geometry values and the resolution of way and relation geometry from the
//! osmdb store.

use std::sync::Arc;

use vstd::prelude::*;

use osmdb::{Database, DatabaseReader, LocationStoreReader};

use crate::text::{push_signed_decimal, signed_decimal};

verus! {

/// The kind of a geometry value.
#[derive(Clone, Copy, Debug, PartialEq, Eq, Structural)]
pub enum GeometryKind {
    Point,
    LineString,
    MultiPoint,
    MultiLineString,
    GeometryCollection,
}

/// A position, in the store's fixed-point degrees (1e-7 degree steps):
/// `lon` is the x coordinate and `lat` the y coordinate.
#[derive(Clone, Copy, Debug, PartialEq, Eq, Structural)]
pub struct Coord {
    pub lon: i32,
    pub lat: i32,
}

/// A geometry in EPSG:4326, with fixed-point coordinates.
#[derive(Debug)]
pub enum GeometryValue {
    Point(Coord),
    LineString(Vec<Coord>),
    MultiPoint(Vec<Coord>),
    MultiLineString(Vec<Vec<Coord>>),
    GeometryCollection(Vec<GeometryValue>),
}

impl GeometryValue {
    pub open spec fn kind_spec(&self) -> GeometryKind {
        match self {
            GeometryValue::Point(_) => GeometryKind::Point,
            GeometryValue::LineString(_) => GeometryKind::LineString,
            GeometryValue::MultiPoint(_) => GeometryKind::MultiPoint,
            GeometryValue::MultiLineString(_) => GeometryKind::MultiLineString,
            GeometryValue::GeometryCollection(_) => GeometryKind::GeometryCollection,
        }
    }

    #[verifier::when_used_as_spec(kind_spec)]
    pub fn kind(&self) -> (r: GeometryKind)
        ensures
            r == self.kind_spec(),
    {
        match self {
            GeometryValue::Point(_) => GeometryKind::Point,
            GeometryValue::LineString(_) => GeometryKind::LineString,
            GeometryValue::MultiPoint(_) => GeometryKind::MultiPoint,
            GeometryValue::MultiLineString(_) => GeometryKind::MultiLineString,
            GeometryValue::GeometryCollection(_) => GeometryKind::GeometryCollection,
        }
    }
}

impl GeometryValue {
    /// A copy of this geometry.
    pub fn duplicate(&self) -> (r: GeometryValue)
        ensures
            r@ == self@,
        decreases self,
    {
        match self {
            GeometryValue::Point(c) => GeometryValue::Point(*c),
            GeometryValue::LineString(cs) => GeometryValue::LineString(copy_coords(cs)),
            GeometryValue::MultiPoint(cs) => GeometryValue::MultiPoint(copy_coords(cs)),
            GeometryValue::MultiLineString(ls) => {
                let mut out: Vec<Vec<Coord>> = Vec::new();
                let mut i: usize = 0;
                while i < ls.len()
                    invariant
                        i <= ls.len(),
                        out.len() == i,
                        forall|k: int| 0 <= k < i ==> (#[trigger] out@[k])@ == ls@[k]@,
                    decreases ls.len() - i,
                {
                    out.push(copy_coords(&ls[i]));
                    i = i + 1;
                }
                let r = GeometryValue::MultiLineString(out);
                assert(r@ == self@) by {
                    assert(Seq::new(out.len() as nat, |k: int| out@[k]@) =~= Seq::new(
                        ls.len() as nat,
                        |k: int| ls@[k]@,
                    ));
                }
                r
            },
            GeometryValue::GeometryCollection(gs) => {
                let mut out: Vec<GeometryValue> = Vec::new();
                let mut i: usize = 0;
                assert(decreases_to!(*self => *gs));
                while i < gs.len()
                    invariant
                        i <= gs.len(),
                        out.len() == i,
                        *self == GeometryValue::GeometryCollection(*gs),
                        decreases_to!(*self => *gs),
                        forall|k: int| 0 <= k < i ==> (#[trigger] out@[k])@ == gs@[k]@,
                    decreases gs.len() - i,
                {
                    assert(decreases_to!(*self => gs@[i as int]));
                    out.push(gs[i].duplicate());
                    i = i + 1;
                }
                let r = GeometryValue::GeometryCollection(out);
                assert(r@ == self@) by {
                    assert(r@->GeometryCollection_0 =~= self@->GeometryCollection_0);
                }
                r
            },
        }
    }
}

/// A geometry as the contracts see it.
pub enum GeometryModel {
    Point(Coord),
    LineString(Seq<Coord>),
    MultiPoint(Seq<Coord>),
    MultiLineString(Seq<Seq<Coord>>),
    GeometryCollection(Seq<GeometryModel>),
}

pub open spec fn geometry_model(g: &GeometryValue) -> GeometryModel
    decreases g,
{
    match g {
        GeometryValue::Point(c) => GeometryModel::Point(*c),
        GeometryValue::LineString(cs) => GeometryModel::LineString(cs@),
        GeometryValue::MultiPoint(cs) => GeometryModel::MultiPoint(cs@),
        GeometryValue::MultiLineString(ls) => GeometryModel::MultiLineString(
            Seq::new(ls.len() as nat, |i: int| ls@[i]@),
        ),
        GeometryValue::GeometryCollection(gs) => GeometryModel::GeometryCollection(
            Seq::new(
                gs.len() as nat,
                |i: int|
                    if 0 <= i < gs.len() {
                        geometry_model(&gs@[i])
                    } else {
                        GeometryModel::Point(Coord { lon: 0, lat: 0 })
                    },
            ),
        ),
    }
}

impl View for GeometryValue {
    type V = GeometryModel;

    open spec fn view(&self) -> GeometryModel {
        geometry_model(self)
    }
}

/// Which geometry a relation is asked for.
#[derive(Clone, Copy, Debug, PartialEq, Eq, Structural)]
pub enum RelationGeometryKind {
    MultiPoint,
    MultiLineString,
    GeometryCollection,
}

/// Whether node members contribute to this kind of relation geometry.
pub open spec fn takes_points(kind: RelationGeometryKind) -> bool {
    kind == RelationGeometryKind::MultiPoint || kind == RelationGeometryKind::GeometryCollection
}

/// Whether way members contribute to this kind of relation geometry.
pub open spec fn takes_lines(kind: RelationGeometryKind) -> bool {
    kind == RelationGeometryKind::MultiLineString || kind
        == RelationGeometryKind::GeometryCollection
}

/// The type of a relation member.
#[derive(Clone, Copy, Debug, PartialEq, Eq, Structural)]
pub enum MemberKind {
    Node,
    Way,
    Relation,
}

/// A relation member as geometry resolution reads it.
#[derive(Clone, Copy, Debug, PartialEq, Eq, Structural)]
pub struct RelationMember {
    pub kind: MemberKind,
    pub id: i64,
}

/// Why geometry could not be resolved.
#[derive(Clone, Debug, PartialEq, Eq)]
pub enum GeometryError {
    /// The location store could not be opened.
    LocationStoreUnavailable { path: String, message: String },
    /// A node has no stored location.
    MissingLocation { node_id: i64 },
    /// A way lists fewer than two nodes.
    TooFewNodes { way_id: i64 },
    /// A node member of a relation has no stored location.
    NodeMemberLocation { node_id: i64, relation_id: i64 },
    /// A way member of a relation is not in the store.
    MissingWay { way_id: i64, relation_id: i64 },
    /// A relation member of a relation is not in the store.
    MissingRelation { member_id: i64, relation_id: i64 },
    /// A relation member is already being resolved further up.
    Cycle { member_id: i64, relation_id: i64 },
    /// Reading the store failed.
    ReadFailed(String),
    /// A multipoint relation yielded no node.
    NoNodeGeometry { relation_id: i64 },
    /// A multilinestring relation yielded no way.
    NoWayGeometry { relation_id: i64 },
    /// A geometry collection relation yielded nothing.
    NoSupportedGeometry { relation_id: i64 },
}

/// The message that reports a geometry failure.
pub open spec fn geometry_message(e: GeometryError) -> Seq<char> {
    match e {
        GeometryError::LocationStoreUnavailable { path, message } => "failed to open location store '"@
            + path@ + "': "@ + message@,
        GeometryError::MissingLocation { node_id } => "location for node "@ + signed_decimal(
            node_id as int,
        ) + " is missing"@,
        GeometryError::TooFewNodes { way_id } => "way "@ + signed_decimal(way_id as int)
            + " has fewer than two nodes"@,
        GeometryError::NodeMemberLocation { node_id, relation_id } => "while resolving node member "@
            + signed_decimal(node_id as int) + " of relation "@ + signed_decimal(relation_id as int),
        GeometryError::MissingWay { way_id, relation_id } => "way member "@ + signed_decimal(
            way_id as int,
        ) + " of relation "@ + signed_decimal(relation_id as int) + " is missing"@,
        GeometryError::MissingRelation { member_id, relation_id } => "relation member "@
            + signed_decimal(member_id as int) + " of relation "@ + signed_decimal(
            relation_id as int,
        ) + " is missing"@,
        GeometryError::Cycle { member_id, relation_id } => "cycle detected at nested relation "@
            + signed_decimal(member_id as int) + " while resolving relation "@ + signed_decimal(
            relation_id as int,
        ),
        GeometryError::ReadFailed(message) => message@,
        GeometryError::NoNodeGeometry { relation_id } => "relation "@ + signed_decimal(
            relation_id as int,
        ) + " contains no node geometry"@,
        GeometryError::NoWayGeometry { relation_id } => "relation "@ + signed_decimal(
            relation_id as int,
        ) + " contains no way geometry"@,
        GeometryError::NoSupportedGeometry { relation_id } => "relation "@ + signed_decimal(
            relation_id as int,
        ) + " contains no supported geometry"@,
    }
}

impl GeometryError {
    /// The message that reports this failure.
    pub fn message(&self) -> (r: String)
        ensures
            r@ == geometry_message(*self),
    {
        let mut text = String::new();
        match self {
            GeometryError::LocationStoreUnavailable { path, message } => {
                text.append("failed to open location store '");
                text.append(path.as_str());
                text.append("': ");
                text.append(message.as_str());
            },
            GeometryError::MissingLocation { node_id } => {
                text.append("location for node ");
                push_signed_decimal(&mut text, *node_id);
                text.append(" is missing");
            },
            GeometryError::TooFewNodes { way_id } => {
                text.append("way ");
                push_signed_decimal(&mut text, *way_id);
                text.append(" has fewer than two nodes");
            },
            GeometryError::NodeMemberLocation { node_id, relation_id } => {
                text.append("while resolving node member ");
                push_signed_decimal(&mut text, *node_id);
                text.append(" of relation ");
                push_signed_decimal(&mut text, *relation_id);
            },
            GeometryError::MissingWay { way_id, relation_id } => {
                text.append("way member ");
                push_signed_decimal(&mut text, *way_id);
                text.append(" of relation ");
                push_signed_decimal(&mut text, *relation_id);
                text.append(" is missing");
            },
            GeometryError::MissingRelation { member_id, relation_id } => {
                text.append("relation member ");
                push_signed_decimal(&mut text, *member_id);
                text.append(" of relation ");
                push_signed_decimal(&mut text, *relation_id);
                text.append(" is missing");
            },
            GeometryError::Cycle { member_id, relation_id } => {
                text.append("cycle detected at nested relation ");
                push_signed_decimal(&mut text, *member_id);
                text.append(" while resolving relation ");
                push_signed_decimal(&mut text, *relation_id);
            },
            GeometryError::ReadFailed(message) => {
                text.append(message.as_str());
            },
            GeometryError::NoNodeGeometry { relation_id } => {
                text.append("relation ");
                push_signed_decimal(&mut text, *relation_id);
                text.append(" contains no node geometry");
            },
            GeometryError::NoWayGeometry { relation_id } => {
                text.append("relation ");
                push_signed_decimal(&mut text, *relation_id);
                text.append(" contains no way geometry");
            },
            GeometryError::NoSupportedGeometry { relation_id } => {
                text.append("relation ");
                push_signed_decimal(&mut text, *relation_id);
                text.append(" contains no supported geometry");
            },
        }
        text
    }
}

/// What a read from the store gave: the object, nothing, or a failure.
#[derive(Debug)]
pub enum Fetched<T> {
    Found(T),
    Missing,
    Failed(String),
}

/// One part of a relation's geometry, in the order it was reached.
#[derive(Debug)]
pub enum Piece {
    Point(Coord),
    Line(Vec<Coord>),
}

/// A part of a relation's geometry as the contracts see it.
pub enum PieceModel {
    Point(Coord),
    Line(Seq<Coord>),
}

impl View for Piece {
    type V = PieceModel;

    open spec fn view(&self) -> PieceModel {
        match self {
            Piece::Point(c) => PieceModel::Point(*c),
            Piece::Line(cs) => PieceModel::Line(cs@),
        }
    }
}

pub open spec fn pieces_model(pieces: Seq<Piece>) -> Seq<PieceModel> {
    pieces.map_values(|p: Piece| p@)
}

// ---------------------------------------------------------------------------
// Lines
// ---------------------------------------------------------------------------

/// The index of the first missing location among the first `n`.
pub open spec fn first_missing(locations: Seq<Option<Coord>>, n: int) -> Option<int>
    decreases n,
{
    if n <= 0 {
        None
    } else {
        match first_missing(locations, n - 1) {
            Some(k) => Some(k),
            None => if locations[n - 1] is None {
                Some(n - 1)
            } else {
                None
            },
        }
    }
}

/// The line of a way, given the location found for each of its nodes: a way
/// needs at least two nodes, and every node needs a location; the first node
/// without one is reported.
pub open spec fn line_of(way_id: i64, node_ids: Seq<i64>, locations: Seq<Option<Coord>>) -> Result<
    Seq<Coord>,
    GeometryError,
> {
    if node_ids.len() < 2 {
        Err(GeometryError::TooFewNodes { way_id })
    } else {
        match first_missing(locations, locations.len() as int) {
            Some(k) => Err(GeometryError::MissingLocation { node_id: node_ids[k] }),
            None => Ok(locations.map_values(|l: Option<Coord>| l->0)),
        }
    }
}

proof fn lemma_missing_stays(locations: Seq<Option<Coord>>, k: int, n: int)
    requires
        0 <= k <= n,
        first_missing(locations, k) is Some,
    ensures
        first_missing(locations, n) == first_missing(locations, k),
    decreases n - k,
{
    if n > k {
        lemma_missing_stays(locations, k, n - 1);
    }
}

proof fn lemma_first_missing_bounds(locations: Seq<Option<Coord>>, n: int)
    ensures
        first_missing(locations, n) matches Some(k) ==> 0 <= k < n && locations[k] is None,
        first_missing(locations, n) is None ==> forall|k: int|
            0 <= k < n ==> #[trigger] locations[k] is Some,
    decreases n,
{
    if n > 0 {
        lemma_first_missing_bounds(locations, n - 1);
    }
}

/// Builds a way's line from the locations found for its nodes
/// (`locations[i]` for `node_ids[i]`).
pub fn line_from_locations(way_id: i64, node_ids: &Vec<i64>, locations: &Vec<Option<Coord>>) -> (r:
    Result<Vec<Coord>, GeometryError>)
    requires
        node_ids.len() == locations.len(),
    ensures
        match line_of(way_id, node_ids@, locations@) {
            Ok(line) => r matches Ok(v) && v@ == line,
            Err(e) => r == Err::<Vec<Coord>, GeometryError>(e),
        },
{
    if node_ids.len() < 2 {
        return Err(GeometryError::TooFewNodes { way_id });
    }
    let n = locations.len();
    let mut line: Vec<Coord> = Vec::new();
    let mut i: usize = 0;
    while i < n
        invariant
            n == locations.len(),
            n == node_ids.len(),
            n >= 2,
            i <= n,
            first_missing(locations@, i as int) is None,
            line@ == locations@.take(i as int).map_values(|l: Option<Coord>| l->0),
        decreases n - i,
    {
        match locations[i] {
            Some(c) => {
                line.push(c);
                assert(locations@.take(i + 1).map_values(|l: Option<Coord>| l->0) =~= locations@.take(
                    i as int,
                ).map_values(|l: Option<Coord>| l->0).push(c));
            },
            None => {
                proof {
                    lemma_missing_stays(locations@, i + 1, n as int);
                }
                return Err(GeometryError::MissingLocation { node_id: node_ids[i] });
            },
        }
        i = i + 1;
    }
    assert(locations@.take(n as int) =~= locations@);
    Ok(line)
}

// ---------------------------------------------------------------------------
// Store access
// ---------------------------------------------------------------------------

#[verifier::external_type_specification]
#[verifier::external_body]
pub struct ExDatabase(Database);

#[verifier::external_type_specification]
#[verifier::external_body]
pub struct ExDatabaseReader(DatabaseReader);

#[verifier::external_type_specification]
#[verifier::external_body]
pub struct ExLocationStoreReader(LocationStoreReader);

/// Opens the location store with `osmdb::LocationStoreReader::open`; nothing
/// is claimed of the outcome, which depends on the file system.
#[verifier::external_body]
fn open_location_store(path: &str) -> (r: Result<LocationStoreReader, String>) {
    LocationStoreReader::open(path).map_err(|error| error.to_string())
}

/// A reader over the entity database, from `osmdb::DatabaseReader::new`.
#[verifier::external_body]
fn database_reader(database: Arc<Database>) -> (r: DatabaseReader) {
    DatabaseReader::new(database)
}

/// The largest node id whose record offset the location store can compute
/// in 64 bits: `LocationStoreReader::get` multiplies `id - 1` by its 12-byte
/// record size.
pub const MAX_NODE_ID: i64 = 768614336404564650;

/// The locations the store holds, by node id, in its fixed-point
/// coordinates: the store is read as a collection that does not change
/// while it is open.
pub uninterp spec fn stored_locations(store: LocationStoreReader) -> Map<i64, Coord>;

/// The node lists of the ways the entity database holds, by way id.
pub uninterp spec fn stored_ways(reader: DatabaseReader) -> Map<i64, Seq<i64>>;

/// The members of the relations the entity database holds, by relation id,
/// each as its type and id.
pub uninterp spec fn stored_relations(reader: DatabaseReader) -> Map<i64, Seq<RelationMember>>;

/// An id whose record the location store can address: at least 1, and its
/// record's end (`12 * id` bytes in) computable without overflow.
pub open spec fn stored_id(node_id: i64) -> bool {
    &&& 1 <= node_id <= MAX_NODE_ID
    &&& 12 * node_id <= usize::MAX
}

/// The location a store's contents give a node: none for an id the store
/// cannot address or does not hold.
pub open spec fn location_in(locations: Map<i64, Coord>, node_id: i64) -> Option<Coord> {
    if stored_id(node_id) && locations.dom().contains(node_id) {
        Some(locations[node_id])
    } else {
        None
    }
}

/// Looks a node's location up with `osmdb::LocationStoreReader::get`: the
/// stored record's longitude and latitude, or nothing when the store holds
/// no record for the id (past the end of the file, or a record of version
/// 0). Only ids whose record offset fits in `usize` are asked: for larger
/// ones the store's offset arithmetic overflows.
#[verifier::external_body]
fn read_location(store: &LocationStoreReader, node_id: i64) -> (r: Option<Coord>)
    requires
        stored_id(node_id),
    ensures
        r == (if stored_locations(*store).dom().contains(node_id) {
            Some(stored_locations(*store)[node_id])
        } else {
            None
        }),
{
    store.get(node_id).map(|location| Coord { lon: location.longitude, lat: location.latitude })
}

/// A node's stored location.
fn stored_location(store: &LocationStoreReader, node_id: i64) -> (r: Option<Coord>)
    ensures
        r == location_in(stored_locations(*store), node_id),
{
    if node_id < 1 || node_id > MAX_NODE_ID {
        return None;
    }
    let end: u128 = (node_id as u128) * 12;
    if end > (usize::MAX as u128) {
        return None;
    }
    read_location(store, node_id)
}

/// Reads a way's node list with `osmdb::DatabaseReader::get_way`: a way it
/// finds is one the database holds, with its node list, and a way it misses
/// is one the database does not hold. When a read fails is not claimed.
#[verifier::external_body]
fn read_way(reader: &DatabaseReader, way_id: i64) -> (r: Fetched<Vec<i64>>)
    ensures
        r matches Fetched::Found(nodes) ==> stored_ways(*reader).dom().contains(way_id)
            && stored_ways(*reader)[way_id] == nodes@,
        r is Missing ==> !stored_ways(*reader).dom().contains(way_id),
{
    match reader.get_way(way_id) {
        Ok(Some(way)) => Fetched::Found(way.node_ids),
        Ok(None) => Fetched::Missing,
        Err(error) => Fetched::Failed(error.to_string()),
    }
}

/// Reads a relation's members with `osmdb::DatabaseReader::get_relation`,
/// keeping each member's type and id: a relation it finds is one the
/// database holds, with those members, and a relation it misses is one the
/// database does not hold. When a read fails is not claimed.
#[verifier::external_body]
fn read_relation(reader: &DatabaseReader, relation_id: i64) -> (r: Fetched<Vec<RelationMember>>)
    ensures
        r matches Fetched::Found(members) ==> stored_relations(*reader).dom().contains(relation_id)
            && stored_relations(*reader)[relation_id] == members@,
        r is Missing ==> !stored_relations(*reader).dom().contains(relation_id),
{
    match reader.get_relation(relation_id) {
        Ok(Some(relation)) => Fetched::Found(relation.members.iter().map(|member| RelationMember {
            id: member.id,
            kind: match member.member_type {
                osmdb::MemberType::Node => MemberKind::Node,
                osmdb::MemberType::Way => MemberKind::Way,
                osmdb::MemberType::Relation => MemberKind::Relation,
            },
        }).collect()),
        Ok(None) => Fetched::Missing,
        Err(error) => Fetched::Failed(error.to_string()),
    }
}

// ---------------------------------------------------------------------------
// The objects a relation reaches
// ---------------------------------------------------------------------------

/// What was read from the store while resolving one relation: every relation,
/// way and node location that the resolution can reach, each read once.
pub struct RelationGraph {
    pub relations: Vec<(i64, Fetched<Vec<RelationMember>>)>,
    pub ways: Vec<(i64, Fetched<Vec<i64>>)>,
    pub nodes: Vec<(i64, Option<Coord>)>,
}

/// The graph as the contracts see it.
pub struct GraphModel {
    pub relations: Seq<(i64, Fetched<Seq<RelationMember>>)>,
    pub ways: Seq<(i64, Fetched<Seq<i64>>)>,
    pub nodes: Seq<(i64, Option<Coord>)>,
}

pub open spec fn fetched_model<T>(f: Fetched<Vec<T>>) -> Fetched<Seq<T>> {
    match f {
        Fetched::Found(v) => Fetched::Found(v@),
        Fetched::Missing => Fetched::Missing,
        Fetched::Failed(m) => Fetched::Failed(m),
    }
}

impl View for RelationGraph {
    type V = GraphModel;

    open spec fn view(&self) -> GraphModel {
        GraphModel {
            relations: self.relations@.map_values(
                |e: (i64, Fetched<Vec<RelationMember>>)| (e.0, fetched_model(e.1)),
            ),
            ways: self.ways@.map_values(|e: (i64, Fetched<Vec<i64>>)| (e.0, fetched_model(e.1))),
            nodes: self.nodes@,
        }
    }
}

pub open spec fn has_relation(g: GraphModel, id: i64) -> bool {
    exists|i: int| 0 <= i < g.relations.len() && #[trigger] g.relations[i].0 == id
}

pub open spec fn has_way(g: GraphModel, id: i64) -> bool {
    exists|i: int| 0 <= i < g.ways.len() && #[trigger] g.ways[i].0 == id
}

pub open spec fn has_node(g: GraphModel, id: i64) -> bool {
    exists|i: int| 0 <= i < g.nodes.len() && #[trigger] g.nodes[i].0 == id
}

/// What was read for a relation (absent when it was never read).
pub open spec fn relation_entry(g: GraphModel, id: i64) -> Option<Fetched<Seq<RelationMember>>> {
    if has_relation(g, id) {
        Some(g.relations[choose|i: int| 0 <= i < g.relations.len() && g.relations[i].0 == id].1)
    } else {
        None
    }
}

/// What was read for a way (absent when it was never read).
pub open spec fn way_entry(g: GraphModel, id: i64) -> Option<Fetched<Seq<i64>>> {
    if has_way(g, id) {
        Some(g.ways[choose|i: int| 0 <= i < g.ways.len() && g.ways[i].0 == id].1)
    } else {
        None
    }
}

/// The location read for a node (none when it has none or was never read).
pub open spec fn node_location(g: GraphModel, id: i64) -> Option<Coord> {
    if has_node(g, id) {
        g.nodes[choose|i: int| 0 <= i < g.nodes.len() && g.nodes[i].0 == id].1
    } else {
        None
    }
}

/// Every id is read at most once.
pub open spec fn graph_ids_unique(g: GraphModel) -> bool {
    &&& forall|i: int, j: int|
        0 <= i < j < g.relations.len() ==> g.relations[i].0 != g.relations[j].0
    &&& forall|i: int, j: int| 0 <= i < j < g.ways.len() ==> g.ways[i].0 != g.ways[j].0
    &&& forall|i: int, j: int| 0 <= i < j < g.nodes.len() ==> g.nodes[i].0 != g.nodes[j].0
}

/// A member whose object was read, as far as this kind of geometry needs it.
pub open spec fn member_covered(g: GraphModel, m: RelationMember, kind: RelationGeometryKind) -> bool {
    match m.kind {
        MemberKind::Relation => has_relation(g, m.id),
        MemberKind::Way => takes_lines(kind) ==> has_way(g, m.id),
        MemberKind::Node => takes_points(kind) ==> has_node(g, m.id),
    }
}

/// The members of the first `n` relation entries were read, as far as this
/// kind of geometry needs them.
pub open spec fn relations_closed_upto(g: GraphModel, kind: RelationGeometryKind, n: int) -> bool {
    forall|i: int, k: int|
        0 <= i < n && i < g.relations.len() && g.relations[i].1 is Found && 0 <= k
            < g.relations[i].1->Found_0.len() ==> member_covered(
            g,
            #[trigger] g.relations[i].1->Found_0[k],
            kind,
        )
}

/// Every node of every way found was read.
pub open spec fn ways_closed(g: GraphModel) -> bool {
    forall|i: int, k: int|
        0 <= i < g.ways.len() && g.ways[i].1 is Found && 0 <= k < g.ways[i].1->Found_0.len()
            ==> has_node(g, #[trigger] g.ways[i].1->Found_0[k])
}

/// Nothing that resolution can reach from the graph's relations is missing
/// from it: every needed member was read, and so was every node of every way
/// that was found.
pub open spec fn graph_closed(g: GraphModel, kind: RelationGeometryKind) -> bool {
    relations_closed_upto(g, kind, g.relations.len() as int) && ways_closed(g)
}

/// Every entry of the graph is what the stores answer: a node's location is
/// the stored one, a way or relation found is stored with what was read, and
/// one missing is not stored. The first relation entry, the relation being
/// resolved, is given rather than read.
pub open spec fn read_from(
    g: GraphModel,
    locations: Map<i64, Coord>,
    ways: Map<i64, Seq<i64>>,
    relations: Map<i64, Seq<RelationMember>>,
) -> bool {
    &&& forall|i: int|
        0 <= i < g.nodes.len() ==> (#[trigger] g.nodes[i]).1 == location_in(locations, g.nodes[i].0)
    &&& forall|i: int|
        0 <= i < g.ways.len() ==> match (#[trigger] g.ways[i]).1 {
            Fetched::Found(nodes) => ways.dom().contains(g.ways[i].0) && ways[g.ways[i].0] == nodes,
            Fetched::Missing => !ways.dom().contains(g.ways[i].0),
            Fetched::Failed(_) => true,
        }
    &&& forall|i: int|
        1 <= i < g.relations.len() ==> match (#[trigger] g.relations[i]).1 {
            Fetched::Found(members) => relations.dom().contains(g.relations[i].0)
                && relations[g.relations[i].0] == members,
            Fetched::Missing => !relations.dom().contains(g.relations[i].0),
            Fetched::Failed(_) => true,
        }
}

/// The locations of a way's nodes, as read.
pub open spec fn way_locations(g: GraphModel, node_ids: Seq<i64>) -> Seq<Option<Coord>> {
    node_ids.map_values(|id: i64| node_location(g, id))
}

/// How many relation entries are not on the stack.
pub open spec fn count_unvisited(ids: Seq<i64>, stack: Seq<i64>) -> nat
    decreases ids.len(),
{
    if ids.len() == 0 {
        0
    } else {
        count_unvisited(ids.drop_last(), stack) + if stack.contains(ids.last()) {
            0nat
        } else {
            1nat
        }
    }
}

pub open spec fn relation_ids(g: GraphModel) -> Seq<i64> {
    g.relations.map_values(|e: (i64, Fetched<Seq<RelationMember>>)| e.0)
}

pub open spec fn unvisited(g: GraphModel, stack: Seq<i64>) -> nat {
    count_unvisited(relation_ids(g), stack)
}

/// Putting an id of the list on the stack leaves fewer ids unvisited.
pub proof fn lemma_unvisited_shrinks(ids: Seq<i64>, stack: Seq<i64>, id: i64)
    requires
        ids.contains(id),
        !stack.contains(id),
    ensures
        count_unvisited(ids, stack.push(id)) < count_unvisited(ids, stack),
    decreases ids.len(),
{
    assert(ids.len() > 0);
    lemma_unvisited_monotone(ids.drop_last(), stack, id);
    if ids.last() == id {
        assert(stack.push(id).contains(id)) by {
            assert(stack.push(id)[stack.len() as int] == id);
        }
        assert(count_unvisited(ids, stack.push(id)) == count_unvisited(ids.drop_last(), stack.push(id)));
        assert(count_unvisited(ids, stack) == count_unvisited(ids.drop_last(), stack) + 1);
    } else {
        let k = choose|k: int| 0 <= k < ids.len() && ids[k] == id;
        assert(ids.drop_last()[k] == id);
        lemma_unvisited_shrinks(ids.drop_last(), stack, id);
        if stack.push(id).contains(ids.last()) {
            let j = choose|j: int| 0 <= j < stack.push(id).len() && stack.push(id)[j] == ids.last();
            assert(j < stack.len());
            assert(stack[j] == ids.last());
        }
        if stack.contains(ids.last()) {
            let j = choose|j: int| 0 <= j < stack.len() && stack[j] == ids.last();
            assert(stack.push(id)[j] == ids.last());
        }
    }
}

/// Putting an id on the stack never adds unvisited ids.
pub proof fn lemma_unvisited_monotone(ids: Seq<i64>, stack: Seq<i64>, id: i64)
    ensures
        count_unvisited(ids, stack.push(id)) <= count_unvisited(ids, stack),
    decreases ids.len(),
{
    if ids.len() > 0 {
        lemma_unvisited_monotone(ids.drop_last(), stack, id);
        if stack.contains(ids.last()) {
            let j = choose|j: int| 0 <= j < stack.len() && stack[j] == ids.last();
            assert(stack.push(id)[j] == ids.last());
        }
    }
}

/// The pieces that `acc` then `rest` give, or the error that stops `rest`.
pub open spec fn then_pieces(acc: Seq<PieceModel>, rest: Result<Seq<PieceModel>, GeometryError>) -> Result<
    Seq<PieceModel>,
    GeometryError,
> {
    match rest {
        Ok(ps) => Ok(acc + ps),
        Err(e) => Err(e),
    }
}

/// What a single member of relation `relation_id` contributes, given the
/// result of resolving a nested relation.
pub open spec fn collect_member(
    g: GraphModel,
    relation_id: i64,
    m: RelationMember,
    kind: RelationGeometryKind,
    stack: Seq<i64>,
) -> Result<Seq<PieceModel>, GeometryError>
    decreases unvisited(g, stack), 0nat, 1nat,
{
    match m.kind {
        MemberKind::Node => if takes_points(kind) {
            match node_location(g, m.id) {
                Some(c) => Ok(seq![PieceModel::Point(c)]),
                None => Err(GeometryError::NodeMemberLocation { node_id: m.id, relation_id }),
            }
        } else {
            Ok(seq![])
        },
        MemberKind::Way => if takes_lines(kind) {
            match way_entry(g, m.id) {
                Some(Fetched::Found(node_ids)) => match line_of(
                    m.id,
                    node_ids,
                    way_locations(g, node_ids),
                ) {
                    Ok(line) => Ok(seq![PieceModel::Line(line)]),
                    Err(e) => Err(e),
                },
                Some(Fetched::Failed(message)) => Err(GeometryError::ReadFailed(message)),
                _ => Err(GeometryError::MissingWay { way_id: m.id, relation_id }),
            }
        } else {
            Ok(seq![])
        },
        MemberKind::Relation => if stack.contains(m.id) {
            Err(GeometryError::Cycle { member_id: m.id, relation_id })
        } else {
            match relation_entry(g, m.id) {
                Some(Fetched::Found(members)) => {
                    proof {
                        let i = choose|i: int| 0 <= i < g.relations.len() && g.relations[i].0 == m.id;
                        assert(relation_ids(g)[i] == m.id);
                        lemma_unvisited_shrinks(relation_ids(g), stack, m.id);
                    }
                    collect_from(g, m.id, members, 0, kind, stack.push(m.id))
                },
                Some(Fetched::Failed(message)) => Err(GeometryError::ReadFailed(message)),
                _ => Err(GeometryError::MissingRelation { member_id: m.id, relation_id }),
            }
        },
    }
}

/// The pieces that members `i..` of relation `relation_id` contribute, in
/// order, with the relations on `stack` being resolved further up; the first
/// error stops the resolution.
pub open spec fn collect_from(
    g: GraphModel,
    relation_id: i64,
    members: Seq<RelationMember>,
    i: int,
    kind: RelationGeometryKind,
    stack: Seq<i64>,
) -> Result<Seq<PieceModel>, GeometryError>
    decreases unvisited(g, stack), members.len() - i, 0nat,
{
    if i < 0 || i >= members.len() {
        Ok(seq![])
    } else {
        match collect_member(g, relation_id, members[i], kind, stack) {
            Err(e) => Err(e),
            Ok(ps) => then_pieces(ps, collect_from(g, relation_id, members, i + 1, kind, stack)),
        }
    }
}

/// The pieces of a relation's geometry, or why there is none: an empty
/// result is refused.
pub open spec fn relation_outcome(
    g: GraphModel,
    relation_id: i64,
    members: Seq<RelationMember>,
    kind: RelationGeometryKind,
) -> Result<Seq<PieceModel>, GeometryError> {
    match collect_from(g, relation_id, members, 0, kind, seq![relation_id]) {
        Err(e) => Err(e),
        Ok(ps) => if ps.len() == 0 {
            Err(
                match kind {
                    RelationGeometryKind::MultiPoint => GeometryError::NoNodeGeometry {
                        relation_id,
                    },
                    RelationGeometryKind::MultiLineString => GeometryError::NoWayGeometry {
                        relation_id,
                    },
                    RelationGeometryKind::GeometryCollection => GeometryError::NoSupportedGeometry {
                        relation_id,
                    },
                },
            )
        } else {
            Ok(ps)
        },
    }
}

/// A collection element that holds exactly a piece.
pub open spec fn holds_piece(g: GeometryValue, p: PieceModel) -> bool {
    match p {
        PieceModel::Point(c) => g == GeometryValue::Point(c),
        PieceModel::Line(cs) => g matches GeometryValue::LineString(v) && v@ == cs,
    }
}

/// The geometry assembled from a relation's pieces, for the requested kind.
pub open spec fn assembled(v: GeometryValue, kind: RelationGeometryKind, ps: Seq<PieceModel>) -> bool {
    match kind {
        RelationGeometryKind::MultiPoint => v matches GeometryValue::MultiPoint(cs) && cs.len()
            == ps.len() && forall|i: int| 0 <= i < ps.len() ==> ps[i] == PieceModel::Point(#[trigger] cs@[i]),
        RelationGeometryKind::MultiLineString => v matches GeometryValue::MultiLineString(ls)
            && ls.len() == ps.len() && forall|i: int|
            0 <= i < ps.len() ==> ps[i] == PieceModel::Line(#[trigger] ls@[i]@),
        RelationGeometryKind::GeometryCollection => v matches GeometryValue::GeometryCollection(gs)
            && gs.len() == ps.len() && forall|i: int|
            0 <= i < ps.len() ==> holds_piece(#[trigger] gs@[i], ps[i]),
    }
}


/// A piece fits a kind of relation geometry when that kind takes it.
pub open spec fn piece_fits(p: PieceModel, kind: RelationGeometryKind) -> bool {
    match p {
        PieceModel::Point(_) => takes_points(kind),
        PieceModel::Line(_) => takes_lines(kind),
    }
}

/// Resolution only yields pieces that the requested kind takes: node members
/// are left out of a multilinestring and way members out of a multipoint.
pub proof fn lemma_pieces_fit_kind(
    g: GraphModel,
    relation_id: i64,
    members: Seq<RelationMember>,
    i: int,
    kind: RelationGeometryKind,
    stack: Seq<i64>,
)
    ensures
        collect_from(g, relation_id, members, i, kind, stack) matches Ok(ps) ==> forall|j: int|
            0 <= j < ps.len() ==> piece_fits(#[trigger] ps[j], kind),
    decreases unvisited(g, stack), members.len() - i,
{
    if 0 <= i < members.len() {
        let m = members[i];
        lemma_pieces_fit_kind(g, relation_id, members, i + 1, kind, stack);
        if m.kind == MemberKind::Relation && !stack.contains(m.id) {
            if let Some(Fetched::Found(nested)) = relation_entry(g, m.id) {
                let k = choose|k: int| 0 <= k < g.relations.len() && g.relations[k].0 == m.id;
                assert(relation_ids(g)[k] == m.id);
                lemma_unvisited_shrinks(relation_ids(g), stack, m.id);
                lemma_pieces_fit_kind(g, m.id, nested, 0, kind, stack.push(m.id));
            }
        }
        match collect_member(g, relation_id, m, kind, stack) {
            Ok(ps) => {
                match collect_from(g, relation_id, members, i + 1, kind, stack) {
                    Ok(rest) => {
                        assert forall|j: int| 0 <= j < ps.len() + rest.len() implies piece_fits(
                            #[trigger] (ps + rest)[j],
                            kind,
                        ) by {
                            if j >= ps.len() {
                                assert((ps + rest)[j] == rest[j - ps.len()]);
                            }
                        }
                    },
                    Err(_) => {},
                }
            },
            Err(_) => {},
        }
    }
}

/// A duplicate-free list of `i64` ids has at most 2^64 entries.
pub proof fn lemma_distinct_ids_bounded(ids: Seq<i64>)
    requires
        ids.no_duplicates(),
    ensures
        ids.len() <= 0x1_0000_0000_0000_0000,
{
    let ints = ids.map_values(|x: i64| x as int);
    assert(ints.no_duplicates()) by {
        assert forall|i: int, j: int| 0 <= i < ints.len() && 0 <= j < ints.len() && i != j implies ints[i]
            != ints[j] by {
            assert(ids[i] != ids[j]);
        }
    }
    ints.unique_seq_to_set();
    let range = vstd::set_lib::set_int_range(-0x8000_0000_0000_0000, 0x8000_0000_0000_0000);
    vstd::set_lib::lemma_int_range(-0x8000_0000_0000_0000, 0x8000_0000_0000_0000);
    assert(ints.to_set().subset_of(range)) by {
        assert forall|x: int| ints.to_set().contains(x) implies range.contains(x) by {
            let k = choose|k: int| 0 <= k < ints.len() && ints[k] == x;
            assert(ints[k] == ids[k] as int);
        }
    }
    vstd::set_lib::lemma_len_subset(ints.to_set(), range);
}

/// Entries only get added: everything read before is still there unchanged.
pub open spec fn graph_extends(before: GraphModel, after: GraphModel) -> bool {
    &&& before.relations.len() <= after.relations.len()
    &&& before.ways.len() <= after.ways.len()
    &&& before.nodes.len() <= after.nodes.len()
    &&& forall|i: int| 0 <= i < before.relations.len() ==> after.relations[i] == before.relations[i]
    &&& forall|i: int| 0 <= i < before.ways.len() ==> after.ways[i] == before.ways[i]
    &&& forall|i: int| 0 <= i < before.nodes.len() ==> after.nodes[i] == before.nodes[i]
}

proof fn lemma_extends_keeps_members(before: GraphModel, after: GraphModel, kind: RelationGeometryKind)
    requires
        graph_extends(before, after),
    ensures
        forall|m: RelationMember|
            member_covered(before, m, kind) ==> #[trigger] member_covered(after, m, kind),
        forall|id: i64| has_node(before, id) ==> #[trigger] has_node(after, id),
        forall|id: i64| has_way(before, id) ==> #[trigger] has_way(after, id),
        forall|id: i64| has_relation(before, id) ==> #[trigger] has_relation(after, id),
{
    assert forall|id: i64| has_node(before, id) implies #[trigger] has_node(after, id) by {
        let i = choose|i: int| 0 <= i < before.nodes.len() && before.nodes[i].0 == id;
        assert(after.nodes[i].0 == id);
    }
    assert forall|id: i64| has_way(before, id) implies #[trigger] has_way(after, id) by {
        let i = choose|i: int| 0 <= i < before.ways.len() && before.ways[i].0 == id;
        assert(after.ways[i].0 == id);
    }
    assert forall|id: i64| has_relation(before, id) implies #[trigger] has_relation(after, id) by {
        let i = choose|i: int| 0 <= i < before.relations.len() && before.relations[i].0 == id;
        assert(after.relations[i].0 == id);
    }
}

/// With unique ids, the entry found at an index is the one looked up.
proof fn lemma_entry_at(g: GraphModel, i: int)
    requires
        graph_ids_unique(g),
    ensures
        0 <= i < g.relations.len() ==> relation_entry(g, g.relations[i].0) == Some(g.relations[i].1),
        0 <= i < g.ways.len() ==> way_entry(g, g.ways[i].0) == Some(g.ways[i].1),
        0 <= i < g.nodes.len() ==> node_location(g, g.nodes[i].0) == g.nodes[i].1,
{
    if 0 <= i < g.relations.len() {
        let id = g.relations[i].0;
        assert(has_relation(g, id));
        let j = choose|j: int| 0 <= j < g.relations.len() && g.relations[j].0 == id;
        assert(j == i);
    }
    if 0 <= i < g.ways.len() {
        let id = g.ways[i].0;
        assert(has_way(g, id));
        let j = choose|j: int| 0 <= j < g.ways.len() && g.ways[j].0 == id;
        assert(j == i);
    }
    if 0 <= i < g.nodes.len() {
        let id = g.nodes[i].0;
        assert(has_node(g, id));
        let j = choose|j: int| 0 <= j < g.nodes.len() && g.nodes[j].0 == id;
        assert(j == i);
    }
}

fn copy_members(members: &Vec<RelationMember>) -> (r: Vec<RelationMember>)
    ensures
        r@ == members@,
{
    let mut r: Vec<RelationMember> = Vec::new();
    let mut i: usize = 0;
    while i < members.len()
        invariant
            i <= members.len(),
            r@ == members@.take(i as int),
        decreases members.len() - i,
    {
        r.push(members[i]);
        assert(members@.take(i + 1) =~= members@.take(i as int).push(members[i as int]));
        i = i + 1;
    }
    assert(members@.take(members.len() as int) =~= members@);
    r
}

fn copy_coords(coords: &Vec<Coord>) -> (r: Vec<Coord>)
    ensures
        r@ == coords@,
{
    let mut r: Vec<Coord> = Vec::new();
    let mut i: usize = 0;
    while i < coords.len()
        invariant
            i <= coords.len(),
            r@ == coords@.take(i as int),
        decreases coords.len() - i,
    {
        r.push(coords[i]);
        assert(coords@.take(i + 1) =~= coords@.take(i as int).push(coords[i as int]));
        i = i + 1;
    }
    assert(coords@.take(coords.len() as int) =~= coords@);
    r
}

fn stack_contains(stack: &Vec<i64>, id: i64) -> (r: bool)
    ensures
        r == stack@.contains(id),
{
    let mut i: usize = 0;
    while i < stack.len()
        invariant
            i <= stack.len(),
            forall|k: int| 0 <= k < i ==> stack@[k] != id,
        decreases stack.len() - i,
    {
        if stack[i] == id {
            return true;
        }
        i = i + 1;
    }
    false
}

impl RelationGraph {
    fn find_relation(&self, id: i64) -> (r: Option<usize>)
        ensures
            match r {
                Some(i) => i < self.relations.len() && self@.relations[i as int].0 == id,
                None => !has_relation(self@, id),
            },
    {
        let mut i: usize = 0;
        while i < self.relations.len()
            invariant
                i <= self.relations.len(),
                forall|k: int| 0 <= k < i ==> self@.relations[k].0 != id,
            decreases self.relations.len() - i,
        {
            if self.relations[i].0 == id {
                return Some(i);
            }
            i = i + 1;
        }
        None
    }

    fn find_way(&self, id: i64) -> (r: Option<usize>)
        ensures
            match r {
                Some(i) => i < self.ways.len() && self@.ways[i as int].0 == id,
                None => !has_way(self@, id),
            },
    {
        let mut i: usize = 0;
        while i < self.ways.len()
            invariant
                i <= self.ways.len(),
                forall|k: int| 0 <= k < i ==> self@.ways[k].0 != id,
            decreases self.ways.len() - i,
        {
            if self.ways[i].0 == id {
                return Some(i);
            }
            i = i + 1;
        }
        None
    }

    fn find_node(&self, id: i64) -> (r: Option<usize>)
        ensures
            match r {
                Some(i) => i < self.nodes.len() && self@.nodes[i as int].0 == id,
                None => !has_node(self@, id),
            },
    {
        let mut i: usize = 0;
        while i < self.nodes.len()
            invariant
                i <= self.nodes.len(),
                forall|k: int| 0 <= k < i ==> self@.nodes[k].0 != id,
            decreases self.nodes.len() - i,
        {
            if self.nodes[i].0 == id {
                return Some(i);
            }
            i = i + 1;
        }
        None
    }

    /// The location read for a node.
    fn location(&self, id: i64) -> (r: Option<Coord>)
        requires
            graph_ids_unique(self@),
        ensures
            r == node_location(self@, id),
    {
        match self.find_node(id) {
            Some(i) => {
                proof {
                    lemma_entry_at(self@, i as int);
                }
                self.nodes[i].1
            },
            None => None,
        }
    }

    /// The locations read for a way's nodes.
    fn locations_of(&self, node_ids: &Vec<i64>) -> (r: Vec<Option<Coord>>)
        requires
            graph_ids_unique(self@),
        ensures
            r@ == way_locations(self@, node_ids@),
    {
        let mut r: Vec<Option<Coord>> = Vec::new();
        let mut i: usize = 0;
        while i < node_ids.len()
            invariant
                graph_ids_unique(self@),
                i <= node_ids.len(),
                r@ == way_locations(self@, node_ids@.take(i as int)),
            decreases node_ids.len() - i,
        {
            let location = self.location(node_ids[i]);
            r.push(location);
            assert(way_locations(self@, node_ids@.take(i + 1)) =~= way_locations(
                self@,
                node_ids@.take(i as int),
            ).push(location));
            i = i + 1;
        }
        assert(node_ids@.take(node_ids.len() as int) =~= node_ids@);
        r
    }

    /// Resolves members of `relation_id`, appending their pieces in order;
    /// `stack` holds the relations being resolved further up.
    fn collect(
        &self,
        relation_id: i64,
        members: &Vec<RelationMember>,
        kind: RelationGeometryKind,
        stack: &mut Vec<i64>,
        pieces: &mut Vec<Piece>,
    ) -> (r: Result<(), GeometryError>)
        requires
            graph_ids_unique(self@),
        ensures
            match collect_from(self@, relation_id, members@, 0, kind, old(stack)@) {
                Ok(ps) => r is Ok && pieces_model(final(pieces)@) == pieces_model(old(pieces)@) + ps
                    && final(stack)@ == old(stack)@,
                Err(e) => r == Err::<(), GeometryError>(e),
            },
        decreases unvisited(self@, stack@),
    {
        let ghost g = self@;
        let ghost start = old(stack)@;
        let ghost before = pieces_model(old(pieces)@);
        let ghost mut acc: Seq<PieceModel> = seq![];
        let n = members.len();
        let mut k: usize = 0;
        assert(then_pieces(acc, collect_from(g, relation_id, members@, 0, kind, start))
            =~= collect_from(g, relation_id, members@, 0, kind, start)) by {
            match collect_from(g, relation_id, members@, 0, kind, start) {
                Ok(ps) => {
                    assert(acc + ps =~= ps);
                },
                Err(_) => {},
            }
        }
        while k < n
            invariant
                g == self@,
                graph_ids_unique(g),
                n == members.len(),
                k <= n,
                start == old(stack)@,
                stack@ == start,
                pieces_model(pieces@) == before + acc,
                collect_from(g, relation_id, members@, 0, kind, start) == then_pieces(
                    acc,
                    collect_from(g, relation_id, members@, k as int, kind, start),
                ),
            decreases n - k,
        {
            let m = members[k];
            let ghost rest = collect_from(g, relation_id, members@, k + 1, kind, start);
            let ghost here = collect_member(g, relation_id, m, kind, start);
            let ghost old_pieces = pieces@;
            assert(collect_from(g, relation_id, members@, k as int, kind, start) == match here {
                Err(e) => Err(e),
                Ok(ps) => then_pieces(ps, rest),
            });
            match m.kind {
                MemberKind::Node => {
                    if kind == RelationGeometryKind::MultiPoint || kind
                        == RelationGeometryKind::GeometryCollection {
                        match self.location(m.id) {
                            Some(c) => {
                                pieces.push(Piece::Point(c));
                            },
                            None => {
                                assert(here == Err::<Seq<PieceModel>, GeometryError>(
                                    GeometryError::NodeMemberLocation { node_id: m.id, relation_id },
                                ));
                                return Err(
                                    GeometryError::NodeMemberLocation {
                                        node_id: m.id,
                                        relation_id,
                                    },
                                );
                            },
                        }
                    }
                },
                MemberKind::Way => {
                    if kind == RelationGeometryKind::MultiLineString || kind
                        == RelationGeometryKind::GeometryCollection {
                        match self.find_way(m.id) {
                            Some(i) => {
                                proof {
                                    lemma_entry_at(g, i as int);
                                }
                                match &self.ways[i].1 {
                                    Fetched::Found(node_ids) => {
                                        let locations = self.locations_of(node_ids);
                                        match line_from_locations(m.id, node_ids, &locations) {
                                            Ok(line) => {
                                                pieces.push(Piece::Line(line));
                                            },
                                            Err(e) => {
                                                return Err(e);
                                            },
                                        }
                                    },
                                    Fetched::Failed(message) => {
                                        return Err(GeometryError::ReadFailed(message.clone()));
                                    },
                                    Fetched::Missing => {
                                        return Err(
                                            GeometryError::MissingWay { way_id: m.id, relation_id },
                                        );
                                    },
                                }
                            },
                            None => {
                                return Err(GeometryError::MissingWay { way_id: m.id, relation_id });
                            },
                        }
                    }
                },
                MemberKind::Relation => {
                    if stack_contains(stack, m.id) {
                        return Err(GeometryError::Cycle { member_id: m.id, relation_id });
                    }
                    match self.find_relation(m.id) {
                        Some(i) => {
                            proof {
                                lemma_entry_at(g, i as int);
                                assert(relation_ids(g)[i as int] == m.id);
                                lemma_unvisited_shrinks(relation_ids(g), start, m.id);
                            }
                            match &self.relations[i].1 {
                                Fetched::Found(nested) => {
                                    stack.push(m.id);
                                    assert(unvisited(g, stack@) < unvisited(g, start));
                                    let nested_result = self.collect(
                                        m.id,
                                        nested,
                                        kind,
                                        stack,
                                        pieces,
                                    );
                                    match nested_result {
                                        Ok(()) => {
                                            stack.pop();
                                            assert(stack@ =~= start);
                                        },
                                        Err(e) => {
                                            return Err(e);
                                        },
                                    }
                                },
                                Fetched::Failed(message) => {
                                    return Err(GeometryError::ReadFailed(message.clone()));
                                },
                                Fetched::Missing => {
                                    return Err(
                                        GeometryError::MissingRelation {
                                            member_id: m.id,
                                            relation_id,
                                        },
                                    );
                                },
                            }
                        },
                        None => {
                            return Err(
                                GeometryError::MissingRelation { member_id: m.id, relation_id },
                            );
                        },
                    }
                },
            }
            proof {
                let ps = here->Ok_0;
                assert(here is Ok);
                assert(pieces_model(pieces@) =~= pieces_model(old_pieces) + ps);
                assert(before + acc + ps =~= before + (acc + ps));
                match rest {
                    Ok(tail) => {
                        assert(acc + (ps + tail) =~= (acc + ps) + tail);
                    },
                    Err(_) => {},
                }
                acc = acc + ps;
            }
            k = k + 1;
        }
        Ok(())
    }

    /// Assembles a relation's geometry from what was read: its pieces in
    /// member order, or the first error, or a refusal when nothing was found.
    pub fn resolve(&self, relation_id: i64, members: &Vec<RelationMember>, kind: RelationGeometryKind) -> (r:
        Result<GeometryValue, GeometryError>)
        requires
            graph_ids_unique(self@),
        ensures
            match relation_outcome(self@, relation_id, members@, kind) {
                Ok(ps) => r matches Ok(v) && assembled(v, kind, ps),
                Err(e) => r == Err::<GeometryValue, GeometryError>(e),
            },
    {
        let mut stack: Vec<i64> = Vec::new();
        stack.push(relation_id);
        assert(stack@ =~= seq![relation_id]);
        let mut pieces: Vec<Piece> = Vec::new();
        assert(pieces_model(pieces@) =~= seq![]);
        let collected = self.collect(relation_id, members, kind, &mut stack, &mut pieces);
        if let Err(e) = collected {
            return Err(e);
        }
        let ghost ps = pieces_model(pieces@);
        proof {
            assert(seq![] + ps =~= ps);
            lemma_pieces_fit_kind(self@, relation_id, members@, 0, kind, seq![relation_id]);
        }
        let n = pieces.len();
        if n == 0 {
            return Err(
                match kind {
                    RelationGeometryKind::MultiPoint => GeometryError::NoNodeGeometry {
                        relation_id,
                    },
                    RelationGeometryKind::MultiLineString => GeometryError::NoWayGeometry {
                        relation_id,
                    },
                    RelationGeometryKind::GeometryCollection => GeometryError::NoSupportedGeometry {
                        relation_id,
                    },
                },
            );
        }
        match kind {
            RelationGeometryKind::MultiPoint => {
                let mut points: Vec<Coord> = Vec::new();
                let mut i: usize = 0;
                while i < n
                    invariant
                        n == pieces.len(),
                        ps == pieces_model(pieces@),
                        kind == RelationGeometryKind::MultiPoint,
                        forall|j: int| 0 <= j < ps.len() ==> piece_fits(#[trigger] ps[j], kind),
                        i <= n,
                        points.len() == i,
                        forall|j: int| 0 <= j < i ==> ps[j] == PieceModel::Point(#[trigger] points@[j]),
                    decreases n - i,
                {
                    assert(piece_fits(ps[i as int], kind));
                    match &pieces[i] {
                        Piece::Point(c) => {
                            points.push(*c);
                        },
                        Piece::Line(_) => {},
                    }
                    i = i + 1;
                }
                Ok(GeometryValue::MultiPoint(points))
            },
            RelationGeometryKind::MultiLineString => {
                let mut lines: Vec<Vec<Coord>> = Vec::new();
                let mut i: usize = 0;
                while i < n
                    invariant
                        n == pieces.len(),
                        ps == pieces_model(pieces@),
                        kind == RelationGeometryKind::MultiLineString,
                        forall|j: int| 0 <= j < ps.len() ==> piece_fits(#[trigger] ps[j], kind),
                        i <= n,
                        lines.len() == i,
                        forall|j: int| 0 <= j < i ==> ps[j] == PieceModel::Line(#[trigger] lines@[j]@),
                    decreases n - i,
                {
                    assert(piece_fits(ps[i as int], kind));
                    match &pieces[i] {
                        Piece::Line(cs) => {
                            lines.push(copy_coords(cs));
                        },
                        Piece::Point(_) => {},
                    }
                    i = i + 1;
                }
                Ok(GeometryValue::MultiLineString(lines))
            },
            RelationGeometryKind::GeometryCollection => {
                let mut parts: Vec<GeometryValue> = Vec::new();
                let mut i: usize = 0;
                while i < n
                    invariant
                        n == pieces.len(),
                        ps == pieces_model(pieces@),
                        i <= n,
                        parts.len() == i,
                        forall|j: int| 0 <= j < i ==> holds_piece(#[trigger] parts@[j], ps[j]),
                    decreases n - i,
                {
                    match &pieces[i] {
                        Piece::Point(c) => {
                            parts.push(GeometryValue::Point(*c));
                        },
                        Piece::Line(cs) => {
                            parts.push(GeometryValue::LineString(copy_coords(cs)));
                        },
                    }
                    i = i + 1;
                }
                Ok(GeometryValue::GeometryCollection(parts))
            },
        }
    }
}


proof fn lemma_extends_keeps_closure(
    before: GraphModel,
    after: GraphModel,
    kind: RelationGeometryKind,
    n: int,
)
    requires
        graph_extends(before, after),
        relations_closed_upto(before, kind, n),
        n <= before.relations.len(),
    ensures
        relations_closed_upto(after, kind, n),
{
    lemma_extends_keeps_members(before, after, kind);
    assert forall|i: int, k: int|
        0 <= i < n && i < after.relations.len() && after.relations[i].1 is Found && 0 <= k
            < after.relations[i].1->Found_0.len() implies member_covered(
        after,
        #[trigger] after.relations[i].1->Found_0[k],
        kind,
    ) by {
        assert(after.relations[i] == before.relations[i]);
        assert(member_covered(before, before.relations[i].1->Found_0[k], kind));
    }
}

/// The locations a store's contents give a way's nodes, in node order.
pub open spec fn stored_line_locations(locations: Map<i64, Coord>, node_ids: Seq<i64>) -> Seq<
    Option<Coord>,
> {
    node_ids.map_values(|id: i64| location_in(locations, id))
}

/// Resolves way and relation geometry against an osmdb store.
pub struct GeometryResolver {
    reader: DatabaseReader,
    locations: LocationStoreReader,
    source_database: Ghost<Arc<Database>>,
    source_path: Ghost<Seq<char>>,
}

impl GeometryResolver {
    /// The entity database the resolver was given.
    pub closed spec fn database(&self) -> Arc<Database> {
        self.source_database@
    }

    /// The location store path the resolver was given.
    pub closed spec fn location_path(&self) -> Seq<char> {
        self.source_path@
    }

    /// What the location store holds.
    pub closed spec fn location_store(&self) -> Map<i64, Coord> {
        stored_locations(self.locations)
    }

    /// The ways the entity database holds.
    pub closed spec fn way_store(&self) -> Map<i64, Seq<i64>> {
        stored_ways(self.reader)
    }

    /// The relations the entity database holds.
    pub closed spec fn relation_store(&self) -> Map<i64, Seq<RelationMember>> {
        stored_relations(self.reader)
    }

    /// Every entry of the graph is what this resolver's stores answer.
    pub open spec fn agrees(&self, g: GraphModel) -> bool {
        read_from(g, self.location_store(), self.way_store(), self.relation_store())
    }

    /// Opens the location store at `location_path` beside the entity database.
    /// The resolver records the database and the path it was given; when the
    /// store does not open, the refusal names its path.
    pub fn new(database: Arc<Database>, location_path: &str) -> (r: Result<GeometryResolver, GeometryError>)
        ensures
            r matches Ok(resolver) ==> resolver.database() == database && resolver.location_path()
                == location_path@,
            r matches Err(e) ==> (e is LocationStoreUnavailable && e->path@ == location_path@),
    {
        let ghost given = database;
        match open_location_store(location_path) {
            Ok(locations) => Ok(
                GeometryResolver {
                    reader: database_reader(database),
                    locations,
                    source_database: Ghost(given),
                    source_path: Ghost(location_path@),
                },
            ),
            Err(message) => Err(
                GeometryError::LocationStoreUnavailable { path: String::from_str(location_path), message },
            ),
        }
    }

    /// The location of a node: the one the store holds, with the longitude
    /// as `lon` and the latitude as `lat`, or a refusal when it holds none.
    pub fn point(&self, node_id: i64) -> (r: Result<Coord, GeometryError>)
        ensures
            r == match location_in(self.location_store(), node_id) {
                Some(c) => Ok::<Coord, GeometryError>(c),
                None => Err(GeometryError::MissingLocation { node_id }),
            },
    {
        match stored_location(&self.locations, node_id) {
            Some(c) => Ok(c),
            None => Err(GeometryError::MissingLocation { node_id }),
        }
    }

    /// The line of a way: it needs at least two nodes, and each node's
    /// stored location, in node order.
    pub fn way_geometry(&self, way_id: i64, node_ids: &Vec<i64>) -> (r: Result<Vec<Coord>, GeometryError>)
        ensures
            match line_of(way_id, node_ids@, stored_line_locations(self.location_store(), node_ids@)) {
                Ok(line) => r matches Ok(v) && v@ == line,
                Err(e) => r == Err::<Vec<Coord>, GeometryError>(e),
            },
    {
        let ghost wanted = stored_line_locations(self.location_store(), node_ids@);
        if node_ids.len() < 2 {
            return Err(GeometryError::TooFewNodes { way_id });
        }
        let mut locations: Vec<Option<Coord>> = Vec::new();
        let mut i: usize = 0;
        while i < node_ids.len()
            invariant
                i <= node_ids.len(),
                wanted == stored_line_locations(self.location_store(), node_ids@),
                locations@ == wanted.take(i as int),
            decreases node_ids.len() - i,
        {
            let location = stored_location(&self.locations, node_ids[i]);
            locations.push(location);
            assert(wanted.take(i + 1) =~= wanted.take(i as int).push(location));
            i = i + 1;
        }
        assert(wanted.take(node_ids.len() as int) =~= wanted);
        line_from_locations(way_id, node_ids, &locations)
    }

    fn ensure_node(&self, graph: &mut RelationGraph, id: i64)
        requires
            graph_ids_unique(old(graph)@),
            self.agrees(old(graph)@),
        ensures
            graph_ids_unique(final(graph)@),
            self.agrees(final(graph)@),
            graph_extends(old(graph)@, final(graph)@),
            final(graph)@.relations == old(graph)@.relations,
            final(graph)@.ways == old(graph)@.ways,
            has_node(final(graph)@, id),
    {
        match graph.find_node(id) {
            Some(i) => {},
            None => {
                let ghost before = graph@;
                let location = stored_location(&self.locations, id);
                graph.nodes.push((id, location));
                assert(graph@.nodes[graph@.nodes.len() - 1].0 == id);
                assert forall|i: int| 0 <= i < before.nodes.len() implies before.nodes[i].0 != id by {
                    if before.nodes[i].0 == id {
                        assert(has_node(before, id));
                    }
                }
                let ghost g = graph@;
                assert forall|i: int, j: int| 0 <= i < j < g.nodes.len() implies g.nodes[i].0
                    != g.nodes[j].0 by {
                    assert(g.nodes[i] == before.nodes[i]);
                    if j < before.nodes.len() {
                        assert(g.nodes[j] == before.nodes[j]);
                    }
                }
                assert(g.relations == before.relations);
                assert(g.ways == before.ways);
                assert(graph_ids_unique(g));
            },
        }
    }

    fn ensure_relation(&self, graph: &mut RelationGraph, id: i64)
        requires
            graph_ids_unique(old(graph)@),
            self.agrees(old(graph)@),
            old(graph)@.relations.len() > 0,
        ensures
            graph_ids_unique(final(graph)@),
            self.agrees(final(graph)@),
            graph_extends(old(graph)@, final(graph)@),
            final(graph)@.ways == old(graph)@.ways,
            final(graph)@.nodes == old(graph)@.nodes,
            has_relation(final(graph)@, id),
    {
        match graph.find_relation(id) {
            Some(i) => {},
            None => {
                let ghost before = graph@;
                let fetched = read_relation(&self.reader, id);
                graph.relations.push((id, fetched));
                assert(graph@.relations[graph@.relations.len() - 1].0 == id);
                assert forall|i: int| 0 <= i < before.relations.len() implies before.relations[i].0 != id by {
                    if before.relations[i].0 == id {
                        assert(has_relation(before, id));
                    }
                }
                let ghost g = graph@;
                assert forall|i: int, j: int| 0 <= i < j < g.relations.len() implies g.relations[i].0
                    != g.relations[j].0 by {
                    assert(g.relations[i] == before.relations[i]);
                    if j < before.relations.len() {
                        assert(g.relations[j] == before.relations[j]);
                    }
                }
                assert(g.nodes == before.nodes);
                assert(g.ways == before.ways);
                assert(graph_ids_unique(g));
                assert forall|i: int| 1 <= i < g.relations.len() implies match (#[trigger] g.relations[i]).1 {
                    Fetched::Found(members) => self.relation_store().dom().contains(g.relations[i].0)
                        && self.relation_store()[g.relations[i].0] == members,
                    Fetched::Missing => !self.relation_store().dom().contains(g.relations[i].0),
                    Fetched::Failed(_) => true,
                } by {
                    if i < before.relations.len() {
                        assert(g.relations[i] == before.relations[i]);
                    } else {
                        assert(g.relations[i] == (id, fetched_model(fetched)));
                    }
                }
            },
        }
    }

    fn ensure_way(&self, graph: &mut RelationGraph, id: i64)
        requires
            graph_ids_unique(old(graph)@),
            self.agrees(old(graph)@),
            ways_closed(old(graph)@),
        ensures
            graph_ids_unique(final(graph)@),
            self.agrees(final(graph)@),
            ways_closed(final(graph)@),
            graph_extends(old(graph)@, final(graph)@),
            final(graph)@.relations == old(graph)@.relations,
            has_way(final(graph)@, id),
    {
        match graph.find_way(id) {
            Some(i) => {},
            None => {
                let ghost start = graph@;
                let fetched = read_way(&self.reader, id);
                if let Fetched::Found(node_ids) = &fetched {
                    let mut k: usize = 0;
                    while k < node_ids.len()
                        invariant
                            graph_ids_unique(graph@),
                            self.agrees(graph@),
                            graph_extends(start, graph@),
                            graph@.relations == start.relations,
                            graph@.ways == start.ways,
                            !has_way(graph@, id),
                            k <= node_ids.len(),
                            forall|j: int| 0 <= j < k ==> has_node(graph@, #[trigger] node_ids@[j]),
                        decreases node_ids.len() - k,
                    {
                        let ghost before = graph@;
                        self.ensure_node(graph, node_ids[k]);
                        proof {
                            lemma_extends_keeps_members(before, graph@, RelationGeometryKind::MultiPoint);
                        }
                        k = k + 1;
                    }
                    assert(forall|j: int|
                        0 <= j < fetched_model(fetched)->Found_0.len() ==> has_node(
                            graph@,
                            #[trigger] fetched_model(fetched)->Found_0[j],
                        ));
                }
                assert(fetched_model(fetched) is Found ==> forall|j: int|
                    0 <= j < fetched_model(fetched)->Found_0.len() ==> has_node(
                        graph@,
                        #[trigger] fetched_model(fetched)->Found_0[j],
                    ));
                let ghost before = graph@;
                assert forall|i: int| 0 <= i < before.ways.len() implies before.ways[i].0 != id by {
                    if before.ways[i].0 == id {
                        assert(has_way(before, id));
                    }
                }
                graph.ways.push((id, fetched));
                proof {
                    let g = graph@;
                    assert(g.ways[g.ways.len() - 1].0 == id);
                    assert forall|i: int, k: int|
                        0 <= i < g.ways.len() && g.ways[i].1 is Found && 0 <= k
                            < g.ways[i].1->Found_0.len() implies has_node(
                        g,
                        #[trigger] g.ways[i].1->Found_0[k],
                    ) by {
                        lemma_extends_keeps_members(before, g, RelationGeometryKind::MultiPoint);
                        if i < before.ways.len() {
                            assert(g.ways[i] == before.ways[i]);
                            assert(has_node(before, g.ways[i].1->Found_0[k]));
                        } else {
                            assert(g.ways[i].1->Found_0[k] == fetched_model(fetched)->Found_0[k]);
                            assert(has_node(before, g.ways[i].1->Found_0[k]));
                        }
                    }
                    assert(graph_extends(start, g));
                }
            },
        }
    }

    /// Reads every relation, way and node location that resolving relation
    /// `relation_id` with these members can reach, each once.
    pub fn fetch_relation_graph(
        &self,
        relation_id: i64,
        members: &Vec<RelationMember>,
        kind: RelationGeometryKind,
    ) -> (g: RelationGraph)
        ensures
            graph_ids_unique(g@),
            graph_closed(g@, kind),
            self.agrees(g@),
            g@.relations.len() > 0,
            g@.relations[0] == (relation_id, Fetched::Found(members@)),
    {
        let mut graph = RelationGraph { relations: Vec::new(), ways: Vec::new(), nodes: Vec::new() };
        graph.relations.push((relation_id, Fetched::Found(copy_members(members))));
        let mut next: usize = 0;
        while next < graph.relations.len()
            invariant
                graph_ids_unique(graph@),
                self.agrees(graph@),
                ways_closed(graph@),
                graph@.relations.len() > 0,
                graph@.relations[0] == (relation_id, Fetched::Found(members@)),
                next <= graph@.relations.len(),
                relations_closed_upto(graph@, kind, next as int),
            decreases 0x1_0000_0000_0000_0000 - next,
        {
            proof {
                let ids = relation_ids(graph@);
                assert(ids.no_duplicates()) by {
                    assert forall|i: int, j: int|
                        0 <= i < ids.len() && 0 <= j < ids.len() && i != j implies ids[i] != ids[j] by {
                        if i < j {
                            assert(graph@.relations[i].0 != graph@.relations[j].0);
                        } else {
                            assert(graph@.relations[j].0 != graph@.relations[i].0);
                        }
                    }
                }
                lemma_distinct_ids_bounded(ids);
            }
            let current: Option<Vec<RelationMember>> = match &graph.relations[next].1 {
                Fetched::Found(ms) => Some(copy_members(ms)),
                _ => None,
            };
            let ghost entry_start = graph@;
            match current {
                Some(ms) => {
                    let mut k: usize = 0;
                    while k < ms.len()
                        invariant
                            graph_ids_unique(graph@),
                            self.agrees(graph@),
                            ways_closed(graph@),
                            graph_extends(entry_start, graph@),
                            next < entry_start.relations.len(),
                            entry_start.relations[next as int].1 == Fetched::Found(ms@),
                            graph@.relations.len() > 0,
                            graph@.relations[0] == (relation_id, Fetched::Found(members@)),
                            relations_closed_upto(graph@, kind, next as int),
                            k <= ms.len(),
                            forall|j: int| 0 <= j < k ==> member_covered(graph@, #[trigger] ms@[j], kind),
                        decreases ms.len() - k,
                    {
                        let m = ms[k];
                        let ghost before = graph@;
                        match m.kind {
                            MemberKind::Relation => {
                                self.ensure_relation(&mut graph, m.id);
                            },
                            MemberKind::Way => {
                                if kind == RelationGeometryKind::MultiLineString || kind
                                    == RelationGeometryKind::GeometryCollection {
                                    self.ensure_way(&mut graph, m.id);
                                }
                            },
                            MemberKind::Node => {
                                if kind == RelationGeometryKind::MultiPoint || kind
                                    == RelationGeometryKind::GeometryCollection {
                                    self.ensure_node(&mut graph, m.id);
                                }
                            },
                        }
                        proof {
                            lemma_extends_keeps_members(before, graph@, kind);
                            lemma_extends_keeps_closure(before, graph@, kind, next as int);
                            assert(graph_extends(entry_start, graph@));
                        }
                        k = k + 1;
                    }
                    proof {
                        let g = graph@;
                        assert(g.relations[next as int] == entry_start.relations[next as int]);
                        assert forall|i: int, k: int|
                            0 <= i < next + 1 && i < g.relations.len() && g.relations[i].1 is Found
                                && 0 <= k < g.relations[i].1->Found_0.len() implies member_covered(
                            g,
                            #[trigger] g.relations[i].1->Found_0[k],
                            kind,
                        ) by {
                            if i == next {
                                assert(g.relations[i].1->Found_0[k] == ms@[k]);
                            }
                        }
                    }
                },
                None => {
                    proof {
                        let g = graph@;
                        assert forall|i: int, k: int|
                            0 <= i < next + 1 && i < g.relations.len() && g.relations[i].1 is Found
                                && 0 <= k < g.relations[i].1->Found_0.len() implies member_covered(
                            g,
                            #[trigger] g.relations[i].1->Found_0[k],
                            kind,
                        ) by {
                            assert(i < next);
                        }
                    }
                },
            }
            next = next + 1;
        }
        graph
    }

    /// The geometry of a relation of the requested kind, following nested
    /// relations: the pieces of its members in order, or the first error, or
    /// a refusal when nothing was found. The objects it reaches are read from
    /// the stores: every location, way and relation it uses is the stored
    /// one, and one it misses is not stored. Only when a read fails is left
    /// open.
    pub fn relation_geometry(
        &self,
        relation_id: i64,
        members: &Vec<RelationMember>,
        kind: RelationGeometryKind,
    ) -> (r: Result<GeometryValue, GeometryError>)
        ensures
            exists|g: GraphModel|
                {
                    &&& graph_ids_unique(g)
                    &&& graph_closed(g, kind)
                    &&& self.agrees(g)
                    &&& g.relations.len() > 0
                    &&& g.relations[0] == (relation_id, Fetched::Found(members@))
                    &&& match #[trigger] relation_outcome(g, relation_id, members@, kind) {
                        Ok(ps) => r matches Ok(v) && assembled(v, kind, ps),
                        Err(e) => r == Err::<GeometryValue, GeometryError>(e),
                    }
                },
    {
        let graph = self.fetch_relation_graph(relation_id, members, kind);
        let r = graph.resolve(relation_id, members, kind);
        assert(match relation_outcome(graph@, relation_id, members@, kind) {
            Ok(ps) => r matches Ok(v) && assembled(v, kind, ps),
            Err(e) => r == Err::<GeometryValue, GeometryError>(e),
        });
        r
    }
}


/// A way's line holds one position per node, in node order, and at least
/// two of them.
pub proof fn lemma_line_shape(way_id: i64, node_ids: Seq<i64>, locations: Seq<Option<Coord>>)
    requires
        locations.len() == node_ids.len(),
    ensures
        line_of(way_id, node_ids, locations) matches Ok(line) ==> {
            &&& line.len() == node_ids.len()
            &&& line.len() >= 2
            &&& forall|i: int| 0 <= i < line.len() ==> locations[i] == Some(#[trigger] line[i])
        },
        line_of(way_id, node_ids, locations) is Ok <==> node_ids.len() >= 2 && forall|i: int|
            0 <= i < locations.len() ==> #[trigger] locations[i] is Some,
{
    lemma_first_missing_bounds(locations, locations.len() as int);
}

/// Members that the requested kind does not take are skipped without being
/// looked at: a node member contributes nothing to a multilinestring and a
/// way member nothing to a multipoint, and neither makes resolution fail,
/// whatever the store holds for them.
pub proof fn lemma_untaken_members_are_skipped(
    g: GraphModel,
    relation_id: i64,
    id: i64,
    stack: Seq<i64>,
)
    ensures
        collect_member(
            g,
            relation_id,
            RelationMember { kind: MemberKind::Node, id },
            RelationGeometryKind::MultiLineString,
            stack,
        ) == Ok::<Seq<PieceModel>, GeometryError>(seq![]),
        collect_member(
            g,
            relation_id,
            RelationMember { kind: MemberKind::Way, id },
            RelationGeometryKind::MultiPoint,
            stack,
        ) == Ok::<Seq<PieceModel>, GeometryError>(seq![]),
{
}

/// A node member that the requested kind takes contributes its stored
/// location as a point, and fails resolution exactly when it has none.
pub proof fn lemma_node_member_gives_its_point(
    g: GraphModel,
    relation_id: i64,
    id: i64,
    kind: RelationGeometryKind,
    stack: Seq<i64>,
)
    requires
        kind != RelationGeometryKind::MultiLineString,
    ensures
        collect_member(g, relation_id, RelationMember { kind: MemberKind::Node, id }, kind, stack)
            == match node_location(g, id) {
            Some(c) => Ok::<Seq<PieceModel>, GeometryError>(seq![PieceModel::Point(c)]),
            None => Err(GeometryError::NodeMemberLocation { node_id: id, relation_id }),
        },
{
}

/// Every id whose record the location store can address is looked up: a
/// location the store holds for such an id is the one returned.
pub proof fn lemma_addressable_ids_are_looked_up(locations: Map<i64, Coord>, id: i64)
    requires
        1 <= id <= 768614336404564650,
        12 * id <= usize::MAX,
        locations.dom().contains(id),
    ensures
        location_in(locations, id) == Some(locations[id]),
{
}

/// A relation resolves to at least one piece, or not at all.
pub proof fn lemma_resolved_not_empty(
    g: GraphModel,
    relation_id: i64,
    members: Seq<RelationMember>,
    kind: RelationGeometryKind,
)
    ensures
        relation_outcome(g, relation_id, members, kind) matches Ok(ps) ==> ps.len() > 0,
{
}

/// A relation whose first member is the relation itself is a cycle.
pub proof fn lemma_self_member_is_cycle(
    g: GraphModel,
    relation_id: i64,
    members: Seq<RelationMember>,
    kind: RelationGeometryKind,
)
    requires
        members.len() > 0,
        members[0] == (RelationMember { kind: MemberKind::Relation, id: relation_id }),
    ensures
        relation_outcome(g, relation_id, members, kind) == Err::<Seq<PieceModel>, GeometryError>(
            GeometryError::Cycle { member_id: relation_id, relation_id },
        ),
{
    let stack = seq![relation_id];
    assert(stack.contains(relation_id)) by {
        assert(stack[0] == relation_id);
    }
    let cycle = GeometryError::Cycle { member_id: relation_id, relation_id };
    assert(collect_member(g, relation_id, members[0], kind, stack) == Err::<
        Seq<PieceModel>,
        GeometryError,
    >(cycle));
    assert(collect_from(g, relation_id, members, 0, kind, stack) == Err::<
        Seq<PieceModel>,
        GeometryError,
    >(cycle));
}

/// Two relations that each start with the other form a cycle: resolving the
/// first reaches the second, whose member leads back to the first.
pub proof fn lemma_two_relation_cycle(
    g: GraphModel,
    first: i64,
    second: i64,
    members: Seq<RelationMember>,
    kind: RelationGeometryKind,
)
    requires
        first != second,
        members.len() > 0,
        members[0] == (RelationMember { kind: MemberKind::Relation, id: second }),
        relation_entry(g, second) matches Some(Fetched::Found(nested)) && nested.len() > 0
            && nested[0] == (RelationMember { kind: MemberKind::Relation, id: first }),
    ensures
        relation_outcome(g, first, members, kind) == Err::<Seq<PieceModel>, GeometryError>(
            GeometryError::Cycle { member_id: first, relation_id: second },
        ),
{
    let stack = seq![first];
    let nested = relation_entry(g, second)->Some_0->Found_0;
    assert(!stack.contains(second)) by {
        if stack.contains(second) {
            let i = choose|i: int| 0 <= i < stack.len() && stack[i] == second;
            assert(stack[i] == first);
        }
    }
    assert(stack.push(second).contains(first)) by {
        assert(stack.push(second)[0] == first);
    }
    let i = choose|i: int| 0 <= i < g.relations.len() && g.relations[i].0 == second;
    assert(relation_ids(g)[i] == second);
    lemma_unvisited_shrinks(relation_ids(g), stack, second);
    let cycle = GeometryError::Cycle { member_id: first, relation_id: second };
    assert(collect_member(g, second, nested[0], kind, stack.push(second)) == Err::<
        Seq<PieceModel>,
        GeometryError,
    >(cycle));
    assert(collect_from(g, second, nested, 0, kind, stack.push(second)) == Err::<
        Seq<PieceModel>,
        GeometryError,
    >(cycle));
    assert(collect_member(g, first, members[0], kind, stack) == Err::<
        Seq<PieceModel>,
        GeometryError,
    >(cycle));
    assert(collect_from(g, first, members, 0, kind, stack) == Err::<Seq<PieceModel>, GeometryError>(
        cycle,
    ));
}


/// The name of a geometry kind, as column types and messages write it.
pub open spec fn geometry_kind_text(kind: GeometryKind) -> Seq<char> {
    match kind {
        GeometryKind::Point => "point"@,
        GeometryKind::LineString => "linestring"@,
        GeometryKind::MultiPoint => "multipoint"@,
        GeometryKind::MultiLineString => "multilinestring"@,
        GeometryKind::GeometryCollection => "geometrycollection"@,
    }
}

pub fn geometry_name(kind: GeometryKind) -> (r: &'static str)
    ensures
        r@ == geometry_kind_text(kind),
{
    match kind {
        GeometryKind::Point => "point",
        GeometryKind::LineString => "linestring",
        GeometryKind::MultiPoint => "multipoint",
        GeometryKind::MultiLineString => "multilinestring",
        GeometryKind::GeometryCollection => "geometrycollection",
    }
}

/// The name of a member type, as scripts see it.
pub open spec fn member_kind_text(kind: MemberKind) -> Seq<char> {
    match kind {
        MemberKind::Node => "node"@,
        MemberKind::Way => "way"@,
        MemberKind::Relation => "relation"@,
    }
}

impl MemberKind {
    pub fn as_str(self) -> (r: &'static str)
        ensures
            r@ == member_kind_text(self),
    {
        match self {
            MemberKind::Node => "node",
            MemberKind::Way => "way",
            MemberKind::Relation => "relation",
        }
    }
}

/// A way is closed when it has at least two nodes and ends where it starts.
pub fn way_is_closed(node_ids: &Vec<i64>) -> (r: bool)
    ensures
        r == (node_ids.len() >= 2 && node_ids@[0] == node_ids@[node_ids.len() - 1]),
{
    node_ids.len() >= 2 && node_ids[0] == node_ids[node_ids.len() - 1]
}

} // verus!
