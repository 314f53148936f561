//! Output layer schemas: sources, column types, layer definitions and the
//! rules a set of layers must follow.

use vstd::prelude::*;

use crate::geometry::{GeometryKind, GeometryModel, GeometryValue};
use crate::lua::{JsonModel, JsonValue};
use crate::text::{ascii_digit, ascii_letter, is_ascii_digit, is_ascii_letter, str_equals};

verus! {

/// The kind of OpenStreetMap object a layer reads from.
#[derive(Clone, Copy, Debug, PartialEq, Eq, Structural)]
pub enum SourceKind {
    Node,
    Way,
    Relation,
}

/// The name of a source as scripts write it.
pub open spec fn source_text(kind: SourceKind) -> Seq<char> {
    match kind {
        SourceKind::Node => "node"@,
        SourceKind::Way => "way"@,
        SourceKind::Relation => "relation"@,
    }
}

/// The source a script's text names, if any.
pub open spec fn source_from_text(text: Seq<char>) -> Option<SourceKind> {
    if text == "node"@ {
        Some(SourceKind::Node)
    } else if text == "way"@ {
        Some(SourceKind::Way)
    } else if text == "relation"@ {
        Some(SourceKind::Relation)
    } else {
        None
    }
}

impl SourceKind {
    /// Reads a source name; anything but `node`, `way` or `relation` is refused.
    pub fn parse(value: &str) -> (r: Result<SourceKind, SchemaError>)
        ensures
            match source_from_text(value@) {
                Some(kind) => r == Ok::<SourceKind, SchemaError>(kind),
                None => r matches Err(SchemaError::UnknownSource(text)) && text@ == value@,
            },
    {
        if str_equals(value, "node") {
            Ok(SourceKind::Node)
        } else if str_equals(value, "way") {
            Ok(SourceKind::Way)
        } else if str_equals(value, "relation") {
            Ok(SourceKind::Relation)
        } else {
            Err(SchemaError::UnknownSource(String::from_str(value)))
        }
    }

    pub fn as_str(self) -> (r: &'static str)
        ensures
            r@ == source_text(self),
    {
        match self {
            SourceKind::Node => "node",
            SourceKind::Way => "way",
            SourceKind::Relation => "relation",
        }
    }
}

/// The type of a layer column.
#[derive(Clone, Copy, Debug, PartialEq, Eq, Structural)]
pub enum ColumnType {
    String,
    Int64,
    Double,
    Boolean,
    Json,
    Point,
    LineString,
    MultiPoint,
    MultiLineString,
    GeometryCollection,
}

/// The name of a column type as scripts write it.
pub open spec fn column_type_text(kind: ColumnType) -> Seq<char> {
    match kind {
        ColumnType::String => "string"@,
        ColumnType::Int64 => "int64"@,
        ColumnType::Double => "double"@,
        ColumnType::Boolean => "boolean"@,
        ColumnType::Json => "json"@,
        ColumnType::Point => "point"@,
        ColumnType::LineString => "linestring"@,
        ColumnType::MultiPoint => "multipoint"@,
        ColumnType::MultiLineString => "multilinestring"@,
        ColumnType::GeometryCollection => "geometrycollection"@,
    }
}

/// The column type a script's text names, if any.
pub open spec fn column_type_from_text(text: Seq<char>) -> Option<ColumnType> {
    if text == "string"@ {
        Some(ColumnType::String)
    } else if text == "int64"@ {
        Some(ColumnType::Int64)
    } else if text == "double"@ {
        Some(ColumnType::Double)
    } else if text == "boolean"@ {
        Some(ColumnType::Boolean)
    } else if text == "json"@ {
        Some(ColumnType::Json)
    } else if text == "point"@ {
        Some(ColumnType::Point)
    } else if text == "linestring"@ {
        Some(ColumnType::LineString)
    } else if text == "multipoint"@ {
        Some(ColumnType::MultiPoint)
    } else if text == "multilinestring"@ {
        Some(ColumnType::MultiLineString)
    } else if text == "geometrycollection"@ {
        Some(ColumnType::GeometryCollection)
    } else {
        None
    }
}

/// The geometry kind a geometry column holds, if it is one.
pub open spec fn column_geometry_kind(kind: ColumnType) -> Option<GeometryKind> {
    match kind {
        ColumnType::Point => Some(GeometryKind::Point),
        ColumnType::LineString => Some(GeometryKind::LineString),
        ColumnType::MultiPoint => Some(GeometryKind::MultiPoint),
        ColumnType::MultiLineString => Some(GeometryKind::MultiLineString),
        ColumnType::GeometryCollection => Some(GeometryKind::GeometryCollection),
        _ => None,
    }
}

pub open spec fn is_geometry_type(kind: ColumnType) -> bool {
    column_geometry_kind(kind) is Some
}

/// Which geometry column types a layer of the given source may hold.
pub open spec fn geometry_fits_source(kind: ColumnType, source: SourceKind) -> bool {
    match source {
        SourceKind::Node => kind == ColumnType::Point,
        SourceKind::Way => kind == ColumnType::LineString,
        SourceKind::Relation => kind == ColumnType::MultiPoint || kind
            == ColumnType::MultiLineString || kind == ColumnType::GeometryCollection,
    }
}

impl ColumnType {
    /// Reads a column type name.
    pub fn parse(value: &str) -> (r: Result<ColumnType, SchemaError>)
        ensures
            match column_type_from_text(value@) {
                Some(kind) => r == Ok::<ColumnType, SchemaError>(kind),
                None => r matches Err(SchemaError::UnknownColumnType(text)) && text@ == value@,
            },
    {
        if str_equals(value, "string") {
            Ok(ColumnType::String)
        } else if str_equals(value, "int64") {
            Ok(ColumnType::Int64)
        } else if str_equals(value, "double") {
            Ok(ColumnType::Double)
        } else if str_equals(value, "boolean") {
            Ok(ColumnType::Boolean)
        } else if str_equals(value, "json") {
            Ok(ColumnType::Json)
        } else if str_equals(value, "point") {
            Ok(ColumnType::Point)
        } else if str_equals(value, "linestring") {
            Ok(ColumnType::LineString)
        } else if str_equals(value, "multipoint") {
            Ok(ColumnType::MultiPoint)
        } else if str_equals(value, "multilinestring") {
            Ok(ColumnType::MultiLineString)
        } else if str_equals(value, "geometrycollection") {
            Ok(ColumnType::GeometryCollection)
        } else {
            Err(SchemaError::UnknownColumnType(String::from_str(value)))
        }
    }

    pub fn as_str(self) -> (r: &'static str)
        ensures
            r@ == column_type_text(self),
    {
        match self {
            ColumnType::String => "string",
            ColumnType::Int64 => "int64",
            ColumnType::Double => "double",
            ColumnType::Boolean => "boolean",
            ColumnType::Json => "json",
            ColumnType::Point => "point",
            ColumnType::LineString => "linestring",
            ColumnType::MultiPoint => "multipoint",
            ColumnType::MultiLineString => "multilinestring",
            ColumnType::GeometryCollection => "geometrycollection",
        }
    }

    pub fn is_geometry(self) -> (r: bool)
        ensures
            r == is_geometry_type(self),
    {
        match self {
            ColumnType::Point | ColumnType::LineString | ColumnType::MultiPoint
            | ColumnType::MultiLineString | ColumnType::GeometryCollection => true,
            _ => false,
        }
    }

    /// Whether a geometry value may be stored in a column of this type: only
    /// a geometry of exactly the column's kind is.
    pub fn accepts(self, geometry: &GeometryValue) -> (r: bool)
        ensures
            r == (column_geometry_kind(self) == Some(geometry.kind_spec())),
    {
        let kind = geometry.kind();
        match self {
            ColumnType::Point => kind == GeometryKind::Point,
            ColumnType::LineString => kind == GeometryKind::LineString,
            ColumnType::MultiPoint => kind == GeometryKind::MultiPoint,
            ColumnType::MultiLineString => kind == GeometryKind::MultiLineString,
            ColumnType::GeometryCollection => kind == GeometryKind::GeometryCollection,
            _ => false,
        }
    }
}

/// One column of a layer.
#[derive(Clone, Debug, PartialEq, Eq)]
pub struct ColumnDef {
    pub name: String,
    pub column_type: ColumnType,
    pub required: bool,
}

/// A column as the contracts see it.
pub struct ColumnModel {
    pub name: Seq<char>,
    pub column_type: ColumnType,
    pub required: bool,
}

impl View for ColumnDef {
    type V = ColumnModel;

    open spec fn view(&self) -> ColumnModel {
        ColumnModel { name: self.name@, column_type: self.column_type, required: self.required }
    }
}

/// An output layer: its name, the source it reads and its columns.
#[derive(Clone, Debug, PartialEq, Eq)]
pub struct LayerDef {
    pub name: String,
    pub source: SourceKind,
    pub columns: Vec<ColumnDef>,
}

/// A layer as the contracts see it.
pub struct LayerModel {
    pub name: Seq<char>,
    pub source: SourceKind,
    pub columns: Seq<ColumnModel>,
}

impl View for LayerDef {
    type V = LayerModel;

    open spec fn view(&self) -> LayerModel {
        LayerModel {
            name: self.name@,
            source: self.source,
            columns: self.columns@.map_values(|c: ColumnDef| c@),
        }
    }
}

/// What a name belongs to, for the messages about it.
#[derive(Clone, Copy, Debug, PartialEq, Eq, Structural)]
pub enum NameKind {
    Layer,
    Column,
}

/// Why a layer or a set of layers was refused.
#[derive(Clone, Debug)]
pub enum SchemaError {
    UnknownSource(String),
    UnknownColumnType(String),
    EmptyName { kind: NameKind },
    InvalidName { kind: NameKind, name: String },
    ReservedName { kind: NameKind },
    NoColumns { layer: String },
    DuplicateColumn { layer: String, column: String },
    GeometryNotValidForSource { column_type: ColumnType, source: SourceKind, layer: String },
    MultipleGeometryColumns { layer: String },
    NoLayers,
    DuplicateLayer { layer: String },
    DuplicateLayerDefinition { layer: String, first_script: String, second_script: String },
}

/// A refusal as the contracts see it.
pub enum SchemaFault {
    UnknownSource(Seq<char>),
    UnknownColumnType(Seq<char>),
    EmptyName { kind: NameKind },
    InvalidName { kind: NameKind, name: Seq<char> },
    ReservedName { kind: NameKind },
    NoColumns { layer: Seq<char> },
    DuplicateColumn { layer: Seq<char>, column: Seq<char> },
    GeometryNotValidForSource { column_type: ColumnType, source: SourceKind, layer: Seq<char> },
    MultipleGeometryColumns { layer: Seq<char> },
    NoLayers,
    DuplicateLayer { layer: Seq<char> },
    DuplicateLayerDefinition { layer: Seq<char>, first_script: Seq<char>, second_script: Seq<char> },
}

impl View for SchemaError {
    type V = SchemaFault;

    open spec fn view(&self) -> SchemaFault {
        match self {
            SchemaError::UnknownSource(t) => SchemaFault::UnknownSource(t@),
            SchemaError::UnknownColumnType(t) => SchemaFault::UnknownColumnType(t@),
            SchemaError::EmptyName { kind } => SchemaFault::EmptyName { kind: *kind },
            SchemaError::InvalidName { kind, name } => SchemaFault::InvalidName {
                kind: *kind,
                name: name@,
            },
            SchemaError::ReservedName { kind } => SchemaFault::ReservedName { kind: *kind },
            SchemaError::NoColumns { layer } => SchemaFault::NoColumns { layer: layer@ },
            SchemaError::DuplicateColumn { layer, column } => SchemaFault::DuplicateColumn {
                layer: layer@,
                column: column@,
            },
            SchemaError::GeometryNotValidForSource { column_type, source, layer } =>
                SchemaFault::GeometryNotValidForSource {
                column_type: *column_type,
                source: *source,
                layer: layer@,
            },
            SchemaError::MultipleGeometryColumns { layer } => SchemaFault::MultipleGeometryColumns {
                layer: layer@,
            },
            SchemaError::NoLayers => SchemaFault::NoLayers,
            SchemaError::DuplicateLayer { layer } => SchemaFault::DuplicateLayer { layer: layer@ },
            SchemaError::DuplicateLayerDefinition { layer, first_script, second_script } =>
                SchemaFault::DuplicateLayerDefinition {
                layer: layer@,
                first_script: first_script@,
                second_script: second_script@,
            },
        }
    }
}

/// The word for a name's owner in messages.
pub open spec fn name_kind_text(kind: NameKind) -> Seq<char> {
    match kind {
        NameKind::Layer => "layer"@,
        NameKind::Column => "column"@,
    }
}

impl NameKind {
    pub fn as_str(self) -> (r: &'static str)
        ensures
            r@ == name_kind_text(self),
    {
        match self {
            NameKind::Layer => "layer",
            NameKind::Column => "column",
        }
    }
}

/// The message that reports a refusal.
pub open spec fn schema_message(fault: SchemaFault) -> Seq<char> {
    match fault {
        SchemaFault::UnknownSource(t) => "unknown layer source '"@ + t
            + "' (expected node, way, or relation)"@,
        SchemaFault::UnknownColumnType(t) => "unknown column type '"@ + t + "'"@,
        SchemaFault::EmptyName { kind } => name_kind_text(kind) + " name must not be empty"@,
        SchemaFault::InvalidName { kind, name } => "invalid "@ + name_kind_text(kind) + " name '"@
            + name
            + "'; use ASCII letters, digits, and underscores and do not start with a digit"@,
        SchemaFault::ReservedName { kind } => name_kind_text(kind)
            + " name 'fid' is reserved by the GeoPackage backend"@,
        SchemaFault::NoColumns { layer } => "layer '"@ + layer
            + "' must define at least one column"@,
        SchemaFault::DuplicateColumn { layer, column } => "layer '"@ + layer
            + "' has duplicate column '"@ + column + "'"@,
        SchemaFault::GeometryNotValidForSource { column_type, source, layer } => "geometry type '"@
            + column_type_text(column_type) + "' is not valid for "@ + source_text(source)
            + " layer '"@ + layer + "'"@,
        SchemaFault::MultipleGeometryColumns { layer } => "layer '"@ + layer
            + "' may define at most one geometry column"@,
        SchemaFault::NoLayers => "Lua script did not define any output layers"@,
        SchemaFault::DuplicateLayer { layer } => "duplicate layer name '"@ + layer + "'"@,
        SchemaFault::DuplicateLayerDefinition { layer, first_script, second_script } =>
            "duplicate layer name '"@ + layer + "' in '"@ + second_script
            + "' (already defined by '"@ + first_script + "')"@,
    }
}

impl SchemaError {
    /// The message that reports this refusal.
    pub fn message(&self) -> (r: String)
        ensures
            r@ == schema_message(self@),
    {
        let mut text = String::new();
        match self {
            SchemaError::UnknownSource(t) => {
                text.append("unknown layer source '");
                text.append(t.as_str());
                text.append("' (expected node, way, or relation)");
            },
            SchemaError::UnknownColumnType(t) => {
                text.append("unknown column type '");
                text.append(t.as_str());
                text.append("'");
            },
            SchemaError::EmptyName { kind } => {
                text.append(kind.as_str());
                text.append(" name must not be empty");
            },
            SchemaError::InvalidName { kind, name } => {
                text.append("invalid ");
                text.append(kind.as_str());
                text.append(" name '");
                text.append(name.as_str());
                text.append(
                    "'; use ASCII letters, digits, and underscores and do not start with a digit",
                );
            },
            SchemaError::ReservedName { kind } => {
                text.append(kind.as_str());
                text.append(" name 'fid' is reserved by the GeoPackage backend");
            },
            SchemaError::NoColumns { layer } => {
                text.append("layer '");
                text.append(layer.as_str());
                text.append("' must define at least one column");
            },
            SchemaError::DuplicateColumn { layer, column } => {
                text.append("layer '");
                text.append(layer.as_str());
                text.append("' has duplicate column '");
                text.append(column.as_str());
                text.append("'");
            },
            SchemaError::GeometryNotValidForSource { column_type, source, layer } => {
                text.append("geometry type '");
                text.append(column_type.as_str());
                text.append("' is not valid for ");
                text.append(source.as_str());
                text.append(" layer '");
                text.append(layer.as_str());
                text.append("'");
            },
            SchemaError::MultipleGeometryColumns { layer } => {
                text.append("layer '");
                text.append(layer.as_str());
                text.append("' may define at most one geometry column");
            },
            SchemaError::NoLayers => {
                text.append("Lua script did not define any output layers");
            },
            SchemaError::DuplicateLayer { layer } => {
                text.append("duplicate layer name '");
                text.append(layer.as_str());
                text.append("'");
            },
            SchemaError::DuplicateLayerDefinition { layer, first_script, second_script } => {
                text.append("duplicate layer name '");
                text.append(layer.as_str());
                text.append("' in '");
                text.append(second_script.as_str());
                text.append("' (already defined by '");
                text.append(first_script.as_str());
                text.append("')");
            },
        }
        text
    }
}

/// A character that may open a name: an ASCII letter or an underscore.
pub open spec fn is_name_start(c: char) -> bool {
    is_ascii_letter(c) || c == '_'
}

/// A character that may continue a name: an ASCII letter, digit or underscore.
pub open spec fn is_name_char(c: char) -> bool {
    is_ascii_letter(c) || is_ascii_digit(c) || c == '_'
}

/// A well-formed name: non-empty, made of ASCII letters, digits and
/// underscores, and not starting with a digit.
pub open spec fn is_well_formed_name(name: Seq<char>) -> bool {
    &&& name.len() > 0
    &&& is_name_start(name[0])
    &&& forall|i: int| 1 <= i < name.len() ==> is_name_char(#[trigger] name[i])
}

/// What is wrong with a layer or column name, if anything. `fid` is kept for
/// the GeoPackage backend's own key column.
pub open spec fn name_fault(kind: NameKind, name: Seq<char>) -> Option<SchemaFault> {
    if name.len() == 0 {
        Some(SchemaFault::EmptyName { kind })
    } else if !is_well_formed_name(name) {
        Some(SchemaFault::InvalidName { kind, name })
    } else if name == "fid"@ {
        Some(SchemaFault::ReservedName { kind })
    } else {
        None
    }
}

/// The fault found at column `i` of a layer whose earlier columns passed.
pub open spec fn column_fault(layer: LayerModel, i: int) -> Option<SchemaFault> {
    let column = layer.columns[i];
    if name_fault(NameKind::Column, column.name) is Some {
        name_fault(NameKind::Column, column.name)
    } else if exists|j: int| 0 <= j < i && #[trigger] layer.columns[j].name == column.name {
        Some(SchemaFault::DuplicateColumn { layer: layer.name, column: column.name })
    } else if is_geometry_type(column.column_type) && !geometry_fits_source(
        column.column_type,
        layer.source,
    ) {
        Some(
            SchemaFault::GeometryNotValidForSource {
                column_type: column.column_type,
                source: layer.source,
                layer: layer.name,
            },
        )
    } else {
        None
    }
}

/// The first column fault among the first `n` columns, in column order.
pub open spec fn first_column_fault(layer: LayerModel, n: int) -> Option<SchemaFault>
    decreases n,
{
    if n <= 0 {
        None
    } else {
        match first_column_fault(layer, n - 1) {
            Some(fault) => Some(fault),
            None => column_fault(layer, n - 1),
        }
    }
}

/// How many geometry columns are among the first `n` columns.
pub open spec fn geometry_count(columns: Seq<ColumnModel>, n: int) -> nat
    decreases n,
{
    if n <= 0 {
        0
    } else {
        geometry_count(columns, n - 1) + if is_geometry_type(columns[n - 1].column_type) {
            1nat
        } else {
            0nat
        }
    }
}

/// Why a layer is refused, if it is: its name, then each column in order
/// (name, uniqueness, geometry type against the source), then the number of
/// geometry columns.
pub open spec fn layer_fault(layer: LayerModel) -> Option<SchemaFault> {
    if name_fault(NameKind::Layer, layer.name) is Some {
        name_fault(NameKind::Layer, layer.name)
    } else if layer.columns.len() == 0 {
        Some(SchemaFault::NoColumns { layer: layer.name })
    } else if first_column_fault(layer, layer.columns.len() as int) is Some {
        first_column_fault(layer, layer.columns.len() as int)
    } else if geometry_count(layer.columns, layer.columns.len() as int) > 1 {
        Some(SchemaFault::MultipleGeometryColumns { layer: layer.name })
    } else {
        None
    }
}

/// The fault found at layer `i` of a schema whose earlier layers passed.
pub open spec fn schema_layer_fault(layers: Seq<LayerModel>, i: int) -> Option<SchemaFault> {
    if layer_fault(layers[i]) is Some {
        layer_fault(layers[i])
    } else if exists|j: int| 0 <= j < i && #[trigger] layers[j].name == layers[i].name {
        Some(SchemaFault::DuplicateLayer { layer: layers[i].name })
    } else {
        None
    }
}

/// The first fault among the first `n` layers.
pub open spec fn first_schema_fault(layers: Seq<LayerModel>, n: int) -> Option<SchemaFault>
    decreases n,
{
    if n <= 0 {
        None
    } else {
        match first_schema_fault(layers, n - 1) {
            Some(fault) => Some(fault),
            None => schema_layer_fault(layers, n - 1),
        }
    }
}

/// Why a whole schema is refused, if it is: it must have a layer, every layer
/// must pass, and layer names must be unique.
pub open spec fn schema_fault(layers: Seq<LayerModel>) -> Option<SchemaFault> {
    if layers.len() == 0 {
        Some(SchemaFault::NoLayers)
    } else {
        first_schema_fault(layers, layers.len() as int)
    }
}

/// The index of the first geometry column among the first `n` columns.
pub open spec fn first_geometry_column(columns: Seq<ColumnModel>, n: int) -> Option<int>
    decreases n,
{
    if n <= 0 {
        None
    } else {
        match first_geometry_column(columns, n - 1) {
            Some(i) => Some(i),
            None => if is_geometry_type(columns[n - 1].column_type) {
                Some(n - 1)
            } else {
                None
            },
        }
    }
}

/// Once a column fault is found among the first `k` columns, it stays the
/// first one for every longer prefix.
proof fn lemma_column_fault_stays(layer: LayerModel, k: int, n: int)
    requires
        0 <= k <= n,
        first_column_fault(layer, k) is Some,
    ensures
        first_column_fault(layer, n) == first_column_fault(layer, k),
    decreases n - k,
{
    if n > k {
        lemma_column_fault_stays(layer, k, n - 1);
    }
}

/// Once a layer fault is found among the first `k` layers, it stays the
/// first one for every longer prefix.
proof fn lemma_schema_fault_stays(layers: Seq<LayerModel>, k: int, n: int)
    requires
        0 <= k <= n,
        first_schema_fault(layers, k) is Some,
    ensures
        first_schema_fault(layers, n) == first_schema_fault(layers, k),
    decreases n - k,
{
    if n > k {
        lemma_schema_fault_stays(layers, k, n - 1);
    }
}

/// Once a geometry column is found among the first `k` columns, it stays the
/// first one for every longer prefix.
proof fn lemma_geometry_column_stays(columns: Seq<ColumnModel>, k: int, n: int)
    requires
        0 <= k <= n,
        first_geometry_column(columns, k) is Some,
    ensures
        first_geometry_column(columns, n) == first_geometry_column(columns, k),
    decreases n - k,
{
    if n > k {
        lemma_geometry_column_stays(columns, k, n - 1);
    }
}

/// Checks a layer or column name.
pub fn validate_identifier(kind: NameKind, value: &str) -> (r: Result<(), SchemaError>)
    ensures
        match name_fault(kind, value@) {
            None => r is Ok,
            Some(fault) => r matches Err(e) && e@ == fault,
        },
{
    let length = value.unicode_len();
    if length == 0 {
        return Err(SchemaError::EmptyName { kind });
    }
    let first = value.get_char(0);
    let mut well_formed = ascii_letter(first) || first == '_';
    let mut i: usize = 1;
    while i < length
        invariant
            length == value@.len(),
            1 <= i <= length,
            well_formed == (is_name_start(value@[0]) && forall|k: int|
                1 <= k < i ==> is_name_char(#[trigger] value@[k])),
        decreases length - i,
    {
        let c = value.get_char(i);
        let ok = ascii_letter(c) || ascii_digit(c) || c == '_';
        proof {
            if !ok {
                assert(!is_name_char(value@[i as int]));
            }
        }
        well_formed = well_formed && ok;
        i = i + 1;
    }
    if !well_formed {
        return Err(SchemaError::InvalidName { kind, name: String::from_str(value) });
    }
    if str_equals(value, "fid") {
        return Err(SchemaError::ReservedName { kind });
    }
    Ok(())
}

impl LayerDef {
    /// Checks one layer: a valid name, at least one column, valid and unique
    /// column names, geometry columns that fit the source, and at most one
    /// geometry column.
    pub fn validate(&self) -> (r: Result<(), SchemaError>)
        ensures
            match layer_fault(self@) {
                None => r is Ok,
                Some(fault) => r matches Err(e) && e@ == fault,
            },
    {
        validate_identifier(NameKind::Layer, self.name.as_str())?;
        let n = self.columns.len();
        if n == 0 {
            return Err(SchemaError::NoColumns { layer: self.name.clone() });
        }
        let ghost model = self@;
        let mut geometry_columns: usize = 0;
        let mut i: usize = 0;
        while i < n
            invariant
                n == self.columns.len(),
                model == self@,
                i <= n,
                name_fault(NameKind::Layer, model.name) is None,
                first_column_fault(model, i as int) is None,
                geometry_columns == geometry_count(model.columns, i as int),
                geometry_columns <= i,
            decreases n - i,
        {
            let column = &self.columns[i];
            assert(model.columns[i as int] == column@);
            let named = validate_identifier(NameKind::Column, column.name.as_str());
            if named.is_err() {
                proof {
                    lemma_column_fault_stays(model, i + 1, n as int);
                }
                return named;
            }
            let mut j: usize = 0;
            while j < i
                invariant
                    n == self.columns.len(),
                    model == self@,
                    j <= i < n,
                    column == &self.columns[i as int],
                    name_fault(NameKind::Column, column.name@) is None,
                    name_fault(NameKind::Layer, model.name) is None,
                    first_column_fault(model, i as int) is None,
                    forall|k: int| 0 <= k < j ==> model.columns[k].name != column.name@,
                decreases i - j,
            {
                if self.columns[j].name == column.name {
                    assert(model.columns[j as int].name == column.name@);
                    assert(name_fault(NameKind::Column, column.name@) is None);
                    assert(column_fault(model, i as int) == Some(
                        SchemaFault::DuplicateColumn { layer: model.name, column: column.name@ },
                    ));
                    proof {
                        lemma_column_fault_stays(model, i + 1, n as int);
                    }
                    return Err(
                        SchemaError::DuplicateColumn {
                            layer: self.name.clone(),
                            column: column.name.clone(),
                        },
                    );
                }
                j = j + 1;
            }
            if column.column_type.is_geometry() {
                geometry_columns = geometry_columns + 1;
                let valid = match self.source {
                    SourceKind::Node => column.column_type == ColumnType::Point,
                    SourceKind::Way => column.column_type == ColumnType::LineString,
                    SourceKind::Relation => column.column_type == ColumnType::MultiPoint
                        || column.column_type == ColumnType::MultiLineString
                        || column.column_type == ColumnType::GeometryCollection,
                };
                if !valid {
                    proof {
                        lemma_column_fault_stays(model, i + 1, n as int);
                    }
                    return Err(
                        SchemaError::GeometryNotValidForSource {
                            column_type: column.column_type,
                            source: self.source,
                            layer: self.name.clone(),
                        },
                    );
                }
            }
            i = i + 1;
        }
        if geometry_columns > 1 {
            return Err(SchemaError::MultipleGeometryColumns { layer: self.name.clone() });
        }
        Ok(())
    }

    /// The first geometry column of the layer, with its index.
    pub fn geometry_column(&self) -> (r: Option<(usize, &ColumnDef)>)
        ensures
            match first_geometry_column(self@.columns, self@.columns.len() as int) {
                None => r is None,
                Some(i) => r matches Some((k, column)) && k == i && column == &self.columns[i],
            },
    {
        let n = self.columns.len();
        let ghost model = self@;
        let mut i: usize = 0;
        while i < n
            invariant
                n == self.columns.len(),
                model == self@,
                i <= n,
                first_geometry_column(model.columns, i as int) is None,
            decreases n - i,
        {
            assert(model.columns[i as int] == self.columns[i as int]@);
            if self.columns[i].column_type.is_geometry() {
                proof {
                    lemma_geometry_column_stays(model.columns, i + 1, n as int);
                }
                return Some((i, &self.columns[i]));
            }
            i = i + 1;
        }
        None
    }
}

/// Checks a whole schema: at least one layer, every layer valid, and layer
/// names unique.
pub fn validate_schema(layers: &[LayerDef]) -> (r: Result<(), SchemaError>)
    ensures
        match schema_fault(layers@.map_values(|l: LayerDef| l@)) {
            None => r is Ok,
            Some(fault) => r matches Err(e) && e@ == fault,
        },
{
    let ghost models = layers@.map_values(|l: LayerDef| l@);
    let n = layers.len();
    if n == 0 {
        return Err(SchemaError::NoLayers);
    }
    let mut i: usize = 0;
    while i < n
        invariant
            n == layers@.len(),
            models == layers@.map_values(|l: LayerDef| l@),
            i <= n,
            first_schema_fault(models, i as int) is None,
        decreases n - i,
    {
        let layer = &layers[i];
        assert(models[i as int] == layer@);
        let checked = layer.validate();
        if checked.is_err() {
            proof {
                lemma_schema_fault_stays(models, i + 1, n as int);
            }
            return checked;
        }
        let mut j: usize = 0;
        while j < i
            invariant
                n == layers@.len(),
                models == layers@.map_values(|l: LayerDef| l@),
                j <= i < n,
                layer == &layers[i as int],
                layer_fault(models[i as int]) is None,
                first_schema_fault(models, i as int) is None,
                forall|k: int| 0 <= k < j ==> models[k].name != layer.name@,
            decreases i - j,
        {
            if layers[j].name == layer.name {
                assert(models[j as int].name == layer.name@);
                proof {
                    lemma_schema_fault_stays(models, i + 1, n as int);
                }
                return Err(SchemaError::DuplicateLayer { layer: layer.name.clone() });
            }
            j = j + 1;
        }
        i = i + 1;
    }
    Ok(())
}

/// A value written to a layer column. A double is held as its IEEE-754 bits;
/// JSON is held as a tree and serialised by the output backends.
#[derive(Debug)]
pub enum OutputValue {
    Null,
    String(String),
    Int64(i64),
    Double(u64),
    Boolean(bool),
    Json(JsonValue),
    Geometry(GeometryValue),
}

/// A column value as the contracts see it.
pub enum OutputModel {
    Null,
    String(Seq<char>),
    Int64(i64),
    Double(u64),
    Boolean(bool),
    Json(JsonModel),
    Geometry(GeometryModel),
}

impl View for OutputValue {
    type V = OutputModel;

    open spec fn view(&self) -> OutputModel {
        match self {
            OutputValue::Null => OutputModel::Null,
            OutputValue::String(s) => OutputModel::String(s@),
            OutputValue::Int64(v) => OutputModel::Int64(*v),
            OutputValue::Double(bits) => OutputModel::Double(*bits),
            OutputValue::Boolean(b) => OutputModel::Boolean(*b),
            OutputValue::Json(j) => OutputModel::Json(j@),
            OutputValue::Geometry(g) => OutputModel::Geometry(g@),
        }
    }
}

/// One row for one layer.
#[derive(Debug)]
pub struct OutputRow {
    pub layer_index: usize,
    pub values: Vec<OutputValue>,
}

/// A row as the contracts see it.
pub struct OutputRowModel {
    pub layer_index: usize,
    pub values: Seq<OutputModel>,
}

impl View for OutputRow {
    type V = OutputRowModel;

    open spec fn view(&self) -> OutputRowModel {
        OutputRowModel {
            layer_index: self.layer_index,
            values: self.values@.map_values(|v: OutputValue| v@),
        }
    }
}

/// A value fits a column when it is null or of the column's type; a geometry
/// must be of exactly the column's geometry kind.
pub open spec fn value_fits(value: OutputModel, kind: ColumnType) -> bool {
    match value {
        OutputModel::Null => true,
        OutputModel::String(_) => kind == ColumnType::String,
        OutputModel::Int64(_) => kind == ColumnType::Int64,
        OutputModel::Double(_) => kind == ColumnType::Double,
        OutputModel::Boolean(_) => kind == ColumnType::Boolean,
        OutputModel::Json(_) => kind == ColumnType::Json,
        OutputModel::Geometry(g) => column_geometry_kind(kind) == Some(model_kind(g)),
    }
}

/// The kind of a geometry model.
pub open spec fn model_kind(g: GeometryModel) -> GeometryKind {
    match g {
        GeometryModel::Point(_) => GeometryKind::Point,
        GeometryModel::LineString(_) => GeometryKind::LineString,
        GeometryModel::MultiPoint(_) => GeometryKind::MultiPoint,
        GeometryModel::MultiLineString(_) => GeometryKind::MultiLineString,
        GeometryModel::GeometryCollection(_) => GeometryKind::GeometryCollection,
    }
}

/// A row fits a layer: one value per column, each fitting its column, and
/// no null in a required column.
pub open spec fn row_fits(layer: LayerModel, values: Seq<OutputModel>) -> bool {
    &&& values.len() == layer.columns.len()
    &&& forall|i: int|
        0 <= i < values.len() ==> value_fits(#[trigger] values[i], layer.columns[i].column_type)
    &&& forall|i: int|
        0 <= i < values.len() && layer.columns[i].required ==> !(#[trigger] values[i] is Null)
}


/// Every source reads back as itself from its name.
pub proof fn lemma_source_names_round_trip(kind: SourceKind)
    ensures
        source_from_text(source_text(kind)) == Some(kind),
{
    reveal_strlit("node");
    reveal_strlit("way");
    reveal_strlit("relation");
    match kind {
        SourceKind::Node => {

        },
        SourceKind::Way => {
            assert("way"@.len() != "node"@.len());
        },
        SourceKind::Relation => {
            assert("relation"@.len() != "node"@.len());
            assert("relation"@.len() != "way"@.len());
        },
    }
}

/// Every column type reads back as itself from its name.
pub proof fn lemma_column_type_names_round_trip(kind: ColumnType)
    ensures
        column_type_from_text(column_type_text(kind)) == Some(kind),
{
    reveal_strlit("string");
    reveal_strlit("int64");
    reveal_strlit("double");
    reveal_strlit("boolean");
    reveal_strlit("json");
    reveal_strlit("point");
    reveal_strlit("linestring");
    reveal_strlit("multipoint");
    reveal_strlit("multilinestring");
    reveal_strlit("geometrycollection");
    match kind {
        ColumnType::String => {

        },
        ColumnType::Int64 => {
            assert("int64"@.len() != "string"@.len());
        },
        ColumnType::Double => {
            assert("double"@[0] != "string"@[0]);
            assert("double"@.len() != "int64"@.len());
        },
        ColumnType::Boolean => {
            assert("boolean"@.len() != "string"@.len());
            assert("boolean"@.len() != "int64"@.len());
            assert("boolean"@.len() != "double"@.len());
        },
        ColumnType::Json => {
            assert("json"@.len() != "string"@.len());
            assert("json"@.len() != "int64"@.len());
            assert("json"@.len() != "double"@.len());
            assert("json"@.len() != "boolean"@.len());
        },
        ColumnType::Point => {
            assert("point"@.len() != "string"@.len());
            assert("point"@[0] != "int64"@[0]);
            assert("point"@.len() != "double"@.len());
            assert("point"@.len() != "boolean"@.len());
            assert("point"@.len() != "json"@.len());
        },
        ColumnType::LineString => {
            assert("linestring"@.len() != "string"@.len());
            assert("linestring"@.len() != "int64"@.len());
            assert("linestring"@.len() != "double"@.len());
            assert("linestring"@.len() != "boolean"@.len());
            assert("linestring"@.len() != "json"@.len());
            assert("linestring"@.len() != "point"@.len());
        },
        ColumnType::MultiPoint => {
            assert("multipoint"@.len() != "string"@.len());
            assert("multipoint"@.len() != "int64"@.len());
            assert("multipoint"@.len() != "double"@.len());
            assert("multipoint"@.len() != "boolean"@.len());
            assert("multipoint"@.len() != "json"@.len());
            assert("multipoint"@.len() != "point"@.len());
            assert("multipoint"@[0] != "linestring"@[0]);
        },
        ColumnType::MultiLineString => {
            assert("multilinestring"@.len() != "string"@.len());
            assert("multilinestring"@.len() != "int64"@.len());
            assert("multilinestring"@.len() != "double"@.len());
            assert("multilinestring"@.len() != "boolean"@.len());
            assert("multilinestring"@.len() != "json"@.len());
            assert("multilinestring"@.len() != "point"@.len());
            assert("multilinestring"@.len() != "linestring"@.len());
            assert("multilinestring"@.len() != "multipoint"@.len());
        },
        ColumnType::GeometryCollection => {
            assert("geometrycollection"@.len() != "string"@.len());
            assert("geometrycollection"@.len() != "int64"@.len());
            assert("geometrycollection"@.len() != "double"@.len());
            assert("geometrycollection"@.len() != "boolean"@.len());
            assert("geometrycollection"@.len() != "json"@.len());
            assert("geometrycollection"@.len() != "point"@.len());
            assert("geometrycollection"@.len() != "linestring"@.len());
            assert("geometrycollection"@.len() != "multipoint"@.len());
            assert("geometrycollection"@.len() != "multilinestring"@.len());
        },
    }
}

/// What an accepted layer satisfies: a well-formed name other than `fid`, at
/// least one column, well-formed and unique column names other than `fid`,
/// geometry columns that fit the source, and at most one geometry column.
pub open spec fn layer_is_sound(layer: LayerModel) -> bool {
    &&& is_well_formed_name(layer.name)
    &&& layer.name != "fid"@
    &&& layer.columns.len() > 0
    &&& forall|k: int|
        0 <= k < layer.columns.len() ==> is_well_formed_name(#[trigger] layer.columns[k].name)
            && layer.columns[k].name != "fid"@
    &&& forall|j: int, k: int|
        0 <= j < k < layer.columns.len() ==> layer.columns[j].name != layer.columns[k].name
    &&& forall|k: int|
        0 <= k < layer.columns.len() && is_geometry_type(#[trigger] layer.columns[k].column_type)
            ==> geometry_fits_source(layer.columns[k].column_type, layer.source)
    &&& geometry_count(layer.columns, layer.columns.len() as int) <= 1
}

proof fn lemma_no_column_fault_upto(layer: LayerModel, n: int)
    requires
        first_column_fault(layer, n) is None,
    ensures
        forall|i: int| 0 <= i < n ==> #[trigger] column_fault(layer, i) is None,
    decreases n,
{
    if n > 0 {
        lemma_no_column_fault_upto(layer, n - 1);
    }
}

proof fn lemma_no_schema_fault_upto(layers: Seq<LayerModel>, n: int)
    requires
        first_schema_fault(layers, n) is None,
    ensures
        forall|i: int| 0 <= i < n ==> #[trigger] schema_layer_fault(layers, i) is None,
    decreases n,
{
    if n > 0 {
        lemma_no_schema_fault_upto(layers, n - 1);
    }
}

/// A layer that `validate` accepts is sound.
pub proof fn lemma_accepted_layer_is_sound(layer: LayerModel)
    requires
        layer_fault(layer) is None,
    ensures
        layer_is_sound(layer),
{
    let n = layer.columns.len() as int;
    lemma_no_column_fault_upto(layer, n);
    assert forall|j: int, k: int| 0 <= j < k < n implies layer.columns[j].name
        != layer.columns[k].name by {
        assert(column_fault(layer, k) is None);
    }
    assert forall|k: int| 0 <= k < n implies is_well_formed_name(#[trigger] layer.columns[k].name)
        && layer.columns[k].name != "fid"@ by {
        assert(column_fault(layer, k) is None);
    }
    assert forall|k: int|
        0 <= k < n && is_geometry_type(#[trigger] layer.columns[k].column_type) implies geometry_fits_source(
        layer.columns[k].column_type,
        layer.source,
    ) by {
        assert(column_fault(layer, k) is None);
    }
}

/// A sound layer is accepted: `validate` accepts exactly the sound layers.
pub proof fn lemma_sound_layer_is_accepted(layer: LayerModel)
    requires
        layer_is_sound(layer),
    ensures
        layer_fault(layer) is None,
{
    reveal_strlit("fid");
    lemma_sound_columns_pass(layer, layer.columns.len() as int);
}

proof fn lemma_sound_columns_pass(layer: LayerModel, n: int)
    requires
        layer_is_sound(layer),
        0 <= n <= layer.columns.len(),
    ensures
        first_column_fault(layer, n) is None,
    decreases n,
{
    if n > 0 {
        lemma_sound_columns_pass(layer, n - 1);
        let i = n - 1;
        let column = layer.columns[i];
        assert(is_well_formed_name(column.name) && column.name != "fid"@);
        assert(name_fault(NameKind::Column, column.name) is None);
        assert(!exists|j: int| 0 <= j < i && #[trigger] layer.columns[j].name == column.name) by {
            assert forall|j: int| 0 <= j < i implies #[trigger] layer.columns[j].name != column.name by {
                assert(layer.columns[j].name != layer.columns[i].name);
            }
        }
        if is_geometry_type(column.column_type) {
            assert(geometry_fits_source(layer.columns[i].column_type, layer.source));
        }
        assert(column_fault(layer, i) is None);
    }
}

/// A schema that `validate_schema` accepts has at least one layer, unique
/// layer names, and only sound layers.
pub proof fn lemma_accepted_schema(layers: Seq<LayerModel>)
    requires
        schema_fault(layers) is None,
    ensures
        layers.len() > 0,
        forall|i: int, j: int| 0 <= i < j < layers.len() ==> layers[i].name != layers[j].name,
        forall|i: int| 0 <= i < layers.len() ==> layer_is_sound(#[trigger] layers[i]),
{
    let n = layers.len() as int;
    lemma_no_schema_fault_upto(layers, n);
    assert forall|i: int, j: int| 0 <= i < j < n implies layers[i].name != layers[j].name by {
        assert(schema_layer_fault(layers, j) is None);
    }
    assert forall|i: int| 0 <= i < n implies layer_is_sound(#[trigger] layers[i]) by {
        assert(schema_layer_fault(layers, i) is None);
        lemma_accepted_layer_is_sound(layers[i]);
    }
}

/// Layers that each pass, with unique names, form an accepted schema once
/// there is at least one.
pub proof fn lemma_schema_of_valid_layers(layers: Seq<LayerModel>)
    requires
        layers.len() > 0,
        forall|i: int| 0 <= i < layers.len() ==> #[trigger] layer_fault(layers[i]) is None,
        forall|i: int, j: int| 0 <= i < j < layers.len() ==> layers[i].name != layers[j].name,
    ensures
        schema_fault(layers) is None,
{
    lemma_schema_prefix_passes(layers, layers.len() as int);
}

proof fn lemma_schema_prefix_passes(layers: Seq<LayerModel>, n: int)
    requires
        0 <= n <= layers.len(),
        forall|i: int| 0 <= i < layers.len() ==> #[trigger] layer_fault(layers[i]) is None,
        forall|i: int, j: int| 0 <= i < j < layers.len() ==> layers[i].name != layers[j].name,
    ensures
        first_schema_fault(layers, n) is None,
    decreases n,
{
    if n > 0 {
        lemma_schema_prefix_passes(layers, n - 1);
        assert(layer_fault(layers[n - 1]) is None);
        assert(!exists|j: int| 0 <= j < n - 1 && #[trigger] layers[j].name == layers[n - 1].name);
    }
}

} // verus!
