//! What the output backends share: batching rows per layer, the GeoPackage
//! statements and geometry framing, and layer extents.

use vstd::prelude::*;

use crate::geometry::{Coord, GeometryModel, GeometryValue};
use crate::schema::{
    is_geometry_type, ColumnModel, ColumnType, LayerDef, LayerModel, OutputRow, OutputRowModel,
    OutputValue,
};
use crate::lua::JsonValue;
use crate::text::{decimal, joined, push_decimal};

verus! {

/// How many rows of one layer are written together.
pub const BATCH_SIZE: usize = 2048;

/// Why a row could not be written.
#[derive(Clone, Copy, Debug, PartialEq, Eq, Structural)]
pub enum OutputError {
    /// The row names a layer the output does not have.
    UnknownLayer { index: usize },
}

pub open spec fn rows_model(rows: Seq<OutputRow>) -> Seq<OutputRowModel> {
    rows.map_values(|r: OutputRow| r@)
}

/// Rows waiting to be written, per layer.
pub struct RowBatcher {
    buffers: Vec<Vec<OutputRow>>,
}

/// The batches to write at the end: every layer with rows waiting, in layer
/// order, among the first `n` layers.
pub open spec fn pending_batches(buffered: Seq<Seq<OutputRowModel>>, n: int) -> Seq<
    (usize, Seq<OutputRowModel>),
>
    decreases n,
{
    if n <= 0 {
        seq![]
    } else {
        pending_batches(buffered, n - 1) + if buffered[n - 1].len() > 0 {
            seq![((n - 1) as usize, buffered[n - 1])]
        } else {
            seq![]
        }
    }
}

/// One row joining the queues: it goes to its layer's queue, and a queue
/// that reaches a full batch is handed back and starts afresh.
pub open spec fn push_step(buffered: Seq<Seq<OutputRowModel>>, row: OutputRowModel) -> (
    Option<(usize, Seq<OutputRowModel>)>,
    Seq<Seq<OutputRowModel>>,
) {
    let l = row.layer_index as int;
    let queued = buffered[l].push(row);
    if queued.len() >= BATCH_SIZE {
        (Some((row.layer_index, queued)), buffered.update(l, seq![]))
    } else {
        (None, buffered.update(l, queued))
    }
}

/// The batch a push handed back, if any.
pub open spec fn handed(r: Result<Option<(usize, Vec<OutputRow>)>, OutputError>) -> Option<
    (usize, Seq<OutputRowModel>),
> {
    match r {
        Ok(Some(batch)) => Some((batch.0, rows_model(batch.1@))),
        _ => None,
    }
}

/// The batches handed back while the rows join the queues one by one, and
/// the queues at the end.
pub open spec fn pushes(buffered: Seq<Seq<OutputRowModel>>, rows: Seq<OutputRowModel>) -> (
    Seq<(usize, Seq<OutputRowModel>)>,
    Seq<Seq<OutputRowModel>>,
)
    decreases rows.len(),
{
    if rows.len() == 0 {
        (seq![], buffered)
    } else {
        let (batches, queues) = pushes(buffered, rows.drop_last());
        let (batch, next) = push_step(queues, rows.last());
        (
            batches + match batch {
                Some(b) => seq![b],
                None => seq![],
            },
            next,
        )
    }
}

/// The rows of layer `l`, in order.
pub open spec fn rows_for(rows: Seq<OutputRowModel>, l: int) -> Seq<OutputRowModel>
    decreases rows.len(),
{
    if rows.len() == 0 {
        seq![]
    } else {
        rows_for(rows.drop_last(), l) + if rows.last().layer_index == l {
            seq![rows.last()]
        } else {
            seq![]
        }
    }
}

/// The rows that the batches for layer `l` carry, in order.
pub open spec fn batches_for(batches: Seq<(usize, Seq<OutputRowModel>)>, l: int) -> Seq<OutputRowModel>
    decreases batches.len(),
{
    if batches.len() == 0 {
        seq![]
    } else {
        batches_for(batches.drop_last(), l) + if batches.last().0 == l {
            batches.last().1
        } else {
            seq![]
        }
    }
}

proof fn lemma_batches_for_single(b: (usize, Seq<OutputRowModel>), l: int)
    ensures
        batches_for(seq![b], l) == if b.0 == l {
            b.1
        } else {
            Seq::<OutputRowModel>::empty()
        },
{
    let one = seq![b];
    let none = one.drop_last();
    assert(none.len() == 0);
    assert(batches_for(none, l) == Seq::<OutputRowModel>::empty());
    assert(one.last() == b);
    let tail = if b.0 == l {
        b.1
    } else {
        Seq::<OutputRowModel>::empty()
    };
    assert(batches_for(one, l) == batches_for(none, l) + tail);
    assert(Seq::<OutputRowModel>::empty() + tail =~= tail);
}

proof fn lemma_batches_for_concat(a: Seq<(usize, Seq<OutputRowModel>)>, b: Seq<(usize, Seq<OutputRowModel>)>, l: int)
    ensures
        batches_for(a + b, l) == batches_for(a, l) + batches_for(b, l),
    decreases b.len(),
{
    if b.len() == 0 {
        assert(a + b =~= a);
        assert(batches_for(a, l) + seq![] =~= batches_for(a, l));
    } else {
        assert((a + b).drop_last() =~= a + b.drop_last());
        assert((a + b).last() == b.last());
        lemma_batches_for_concat(a, b.drop_last(), l);
        let tail = if b.last().0 == l { b.last().1 } else { seq![] };
        assert(batches_for(a, l) + batches_for(b.drop_last(), l) + tail =~= batches_for(a, l) + (
        batches_for(b.drop_last(), l) + tail));
    }
}

/// Rows that join the queues are neither lost nor repeated: for every
/// layer, the batches handed back and what stays queued hold the rows that
/// were queued before and then the layer's new rows, in order.
pub proof fn lemma_pushes_keep_rows(buffered: Seq<Seq<OutputRowModel>>, rows: Seq<OutputRowModel>, l: int)
    requires
        0 <= l < buffered.len(),
        forall|i: int| 0 <= i < rows.len() ==> (#[trigger] rows[i]).layer_index < buffered.len(),
    ensures
        pushes(buffered, rows).1.len() == buffered.len(),
        batches_for(pushes(buffered, rows).0, l) + pushes(buffered, rows).1[l] == buffered[l]
            + rows_for(rows, l),
    decreases rows.len(),
{
    if rows.len() == 0 {
        assert(batches_for(seq![], l) == Seq::<OutputRowModel>::empty());
        assert(seq![] + buffered[l] =~= buffered[l]);
        assert(buffered[l] + seq![] =~= buffered[l]);
    } else {
        let front = rows.drop_last();
        assert forall|i: int| 0 <= i < front.len() implies (#[trigger] front[i]).layer_index
            < buffered.len() by {
            assert(front[i] == rows[i]);
        }
        lemma_pushes_keep_rows(buffered, front, l);
        let (batches, queues) = pushes(buffered, front);
        let r = rows.last();
        assert(r == rows[rows.len() - 1]);
        let m = r.layer_index as int;
        let (batch, next) = push_step(queues, r);
        let added = match batch {
            Some(b) => seq![b],
            None => seq![],
        };
        lemma_batches_for_concat(batches, added, l);
        match batch {
            Some(b) => {
                lemma_batches_for_single(b, l);
                assert(b.0 == r.layer_index);
            },
            None => {
                assert(batches_for(added, l) == Seq::<OutputRowModel>::empty());
            },
        }
        assert(rows.drop_last() == front);
        if m == l {
            let queued = queues[l].push(r);
            assert(rows_for(rows, l) == rows_for(front, l) + seq![r]);
            assert(buffered[l] + rows_for(rows, l) =~= (buffered[l] + rows_for(front, l)).push(r));
            if queued.len() >= BATCH_SIZE {
                assert(batches_for(added, l) == queued);
                assert(next[l] == Seq::<OutputRowModel>::empty());
                assert(batches_for(batches, l) + queued =~= (batches_for(batches, l) + queues[l]).push(r));
                assert(batches_for(batches, l) + queued + next[l] =~= batches_for(batches, l) + queued);
            } else {
                assert(batches_for(added, l) == Seq::<OutputRowModel>::empty());
                assert(next[l] == queued);
                assert(batches_for(batches, l) + Seq::<OutputRowModel>::empty() =~= batches_for(batches, l));
                assert(batches_for(batches, l) + queued =~= (batches_for(batches, l) + queues[l]).push(r));
            }
        } else {
            assert(next[l] == queues[l]);
            assert(batches_for(added, l) == Seq::<OutputRowModel>::empty());
            assert(rows_for(rows, l) =~= rows_for(front, l));
            assert(batches_for(batches, l) + Seq::<OutputRowModel>::empty() =~= batches_for(batches, l));
        }
    }
}

/// Draining hands back each layer's queue whole.
pub proof fn lemma_drain_keeps_rows(buffered: Seq<Seq<OutputRowModel>>, n: int, l: int)
    requires
        0 <= n <= buffered.len(),
        buffered.len() <= usize::MAX,
        0 <= l < buffered.len(),
    ensures
        batches_for(pending_batches(buffered, n), l) == if l < n {
            buffered[l]
        } else {
            Seq::<OutputRowModel>::empty()
        },
    decreases n,
{
    if n > 0 {
        lemma_drain_keeps_rows(buffered, n - 1, l);
        let added = if buffered[n - 1].len() > 0 {
            seq![((n - 1) as usize, buffered[n - 1])]
        } else {
            seq![]
        };
        lemma_batches_for_concat(pending_batches(buffered, n - 1), added, l);
        if buffered[n - 1].len() > 0 {
            lemma_batches_for_single(((n - 1) as usize, buffered[n - 1]), l);
        } else {
            assert(batches_for(added, l) == Seq::<OutputRowModel>::empty());
        }
        if l == n - 1 && buffered[n - 1].len() == 0 {
            assert(buffered[n - 1] =~= Seq::<OutputRowModel>::empty());
        }
        assert(batches_for(pending_batches(buffered, n - 1), l) + batches_for(added, l)
            =~= batches_for(pending_batches(buffered, n), l));
    } else {
        assert(pending_batches(buffered, 0) =~= Seq::<(usize, Seq<OutputRowModel>)>::empty());
    }
}

/// Every row given to fresh queues is written exactly once, in order: the
/// batches handed back while pushing, then those a final drain hands back,
/// carry each layer's rows as they came.
pub proof fn lemma_every_row_written(n: nat, rows: Seq<OutputRowModel>, l: int)
    requires
        0 <= l < n,
        n <= usize::MAX,
        forall|i: int| 0 <= i < rows.len() ==> (#[trigger] rows[i]).layer_index < n,
    ensures
        ({
            let start = Seq::new(n, |i: int| Seq::<OutputRowModel>::empty());
            let (batches, queues) = pushes(start, rows);
            batches_for(batches + pending_batches(queues, n as int), l) == rows_for(rows, l)
        }),
{
    let start = Seq::new(n, |i: int| Seq::<OutputRowModel>::empty());
    lemma_pushes_keep_rows(start, rows, l);
    let (batches, queues) = pushes(start, rows);
    lemma_drain_keeps_rows(queues, n as int, l);
    lemma_batches_for_concat(batches, pending_batches(queues, n as int), l);
    assert(start[l] =~= Seq::<OutputRowModel>::empty());
    assert(start[l] + rows_for(rows, l) =~= rows_for(rows, l));
}

impl RowBatcher {
    /// The rows waiting for each layer, in arrival order.
    pub closed spec fn buffered(&self) -> Seq<Seq<OutputRowModel>> {
        self.buffers@.map_values(|b: Vec<OutputRow>| rows_model(b@))
    }

    /// No layer's queue holds a full batch: a full batch is always handed
    /// back at once.
    pub open spec fn below_batch_size(&self) -> bool {
        forall|i: int| 0 <= i < self.buffered().len() ==> (#[trigger] self.buffered()[i]).len() < BATCH_SIZE
    }

    pub fn new(layer_count: usize) -> (r: RowBatcher)
        ensures
            r.buffered() == Seq::new(layer_count as nat, |i: int| Seq::<OutputRowModel>::empty()),
            r.below_batch_size(),
    {
        let mut buffers: Vec<Vec<OutputRow>> = Vec::new();
        let mut i: usize = 0;
        while i < layer_count
            invariant
                i <= layer_count,
                buffers@.map_values(|b: Vec<OutputRow>| rows_model(b@)) =~= Seq::new(
                    i as nat,
                    |k: int| Seq::<OutputRowModel>::empty(),
                ),
            decreases layer_count - i,
        {
            let empty: Vec<OutputRow> = Vec::new();
            assert(rows_model(empty@) =~= Seq::<OutputRowModel>::empty());
            let ghost before = buffers@;
            buffers.push(empty);
            assert(buffers@.map_values(|b: Vec<OutputRow>| rows_model(b@)) =~= before.map_values(
                |b: Vec<OutputRow>| rows_model(b@),
            ).push(Seq::<OutputRowModel>::empty()));
            i = i + 1;
        }
        RowBatcher { buffers }
    }

    /// Queues a row for its layer; once the layer has a full batch, the batch
    /// is handed back to be written and the layer's queue starts afresh.
    pub fn push_row(&mut self, row: OutputRow) -> (r: Result<Option<(usize, Vec<OutputRow>)>, OutputError>)
        ensures
            old(self).below_batch_size() ==> final(self).below_batch_size(),
            row.layer_index < old(self).buffered().len() ==> push_step(old(self).buffered(), row@) == (
                handed(r),
                final(self).buffered(),
            ),
            row.layer_index >= old(self).buffered().len() ==> r == Err::<
                Option<(usize, Vec<OutputRow>)>,
                OutputError,
            >((OutputError::UnknownLayer { index: row.layer_index })) && final(self).buffered() == old(
                self,
            ).buffered(),
            row.layer_index < old(self).buffered().len() ==> {
                let queued = old(self).buffered()[row.layer_index as int].push(row@);
                if queued.len() >= BATCH_SIZE {
                    &&& r matches Ok(Some((index, batch)))
                    &&& index == row.layer_index
                    &&& rows_model(batch@) == queued
                    &&& final(self).buffered() == old(self).buffered().update(
                        row.layer_index as int,
                        seq![],
                    )
                } else {
                    &&& r matches Ok(None)
                    &&& final(self).buffered() == old(self).buffered().update(
                        row.layer_index as int,
                        queued,
                    )
                }
            },
    {
        let index = row.layer_index;
        if index >= self.buffers.len() {
            return Err(OutputError::UnknownLayer { index });
        }
        let ghost before = self.buffered();
        let ghost model = row@;
        let mut buffer: Vec<OutputRow> = Vec::new();
        let ghost old_buffers = self.buffers@;
        let ghost fresh = buffer;
        assert(rows_model(fresh@) =~= Seq::<OutputRowModel>::empty());
        self.buffers.set_and_swap(index, &mut buffer);
        assert(rows_model(buffer@) == before[index as int]);
        assert(self.buffered() =~= before.update(index as int, seq![]));
        buffer.push(row);
        assert(rows_model(buffer@) =~= before[index as int].push(model));
        if buffer.len() >= BATCH_SIZE {
            assert(self.buffered() =~= before.update(index as int, seq![]));
            Ok(Some((index, buffer)))
        } else {
            self.buffers.set(index, buffer);
            assert(self.buffered() =~= before.update(index as int, before[index as int].push(model)));
            Ok(None)
        }
    }

    /// Hands back every layer's waiting rows, in layer order, leaving every
    /// queue empty.
    pub fn drain(&mut self) -> (r: Vec<(usize, Vec<OutputRow>)>)
        ensures
            final(self).below_batch_size(),
            final(self).buffered() == Seq::new(
                old(self).buffered().len(),
                |i: int| Seq::<OutputRowModel>::empty(),
            ),
            r@.map_values(|b: (usize, Vec<OutputRow>)| (b.0, rows_model(b.1@))) == pending_batches(
                old(self).buffered(),
                old(self).buffered().len() as int,
            ),
    {
        let ghost before = self.buffered();
        let n = self.buffers.len();
        let mut batches: Vec<(usize, Vec<OutputRow>)> = Vec::new();
        let mut i: usize = 0;
        while i < n
            invariant
                n == self.buffers.len(),
                n == before.len(),
                i <= n,
                forall|k: int| 0 <= k < i ==> (#[trigger] self.buffered()[k]).len() == 0,
                forall|k: int| i <= k < n ==> #[trigger] self.buffered()[k] == before[k],
                batches@.map_values(|b: (usize, Vec<OutputRow>)| (b.0, rows_model(b.1@)))
                    == pending_batches(before, i as int),
            decreases n - i,
        {
            let ghost old_batches = batches@;
            let ghost old_buffered = self.buffered();
            let mut buffer: Vec<OutputRow> = Vec::new();
            let ghost fresh = buffer;
            assert(rows_model(fresh@) =~= Seq::<OutputRowModel>::empty());
            assert(old_buffered[i as int] == before[i as int]);
            self.buffers.set_and_swap(i, &mut buffer);
            assert(rows_model(buffer@) == old_buffered[i as int]);
            assert(self.buffered() =~= old_buffered.update(i as int, seq![]));
            if buffer.len() > 0 {
                batches.push((i, buffer));
                assert(batches@.map_values(|b: (usize, Vec<OutputRow>)| (b.0, rows_model(b.1@)))
                    =~= pending_batches(before, i as int) + seq![(i, before[i as int])]);
            } else {
                assert(batches@.map_values(|b: (usize, Vec<OutputRow>)| (b.0, rows_model(b.1@)))
                    =~= pending_batches(before, i as int) + seq![]);
            }
            i = i + 1;
        }
        assert forall|k: int| 0 <= k < n implies #[trigger] self.buffered()[k] =~= Seq::<
            OutputRowModel,
        >::empty() by {
            assert(self.buffered()[k].len() == 0);
        }
        assert(self.buffered() =~= Seq::new(n as nat, |i: int| Seq::<OutputRowModel>::empty()));
        batches
    }
}

// ---------------------------------------------------------------------------
// GeoPackage statements
// ---------------------------------------------------------------------------

/// A name as an SQL identifier: in double quotes.
pub open spec fn quoted(name: Seq<char>) -> Seq<char> {
    "\""@ + name + "\""@
}

pub fn quote_identifier(value: &str) -> (r: String)
    ensures
        r@ == quoted(value@),
{
    let mut text = String::from_str("\"");
    text.append(value);
    text.append("\"");
    text
}

/// The SQL type that stores a column of the given type.
pub open spec fn sql_type(kind: ColumnType) -> Seq<char> {
    match kind {
        ColumnType::String | ColumnType::Json => "TEXT"@,
        ColumnType::Int64 | ColumnType::Boolean => "INTEGER"@,
        ColumnType::Double => "REAL"@,
        _ => "BLOB"@,
    }
}

fn sql_type_text(kind: ColumnType) -> (r: &'static str)
    ensures
        r@ == sql_type(kind),
{
    match kind {
        ColumnType::String | ColumnType::Json => "TEXT",
        ColumnType::Int64 | ColumnType::Boolean => "INTEGER",
        ColumnType::Double => "REAL",
        _ => "BLOB",
    }
}

/// The GeoPackage geometry type name of a geometry column type.
pub open spec fn gpkg_type_name(kind: ColumnType) -> Seq<char> {
    match kind {
        ColumnType::Point => "POINT"@,
        ColumnType::LineString => "LINESTRING"@,
        ColumnType::MultiPoint => "MULTIPOINT"@,
        ColumnType::MultiLineString => "MULTILINESTRING"@,
        _ => "GEOMETRYCOLLECTION"@,
    }
}

pub fn gpkg_geometry_type(kind: ColumnType) -> (r: &'static str)
    requires
        is_geometry_type(kind),
    ensures
        r@ == gpkg_type_name(kind),
{
    match kind {
        ColumnType::Point => "POINT",
        ColumnType::LineString => "LINESTRING",
        ColumnType::MultiPoint => "MULTIPOINT",
        ColumnType::MultiLineString => "MULTILINESTRING",
        _ => "GEOMETRYCOLLECTION",
    }
}

/// A column is created `NOT NULL` exactly when it is required, whatever its
/// type: its definition ends in ` NOT NULL` then and only then.
pub proof fn lemma_required_columns_are_not_null(column: ColumnModel)
    ensures
        ({
            let text = column_sql(column);
            column.required <==> (text.len() >= 9 && text.subrange(text.len() - 9, text.len() as int)
                == " NOT NULL"@)
        }),
{
    reveal_strlit(" NOT NULL");
    reveal_strlit("");
    reveal_strlit(" ");
    reveal_strlit("\"");
    reveal_strlit("TEXT");
    reveal_strlit("INTEGER");
    reveal_strlit("REAL");
    reveal_strlit("BLOB");
    let text = column_sql(column);
    let head = quoted(column.name) + " "@ + sql_type(column.column_type);
    if column.required {
        assert(text == head + " NOT NULL"@);
        assert(text.subrange(text.len() - 9, text.len() as int) =~= " NOT NULL"@);
    } else {
        assert(text =~= head + ""@);
        let n = text.len() as int;
        if n >= 9 {
            let t = sql_type(column.column_type);
            assert(text[n - 1] == t[t.len() - 1]);
            assert(text[n - 2] == t[t.len() - 2]);
            assert(" NOT NULL"@[8] == 'L');
            assert(" NOT NULL"@[7] == 'L');
            if text.subrange(n - 9, n) == " NOT NULL"@ {
                assert(text.subrange(n - 9, n)[8] == text[n - 1]);
                assert(text.subrange(n - 9, n)[7] == text[n - 2]);
            }
        }
    }
}

/// One column's definition in a table statement.
pub open spec fn column_sql(column: ColumnModel) -> Seq<char> {
    quoted(column.name) + " "@ + sql_type(column.column_type) + if column.required {
        " NOT NULL"@
    } else {
        ""@
    }
}

/// The definitions of a layer's table: the GeoPackage feature id, then one
/// per column.
pub open spec fn table_parts(layer: LayerModel) -> Seq<Seq<char>> {
    seq!["fid INTEGER PRIMARY KEY AUTOINCREMENT"@] + layer.columns.map_values(
        |c: ColumnModel| column_sql(c),
    )
}

/// The statement that creates a layer's table.
pub open spec fn create_table_sql(layer: LayerModel) -> Seq<char> {
    "CREATE TABLE "@ + quoted(layer.name) + " ("@ + joined(table_parts(layer), ", "@) + ")"@
}

/// The numbered parameter `?i`.
pub open spec fn placeholder(i: nat) -> Seq<char> {
    "?"@ + decimal(i)
}

/// The statement that inserts one row into a layer's table, its columns
/// bound to `?1`, `?2`, ... in column order.
pub open spec fn insert_sql(layer: LayerModel) -> Seq<char> {
    "INSERT INTO "@ + quoted(layer.name) + " ("@ + joined(
        layer.columns.map_values(|c: ColumnModel| quoted(c.name)),
        ", "@,
    ) + ") VALUES ("@ + joined(
        Seq::new(layer.columns.len(), |i: int| placeholder((i + 1) as nat)),
        ", "@,
    ) + ")"@
}

proof fn lemma_joined_step(parts: Seq<Seq<char>>, separator: Seq<char>, i: int)
    requires
        0 <= i < parts.len(),
    ensures
        joined(parts.take(i + 1), separator) == if i == 0 {
            parts[0]
        } else {
            joined(parts.take(i), separator) + separator + parts[i]
        },
{
    assert(parts.take(i + 1).drop_last() =~= parts.take(i));
    if i == 0 {
        assert(parts.take(1).len() == 1);
    }
}

pub fn create_table_statement(layer: &LayerDef) -> (r: String)
    ensures
        r@ == create_table_sql(layer@),
{
    let ghost parts = table_parts(layer@);
    let ghost prefix = "CREATE TABLE "@ + quoted(layer@.name) + " ("@;
    let mut text = String::from_str("CREATE TABLE ");
    let quoted_name = quote_identifier(layer.name.as_str());
    text.append(quoted_name.as_str());
    text.append(" (");
    text.append("fid INTEGER PRIMARY KEY AUTOINCREMENT");
    proof {
        lemma_joined_step(parts, ", "@, 0);
        assert(text@ =~= prefix + joined(parts.take(1), ", "@));
    }
    let n = layer.columns.len();
    let mut i: usize = 0;
    while i < n
        invariant
            n == layer.columns.len(),
            parts == table_parts(layer@),
            parts.len() == n + 1,
            i <= n,
            text@ == prefix + joined(parts.take(i + 1), ", "@),
        decreases n - i,
    {
        let column = &layer.columns[i];
        let ghost before = text@;
        text.append(", ");
        let quoted_column = quote_identifier(column.name.as_str());
        text.append(quoted_column.as_str());
        text.append(" ");
        text.append(sql_type_text(column.column_type));
        if column.required {
            text.append(" NOT NULL");
        }
        proof {
            assert(parts[i + 1] == column_sql(layer@.columns[i as int]));
            assert(layer@.columns[i as int] == column@);
            lemma_joined_step(parts, ", "@, i + 1);
            if column.required {
                assert(text@ =~= before + ", "@ + column_sql(column@));
            } else {
                reveal_strlit("");
                assert(text@ =~= before + ", "@ + column_sql(column@));
            }
            assert(text@ =~= prefix + joined(parts.take(i + 2), ", "@));
        }
        i = i + 1;
    }
    text.append(")");
    assert(parts.take(n + 1) =~= parts);
    assert(text@ =~= create_table_sql(layer@));
    text
}

pub fn insert_statement(layer: &LayerDef) -> (r: String)
    ensures
        r@ == insert_sql(layer@),
{
    let ghost names = layer@.columns.map_values(|c: ColumnModel| quoted(c.name));
    let ghost slots = Seq::new(layer@.columns.len(), |i: int| placeholder((i + 1) as nat));
    let n = layer.columns.len();
    let mut text = String::from_str("INSERT INTO ");
    let quoted_name = quote_identifier(layer.name.as_str());
    text.append(quoted_name.as_str());
    text.append(" (");
    let ghost prefix = text@;
    assert(names.take(0) =~= Seq::<Seq<char>>::empty());
    assert(prefix =~= prefix + joined(names.take(0), ", "@));
    let mut i: usize = 0;
    while i < n
        invariant
            n == layer.columns.len(),
            names == layer@.columns.map_values(|c: ColumnModel| quoted(c.name)),
            i <= n,
            text@ == prefix + joined(names.take(i as int), ", "@),
        decreases n - i,
    {
        let ghost before = text@;
        if i > 0 {
            text.append(", ");
        }
        let quoted_column = quote_identifier(layer.columns[i].name.as_str());
        text.append(quoted_column.as_str());
        proof {
            assert(names[i as int] == quoted(layer@.columns[i as int].name));
            assert(layer@.columns[i as int].name == layer.columns[i as int].name@);
            lemma_joined_step(names, ", "@, i as int);
            assert(text@ =~= prefix + joined(names.take(i + 1), ", "@));
        }
        i = i + 1;
    }
    assert(names.take(n as int) =~= names);
    text.append(") VALUES (");
    let ghost middle = text@;
    assert(slots.take(0) =~= Seq::<Seq<char>>::empty());
    assert(middle =~= middle + joined(slots.take(0), ", "@));
    let mut i: usize = 0;
    while i < n
        invariant
            n == layer.columns.len(),
            slots == Seq::new(layer@.columns.len(), |i: int| placeholder((i + 1) as nat)),
            i <= n,
            text@ == middle + joined(slots.take(i as int), ", "@),
        decreases n - i,
    {
        let ghost before = text@;
        if i > 0 {
            text.append(", ");
        }
        text.append("?");
        push_decimal(&mut text, (i as u64) + 1);
        proof {
            assert(slots[i as int] == placeholder((i + 1) as nat));
            lemma_joined_step(slots, ", "@, i as int);
            assert(text@ =~= middle + joined(slots.take(i + 1), ", "@));
        }
        i = i + 1;
    }
    assert(slots.take(n as int) =~= slots);
    text.append(")");
    assert(text@ =~= insert_sql(layer@));
    text
}

/// The GeoPackage binary header for a geometry: magic `GP`, version 0, flags
/// for little-endian without an envelope, and SRS id 4326 (little-endian).
pub open spec fn gpkg_header() -> Seq<u8> {
    seq![0x47u8, 0x50u8, 0u8, 1u8, 0xE6u8, 0x10u8, 0u8, 0u8]
}

/// Frames a WKB geometry as a GeoPackage geometry blob.
pub fn to_gpkg_geometry(wkb: &Vec<u8>) -> (r: Vec<u8>)
    ensures
        r@ == gpkg_header() + wkb@,
{
    let mut bytes: Vec<u8> = Vec::new();
    bytes.push(0x47);
    bytes.push(0x50);
    bytes.push(0);
    bytes.push(1);
    bytes.push(0xE6);
    bytes.push(0x10);
    bytes.push(0);
    bytes.push(0);
    assert(bytes@ =~= gpkg_header());
    let mut i: usize = 0;
    while i < wkb.len()
        invariant
            i <= wkb.len(),
            bytes@ == gpkg_header() + wkb@.take(i as int),
        decreases wkb.len() - i,
    {
        bytes.push(wkb[i]);
        assert(gpkg_header() + wkb@.take(i + 1) =~= (gpkg_header() + wkb@.take(i as int)).push(
            wkb@[i as int],
        ));
        i = i + 1;
    }
    assert(wkb@.take(wkb.len() as int) =~= wkb@);
    bytes
}

// ---------------------------------------------------------------------------
// Extents
// ---------------------------------------------------------------------------

/// A bounding box, in the store's fixed-point degrees.
#[derive(Clone, Copy, Debug, PartialEq, Eq, Structural)]
pub struct Extent {
    pub min_lon: i32,
    pub min_lat: i32,
    pub max_lon: i32,
    pub max_lat: i32,
}

pub open spec fn min_i32(a: i32, b: i32) -> i32 {
    if a <= b {
        a
    } else {
        b
    }
}

pub open spec fn max_i32(a: i32, b: i32) -> i32 {
    if a >= b {
        a
    } else {
        b
    }
}

/// The smallest box holding both.
pub open spec fn union(a: Extent, b: Extent) -> Extent {
    Extent {
        min_lon: min_i32(a.min_lon, b.min_lon),
        min_lat: min_i32(a.min_lat, b.min_lat),
        max_lon: max_i32(a.max_lon, b.max_lon),
        max_lat: max_i32(a.max_lat, b.max_lat),
    }
}

/// The box of a single position.
pub open spec fn point_box(c: Coord) -> Extent {
    Extent { min_lon: c.lon, min_lat: c.lat, max_lon: c.lon, max_lat: c.lat }
}

/// The box of `acc` widened by each position in turn.
pub open spec fn extend(acc: Option<Extent>, cs: Seq<Coord>) -> Option<Extent>
    decreases cs.len(),
{
    if cs.len() == 0 {
        acc
    } else {
        extend(
            Some(
                match acc {
                    None => point_box(cs[0]),
                    Some(e) => union(e, point_box(cs[0])),
                },
            ),
            cs.drop_first(),
        )
    }
}

/// The positions of a geometry, in order.
pub open spec fn coords_of(g: GeometryModel) -> Seq<Coord>
    decreases g, 0int,
{
    match g {
        GeometryModel::Point(c) => seq![c],
        GeometryModel::LineString(cs) => cs,
        GeometryModel::MultiPoint(cs) => cs,
        GeometryModel::MultiLineString(ls) => coords_of_lines(ls, 0),
        GeometryModel::GeometryCollection(gs) => coords_of_members(gs, 0),
    }
}

pub open spec fn coords_of_lines(ls: Seq<Seq<Coord>>, i: int) -> Seq<Coord>
    decreases ls.len() - i,
{
    if i < 0 || i >= ls.len() {
        seq![]
    } else {
        ls[i] + coords_of_lines(ls, i + 1)
    }
}

pub open spec fn coords_of_members(gs: Seq<GeometryModel>, i: int) -> Seq<Coord>
    decreases gs, gs.len() - i,
{
    if i < 0 || i >= gs.len() {
        seq![]
    } else {
        coords_of(gs[i]) + coords_of_members(gs, i + 1)
    }
}

/// Widening by two runs of positions is widening by the first, then the
/// second.
pub proof fn lemma_extend_concat(acc: Option<Extent>, a: Seq<Coord>, b: Seq<Coord>)
    ensures
        extend(acc, a + b) == extend(extend(acc, a), b),
    decreases a.len(),
{
    if a.len() > 0 {
        let first = match acc {
            None => point_box(a[0]),
            Some(e) => union(e, point_box(a[0])),
        };
        assert((a + b).drop_first() =~= a.drop_first() + b);
        assert((a + b)[0] == a[0]);
        lemma_extend_concat(Some(first), a.drop_first(), b);
    } else {
        assert(a + b =~= b);
    }
}

impl Extent {
    /// Widens this box to hold `other` too.
    pub fn cover(&mut self, other: Extent)
        ensures
            *final(self) == union(*old(self), other),
    {
        if other.min_lon < self.min_lon {
            self.min_lon = other.min_lon;
        }
        if other.min_lat < self.min_lat {
            self.min_lat = other.min_lat;
        }
        if other.max_lon > self.max_lon {
            self.max_lon = other.max_lon;
        }
        if other.max_lat > self.max_lat {
            self.max_lat = other.max_lat;
        }
    }
}

fn widen(acc: Option<Extent>, c: Coord) -> (r: Option<Extent>)
    ensures
        r == extend(acc, seq![c]),
{
    let point = Extent { min_lon: c.lon, min_lat: c.lat, max_lon: c.lon, max_lat: c.lat };
    assert(seq![c].drop_first() =~= Seq::<Coord>::empty());
    assert(extend(Some(point), Seq::<Coord>::empty()) == Some(point));
    assert(extend(Some(union(acc->Some_0, point)), Seq::<Coord>::empty()) == Some(
        union(acc->Some_0, point),
    ));
    match acc {
        None => Some(point),
        Some(e) => {
            let mut e = e;
            e.cover(point);
            Some(e)
        },
    }
}

fn widen_all(acc: Option<Extent>, cs: &Vec<Coord>) -> (r: Option<Extent>)
    ensures
        r == extend(acc, cs@),
{
    let mut current = acc;
    let mut i: usize = 0;
    assert(cs@.skip(0) =~= cs@);
    while i < cs.len()
        invariant
            i <= cs.len(),
            extend(acc, cs@) == extend(current, cs@.skip(i as int)),
        decreases cs.len() - i,
    {
        proof {
            assert(cs@.skip(i as int) =~= seq![cs@[i as int]] + cs@.skip(i + 1));
            lemma_extend_concat(current, seq![cs@[i as int]], cs@.skip(i + 1));
        }
        current = widen(current, cs[i]);
        i = i + 1;
    }
    assert(cs@.skip(cs.len() as int) =~= Seq::<Coord>::empty());
    current
}

fn widen_geometry(acc: Option<Extent>, g: &GeometryValue) -> (r: Option<Extent>)
    ensures
        r == extend(acc, coords_of(g@)),
    decreases g,
{
    match g {
        GeometryValue::Point(c) => widen(acc, *c),
        GeometryValue::LineString(cs) => widen_all(acc, cs),
        GeometryValue::MultiPoint(cs) => widen_all(acc, cs),
        GeometryValue::MultiLineString(ls) => {
            let ghost lines = g@->MultiLineString_0;
            let mut current = acc;
            let mut i: usize = 0;
            while i < ls.len()
                invariant
                    lines == Seq::new(ls.len() as nat, |k: int| ls@[k]@),
                    i <= ls.len(),
                    extend(acc, coords_of_lines(lines, 0)) == extend(
                        current,
                        coords_of_lines(lines, i as int),
                    ),
                decreases ls.len() - i,
            {
                proof {
                    lemma_extend_concat(current, lines[i as int], coords_of_lines(lines, i + 1));
                }
                current = widen_all(current, &ls[i]);
                i = i + 1;
            }
            current
        },
        GeometryValue::GeometryCollection(gs) => {
            let ghost members = g@->GeometryCollection_0;
            let mut current = acc;
            let mut i: usize = 0;
            while i < gs.len()
                invariant
                    members.len() == gs.len(),
                    forall|k: int| 0 <= k < gs.len() ==> members[k] == (#[trigger] gs@[k])@,
                    *g == GeometryValue::GeometryCollection(*gs),
                    decreases_to!(*g => *gs),
                    i <= gs.len(),
                    extend(acc, coords_of_members(members, 0)) == extend(
                        current,
                        coords_of_members(members, i as int),
                    ),
                decreases gs.len() - i,
            {
                proof {
                    assert(members[i as int] == gs@[i as int]@);
                    lemma_extend_concat(
                        current,
                        coords_of(members[i as int]),
                        coords_of_members(members, i + 1),
                    );
                }
                assert(decreases_to!(*g => gs@[i as int]));
                current = widen_geometry(current, &gs[i]);
                i = i + 1;
            }
            current
        },
    }
}

/// The bounding box of a geometry; none when it has no position.
pub fn geometry_extent(g: &GeometryValue) -> (r: Option<Extent>)
    ensures
        r == extend(None, coords_of(g@)),
{
    widen_geometry(None, g)
}

/// The box built from positions holds every one of them, and there is one
/// exactly when there is a position.
pub proof fn lemma_extent_holds_all(acc: Option<Extent>, cs: Seq<Coord>)
    ensures
        extend(acc, cs) is None <==> (acc is None && cs.len() == 0),
        extend(acc, cs) matches Some(e) ==> {
            &&& acc matches Some(a) ==> (e.min_lon <= a.min_lon && e.min_lat <= a.min_lat
                && a.max_lon <= e.max_lon && a.max_lat <= e.max_lat)
            &&& forall|i: int|
                0 <= i < cs.len() ==> e.min_lon <= (#[trigger] cs[i]).lon <= e.max_lon && e.min_lat
                    <= cs[i].lat <= e.max_lat
        },
    decreases cs.len(),
{
    if cs.len() > 0 {
        let first = match acc {
            None => point_box(cs[0]),
            Some(e) => union(e, point_box(cs[0])),
        };
        lemma_extent_holds_all(Some(first), cs.drop_first());
        if let Some(e) = extend(acc, cs) {
            assert forall|i: int| 0 <= i < cs.len() implies e.min_lon <= (#[trigger] cs[i]).lon
                <= e.max_lon && e.min_lat <= cs[i].lat <= e.max_lat by {
                if i > 0 {
                    assert(cs[i] == cs.drop_first()[i - 1]);
                }
            }
        }
    }
}


// ---------------------------------------------------------------------------
// GeoParquet columns
// ---------------------------------------------------------------------------

/// The Arrow type of a layer column in GeoParquet output.
#[derive(Clone, Copy, Debug, PartialEq, Eq, Structural)]
pub enum ArrowKind {
    Utf8,
    Int64,
    Float64,
    Boolean,
    /// WKB with GeoArrow metadata in EPSG:4326.
    Wkb,
}

/// The Arrow type of a column type: text and JSON as UTF-8, geometry as WKB.
pub open spec fn arrow_kind_of(kind: ColumnType) -> ArrowKind {
    match kind {
        ColumnType::String | ColumnType::Json => ArrowKind::Utf8,
        ColumnType::Int64 => ArrowKind::Int64,
        ColumnType::Double => ArrowKind::Float64,
        ColumnType::Boolean => ArrowKind::Boolean,
        _ => ArrowKind::Wkb,
    }
}

/// Every geometry column is stored as WKB, and no other column is: text and
/// JSON as UTF-8, integers as 64-bit integers, doubles as 64-bit floats and
/// booleans as booleans.
pub proof fn lemma_arrow_layout(kind: ColumnType)
    ensures
        (arrow_kind_of(kind) == ArrowKind::Wkb) <==> is_geometry_type(kind),
        (arrow_kind_of(kind) == ArrowKind::Utf8) <==> (kind == ColumnType::String || kind
            == ColumnType::Json),
        (arrow_kind_of(kind) == ArrowKind::Int64) <==> kind == ColumnType::Int64,
        (arrow_kind_of(kind) == ArrowKind::Float64) <==> kind == ColumnType::Double,
        (arrow_kind_of(kind) == ArrowKind::Boolean) <==> kind == ColumnType::Boolean,
{
}

/// The Arrow type of a column, and whether it is nullable (it is unless the
/// column is required).
pub fn arrow_column(kind: ColumnType, required: bool) -> (r: (ArrowKind, bool))
    ensures
        r == (arrow_kind_of(kind), !required),
{
    let arrow = match kind {
        ColumnType::String | ColumnType::Json => ArrowKind::Utf8,
        ColumnType::Int64 => ArrowKind::Int64,
        ColumnType::Double => ArrowKind::Float64,
        ColumnType::Boolean => ArrowKind::Boolean,
        _ => ArrowKind::Wkb,
    };
    (arrow, !required)
}

/// The cells of one column of a batch whose values are integers or null.
pub fn int64_cells(rows: &Vec<OutputRow>, column: usize) -> (r: Vec<Option<i64>>)
    requires
        forall|i: int| 0 <= i < rows.len() ==> column < (#[trigger] rows@[i]).values.len(),
    ensures
        r.len() == rows.len(),
        forall|i: int|
            0 <= i < rows.len() ==> (#[trigger] r@[i] == match rows@[i].values@[column as int] {
                OutputValue::Int64(v) => Some(v),
                _ => None,
            }),
{
    let mut cells: Vec<Option<i64>> = Vec::new();
    let mut i: usize = 0;
    while i < rows.len()
        invariant
            i <= rows.len(),
            forall|k: int| 0 <= k < rows.len() ==> column < (#[trigger] rows@[k]).values.len(),
            cells.len() == i,
            forall|k: int|
                0 <= k < i ==> (#[trigger] cells@[k] == match rows@[k].values@[column as int] {
                    OutputValue::Int64(v) => Some(v),
                    _ => None,
                }),
        decreases rows.len() - i,
    {
        let cell = match &rows[i].values[column] {
            OutputValue::Int64(v) => Some(*v),
            _ => None,
        };
        cells.push(cell);
        i = i + 1;
    }
    cells
}

/// The cells of one column of a batch whose values are doubles (as bits) or
/// null.
pub fn double_cells(rows: &Vec<OutputRow>, column: usize) -> (r: Vec<Option<u64>>)
    requires
        forall|i: int| 0 <= i < rows.len() ==> column < (#[trigger] rows@[i]).values.len(),
    ensures
        r.len() == rows.len(),
        forall|i: int|
            0 <= i < rows.len() ==> (#[trigger] r@[i] == match rows@[i].values@[column as int] {
                OutputValue::Double(bits) => Some(bits),
                _ => None,
            }),
{
    let mut cells: Vec<Option<u64>> = Vec::new();
    let mut i: usize = 0;
    while i < rows.len()
        invariant
            i <= rows.len(),
            forall|k: int| 0 <= k < rows.len() ==> column < (#[trigger] rows@[k]).values.len(),
            cells.len() == i,
            forall|k: int|
                0 <= k < i ==> (#[trigger] cells@[k] == match rows@[k].values@[column as int] {
                    OutputValue::Double(bits) => Some(bits),
                    _ => None,
                }),
        decreases rows.len() - i,
    {
        let cell = match &rows[i].values[column] {
            OutputValue::Double(bits) => Some(*bits),
            _ => None,
        };
        cells.push(cell);
        i = i + 1;
    }
    cells
}

/// The cells of one column of a batch whose values are booleans or null.
pub fn boolean_cells(rows: &Vec<OutputRow>, column: usize) -> (r: Vec<Option<bool>>)
    requires
        forall|i: int| 0 <= i < rows.len() ==> column < (#[trigger] rows@[i]).values.len(),
    ensures
        r.len() == rows.len(),
        forall|i: int|
            0 <= i < rows.len() ==> (#[trigger] r@[i] == match rows@[i].values@[column as int] {
                OutputValue::Boolean(b) => Some(b),
                _ => None,
            }),
{
    let mut cells: Vec<Option<bool>> = Vec::new();
    let mut i: usize = 0;
    while i < rows.len()
        invariant
            i <= rows.len(),
            forall|k: int| 0 <= k < rows.len() ==> column < (#[trigger] rows@[k]).values.len(),
            cells.len() == i,
            forall|k: int|
                0 <= k < i ==> (#[trigger] cells@[k] == match rows@[k].values@[column as int] {
                    OutputValue::Boolean(b) => Some(b),
                    _ => None,
                }),
        decreases rows.len() - i,
    {
        let cell = match &rows[i].values[column] {
            OutputValue::Boolean(b) => Some(*b),
            _ => None,
        };
        cells.push(cell);
        i = i + 1;
    }
    cells
}

/// The cells of one column of a batch whose values are JSON values or null.
pub fn json_cells(rows: &Vec<OutputRow>, column: usize) -> (r: Vec<Option<&JsonValue>>)
    requires
        forall|i: int| 0 <= i < rows.len() ==> column < (#[trigger] rows@[i]).values.len(),
    ensures
        r.len() == rows.len(),
        forall|i: int|
            0 <= i < rows.len() ==> (#[trigger] r@[i] == match rows@[i].values@[column as int] {
                OutputValue::Json(j) => Some(&j),
                _ => None,
            }),
{
    let mut cells: Vec<Option<&JsonValue>> = Vec::new();
    let mut i: usize = 0;
    while i < rows.len()
        invariant
            i <= rows.len(),
            forall|k: int| 0 <= k < rows.len() ==> column < (#[trigger] rows@[k]).values.len(),
            cells.len() == i,
            forall|k: int|
                0 <= k < i ==> (#[trigger] cells@[k] == match rows@[k].values@[column as int] {
                    OutputValue::Json(j) => Some(&j),
                    _ => None,
                }),
        decreases rows.len() - i,
    {
        let cell = match &rows[i].values[column] {
            OutputValue::Json(j) => Some(j),
            _ => None,
        };
        cells.push(cell);
        i = i + 1;
    }
    cells
}

/// The cells of one column of a batch whose values are strings or null.
pub fn string_cells(rows: &Vec<OutputRow>, column: usize) -> (r: Vec<Option<String>>)
    requires
        forall|i: int| 0 <= i < rows.len() ==> column < (#[trigger] rows@[i]).values.len(),
    ensures
        r.len() == rows.len(),
        forall|i: int|
            0 <= i < rows.len() ==> (#[trigger] r@[i] == match rows@[i].values@[column as int] {
                OutputValue::String(s) => Some(s),
                _ => None,
            }),
{
    let mut cells: Vec<Option<String>> = Vec::new();
    let mut i: usize = 0;
    while i < rows.len()
        invariant
            i <= rows.len(),
            forall|k: int| 0 <= k < rows.len() ==> column < (#[trigger] rows@[k]).values.len(),
            cells.len() == i,
            forall|k: int|
                0 <= k < i ==> (#[trigger] cells@[k] == match rows@[k].values@[column as int] {
                    OutputValue::String(s) => Some(s),
                    _ => None,
                }),
        decreases rows.len() - i,
    {
        let cell = match &rows[i].values[column] {
            OutputValue::String(s) => Some(s.clone()),
            _ => None,
        };
        cells.push(cell);
        i = i + 1;
    }
    cells
}

} // verus!
