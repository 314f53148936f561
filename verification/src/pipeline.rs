//! The bookkeeping of an extraction run: its options and their checks, the
//! counters, the first error that stops the run, and the agreement of the
//! workers' schemas.

use vstd::prelude::*;

use crate::lua::{worker_message, ObjectOutcome, WorkerError};
use crate::schema::{source_text, LayerDef, LayerModel, OutputRow, SourceKind};
use crate::text::{decimal, push_decimal, push_signed_decimal, push_wide_decimal, signed_decimal};

verus! {

/// The output format of a run.
#[derive(Clone, Copy, Debug, PartialEq, Eq, Structural)]
pub enum OutputFormat {
    Geopackage,
    Geoparquet,
}

/// What a run is asked to do. Paths are given as text.
#[derive(Clone, Debug)]
pub struct ExtractOptions {
    /// The osmdb directory.
    pub db: String,
    /// The extraction scripts, run in this order on every object.
    pub scripts: Vec<String>,
    pub format: OutputFormat,
    /// The GeoPackage file or GeoParquet directory to create.
    pub output: String,
    /// The number of parallel workers.
    pub threads: usize,
    /// An optional Wikidata store for entity lookups.
    pub wikidata_store: Option<String>,
}

/// What a run did.
#[derive(Clone, Copy, Debug, PartialEq, Eq, Structural)]
pub struct ExtractSummary {
    pub nodes_processed: u64,
    pub ways_processed: u64,
    pub relations_processed: u64,
    pub geometry_skipped: u64,
    pub rows_written: u64,
}

impl Default for ExtractSummary {
    fn default() -> (r: ExtractSummary)
        ensures
            r == (ExtractSummary {
                nodes_processed: 0,
                ways_processed: 0,
                relations_processed: 0,
                geometry_skipped: 0,
                rows_written: 0,
            }),
    {
        ExtractSummary {
            nodes_processed: 0,
            ways_processed: 0,
            relations_processed: 0,
            geometry_skipped: 0,
            rows_written: 0,
        }
    }
}

/// Why a run stopped.
#[derive(Debug)]
pub enum RunError {
    /// Processing an object failed.
    ObjectFailed { source: SourceKind, id: i64, error: WorkerError },
    /// The output writer stopped taking rows.
    WriterStopped,
}

/// The message that reports why a run stopped.
pub open spec fn run_message(e: RunError) -> Seq<char> {
    match e {
        RunError::ObjectFailed { source, id, error } => "failed while processing "@ + source_text(
            source,
        ) + " "@ + signed_decimal(id as int) + ": "@ + worker_message(error),
        RunError::WriterStopped => "output writer stopped unexpectedly"@,
    }
}

impl RunError {
    pub fn message(&self) -> (r: String)
        ensures
            r@ == run_message(*self),
    {
        let mut text = String::new();
        match self {
            RunError::ObjectFailed { source, id, error } => {
                text.append("failed while processing ");
                text.append(source.as_str());
                text.append(" ");
                push_signed_decimal(&mut text, *id);
                text.append(": ");
                let detail = error.message();
                text.append(detail.as_str());
            },
            RunError::WriterStopped => text.append("output writer stopped unexpectedly"),
        }
        text
    }
}

/// The counters once one more object of `source` was processed; they wrap.
pub open spec fn counted(c: ExtractSummary, source: SourceKind) -> ExtractSummary {
    match source {
        SourceKind::Node => ExtractSummary { nodes_processed: c.nodes_processed.wrapping_add(1), ..c },
        SourceKind::Way => ExtractSummary { ways_processed: c.ways_processed.wrapping_add(1), ..c },
        SourceKind::Relation => ExtractSummary {
            relations_processed: c.relations_processed.wrapping_add(1),
            ..c
        },
    }
}

/// The state a run shares between its workers: counters, whether it was
/// cancelled, and the first error.
#[derive(Debug)]
pub struct RunState {
    counters: ExtractSummary,
    cancelled: bool,
    first_error: Option<RunError>,
}

impl RunState {
    pub closed spec fn counters(&self) -> ExtractSummary {
        self.counters
    }

    pub closed spec fn is_cancelled_spec(&self) -> bool {
        self.cancelled
    }

    pub closed spec fn first_error_spec(&self) -> Option<RunError> {
        self.first_error
    }

    pub fn new() -> (r: RunState)
        ensures
            r.counters() == (ExtractSummary {
                nodes_processed: 0,
                ways_processed: 0,
                relations_processed: 0,
                geometry_skipped: 0,
                rows_written: 0,
            }),
            !r.is_cancelled_spec(),
            r.first_error_spec() is None,
    {
        RunState { counters: ExtractSummary::default(), cancelled: false, first_error: None }
    }

    pub fn is_cancelled(&self) -> (r: bool)
        ensures
            r == self.is_cancelled_spec(),
    {
        self.cancelled
    }

    /// Counts an object of the given source as processed; counters wrap.
    pub fn record_object(&mut self, source: SourceKind)
        ensures
            final(self).is_cancelled_spec() == old(self).is_cancelled_spec(),
            final(self).first_error_spec() == old(self).first_error_spec(),
            final(self).counters() == counted(old(self).counters(), source),
    {
        match source {
            SourceKind::Node => {
                self.counters.nodes_processed = self.counters.nodes_processed.wrapping_add(1);
            },
            SourceKind::Way => {
                self.counters.ways_processed = self.counters.ways_processed.wrapping_add(1);
            },
            SourceKind::Relation => {
                self.counters.relations_processed = self.counters.relations_processed.wrapping_add(
                    1,
                );
            },
        }
    }

    /// Starts on an object unless the run was cancelled: the object is
    /// counted, and the answer is whether to process it.
    pub fn begin_object(&mut self, source: SourceKind) -> (r: bool)
        ensures
            r == !old(self).is_cancelled_spec(),
            final(self).is_cancelled_spec() == old(self).is_cancelled_spec(),
            final(self).first_error_spec() == old(self).first_error_spec(),
            r ==> final(self).counters() == counted(old(self).counters(), source),
            !r ==> final(self).counters() == old(self).counters(),
    {
        if self.cancelled {
            return false;
        }
        self.record_object(source);
        true
    }

    /// Stops the run: it is cancelled, and the error is kept unless an
    /// earlier one was.
    pub fn set_error(&mut self, error: RunError)
        ensures
            final(self).is_cancelled_spec(),
            final(self).counters() == old(self).counters(),
            final(self).first_error_spec() == (match old(self).first_error_spec() {
                Some(e) => Some(e),
                None => Some(error),
            }),
    {
        self.cancelled = true;
        if self.first_error.is_none() {
            self.first_error = Some(error);
        }
    }

    /// Accounts for what processing an object gave, and hands back the rows
    /// to write, if there are any: rows are counted, a geometry skip is
    /// counted, and a failure stops the run.
    pub fn handle_outcome(&mut self, source: SourceKind, id: i64, result: Result<ObjectOutcome, WorkerError>) -> (r:
        Option<Vec<OutputRow>>)
        ensures
            match result {
                Ok(ObjectOutcome::Rows(rows)) => {
                    &&& final(self).counters() == (ExtractSummary {
                        rows_written: old(self).counters().rows_written.wrapping_add(
                            rows.len() as u64,
                        ),
                        ..old(self).counters()
                    })
                    &&& final(self).is_cancelled_spec() == old(self).is_cancelled_spec()
                    &&& final(self).first_error_spec() == old(self).first_error_spec()
                    &&& if rows.len() == 0 {
                        r is None
                    } else {
                        r == Some(rows)
                    }
                },
                Ok(ObjectOutcome::GeometrySkipped(_)) => {
                    &&& final(self).counters() == (ExtractSummary {
                        geometry_skipped: old(self).counters().geometry_skipped.wrapping_add(1),
                        ..old(self).counters()
                    })
                    &&& final(self).is_cancelled_spec() == old(self).is_cancelled_spec()
                    &&& final(self).first_error_spec() == old(self).first_error_spec()
                    &&& r is None
                },
                Err(e) => {
                    &&& final(self).counters() == old(self).counters()
                    &&& final(self).is_cancelled_spec()
                    &&& final(self).first_error_spec() == (match old(self).first_error_spec() {
                        Some(first) => Some(first),
                        None => Some(RunError::ObjectFailed { source, id, error: e }),
                    })
                    &&& r is None
                },
            },
    {
        match result {
            Ok(ObjectOutcome::Rows(rows)) => {
                let count = rows.len() as u64;
                self.counters.rows_written = self.counters.rows_written.wrapping_add(count);
                if rows.len() == 0 {
                    None
                } else {
                    Some(rows)
                }
            },
            Ok(ObjectOutcome::GeometrySkipped(_)) => {
                self.counters.geometry_skipped = self.counters.geometry_skipped.wrapping_add(1);
                None
            },
            Err(error) => {
                self.set_error(RunError::ObjectFailed { source, id, error });
                None
            },
        }
    }

    /// Hands the first error over.
    pub fn take_error(&mut self) -> (r: Option<RunError>)
        ensures
            r == old(self).first_error_spec(),
            final(self).first_error_spec() is None,
            final(self).counters() == old(self).counters(),
            final(self).is_cancelled_spec() == old(self).is_cancelled_spec(),
    {
        let mut taken = None;
        std::mem::swap(&mut taken, &mut self.first_error);
        taken
    }

    /// How the run ends once every object was handed over: with its first
    /// error, or with its counters when there was none; only then may the
    /// output be published.
    pub fn conclude(&mut self) -> (r: Result<ExtractSummary, RunError>)
        ensures
            match old(self).first_error_spec() {
                Some(e) => r == Err::<ExtractSummary, RunError>(e),
                None => r == Ok::<ExtractSummary, RunError>(old(self).counters()),
            },
            final(self).first_error_spec() is None,
            final(self).counters() == old(self).counters(),
    {
        match self.take_error() {
            Some(error) => Err(error),
            None => Ok(self.counters),
        }
    }

    pub fn summary(&self) -> (r: ExtractSummary)
        ensures
            r == self.counters(),
    {
        self.counters
    }
}

/// What the file system says about the paths of a run's options.
#[derive(Clone, Debug)]
pub struct OptionsFacts {
    pub threads: usize,
    /// The osmdb path is a directory.
    pub db_is_dir: bool,
    /// The osmdb directory holds its entity database file.
    pub db_has_entities: bool,
    /// The osmdb directory holds its location store file.
    pub db_has_locations: bool,
    /// For each script, whether it is a file.
    pub scripts_are_files: Vec<bool>,
    /// Something exists at the output path.
    pub output_exists: bool,
    /// The output's parent is a directory.
    pub output_parent_is_dir: bool,
}

/// Why a run's options were refused.
#[derive(Clone, Copy, Debug, PartialEq, Eq, Structural)]
pub enum OptionsError {
    NoThreads,
    DatabaseMissing,
    EntitiesMissing,
    LocationsMissing,
    ScriptMissing { index: usize },
    OutputExists,
    OutputParentMissing,
}

/// The first script among the first `n` that is not a file.
pub open spec fn first_missing_script(files: Seq<bool>, n: int) -> Option<int>
    decreases n,
{
    if n <= 0 {
        None
    } else {
        match first_missing_script(files, n - 1) {
            Some(i) => Some(i),
            None => if !files[n - 1] {
                Some(n - 1)
            } else {
                None
            },
        }
    }
}

proof fn lemma_missing_script_stays(files: Seq<bool>, k: int, n: int)
    requires
        0 <= k <= n,
        first_missing_script(files, k) is Some,
    ensures
        first_missing_script(files, n) == first_missing_script(files, k),
    decreases n - k,
{
    if n > k {
        lemma_missing_script_stays(files, k, n - 1);
    }
}

/// Why options are refused, in the order they are checked, if they are.
pub open spec fn options_fault(facts: OptionsFacts) -> Option<OptionsError> {
    if facts.threads == 0 {
        Some(OptionsError::NoThreads)
    } else if !facts.db_is_dir {
        Some(OptionsError::DatabaseMissing)
    } else if !facts.db_has_entities {
        Some(OptionsError::EntitiesMissing)
    } else if !facts.db_has_locations {
        Some(OptionsError::LocationsMissing)
    } else if first_missing_script(
        facts.scripts_are_files@,
        facts.scripts_are_files.len() as int,
    ) is Some {
        Some(
            OptionsError::ScriptMissing {
                index: first_missing_script(
                    facts.scripts_are_files@,
                    facts.scripts_are_files.len() as int,
                )->Some_0 as usize,
            },
        )
    } else if facts.output_exists {
        Some(OptionsError::OutputExists)
    } else if !facts.output_parent_is_dir {
        Some(OptionsError::OutputParentMissing)
    } else {
        None
    }
}

/// Checks a run's options before anything is opened or created: at least
/// one thread, a complete osmdb directory, existing scripts, an output path
/// that does not exist yet and whose parent does.
pub fn check_options(facts: &OptionsFacts) -> (r: Result<(), OptionsError>)
    ensures
        match options_fault(*facts) {
            Some(e) => r == Err::<(), OptionsError>(e),
            None => r is Ok,
        },
{
    if facts.threads == 0 {
        return Err(OptionsError::NoThreads);
    }
    if !facts.db_is_dir {
        return Err(OptionsError::DatabaseMissing);
    }
    if !facts.db_has_entities {
        return Err(OptionsError::EntitiesMissing);
    }
    if !facts.db_has_locations {
        return Err(OptionsError::LocationsMissing);
    }
    let n = facts.scripts_are_files.len();
    let mut i: usize = 0;
    while i < n
        invariant
            n == facts.scripts_are_files.len(),
            facts.threads != 0,
            facts.db_is_dir && facts.db_has_entities && facts.db_has_locations,
            i <= n,
            first_missing_script(facts.scripts_are_files@, i as int) is None,
        decreases n - i,
    {
        if !facts.scripts_are_files[i] {
            proof {
                lemma_missing_script_stays(facts.scripts_are_files@, i + 1, n as int);
            }
            return Err(OptionsError::ScriptMissing { index: i });
        }
        i = i + 1;
    }
    if facts.output_exists {
        return Err(OptionsError::OutputExists);
    }
    if !facts.output_parent_is_dir {
        return Err(OptionsError::OutputParentMissing);
    }
    Ok(())
}

/// What `std::path::Path::parent` gives for a path, as text.
pub uninterp spec fn path_parent(path: Seq<char>) -> Option<Seq<char>>;

/// The parent of a path, from `std::path::Path::parent`. Its documentation
/// says that the empty path has none; the rest is named, not stated.
#[verifier::external_body]
fn parent_of(path: &str) -> (r: Option<String>)
    ensures
        r is None <==> path_parent(path@) is None,
        r matches Some(p) ==> path_parent(path@) == Some(p@),
        path@.len() == 0 ==> r is None,
{
    std::path::Path::new(path).parent().map(|parent| parent.to_string_lossy().into_owned())
}

/// The directory that a parent gives: the parent itself, or the current
/// directory when there is none or it is empty.
pub open spec fn parent_dir(parent: Option<Seq<char>>) -> Seq<char> {
    match parent {
        Some(p) => if p.len() > 0 {
            p
        } else {
            "."@
        },
        None => "."@,
    }
}

/// The directory a parent names: the parent, or `.` when there is none or it
/// is empty.
pub fn parent_or_current(parent: Option<String>) -> (r: String)
    ensures
        r@ == parent_dir(match parent {
            Some(p) => Some(p@),
            None => None,
        }),
{
    match parent {
        Some(p) => {
            if p.as_str().unicode_len() > 0 {
                p
            } else {
                String::from_str(".")
            }
        },
        None => String::from_str("."),
    }
}

/// The directory in which the output is created: the output path's parent,
/// or the current directory for a bare file name.
pub fn output_parent(output: &str) -> (r: String)
    ensures
        r@ == parent_dir(path_parent(output@)),
{
    parent_or_current(parent_of(output))
}

/// The message that reports refused options.
pub open spec fn options_message(e: OptionsError, options: ExtractOptions) -> Seq<char> {
    match e {
        OptionsError::NoThreads => "--threads must be at least 1"@,
        OptionsError::DatabaseMissing => "osmdb directory '"@ + options.db@ + "' does not exist"@,
        OptionsError::EntitiesMissing => "'"@ + options.db@
            + "' is not an osmdb directory: data.sqlite is missing"@,
        OptionsError::LocationsMissing => "'"@ + options.db@
            + "' is not an osmdb directory: locations.bin is missing"@,
        OptionsError::ScriptMissing { index } => "Lua script '"@ + options.scripts@[index as int]@
            + "' does not exist"@,
        OptionsError::OutputExists => "output path '"@ + options.output@ + "' already exists"@,
        OptionsError::OutputParentMissing => "output parent directory '"@ + parent_dir(
            path_parent(options.output@),
        ) + "' does not exist"@,
    }
}

impl OptionsError {
    /// The message for the options that were checked.
    pub fn message(self, options: &ExtractOptions) -> (r: String)
        requires
            self matches OptionsError::ScriptMissing { index } ==> index < options.scripts.len(),
        ensures
            r@ == options_message(self, *options),
    {
        let mut text = String::new();
        match self {
            OptionsError::NoThreads => text.append("--threads must be at least 1"),
            OptionsError::DatabaseMissing => {
                text.append("osmdb directory '");
                text.append(options.db.as_str());
                text.append("' does not exist");
            },
            OptionsError::EntitiesMissing => {
                text.append("'");
                text.append(options.db.as_str());
                text.append("' is not an osmdb directory: data.sqlite is missing");
            },
            OptionsError::LocationsMissing => {
                text.append("'");
                text.append(options.db.as_str());
                text.append("' is not an osmdb directory: locations.bin is missing");
            },
            OptionsError::ScriptMissing { index } => {
                text.append("Lua script '");
                text.append(options.scripts[index].as_str());
                text.append("' does not exist");
            },
            OptionsError::OutputExists => {
                text.append("output path '");
                text.append(options.output.as_str());
                text.append("' already exists");
            },
            OptionsError::OutputParentMissing => {
                let parent = output_parent(options.output.as_str());
                text.append("output parent directory '");
                text.append(parent.as_str());
                text.append("' does not exist");
            },
        }
        text
    }
}

/// The name under which the output is written until the run succeeds: a
/// hidden file beside it, made unique by the process id and a time stamp.
pub open spec fn temporary_name(name: Seq<char>, pid: u32, nonce: u128) -> Seq<char> {
    "."@ + name + ".tmp-"@ + decimal(pid as nat) + "-"@ + decimal(nonce as nat)
}

pub fn temporary_output_name(name: &str, pid: u32, nonce: u128) -> (r: String)
    ensures
        r@ == temporary_name(name@, pid, nonce),
{
    let mut text = String::from_str(".");
    text.append(name);
    text.append(".tmp-");
    push_decimal(&mut text, pid as u64);
    text.append("-");
    push_wide_decimal(&mut text, nonce);
    text
}

/// Two layer lists are the same schema.
pub fn layers_equal(a: &Vec<LayerDef>, b: &Vec<LayerDef>) -> (r: bool)
    ensures
        r == (a@.map_values(|l: LayerDef| l@) == b@.map_values(|l: LayerDef| l@)),
{
    let ghost ma = a@.map_values(|l: LayerDef| l@);
    let ghost mb = b@.map_values(|l: LayerDef| l@);
    if a.len() != b.len() {
        assert(ma.len() != mb.len());
        return false;
    }
    let mut i: usize = 0;
    while i < a.len()
        invariant
            a.len() == b.len(),
            ma == a@.map_values(|l: LayerDef| l@),
            mb == b@.map_values(|l: LayerDef| l@),
            i <= a.len(),
            forall|k: int| 0 <= k < i ==> ma[k] == mb[k],
        decreases a.len() - i,
    {
        let x = &a[i];
        let y = &b[i];
        assert(ma[i as int] == x@ && mb[i as int] == y@);
        if !(x.name == y.name) || x.source != y.source || x.columns.len() != y.columns.len() {
            assert(x@.columns.len() == x.columns.len());
            return false;
        }
        let mut j: usize = 0;
        #[verifier::loop_isolation(false)]
        while j < x.columns.len()
            invariant
                x.columns.len() == y.columns.len(),
                j <= x.columns.len(),
                forall|k: int| 0 <= k < j ==> x@.columns[k] == y@.columns[k],
            decreases x.columns.len() - j,
        {
            let c = &x.columns[j];
            let d = &y.columns[j];
            assert(x@.columns[j as int] == c@ && y@.columns[j as int] == d@);
            if !(c.name == d.name) || c.column_type != d.column_type || c.required != d.required {
                assert(ma[i as int].columns[j as int] != mb[i as int].columns[j as int]);
                assert(ma[i as int] != mb[i as int]);
                return false;
            }
            j = j + 1;
        }
        assert(x@.columns =~= y@.columns);
        i = i + 1;
    }
    assert(ma =~= mb);
    true
}

/// The schema a list of layers forms.
pub open spec fn schema_of(layers: Seq<LayerDef>) -> Seq<LayerModel> {
    layers.map_values(|l: LayerDef| l@)
}

/// The first worker whose schema differs from the first worker's, if any;
/// the scripts' initialisation must give every worker the same layers.
pub fn first_disagreeing_worker(schemas: &Vec<Vec<LayerDef>>) -> (r: Option<usize>)
    requires
        schemas.len() > 0,
    ensures
        match r {
            Some(i) => 1 <= i < schemas.len() && schema_of(schemas@[i as int]@) != schema_of(
                schemas@[0]@,
            ) && forall|j: int|
                1 <= j < i ==> schema_of(#[trigger] schemas@[j]@) == schema_of(schemas@[0]@),
            None => forall|j: int|
                0 <= j < schemas.len() ==> schema_of(#[trigger] schemas@[j]@) == schema_of(
                    schemas@[0]@,
                ),
        },
{
    let mut i: usize = 1;
    while i < schemas.len()
        invariant
            1 <= i <= schemas.len(),
            forall|j: int|
                0 <= j < i ==> schema_of(#[trigger] schemas@[j]@) == schema_of(schemas@[0]@),
        decreases schemas.len() - i,
    {
        if !layers_equal(&schemas[i], &schemas[0]) {
            return Some(i);
        }
        i = i + 1;
    }
    None
}

} // verus!
