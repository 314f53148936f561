use osmdb_extract::lua::{ObjectOutcome, WorkerError};
use osmdb_extract::pipeline::{
    check_options, first_disagreeing_worker, layers_equal, output_parent, parent_or_current,
    temporary_output_name, ExtractOptions, ExtractSummary, OptionsError, OptionsFacts,
    OutputFormat, RunError, RunState,
};
use osmdb_extract::schema::{ColumnDef, ColumnType, LayerDef, OutputRow, SourceKind};

#[test]
fn output_parent_uses_current_directory_for_bare_filename() {
    assert_eq!(output_parent("region.gpkg"), ".");
}

#[test]
fn output_parent_preserves_explicit_parent_directory() {
    assert_eq!(output_parent("exports/region.gpkg"), "exports");
}

#[test]
fn output_parent_of_nested_and_absolute_paths() {
    assert_eq!(output_parent("a/b/c.gpkg"), "a/b");
    assert_eq!(output_parent("/region.gpkg"), "/");
    assert_eq!(output_parent(""), ".");
}

#[test]
fn parent_or_current_falls_back_to_dot() {
    assert_eq!(parent_or_current(None), ".");
    assert_eq!(parent_or_current(Some(String::new())), ".");
    assert_eq!(parent_or_current(Some("out".to_string())), "out");
}

fn good_facts() -> OptionsFacts {
    OptionsFacts {
        threads: 2,
        db_is_dir: true,
        db_has_entities: true,
        db_has_locations: true,
        scripts_are_files: vec![true, true],
        output_exists: false,
        output_parent_is_dir: true,
    }
}

#[test]
fn options_are_checked_in_order() {
    assert_eq!(check_options(&good_facts()), Ok(()));

    let mut facts = good_facts();
    facts.threads = 0;
    facts.db_is_dir = false;
    assert_eq!(check_options(&facts), Err(OptionsError::NoThreads));

    let mut facts = good_facts();
    facts.db_is_dir = false;
    assert_eq!(check_options(&facts), Err(OptionsError::DatabaseMissing));

    let mut facts = good_facts();
    facts.db_has_entities = false;
    assert_eq!(check_options(&facts), Err(OptionsError::EntitiesMissing));

    let mut facts = good_facts();
    facts.db_has_locations = false;
    assert_eq!(check_options(&facts), Err(OptionsError::LocationsMissing));

    let mut facts = good_facts();
    facts.scripts_are_files = vec![true, false, false];
    facts.output_exists = true;
    assert_eq!(check_options(&facts), Err(OptionsError::ScriptMissing { index: 1 }));

    let mut facts = good_facts();
    facts.output_exists = true;
    assert_eq!(check_options(&facts), Err(OptionsError::OutputExists));

    let mut facts = good_facts();
    facts.output_parent_is_dir = false;
    assert_eq!(check_options(&facts), Err(OptionsError::OutputParentMissing));
}

fn row(layer_index: usize) -> OutputRow {
    OutputRow { layer_index, values: Vec::new() }
}

#[test]
fn run_state_counts_objects_rows_and_skips() {
    let mut state = RunState::new();
    assert_eq!(state.summary(), ExtractSummary::default());
    state.record_object(SourceKind::Node);
    state.record_object(SourceKind::Node);
    state.record_object(SourceKind::Way);
    state.record_object(SourceKind::Relation);

    let sent = state.handle_outcome(SourceKind::Node, 1, Ok(ObjectOutcome::Rows(vec![row(0), row(1)])));
    assert_eq!(sent.map(|rows| rows.len()), Some(2));
    let sent = state.handle_outcome(SourceKind::Node, 2, Ok(ObjectOutcome::Rows(Vec::new())));
    assert!(sent.is_none());
    let sent = state.handle_outcome(
        SourceKind::Relation,
        30,
        Ok(ObjectOutcome::GeometrySkipped("way member 999 of relation 30 is missing".to_string())),
    );
    assert!(sent.is_none());

    assert_eq!(
        state.summary(),
        ExtractSummary {
            nodes_processed: 2,
            ways_processed: 1,
            relations_processed: 1,
            geometry_skipped: 1,
            rows_written: 2,
        }
    );
    assert!(!state.is_cancelled());
}

#[test]
fn run_state_keeps_the_first_error_and_cancels() {
    let mut state = RunState::new();
    let sent = state.handle_outcome(SourceKind::Way, 10, Err(WorkerError::Fatal("first".to_string())));
    assert!(sent.is_none());
    assert!(state.is_cancelled());
    state.set_error(RunError::WriterStopped);
    match state.take_error() {
        Some(RunError::ObjectFailed { source, id, error: WorkerError::Fatal(message) }) => {
            assert_eq!(source, SourceKind::Way);
            assert_eq!(id, 10);
            assert_eq!(message, "first");
        }
        other => panic!("unexpected {other:?}"),
    }
    assert!(state.take_error().is_none());
    assert!(state.is_cancelled());
}

#[test]
fn rows_are_counted_per_object() {
    let mut state = RunState::new();
    let rows: Vec<OutputRow> = (0..3).map(row).collect();
    state.handle_outcome(SourceKind::Node, 1, Ok(ObjectOutcome::Rows(rows)));
    assert_eq!(state.summary().rows_written, 3);
}

fn layer(name: &str, source: SourceKind) -> LayerDef {
    LayerDef {
        name: name.to_string(),
        source,
        columns: vec![ColumnDef { name: "osm_id".to_string(), column_type: ColumnType::Int64, required: true }],
    }
}

#[test]
fn workers_must_agree_on_their_schema() {
    let a = vec![layer("pois", SourceKind::Node), layer("roads", SourceKind::Way)];
    let b = vec![layer("pois", SourceKind::Node), layer("roads", SourceKind::Way)];
    let c = vec![layer("pois", SourceKind::Node), layer("roads", SourceKind::Relation)];
    assert!(layers_equal(&a, &b));
    assert!(!layers_equal(&a, &c));
    assert!(!layers_equal(&a, &vec![layer("pois", SourceKind::Node)]));
    assert_eq!(first_disagreeing_worker(&vec![a.clone(), b.clone()]), None);
    assert_eq!(first_disagreeing_worker(&vec![a.clone(), b, c]), Some(2));
    let mut renamed = a.clone();
    renamed[1].columns[0].required = false;
    assert_eq!(first_disagreeing_worker(&vec![a, renamed]), Some(1));
}

#[test]
fn cancelled_runs_start_no_more_objects() {
    let mut state = RunState::new();
    assert!(state.begin_object(SourceKind::Node));
    assert_eq!(state.summary().nodes_processed, 1);
    state.set_error(RunError::WriterStopped);
    assert!(!state.begin_object(SourceKind::Way));
    assert_eq!(state.summary().ways_processed, 0);
    assert_eq!(state.take_error().unwrap().message(), "output writer stopped unexpectedly");
}

#[test]
fn run_errors_name_the_object() {
    let error = RunError::ObjectFailed {
        source: SourceKind::Node,
        id: 1,
        error: WorkerError::Fatal("invalid value for column 'pois.name' while processing node 1: expected string".to_string()),
    };
    assert_eq!(
        error.message(),
        "failed while processing node 1: invalid value for column 'pois.name' while processing node 1: expected string"
    );
    let error = RunError::ObjectFailed {
        source: SourceKind::Way,
        id: -12,
        error: WorkerError::Callback { source: SourceKind::Way, id: -12, message: "runtime error: boom".to_string() },
    };
    assert_eq!(
        error.message(),
        "failed while processing way -12: Lua process_way failed for way -12: runtime error: boom"
    );
}

fn options() -> ExtractOptions {
    ExtractOptions {
        db: "region.osmdb".to_string(),
        scripts: vec!["cafes.lua".to_string(), "roads.lua".to_string()],
        format: OutputFormat::Geopackage,
        output: "exports/region.gpkg".to_string(),
        threads: 2,
        wikidata_store: None,
    }
}

#[test]
fn option_errors_name_the_paths() {
    let options = options();
    assert_eq!(OptionsError::NoThreads.message(&options), "--threads must be at least 1");
    assert_eq!(
        OptionsError::DatabaseMissing.message(&options),
        "osmdb directory 'region.osmdb' does not exist"
    );
    assert_eq!(
        OptionsError::EntitiesMissing.message(&options),
        "'region.osmdb' is not an osmdb directory: data.sqlite is missing"
    );
    assert_eq!(
        OptionsError::LocationsMissing.message(&options),
        "'region.osmdb' is not an osmdb directory: locations.bin is missing"
    );
    assert_eq!(
        OptionsError::ScriptMissing { index: 1 }.message(&options),
        "Lua script 'roads.lua' does not exist"
    );
    assert_eq!(
        OptionsError::OutputExists.message(&options),
        "output path 'exports/region.gpkg' already exists"
    );
    assert_eq!(
        OptionsError::OutputParentMissing.message(&options),
        "output parent directory 'exports' does not exist"
    );
}

#[test]
fn temporary_outputs_are_hidden_and_unique() {
    assert_eq!(temporary_output_name("region.gpkg", 42, 7), ".region.gpkg.tmp-42-7");
    assert_eq!(
        temporary_output_name("out", 0, u128::MAX),
        ".out.tmp-0-340282366920938463463374607431768211455"
    );
}

#[test]
fn runs_end_with_their_first_error_or_their_counters() {
    let mut state = RunState::new();
    state.begin_object(SourceKind::Relation);
    assert_eq!(
        state.conclude().unwrap(),
        ExtractSummary { relations_processed: 1, ..ExtractSummary::default() }
    );
    state.handle_outcome(SourceKind::Node, 4, Err(WorkerError::Fatal("bad".to_string())));
    assert!(matches!(state.conclude(), Err(RunError::ObjectFailed { id: 4, .. })));
    assert!(state.conclude().is_ok());
}
