# osmdb-extract

`osmdb-extract` creates typed GeoPackage and GeoParquet datasets from an
osmdb database (`data.sqlite` and `locations.bin`). Lua scripts define the
output layers, receive every OpenStreetMap object and insert rows; they can
ask for way and relation geometry and for entities of a local Wikidata store.

## Layout

- `src/` is the library, written in Verus. Its functions carry contracts
  that Verus proves, except a few small wrappers around calls into osmdb,
  wikidata_store and `std::path`, whose contracts are trusted and whose doc
  comments say what they claim:
  - `schema.rs`: sources, column types, layer definitions, the rules a layer
    and a set of layers must follow, and their messages;
  - `lua.rs`: what scripts hand over, its conversion to column values and
    JSON, row building, the outcome of one object across several scripts,
    and the registry of layers the scripts define;
  - `geometry.rs`: fixed-point geometries, way lines and the resolution of
    (nested) relation geometry against the osmdb store, with cycle detection;
  - `output.rs`: batching rows per layer, the GeoPackage statements, geometry
    framing and extents, and the Arrow column layout of GeoParquet output;
  - `pipeline.rs`: the options of a run and their checks, the run's counters
    and first error, and the agreement of the workers' schemas;
  - `wikidata.rs`: entity lookups in a Wikidata store;
  - `text.rs`: small text helpers.
- `app/` is the command-line program around the library: argument parsing,
  the Lua states, the database scan across threads, and the GeoPackage and
  GeoParquet writers.
- `tests/` exercises the library.

## Usage

```bash
osmdb-extract --db ./region.osmdb --script roads.lua --script cafes.lua \
  --format geopackage --output region.gpkg -v
```

Repeat `--script` to run several scripts in one scan; layer names must be
unique across all scripts. Existing output paths are refused, and the output
is published only once extraction succeeds.
