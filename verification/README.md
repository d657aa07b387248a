# cpml

CPML, a construction process modeling language: a YAML document declares
fields (capacity, occupancy, scalar, presence, rate), geometries and
activities with their probes, projections, dependencies and syntax sugar
(collisions, structures, demands). The compiler resolves the document into a
model, walks the keyframes of the schedule, checks every probe against the
fields, checks dependencies, and reports diagnostics, metrics and the
schedule's duration; two scenarios can be compared.

## Layout

- `src/` — the verified library. Each public function states its
  result in its `ensures`, over spec functions on the resolved model:
  - `schema`, `model` — the document as written and the resolved model;
    numbers are carried by their binary64 encodings (`numeric::Real`).
  - `time` — date-time parsing and display through chrono, behind trusted
    wrappers whose results are named by uninterpreted spec functions.
  - `resolve` — resolution with every error the document can raise, in order.
  - `expand` — collision, structure and demand sugar into probes and projections.
  - `pipeline` — building the model (resolution then expansion) and the
    schedule duration.
  - `keyframe`, `dependency`, `probe_check`, `occupancy`, `presence`,
    `presence_state`, `diagnostic`, `metric`, `comparison` — keyframes,
    dependency violations, probe diagnostics and the projections they blame,
    occupancy with self-exclusion, presence records and their persistence,
    the order of a run's diagnostics (most severe first, then by keyframe),
    metrics and scenario comparison.
- `app/` — the `cpml` command: YAML parsing with serde, floating-point
  geometry (parry3d) and field sampling, the keyframe loop, console and JSON
  reports.
- `tests/` — tests of the library.
