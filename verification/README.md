# codehealth

`codehealth` finds duplicated logic and repeated structure in a code base, scores the
result, compares it with a stored baseline, and reports it as text, JSON, SARIF,
Markdown or a single-file HTML page.

The library in `src/` is written in Verus: every function carries a `requires` /
`ensures` contract and is proved against it. It holds the logic of the tool:

- `config`, `globs`, `policy`, `suppressions`, `gate`: configuration and its
  validation, rule levels and path overrides, inline suppressions, and the CI
  conditions that fail a run;
- `normalize`, `parser`, `text`, `utf8_facts`: source normalisation, line and column
  positions, slicing and snippets;
- `duplication`, `grouping`, `symbol_findings`, `near`, `shingles`, `similarity`,
  `near_findings`, `vector_findings`: the duplicate detectors' grouping, scores,
  stable keys and findings;
- `exact_body`, `structural`, `semantic`, `near_pipeline`, `components`: the symbol
  detectors from definitions and their source text to findings (exact bodies,
  canonical structure, semantic fingerprints, and near duplicates through LSH and
  connected groups of similar pairs);
- `baseline`, `baseline_keys`, `comparison`: baseline entries, matching and updates;
- `scoring`, `metrics`: the health score and the summary metrics;
- `reporting`, `metadata_lines`, `render`: the text, Markdown and HTML reports;
- `integrations`, `tool_json`, `tool_plan`: planning the runs of external tools and
  reading their diagnostics;
- `autofix`: planning and applying safe edits;
- `hashing`: SHA-256 and XXH3 through the `sha2` and `xxhash-rust` crates.

`app/` is the command-line program around the library: argument parsing, reading and
writing files, the serde forms of the configuration and baseline files, and the JSON
and SARIF reports. `tests/` exercises the library through its public interface.
