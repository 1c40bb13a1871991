# sbomgen

Generates a CycloneDX 1.5 JSON SBOM from a `Cargo.lock`, `package-lock.json`
or `requirements.txt`, with the library's logic proved by Verus.

- `src/text.rs`: character-level helpers (trim, find, suffix tests) with
  their specifications.
- `src/documents.rs`: the parsed TOML and JSON documents as plain values;
  parsing is done by the `toml` and `serde_json` crates.
- `src/lockfile.rs`: the three lockfile readers and the dispatch on the
  file name.
- `src/purl.rs`: Package URLs, percent-encoding and PyPI name
  normalization, with the laws that normalization obeys.
- `src/cyclonedx.rs`: the document itself, one entry per distinct name and
  version.
- `app/`: the command line (argument parsing, file I/O, time stamp, UUID,
  JSON output).
