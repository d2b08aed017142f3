# reflector

Serves the data files that game servers publish (`players.txt`, `alliances.txt`, `towns.txt`,
`islands.txt`), and archives every distinct version of them.

- `GET /{server}/{datafile}` gives the file as it is now, from memory, from disk or from upstream.
- `GET /{server}/{datafile}?at={t}` gives the archived version that stands for the unix time `t`.
- `GET /{server}/history` gives the points in time at which all files can be shown.
- `GET /{server}/capture` fetches all files, so that they are archived.

Versions are archived under the directory that `SNAPSHOT_DIR` names, as
`{server}/{file}/{lm}-{hash}.txt.gz`. Without it nothing is archived.

## Layout

- `src/` is the library, verified with Verus: what is served, stored, listed and remembered.
  What it takes on trust of other crates is in `src/external.rs`.
- `app/` is the service around it: HTTP, files and the clock.
- `tests/` are the tests of the library.
