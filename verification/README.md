# baram

A Naver News crawling toolkit whose decision logic is verified with Verus.

- `src/` is the verified library: URL and list-page reading, request
  headers and retry policy, comment trees, the crawl pipeline's job
  accounting, slot tallies, instance status and recovery, the coordinator's registry and
  its API answers, health reports, markdown article parsing, index
  checkpoints, event-cluster selection, keyword and entity trends, cache keys, and the text helpers
  they share. Each public function carries a `requires`/`ensures` contract;
  the `pub proof fn`s state properties that span several calls.
- `tests/` exercises the library on concrete values.
- `app/` is the `baram` program: the command line (`index`, `search`,
  `serve`, `coordinator`), file and network I/O (the search index and the
  embedding server over HTTP, the search API and the coordinator's HTTP
  servers), the JSON
  forms of the library's types, and the computations on real numbers
  (rates, averages, trend slopes, similarity scores).

Calls into outside crates (`url`, `chrono`, `sha2`, `html-escape`,
`serde_json`, `encoding_rs`, `rand`, and a few parts of `std`, among
them the system clock) go through
small trusted wrappers, each documented where it is declared.
