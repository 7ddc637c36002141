# witness_generator

Verified core of a generator of blocks and execution witnesses for zkVM
benchmarks, written in Verus.

- `src/format.rs`: decimal text of block numbers and `0x` hex text of hashes.
- `src/text.rs`: the characters of a string.
- `src/headers.rs`: `key:value` header arguments, the header validity rules of
  the `http` crate, and the `http::HeaderMap` the RPC client sends.
- `src/rpc.rs`: the builder of the RPC settings and `BlockCollection`, the plan
  of requests that walks back from the head block along parent hashes and then
  collects each block with its witness; `lemma_collects_last_n_blocks` states
  what a run against an endpoint that has every block requests.
- `src/fixtures.rs`: where the test fixtures live and which files are test cases.
- `src/cli.rs`: the RPC source as the command line gives it.
- `app/`: the benchmark binary around the library: command line, HTTP client
  and RPC calls, fixture files and JSON, zkVM setup.
- `tests/`: tests of the library on concrete values.
