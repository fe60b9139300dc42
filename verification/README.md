# servyi_ioprovider

Mock and fuzzing I/O providers for testing code that talks to language models,
subprocesses and a file system, with machine-checked contracts.

Layout:

- `src/provider.rs`: the `IOProvider` and `Fuzz` traits, and `FuzzProvider`, which answers
  every request from a fixed block of seeded random data.
- `src/fuzz_data.rs`: `FuzzData`, the stream of random bytes fuzzers draw from, and its draws.
- `src/command.rs`: `MockCommand`, with response queues per program.
- `src/filesystem.rs`: `MockFileSystem`, an in-memory file store keyed by path.
- `src/llm.rs`: `MockLlm`, its conversation types, and the keyword-driven fuzzing of replies.
- `src/mock.rs`: `SequenceMock`, `FnMock`, `NeverMock`, `ConstantMock`.
- `src/error.rs`, `src/keyed.rs`, `src/text.rs`: the error type, the map model of keyed
  entries, and string helpers.
- `app/`: the asynchronous provider trait, shared handles whose clones see the same state,
  fuzz providers drawing from one shared stream, and the serde forms of the request and
  result types.

Each provider's behaviour is a spec function from state and request to next state and
answer (`command_step`, `fs_step`, `llm_step`); `invoke` is proved to follow it, and the
laws (`law_*`) are proved over those functions.
