//! Mock and fuzzing I/O providers for testing code that talks to language models,
//! subprocesses and a file system.

pub mod command;
pub mod error;
pub mod filesystem;
pub mod fuzz_data;
pub mod keyed;
pub mod llm;
pub mod mock;
pub mod provider;
pub mod text;

pub use command::{CommandRequest, CommandResult, MockCommand};
pub use error::ProviderError;
pub use filesystem::{FsRequest, FsResult, MockFileSystem};
pub use llm::{LlmMessage, LlmRequest, LlmRole, MockLlm};
pub use mock::{ConstantMock, FnMock, NeverMock, SequenceMock};
pub use fuzz_data::FuzzData;
pub use provider::{fuzz_stream_from_bytes, fuzz_stream_from_seed, Fuzz, FuzzProvider, IOProvider};
