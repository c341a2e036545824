//! A source-to-source obfuscator core: semantics-preserving, analysis-hostile
//! rewrites over a syntax-tree model of a curly-brace systems language.
//!
//! The library holds the three transformation passes (string-literal
//! obfuscation, control-flow obfuscation with opaque dummy loops, and
//! identifier renaming), the pipeline that sequences them, the XOR stream
//! cipher that the emitted decrypt calls reverse at run time, and the
//! random identifier generator. Parsing source text into the tree model and
//! printing the transformed tree back to text are the host grammar
//! library's job and live outside this crate.

pub mod ast;
pub mod cipher;
pub mod flow;
pub mod namegen;
pub mod obfuscate;
pub mod rename;
pub mod stringobf;
mod rng;

pub use cipher::decrypt_string;
pub use cipher::xor_cipher;
