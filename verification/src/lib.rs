//! Flag synthesis engine: reproduces, for a single source file of a larger
//! project, the compiler invocation (ordered flags and environment map) that
//! the project's build orchestrator would have used for the compilation unit
//! owning that file, without running the full build.

pub mod artifact;
pub mod assemble;
pub mod errors;
pub mod graph;
pub mod inventory;
pub mod locate;
pub mod names;
pub mod paths;
pub mod reach;
pub mod synth;
