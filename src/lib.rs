//! Generation of distinct random codes that follow a format string.
//!
//! `codes` renders one candidate code from a format; `arbiter` decides which
//! candidates are emitted, keeps them distinct and says when the requested
//! number has been reached; `supervisor` decides how a run is started.
pub mod arbiter;
pub mod codes;
pub mod supervisor;

pub use arbiter::Arbiter;
pub use codes::generate_code;
