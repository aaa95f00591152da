//! Parser for the diagnostic stream of a build tool's static-check pass.
//!
//! The library turns the captured text of a check run into a structured
//! report: an overall verdict (no problems, warnings, errors) together with
//! the individual problems, each carrying a primary source span and the
//! help and note spans attached to it.

pub mod text;
pub mod report;
pub mod parse;
pub mod aggregate;
pub mod laws;

pub use aggregate::parse_check_output;
pub use parse::Level;
pub use parse::line_is_visual_aid;
pub use parse::parse_check_line;
pub use report::Check;
pub use report::CheckError;
pub use report::CheckV;
pub use report::Note;
pub use report::NoteV;
pub use report::ProblemDescription;
pub use report::ProblemV;
