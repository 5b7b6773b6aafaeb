//! Loads `KEY=VALUE` lines of a text file into a set of environment variables,
//! with a configurable comment marker, delimiter and overwrite policy.
//!
//! An [`EnvLoader`] holds the settings. [`load_file`] takes the text of the
//! file and an [`Environment`], and applies the lines in order; what it did is
//! stated in its contract over [`load::load`], and the module [`laws`] proves
//! what follows from that for every input.

pub mod config;
pub mod environment;
pub mod error;
pub mod laws;
pub mod line;
pub mod lines;
pub mod load;
pub mod text;

pub use config::EnvLoader;
pub use environment::Environment;
pub use error::MalformedLine;
pub use line::{parse_line, Line};
pub use lines::lines;
pub use load::{load_file, load_line, Report};
