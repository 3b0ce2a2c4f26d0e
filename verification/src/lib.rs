//! Tooling for preparing a native C++ dependency for a foreign runtime:
//! a semantic-version gate for the required build tools, path rules for
//! gathering headers and library artifacts into an output tree, a lexical
//! scanner that extracts function-like declarations from header text, and
//! a renderer for the single `extern "C"` binding file that ties the
//! gathered headers and extracted signatures together.
//!
//! Every function here is specified against a mathematical model of the
//! text it consumes and produces; the process-level work (running the
//! external tools, walking directories, writing files) lives outside the
//! library and feeds it plain values.

pub mod emit;
pub mod extract;
pub mod paths;
pub mod pipeline;
pub mod text;
pub mod version;

pub use extract::extract_function_details;
