//! Postprocessing toolkit for machine-generated Python protobuf bindings.
//!
//! The library rewrites absolute imports between generated modules into
//! package-relative form, resolves the package structure of the output tree,
//! and prepares and evaluates an import-verification pass over the rewritten
//! modules.  All decision logic lives here, verified; process and file-system
//! work is left to the surrounding binary.

pub mod chars;
pub mod config;
pub mod fds;
pub mod harness;
pub mod paths;
pub mod package_structure;
pub mod protoc;
pub mod rewrite;
pub mod scan;
pub mod script;
