//! Automated triage of static-analysis findings from a quality server.
//!
//! The library holds the verified logic of the pipeline: pagination planning
//! for issue discovery, code-context windowing around a reported line,
//! deterministic prompt synthesis, sanitization of model output into the
//! server's markup dialect, and planning of the comment/tag requests that
//! apply a result to an issue. All network and file I/O lives outside the
//! library and hands plain values in and out.

pub mod args;
pub mod config;
pub mod ollama;
pub mod pipeline;
pub mod prompt;
pub mod sanitize;
pub mod sonarqube;
pub mod text;

