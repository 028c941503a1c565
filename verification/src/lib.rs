//! Renders a snapshot of a source tree as a single syntax-highlighted HTML
//! document together with a JSON manifest of the relative paths it contains.
pub mod filter;
pub mod globs;
pub mod highlight;
pub mod manifest;
pub mod naming;
pub mod pipeline;
pub mod render;
pub mod text;
