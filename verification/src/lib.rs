//! Markdown-to-PDF document pipeline: text primitives, Mermaid block handling,
//! diff markers, theme configuration and workspace bookkeeping.

pub mod error;
pub mod escape;
pub mod text;
pub mod mermaid;
pub mod desktop;
pub mod diff;
pub mod theme;
pub mod pattern;
pub mod markdown;
pub mod assets;
pub mod preview;
pub mod process;
pub mod routes;
pub mod images;
