//! Reference rewriting and front-matter completion for a vault of
//! interlinked Markdown notes.
pub mod completion;
pub mod model;
pub mod paths;
pub mod rename;
pub mod synth;
pub mod text;
