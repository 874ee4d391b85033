//! Renders a parsed Markdown document tree into terminal-displayable text,
//! in two modes: a plain mode producing pure text with structural markers,
//! and a styled mode that wraps parts of the text in terminal
//! display-attribute sequences (bold, italic, underline, strikethrough,
//! inverse, reset).
//!
//! The tree type lives in [`tree`], the renderer and its full functional
//! specification in [`render`], the splitting/repetition/decimal helpers in
//! [`text`], the attribute sequences and painting helpers in [`style`], and
//! the renderer's proved laws in [`laws`].

pub mod laws;
pub mod render;
pub mod style;
pub mod text;
pub mod tree;
