//! Rendering of a jj patch stack for the terminal: the lines that `jf status`
//! prints, built from the stack's changes, a colour theme and an icon set.

pub mod render;
pub mod text;
pub mod term;
pub mod theme;
pub mod types;
