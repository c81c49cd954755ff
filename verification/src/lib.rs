//! The logic of gridterm, a grid terminal with a built-in assistant: text
//! editing, key handling, colours, panes, the assistant's conversation and
//! tools, configuration merging and usage accounting. Everything that talks to
//! the outside world lives in the application around this library.

use vstd::prelude::*;

pub mod ai;
pub mod ai_ui;
pub mod browser;
pub mod bytes;
pub mod color;
pub mod crashlog;
pub mod frames;
pub mod grid;
pub mod json;
pub mod keys;
pub mod pty;
pub mod rounding;
pub mod scene;
pub mod text;
pub mod ui;
pub mod usage;

verus! {

} // verus!
