//! Interactive explorer for EVM call traces: the call-tree arena, the
//! cursor that walks it, the text it is drawn as, and the conversion of
//! parity-style traces into the arena.

pub mod seq_util;
pub mod arena;
pub mod text;
pub mod values;
pub mod navigation;
pub mod display;
pub mod parity;
pub mod convert;
pub mod writer;
pub mod render;
pub mod bindings;
pub mod tui;
pub mod backend;
