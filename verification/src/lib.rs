//! Bounded per-key sample histories, the batches that feed them, the fan-out
//! of accepted batches to live subscribers, and point-in-time export.

pub mod align;
pub mod batch;
pub mod broadcast;
pub mod connection;
pub mod decode;
pub mod export;
pub mod retention;
mod ring;
pub mod selection;
pub mod state;
pub mod text;
pub mod values;
