//! Layout and control logic of a GPT-2 style transformer: the causal
//! attention mask, the geometry of multi-head attention, the collection of
//! residual-stream snapshots across transformer blocks and the names of the
//! per-block weight groups of a checkpoint.

pub mod geometry;
pub mod mask;
pub mod naming;
pub mod residual;
