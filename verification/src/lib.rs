//! A frame-to-frame diffing renderer for character-grid terminals.
//!
//! A scene of positioned, styled text sprites is rendered tick by tick.
//! Each tick detects which entities changed since the last committed frame,
//! rasterizes only the affected cells, diffs them against the cells last
//! written to the terminal, and emits the minimal ordered stream of cursor
//! moves, color changes and glyph writes that brings the terminal up to date.
//!
//! - [`assets`]: immutable sprite and style-map assets, referenced by handle.
//! - [`cells`]: cells, colors, logical commands, and the engine's belief
//!   about the terminal's cursor and color state.
//! - [`scene`]: entity render state, snapshots, and the specification of
//!   what a full render of a scene shows at each coordinate.
//! - [`detect`]: the change detector producing the redraw set.
//! - [`composite`]: the cell compositor rasterizing touched cells by z-order.
//! - [`emit`]: the diff and emit engine producing the command stream and
//!   committing the previous cell buffer.
//! - [`renderer`]: the per-tick orchestration and its tick-level contract.
//! - [`laws`]: proofs relating ticks to each other and the emitted stream
//!   to any real terminal consistent with the engine's knowledge.

pub mod assets;
pub mod cells;
pub mod composite;
pub mod detect;
pub mod emit;
pub mod laws;
pub mod renderer;
pub mod scene;
