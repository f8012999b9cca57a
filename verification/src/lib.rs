//! Data model of a rhythm-game chart editor: a header of song metadata plus
//! a list of placed shapes on a fixed 15x15 grid, together with the JSON
//! wire format of that document and the projection of shapes onto
//! renderer-agnostic drawing primitives.
//!
//! - `fixed` — the fixed-point numbers (thousandths) that carry fractional
//!   grid coordinates, sizes and pixel positions exactly.
//! - `wire` — the JSON tree the format is built on, its mathematical model,
//!   and verified compact and indented writers.
//! - `header`, `shape`, `project` — the document types with their encode
//!   and decode functions, each pinned to a specification of the wire
//!   layout and of exactly which inputs decode and which error they raise.
//! - `geometry` — the grid-to-pixel transform, the per-shape primitives and
//!   the grid overlay.
//! - `laws` — the proved properties of the format: encode/decode round
//!   trips, the scale shift, and color-index validity of decoded documents.
//! - `options` — the editor preferences record.

pub mod fixed;
pub mod geometry;
pub mod header;
pub mod laws;
pub mod options;
pub mod project;
pub mod shape;
pub mod wire;
