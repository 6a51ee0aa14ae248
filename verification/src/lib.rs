//! Wire formats, save files and the bookkeeping of a collaborative drawing canvas.
//!
//! Floating-point values never appear here: every `f32` or `f64` that the
//! formats carry is held by its IEEE-754 bit pattern (`u32` / `u64`), which is
//! what the bytes on the wire determine exactly.

pub mod error;
pub mod wire;
pub mod float_bits;
pub mod byte_reader;
pub mod byte_writer;
pub mod stroke;
pub mod load_file;
pub mod active_strokes;
pub mod networking;
pub mod text;
pub mod file_reader;
pub mod save_load;
pub mod chunks;
pub mod retained_view;
pub mod retained_camera;
pub mod tools;
pub mod line_builder;
pub mod database;
pub mod mesh_bytes;
