pub mod active_stroke;
pub mod active_stroke_updater;
pub mod active_stroke_spawner;
