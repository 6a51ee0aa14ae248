pub mod undo;
pub mod paintbrush;
