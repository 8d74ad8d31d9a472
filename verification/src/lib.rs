//! A two-dimensional canvas layout with a panning camera.

pub mod camera;
pub mod canvas_laws;
pub mod canvas_space;
pub mod drawing_laws;
pub mod float;
pub mod float_laws;
pub mod focus;
pub mod geometry;
pub mod history;
pub mod laws;
pub mod operation_laws;
pub mod overview;
pub mod overview_laws;
pub mod pan_camera_grab;
pub mod part_laws;
pub mod pixels;
pub mod resize_laws;
pub mod rounding;
pub mod sizing;
pub mod state;
pub mod tile;
