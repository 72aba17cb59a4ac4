//! A spatio-temporal aggregation and rendering engine for vehicle position
//! heatmaps: it computes a global geographic bounding box over bucketed
//! observations, maps coordinates into a fixed-resolution count grid with an
//! optional 3x3 splat kernel, aggregates trailing time windows, and renders
//! normalized counts as grayscale or perceptually colored raster buffers.
//!
//! Coordinates are carried as fixed-point integers (for instance microdegrees):
//! the engine's arithmetic is exact integer arithmetic throughout. Reading the
//! external feed and persisting rendered frames are left to the surrounding
//! application; the engine consumes and produces plain values.

pub mod engine;
pub mod geo;
pub mod grid;
pub mod render;
pub mod window;

pub use engine::{render_frame, Frame, RenderConfig};
pub use geo::{BucketEntry, GeoBounds, NoDataError, Position, PositionSet, COORD_LIMIT};
pub use grid::{bucket_positions, compute_cell_coord, CountGrid, MAX_OBS, MAX_RES};
pub use render::{gray_intensity, max_count, render, ColorMode};
pub use window::{select_window, WindowPolicy, WindowSelection};
