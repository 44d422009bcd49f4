//! Resolution-adaptive face-region blurring for live video frames.
//!
//! A frame is decoded into an RGBA raster; face boxes found by a detector are
//! clamped to the raster and the pixels under them are handed out as crops;
//! their blurred versions are composited back without touching any other
//! pixel. When the detection resolution is smaller than the capture
//! resolution, detection and blurring run on a shrunk copy and only the
//! blurred pixels are scaled back up, through a transparent mask.

pub mod compositor;
pub mod geometry;
pub mod imaging;
pub mod laws;
pub mod raster;
pub mod settings;
pub mod timing;

pub use geometry::{clamp_box, BoundingBox, Region, Resolution};
pub use raster::{Frame, Raster, Rgba};
pub use imaging::{decode_frame, luma, resize_frame, FrameError};
pub use settings::{ConfigError, Settings};
pub use compositor::{
    check_patches, composite_frame, detection_frame, face_crops, loop_faces, process,
    process_light,
};
pub use timing::get_millis;
