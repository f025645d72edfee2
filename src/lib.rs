//! Video dithering: a bounds-checked RGB frame view, error-diffusion
//! dithering over it, target resolutions derived from an aspect ratio, and
//! the decisions of the decode/dither/encode pipeline.

pub mod frame;
pub mod dither;
pub mod pipeline;
pub mod ffmpeg;
pub mod text;
pub mod cli;
