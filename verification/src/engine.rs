pub mod default_images;
pub mod engine;
pub mod local_ffmpeg;
pub mod raster;
