pub mod mp4f;
pub mod rtsp;
pub mod ts;
