pub mod aac;
pub mod h264;
pub mod h265;
