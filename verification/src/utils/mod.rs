pub mod bits;
pub mod buf;
