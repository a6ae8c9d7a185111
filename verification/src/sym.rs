pub mod code128;
pub mod patterns;
