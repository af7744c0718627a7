pub mod clipboard;
pub mod errors;
pub mod options;
pub mod render;
pub mod resolve;
pub mod text;
pub mod walker;
