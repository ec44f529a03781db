pub mod audio;
pub mod captions;
pub mod config;
pub mod geometry;
pub mod layout;
pub mod outputs;
pub mod recorder;
pub mod session;
pub mod text;
pub mod theme;
