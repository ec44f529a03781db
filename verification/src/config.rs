use vstd::prelude::*;

use crate::recorder::{AudioConfig, CaptureRegion, OutputFormat};
use crate::theme::ThemeAccent;

verus! {

/// The settings the application keeps between runs.
#[derive(Debug, Clone)]
pub struct Config {
    pub format: OutputFormat,
    pub region: CaptureRegion,
    pub audio: AudioConfig,
    /// Name of the display to record in full-screen mode.
    pub output: Option<String>,
    pub framerate: u32,
    pub output_dir: std::path::PathBuf,
    pub accent: ThemeAccent,
    pub glow: bool,
}

} // verus!
