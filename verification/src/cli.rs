//! The command-line options of the program.
use vstd::prelude::*;

use crate::models::UploadMode;

verus! {

/// Command-line options; each option that is given overrides the configuration files.
pub struct CliArgs {
    pub config: Option<String>,
    pub input_dir: Option<String>,
    pub output_dir: Option<String>,
    pub working_dir: Option<String>,
    pub segment_seconds: Option<u64>,
    pub retry_count: Option<u32>,
    pub upload_mode: Option<UploadMode>,
    pub only_index: bool,
    pub force: bool,
}

} // verus!
