//! Startup configuration, supplied as plain data by the caller that
//! loads it at the process edge.

use vstd::prelude::*;
use crate::email::EmailSettings;

verus! {

/// Startup configuration: the directory to watch and the settings for
/// the notification side effect.
pub struct Config {
    pub folder_path: String,
    pub email_settings: EmailSettings,
}

} // verus!
