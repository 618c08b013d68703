//! The user's standard folders, as the `dirs` crate finds them.
//!
//! They come from the environment (`$HOME`, the XDG variables, the password
//! database), so nothing is stated of what they return. A path that is not
//! valid UTF-8 is held in its lossy form (invalid bytes as U+FFFD).

use vstd::prelude::*;

verus! {

/// Calls `dirs::home_dir`, the user's home folder.
#[verifier::external_body]
pub(crate) fn home_dir() -> Option<String> {
    dirs::home_dir().map(|p| p.to_string_lossy().into_owned())
}

/// Calls `dirs::config_dir`, the user's configuration folder.
#[verifier::external_body]
pub(crate) fn config_dir() -> Option<String> {
    dirs::config_dir().map(|p| p.to_string_lossy().into_owned())
}

/// Calls `dirs::cache_dir`, the user's cache folder.
#[verifier::external_body]
pub(crate) fn cache_dir() -> Option<String> {
    dirs::cache_dir().map(|p| p.to_string_lossy().into_owned())
}

} // verus!
