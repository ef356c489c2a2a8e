//! What the library reports instead of doing the work.

use vstd::prelude::*;

verus! {

/// A parameter that no effect can run with. It is reported before any pixel is
/// touched.
#[derive(Clone, Copy, Debug, PartialEq, Eq, Structural)]
pub enum ConfigError {
    /// The patch size is zero, so no grid of tiles exists.
    PatchSizeZero,
    /// The patch size exceeds the width or the height of the image.
    PatchSizeExceedsImage,
}

impl ConfigError {
    /// The error in words.
    pub fn message(&self) -> (text: String)
        ensures
            text@ == match *self {
                ConfigError::PatchSizeZero => "Patch size must be at least one pixel"@,
                ConfigError::PatchSizeExceedsImage =>
                    "Patch size must be smaller than image dimensions"@,
            },
    {
        match self {
            ConfigError::PatchSizeZero => "Patch size must be at least one pixel".to_owned(),
            ConfigError::PatchSizeExceedsImage => {
                "Patch size must be smaller than image dimensions".to_owned()
            },
        }
    }
}

} // verus!
