//! Configurations that are turned away before a frame is begun.

use vstd::prelude::*;

verus! {

/// Why a configuration cannot produce a frame.
#[derive(Clone, Copy, Debug, PartialEq, Eq, Structural)]
pub enum ConfigError {
    /// The palette has no colour.
    EmptyPalette,
    /// The frame is zero pixels wide.
    ZeroWidth,
    /// The frame is zero pixels high.
    ZeroHeight,
}

impl ConfigError {
    /// A sentence that names the fault.
    pub fn message(&self) -> (s: String)
        ensures
            s@ == (match *self {
                ConfigError::EmptyPalette => "palette is empty"@,
                ConfigError::ZeroWidth => "frame width is zero"@,
                ConfigError::ZeroHeight => "frame height is zero"@,
            }),
    {
        match self {
            ConfigError::EmptyPalette => "palette is empty".to_string(),
            ConfigError::ZeroWidth => "frame width is zero".to_string(),
            ConfigError::ZeroHeight => "frame height is zero".to_string(),
        }
    }
}

} // verus!
