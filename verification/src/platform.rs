//! Platform labels.

use vstd::prelude::*;

verus! {

/// The platform a node runs on.
#[derive(Debug, Clone, Copy, PartialEq, Eq, Structural)]
pub enum Platform {
    Desktop,
    Android,
}

impl Platform {
    /// The label written to status views and logs.
    pub fn as_str(&self) -> (label: &'static str)
        ensures
            label@ == self.label(),
    {
        match self {
            Platform::Desktop => "desktop",
            Platform::Android => "android",
        }
    }

    /// The label of each platform.
    pub open spec fn label(&self) -> Seq<char> {
        match self {
            Platform::Desktop => "desktop"@,
            Platform::Android => "android"@,
        }
    }
}

} // verus!
