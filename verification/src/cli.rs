//! Command-line options.
use vstd::prelude::*;

verus! {

/// Policy for how the ACL mask is treated when an edit changes what it caps.
#[derive(Debug, Clone, Copy, PartialEq, Eq, Structural)]
pub enum MaskPolicy {
    /// Recalculate the mask from the affected entries (matches `setfacl`).
    Auto,
    /// Keep the current mask even if it no longer caps all entries.
    Preserve,
    /// Never touch the mask; show a warning if an entry exceeds it.
    Manual,
}

impl Default for MaskPolicy {
    fn default() -> (r: Self)
        ensures
            r == MaskPolicy::Auto,
    {
        MaskPolicy::Auto
    }
}

/// Command-line options.
#[derive(Debug)]
pub struct Cli {
    /// Path to edit. Defaults to the current directory.
    pub path: String,
    /// Open read-only; saving is disabled.
    pub read_only: bool,
    /// Mask handling policy applied on save.
    pub mask: MaskPolicy,
}

} // verus!
