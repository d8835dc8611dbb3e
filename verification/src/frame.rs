//! Whether a zero-copy GPU import path is still worth trying.

use vstd::prelude::*;

verus! {

/// Flag tracking whether a zero-copy import path is still viable. Once an
/// import fails the path is disabled until explicitly reset.
#[derive(Debug)]
pub struct ImportGuard {
    failed: bool,
}

impl ImportGuard {
    /// Whether the path is still enabled.
    pub closed spec fn available(self) -> bool {
        !self.failed
    }

    /// A guard with the path enabled.
    pub fn new() -> (out: Self)
        ensures
            out.available(),
    {
        ImportGuard { failed: false }
    }

    /// Whether the zero-copy path should be tried.
    pub fn is_available(&self) -> (b: bool)
        ensures
            b == self.available(),
    {
        !self.failed
    }

    /// Disable the path after a failed import.
    pub fn mark_failed(&mut self)
        ensures
            !final(self).available(),
    {
        self.failed = true;
    }

    /// Enable the path again.
    pub fn reset(&mut self)
        ensures
            final(self).available(),
    {
        self.failed = false;
    }
}

} // verus!
