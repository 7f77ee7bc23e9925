use vstd::prelude::*;

verus! {

/// Side length used when the command line does not supply one.
pub const DEFAULT_DIM: usize = 6;

/// Board dimensions of a session, fixed at startup.  The command line
/// supplies a single positive side length that controls both width and
/// height; the value is threaded explicitly through the session instead
/// of living in process-wide state.
#[derive(Debug, Clone, Copy)]
pub struct GlobalSetting {
    pub width: usize,
    pub height: usize,
}

impl GlobalSetting {
    /// A configuration is usable when both sides are positive and the
    /// cell count fits the address space.
    pub open spec fn wf(self) -> bool {
        &&& self.width >= 1
        &&& self.height >= 1
        &&& self.width * self.height <= usize::MAX
    }

    /// The configuration every session falls back to: a square board of
    /// the default side length.
    pub fn global() -> (s: GlobalSetting)
        ensures
            s.wf(),
            s.width == DEFAULT_DIM,
            s.height == DEFAULT_DIM,
    {
        GlobalSetting { width: DEFAULT_DIM, height: DEFAULT_DIM }
    }

    /// Builds the configuration from a side length already parsed and
    /// range-checked by the shell.
    pub fn load(dim: usize) -> (s: GlobalSetting)
        requires
            dim >= 1,
            dim * dim <= usize::MAX,
        ensures
            s.wf(),
            s.width == dim,
            s.height == dim,
    {
        GlobalSetting { width: dim, height: dim }
    }
}

} // verus!
