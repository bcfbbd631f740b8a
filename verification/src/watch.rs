//! The development-mode rebuild loop, as a state machine: raw filesystem
//! events only set a pending flag, and a periodic tick turns a pending flag
//! into exactly one rebuild.

use vstd::prelude::*;

use crate::config::SiteConfig;

verus! {

/// Debounce state between the file watcher and the rebuild timer.
pub struct RebuildDebounce {
    pub pending: bool,
}

/// What the serving loop does after a rebuild attempt: tell connected
/// viewers to reload, or report the failure and keep serving the previous
/// output.
#[derive(Debug, PartialEq, Eq)]
pub enum RebuildOutcome {
    ReloadClients,
    KeepServing,
}

impl RebuildDebounce {
    /// No change is pending at the start.
    pub fn new() -> (r: RebuildDebounce)
        ensures
            !r.pending,
    {
        RebuildDebounce { pending: false }
    }

    /// Any filesystem event marks a rebuild as pending; bursts coalesce
    /// into the single flag.
    pub fn note_event(&mut self)
        ensures
            final(self).pending,
    {
        self.pending = true;
    }

    /// A timer tick fires a rebuild exactly when one is pending, and clears
    /// the flag.
    pub fn tick(&mut self) -> (rebuild: bool)
        ensures
            rebuild == old(self).pending,
            !final(self).pending,
    {
        let fire = self.pending;
        self.pending = false;
        fire
    }
}

/// The configuration a rebuild runs under: the freshly reloaded one, or the
/// previous one when the reload failed.
pub fn effective_config(reloaded: Option<SiteConfig>, previous: SiteConfig) -> (r: SiteConfig)
    ensures
        reloaded matches Some(c) ==> r == c,
        reloaded is None ==> r == previous,
{
    match reloaded {
        Some(c) => c,
        None => previous,
    }
}

/// A successful rebuild notifies the viewers; a failed one never stops the
/// server.
pub fn rebuild_outcome(build_succeeded: bool) -> (r: RebuildOutcome)
    ensures
        build_succeeded <==> r == RebuildOutcome::ReloadClients,
        !build_succeeded <==> r == RebuildOutcome::KeepServing,
{
    if build_succeeded {
        RebuildOutcome::ReloadClients
    } else {
        RebuildOutcome::KeepServing
    }
}

} // verus!
