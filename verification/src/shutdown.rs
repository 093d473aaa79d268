//! The flag by which one connection handler remembers that shutdown was signalled.

use tokio::sync::broadcast::Receiver;
use vstd::prelude::*;

verus! {

/// The receiving half of tokio's broadcast channel, carried through as an opaque value.
#[verifier::external_type_specification]
#[verifier::external_body]
#[verifier::reject_recursive_types(T)]
pub struct ExReceiver<T>(Receiver<T>);

/// Listens for the shutdown signal. The flag goes from false to true once and stays.
pub struct Shutdown {
    pub is_shutdown: bool,
    pub notify: Receiver<()>,
}

impl Shutdown {
    /// Whether receiving has to wait on the channel.
    pub open spec fn waits(&self) -> bool {
        !self.is_shutdown
    }

    /// The listener after the signal has been seen.
    pub open spec fn seen(self) -> Shutdown {
        Shutdown { is_shutdown: true, notify: self.notify }
    }

    /// A listener that has not seen the signal yet.
    pub fn new(notify: Receiver<()>) -> (r: Shutdown)
        ensures
            !r.is_shutdown,
            r.notify == notify,
    {
        Shutdown { is_shutdown: false, notify }
    }

    /// Whether the signal has been seen.
    pub fn is_shutdown(&self) -> (r: bool)
        ensures
            r == self.is_shutdown,
    {
        self.is_shutdown
    }

    /// Whether receiving has to wait on the channel: only while the signal has
    /// not been seen. Once it has been seen, receiving returns at once, however
    /// often it is asked for, and the listener stays as it is.
    pub fn must_wait(&self) -> (r: bool)
        ensures
            r == self.waits(),
    {
        !self.is_shutdown
    }

    /// Records that the wait on the channel ended, by a notification or by the
    /// notifier going away.
    pub fn observed(&mut self)
        ensures
            *final(self) == old(self).seen(),
    {
        self.is_shutdown = true;
    }
}

/// Seeing the signal is idempotent and sticky: a listener that has seen it is
/// not changed by seeing it again, and never waits again, however often
/// receiving is asked for.
pub proof fn lemma_seen_is_sticky(s: Shutdown)
    ensures
        s.seen().is_shutdown,
        !s.seen().waits(),
        s.seen().seen() == s.seen(),
        s.is_shutdown ==> s.seen() == s && !s.waits(),
{
}

} // verus!
