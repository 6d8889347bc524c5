//! The proxy's per-backend connection bookkeeping and its keep-alive
//! policy.

use vstd::prelude::*;

use crate::time::TimeMs;

verus! {

/// How often a busy backend's keep-alive is refreshed.
pub const KEEPALIVE_INTERVAL_MS: i64 = 10_000;

/// The proxy's bookkeeping for one backend.
#[derive(Clone, Copy, Debug, PartialEq, Eq, Structural)]
pub struct BackendConnections {
    /// Connections currently open to the backend.
    pub active_connections: usize,
    /// When a keep-alive was last sent for it.
    pub last_keepalive_sent: TimeMs,
}

impl BackendConnections {
    /// Bookkeeping for a backend first seen at `now`.
    pub fn new(now: TimeMs) -> (b: BackendConnections)
        ensures
            b.active_connections == 0,
            b.last_keepalive_sent == now,
    {
        BackendConnections { active_connections: 0, last_keepalive_sent: now }
    }

    /// A connection was opened. A keep-alive is due exactly when the
    /// backend goes from idle to busy.
    pub fn connection_opened(&mut self) -> (keepalive_due: bool)
        requires
            old(self).active_connections < usize::MAX,
        ensures
            final(self).active_connections == old(self).active_connections + 1,
            final(self).last_keepalive_sent == old(self).last_keepalive_sent,
            keepalive_due == (old(self).active_connections == 0),
    {
        let was_idle = self.active_connections == 0;
        self.active_connections = self.active_connections + 1;
        was_idle
    }

    /// A connection was closed.
    pub fn connection_closed(&mut self)
        requires
            old(self).active_connections > 0,
        ensures
            final(self).active_connections == old(self).active_connections - 1,
            final(self).last_keepalive_sent == old(self).last_keepalive_sent,
    {
        self.active_connections = self.active_connections - 1;
    }

    /// One tick of the background task: a busy backend whose last
    /// keep-alive is older than the interval owes the controller a fresh
    /// one, which bumps `last_keepalive_sent`.
    pub fn tick(&mut self, now: TimeMs) -> (send_keepalive: bool)
        ensures
            send_keepalive == (old(self).active_connections > 0 && now.ms - old(
                self,
            ).last_keepalive_sent.ms > KEEPALIVE_INTERVAL_MS),
            final(self).active_connections == old(self).active_connections,
            final(self).last_keepalive_sent == (if send_keepalive {
                now
            } else {
                old(self).last_keepalive_sent
            }),
    {
        let send = self.active_connections > 0 && (now.ms as i128)
            - (self.last_keepalive_sent.ms as i128) > KEEPALIVE_INTERVAL_MS as i128;
        if send {
            self.last_keepalive_sent = now;
        }
        send
    }
}

} // verus!
