//! The controller's side of the leased ACME flow: at most one proxy per
//! cluster renews certificates at a time.

use vstd::prelude::*;

use crate::time::TimeMs;
use crate::types::ProxyName;

verus! {

/// How long a certificate lease lasts.
pub const CERT_LEASE_MS: i64 = 60_000;

/// One cluster's ACME state: the lease and the current DNS-01 challenge
/// value.
pub struct AcmeState {
    pub lease_holder: Option<ProxyName>,
    pub lease_expires: TimeMs,
    pub txt_value: Option<String>,
}

/// Whether a lease is held (unexpired) at `now`.
pub open spec fn lease_held(s: AcmeState, now: TimeMs) -> bool {
    s.lease_holder is Some && now.ms < s.lease_expires.ms
}

impl AcmeState {
    /// A cluster that has never run ACME.
    pub fn new() -> (s: AcmeState)
        ensures
            s.lease_holder is None,
            s.txt_value is None,
    {
        AcmeState { lease_holder: None, lease_expires: TimeMs { ms: 0 }, txt_value: None }
    }

    /// A proxy asks for the lease: granted iff no lease is held or the
    /// current one expired; a grant lasts [`CERT_LEASE_MS`].
    pub fn request_lease(&mut self, proxy: &ProxyName, now: TimeMs) -> (accepted: bool)
        requires
            now.ms + CERT_LEASE_MS <= i64::MAX,
        ensures
            accepted == !lease_held(*old(self), now),
            accepted ==> (final(self).lease_holder matches Some(h) && h@ == proxy@),
            accepted ==> final(self).lease_expires.ms == now.ms + CERT_LEASE_MS,
            accepted ==> final(self).txt_value == old(self).txt_value,
            !accepted ==> *final(self) == *old(self),
    {
        let held = self.lease_holder.is_some() && now.ms < self.lease_expires.ms;
        if held {
            return false;
        }
        self.lease_holder = Some(proxy.clone());
        self.lease_expires = TimeMs { ms: now.ms + CERT_LEASE_MS };
        true
    }

    /// The lease holder sets the DNS-01 challenge value: accepted iff the
    /// asking proxy holds an unexpired lease.
    pub fn set_txt_record(&mut self, proxy: &ProxyName, value: String, now: TimeMs) -> (accepted:
        bool)
        ensures
            accepted == (lease_held(*old(self), now) && (old(self).lease_holder matches Some(h)
                && h@ == proxy@)),
            accepted ==> (final(self).txt_value matches Some(v) && v@ == value@),
            accepted ==> final(self).lease_holder == old(self).lease_holder,
            accepted ==> final(self).lease_expires == old(self).lease_expires,
            !accepted ==> *final(self) == *old(self),
    {
        let ours = match &self.lease_holder {
            Some(h) => h.name == proxy.name && now.ms < self.lease_expires.ms,
            None => false,
        };
        if !ours {
            return false;
        }
        self.txt_value = Some(value);
        true
    }

    /// The lease holder releases the lease so another proxy can take it at
    /// once; anyone else's release is ignored.
    pub fn release_lease(&mut self, proxy: &ProxyName)
        ensures
            (old(self).lease_holder matches Some(h) && h@ == proxy@) ==> (final(self).lease_holder
                is None && final(self).txt_value == old(self).txt_value),
            !(old(self).lease_holder matches Some(h) && h@ == proxy@) ==> *final(self) == *old(
                self,
            ),
    {
        let ours = match &self.lease_holder {
            Some(h) => h.name == proxy.name,
            None => false,
        };
        if ours {
            self.lease_holder = None;
        }
    }

    /// Answer the DNS collaborator's TXT query.
    pub fn txt_record(&self) -> (r: Option<String>)
        ensures
            match self.txt_value {
                Some(v) => r matches Some(o) && o@ == v@,
                None => r is None,
            },
    {
        match &self.txt_value {
            Some(v) => Some(v.clone()),
            None => None,
        }
    }
}

/// Law: two proxies never both hold the lease: a grant requires the
/// previous lease to be absent or expired, and the state holds one holder.
pub proof fn lemma_single_lease_holder(s: AcmeState, now: TimeMs, a: ProxyName, b: ProxyName)
    requires
        lease_held(s, now),
        s.lease_holder matches Some(h) && h@ == a@,
        s.lease_holder matches Some(h) && h@ == b@,
    ensures
        a@ == b@,
{
}

} // verus!
