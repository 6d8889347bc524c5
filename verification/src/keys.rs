//! The drone side of the fencing-key protocol: which keys a manager
//! watches, and what a renewal task must do at any instant.

use vstd::prelude::*;

use crate::protocol::{AcquiredKey, KeyDeadlines};
use crate::time::TimeMs;
use crate::types::KeyConfig;

verus! {

/// What a key's renewal task must do at one instant.
#[derive(Clone, Copy, Debug, PartialEq, Eq, Structural)]
pub enum RenewalAction {
    /// Sleep until the renewal deadline.
    Wait { until: TimeMs },
    /// Send a renewal request to the controller.
    Renew,
    /// The soft deadline passed without renewal: begin graceful
    /// termination.
    SoftTerminate,
    /// The hard deadline passed without renewal: kill the backend.
    HardTerminate,
}

/// The action a renewal task takes at `now` against these deadlines.
pub open spec fn spec_renewal_action(d: KeyDeadlines, now: TimeMs) -> RenewalAction {
    if now.ms >= d.hard_terminate_at.ms {
        RenewalAction::HardTerminate
    } else if now.ms >= d.soft_terminate_at.ms {
        RenewalAction::SoftTerminate
    } else if now.ms >= d.renew_at.ms {
        RenewalAction::Renew
    } else {
        RenewalAction::Wait { until: d.renew_at }
    }
}

/// Decide what a key's renewal task does at `now`: wait for the renewal
/// deadline, renew, or escalate to soft then hard termination.
pub fn renewal_action(deadlines: &KeyDeadlines, now: TimeMs) -> (r: RenewalAction)
    ensures
        r == spec_renewal_action(*deadlines, now),
{
    if now.ms >= deadlines.hard_terminate_at.ms {
        RenewalAction::HardTerminate
    } else if now.ms >= deadlines.soft_terminate_at.ms {
        RenewalAction::SoftTerminate
    } else if now.ms >= deadlines.renew_at.ms {
        RenewalAction::Renew
    } else {
        RenewalAction::Wait { until: deadlines.renew_at }
    }
}

/// Law: with ordered deadlines, escalation is monotone in time: once past
/// the soft deadline the action is a termination, and once past the hard
/// deadline it is the hard one.
pub proof fn lemma_renewal_escalates(d: KeyDeadlines, t1: TimeMs, t2: TimeMs)
    requires
        d.renew_at.ms < d.soft_terminate_at.ms < d.hard_terminate_at.ms,
        t1.ms <= t2.ms,
    ensures
        spec_renewal_action(d, t1) == RenewalAction::HardTerminate ==> spec_renewal_action(d, t2)
            == RenewalAction::HardTerminate,
        spec_renewal_action(d, t1) == RenewalAction::SoftTerminate ==> spec_renewal_action(d, t2)
            == RenewalAction::SoftTerminate || spec_renewal_action(d, t2)
            == RenewalAction::HardTerminate,
{
}

/// Whether some watched key views to this identity.
pub open spec fn watches(keys: Seq<KeyConfig>, k: (Seq<char>, Seq<char>, Seq<char>)) -> bool {
    exists|i: int| 0 <= i < keys.len() && (#[trigger] keys[i])@ == k
}

/// The drone's key manager: one renewal task per watched key.
pub struct KeyManager {
    keys: Vec<KeyConfig>,
}

impl KeyManager {
    /// Whether this key identity is being watched.
    pub closed spec fn has(&self, k: (Seq<char>, Seq<char>, Seq<char>)) -> bool {
        watches(self.keys@, k)
    }

    /// A manager watching nothing.
    pub fn new() -> (m: KeyManager)
        ensures
            forall|k: (Seq<char>, Seq<char>, Seq<char>)| !#[trigger] m.has(k),
    {
        KeyManager { keys: Vec::new() }
    }

    /// Start watching an acquired key.
    pub fn register_key(&mut self, key: &AcquiredKey)
        ensures
            final(self).has(key.key@),
            forall|k: (Seq<char>, Seq<char>, Seq<char>)|
                k != key.key@ ==> #[trigger] final(self).has(k) == old(self).has(k),
    {
        let ghost old_keys = self.keys@;
        self.keys.push(key.key.clone());
        proof {
            assert(self.keys@[self.keys@.len() - 1]@ == key.key@);
            assert forall|k: (Seq<char>, Seq<char>, Seq<char>)| k != key.key@ implies #[trigger]
            final(self).has(k) == old(self).has(k) by {
                if watches(old_keys, k) {
                    let i = choose|i: int| 0 <= i < old_keys.len() && (#[trigger] old_keys[i])@ == k;
                    assert(self.keys@[i]@ == k);
                } else if watches(self.keys@, k) {
                    let i = choose|i: int|
                        0 <= i < self.keys@.len() && (#[trigger] self.keys@[i])@ == k;
                    assert(old_keys[i]@ == k);
                }
            }
        }
    }

    /// Stop watching a key: its renewal task ends.
    pub fn unregister_key(&mut self, key: &KeyConfig)
        ensures
            !final(self).has(key@),
            forall|k: (Seq<char>, Seq<char>, Seq<char>)|
                k != key@ ==> #[trigger] final(self).has(k) == old(self).has(k),
    {
        let ghost old_keys = self.keys@;
        let mut kept: Vec<KeyConfig> = Vec::new();
        let mut i: usize = 0;
        while i < self.keys.len()
            invariant
                i <= self.keys@.len(),
                old_keys == self.keys@,
                forall|j: int| 0 <= j < kept@.len() ==> (#[trigger] kept@[j])@ != key@,
                forall|k: (Seq<char>, Seq<char>, Seq<char>)|
                    k != key@ ==> #[trigger] watches(kept@, k) == watches(
                        old_keys.take(i as int),
                        k,
                    ),
            decreases self.keys@.len() - i,
        {
            let ghost old_kept = kept@;
            let ghost old_take = old_keys.take(i as int);
            let kc = &self.keys[i];
            let same = kc.name == key.name && kc.namespace == key.namespace && kc.tag == key.tag;
            if !same {
                kept.push(kc.clone());
            }
            i = i + 1;
            proof {
                assert(old_keys.take(i as int) =~= old_take.push(old_keys[i - 1]));
                assert forall|k: (Seq<char>, Seq<char>, Seq<char>)| k != key@ implies #[trigger]
                watches(kept@, k) == watches(old_keys.take(i as int), k) by {
                    if watches(kept@, k) {
                        let q = choose|q: int|
                            0 <= q < kept@.len() && (#[trigger] kept@[q])@ == k;
                        if q < old_kept.len() {
                            assert(old_kept[q]@ == k);
                            assert(watches(old_kept, k));
                            assert(watches(old_take, k));
                            let w = choose|w: int|
                                0 <= w < old_take.len() && (#[trigger] old_take[w])@ == k;
                            assert(old_keys.take(i as int)[w]@ == k);
                        } else {
                            assert(old_keys.take(i as int)[i - 1]@ == k);
                        }
                        assert(watches(old_keys.take(i as int), k));
                    } else if watches(old_keys.take(i as int), k) {
                        let q = choose|q: int|
                            0 <= q < old_keys.take(i as int).len() && (#[trigger] old_keys.take(
                                i as int,
                            )[q])@ == k;
                        if q < i - 1 {
                            assert(old_take[q]@ == k);
                            assert(watches(old_take, k));
                            assert(watches(old_kept, k));
                            let w = choose|w: int|
                                0 <= w < old_kept.len() && (#[trigger] old_kept[w])@ == k;
                            assert(kept@[w]@ == k);
                        } else {
                            assert(old_keys[i - 1]@ == k);
                            assert(kept@[kept@.len() - 1]@ == k);
                        }
                        assert(watches(kept@, k));
                    }
                }
            }
        }
        proof {
            assert(old_keys.take(old_keys.len() as int) =~= old_keys);
        }
        self.keys = kept;
    }

    /// Route a renewal response to its key's task: delivered only when the
    /// key is still watched.
    pub fn receive_response(&self, response: &AcquiredKey) -> (delivered: bool)
        ensures
            delivered == self.has(response.key@),
    {
        let mut i: usize = 0;
        while i < self.keys.len()
            invariant
                i <= self.keys@.len(),
                forall|j: int| 0 <= j < i ==> (#[trigger] self.keys@[j])@ != response.key@,
            decreases self.keys@.len() - i,
        {
            let kc = &self.keys[i];
            if kc.name == response.key.name && kc.namespace == response.key.namespace && kc.tag
                == response.key.tag {
                proof {
                    assert(self.keys@[i as int]@ == response.key@);
                }
                return true;
            }
            i = i + 1;
        }
        false
    }
}

} // verus!
