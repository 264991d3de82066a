//! Secret lifecycle manager: owns the unlock credential for the secret
//! store, caches it in memory for a bounded idle duration, and clears it on
//! an explicit lock or when the idle duration elapses.  Time enters as a
//! caller-supplied monotonic millisecond counter; the manager itself does no
//! clock or timer I/O, so the auto-clear timer task reduces to calling
//! `maybe_auto_clear` with the current time.

use vstd::prelude::*;

use crate::error::WalletError;

verus! {

/// Process-wide unlock state of the secret store.
pub struct SecretLifecycle {
    pub unlocked: bool,
    /// The cached unlock credential; empty whenever the store is locked, so
    /// no secret material outlives the unlock window.
    pub password: Vec<u8>,
    /// When the credential was last used.
    pub last_touch: u64,
    /// Idle duration after which the credential is cleared.
    pub clear_interval: u64,
}

/// A signing attempt either passes the freshness gate or fails with the
/// locked-store condition.
pub open spec fn spec_begin_signing(s: SecretLifecycle, now: u64) -> Result<(), WalletError> {
    if s.spec_fresh(now) {
        Ok(())
    } else {
        Err(WalletError::SecretStoreLocked)
    }
}

impl SecretLifecycle {
    /// A locked store holds no credential.
    pub open spec fn wf(self) -> bool {
        !self.unlocked ==> self.password@.len() == 0
    }

    /// The store is usable at `now`: unlocked and not idle beyond the
    /// configured auto-clear duration.
    pub open spec fn spec_fresh(self, now: u64) -> bool {
        self.unlocked && (now <= self.last_touch || now - self.last_touch <= self.clear_interval)
    }

    /// A locked manager with the given auto-clear duration.
    pub fn new(clear_interval: u64) -> (r: SecretLifecycle)
        ensures
            r.wf(),
            !r.unlocked,
            r.clear_interval == clear_interval,
            forall|now: u64| !r.spec_fresh(now),
    {
        SecretLifecycle { unlocked: false, password: Vec::new(), last_touch: 0, clear_interval }
    }

    /// Cache the credential and start the idle window at `now`.
    pub fn unlock(&mut self, password: Vec<u8>, now: u64)
        ensures
            final(self).wf(),
            final(self).unlocked,
            final(self).password@ == password@,
            final(self).last_touch == now,
            final(self).clear_interval == old(self).clear_interval,
            final(self).spec_fresh(now),
    {
        self.unlocked = true;
        self.password = password;
        self.last_touch = now;
    }

    /// Clear the credential immediately.
    pub fn lock(&mut self)
        ensures
            final(self).wf(),
            !final(self).unlocked,
            final(self).password@.len() == 0,
            final(self).clear_interval == old(self).clear_interval,
            forall|now: u64| !final(self).spec_fresh(now),
    {
        self.unlocked = false;
        self.password = Vec::new();
    }

    /// Re-arm the idle timer on use.  Touching a store whose idle window has
    /// already elapsed does not revive it: the credential is cleared instead.
    pub fn touch(&mut self, now: u64)
        requires
            old(self).wf(),
        ensures
            final(self).wf(),
            old(self).spec_fresh(now) ==> final(self).unlocked && final(self).password@ == old(
                self,
            ).password@ && final(self).last_touch == now && final(self).clear_interval == old(
                self,
            ).clear_interval,
            !old(self).spec_fresh(now) ==> !final(self).unlocked && final(self).password@.len()
                == 0 && final(self).clear_interval == old(self).clear_interval,
    {
        if self.is_unlocked(now) {
            self.last_touch = now;
        } else {
            self.lock();
        }
    }

    /// The auto-clear timer's action: clear the credential once the idle
    /// duration has elapsed, and change nothing otherwise.
    pub fn maybe_auto_clear(&mut self, now: u64)
        requires
            old(self).wf(),
        ensures
            final(self).wf(),
            old(self).spec_fresh(now) ==> *final(self) == *old(self),
            !old(self).spec_fresh(now) ==> !final(self).unlocked && final(self).password@.len()
                == 0 && final(self).clear_interval == old(self).clear_interval,
    {
        if !self.is_unlocked(now) {
            self.lock();
        }
    }

    /// Whether the store is usable at `now`.
    pub fn is_unlocked(&self, now: u64) -> (r: bool)
        ensures
            r == self.spec_fresh(now),
    {
        self.unlocked && (now <= self.last_touch || now - self.last_touch <= self.clear_interval)
    }

    /// Whether a cached password is available (the password-availability
    /// response); true exactly when the store is usable at `now`.
    pub fn is_password_available(&self, now: u64) -> (r: bool)
        ensures
            r == self.spec_fresh(now),
    {
        self.is_unlocked(now)
    }

    /// Change the auto-clear duration, keeping the unlock state.
    pub fn set_clear_interval(&mut self, clear_interval: u64)
        requires
            old(self).wf(),
        ensures
            final(self).wf(),
            final(self).clear_interval == clear_interval,
            final(self).unlocked == old(self).unlocked,
            final(self).password@ == old(self).password@,
            final(self).last_touch == old(self).last_touch,
    {
        self.clear_interval = clear_interval;
    }

    /// Freshness gate of the signing pipeline: checked immediately before
    /// the secret store is used, never held across a blocking call.
    pub fn begin_signing(&self, now: u64) -> (r: Result<(), WalletError>)
        ensures
            r == spec_begin_signing(*self, now),
    {
        if self.is_unlocked(now) {
            Ok(())
        } else {
            Err(WalletError::SecretStoreLocked)
        }
    }
}

/// After an unlock at `last_touch` followed by an idle period longer than
/// the configured auto-clear duration, the store reports locked and a
/// signing attempt fails with the locked-store condition.
pub proof fn lemma_auto_clear_after_idle(s: SecretLifecycle, now: u64)
    requires
        now > s.last_touch,
        now - s.last_touch > s.clear_interval,
    ensures
        !s.spec_fresh(now),
        spec_begin_signing(s, now) == Result::<(), WalletError>::Err(
            WalletError::SecretStoreLocked,
        ),
{
}

} // verus!
