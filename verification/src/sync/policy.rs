//! Write authorization derived from the sync role and the leader write lock.
use vstd::prelude::*;

use crate::config::SyncRole;
use crate::error::{MagGraphError, Result};
use crate::sync::lock::WriteLockGuard;

verus! {

/// Write authorization policy derived from sync role and optional leader lock.
#[derive(Debug, Clone)]
pub struct WritePolicy<'a> {
    role: Option<SyncRole>,
    lock: Option<&'a WriteLockGuard>,
}

/// Abstract form of a [`WritePolicy`]: the role and whether a lock is held.
pub struct PolicyView {
    pub role: Option<SyncRole>,
    pub locked: bool,
}

impl<'a> View for WritePolicy<'a> {
    type V = PolicyView;

    closed spec fn view(&self) -> PolicyView {
        PolicyView { role: self.role, locked: self.lock is Some }
    }
}

/// Whether a policy allows writes: always without sync, never for a follower, and for a
/// leader only while it holds the write lock.
pub open spec fn may_write(p: PolicyView) -> bool {
    match p.role {
        None => true,
        Some(SyncRole::Follower) => false,
        Some(SyncRole::Leader) => p.locked,
    }
}

impl WritePolicy<'static> {
    /// No sync configured — all writes allowed.
    pub fn unrestricted() -> (r: WritePolicy<'static>)
        ensures
            r@ == (PolicyView { role: None, locked: false }),
    {
        WritePolicy { role: None, lock: None }
    }

    /// Follower role — writes rejected.
    pub fn follower() -> (r: WritePolicy<'static>)
        ensures
            r@ == (PolicyView { role: Some(SyncRole::Follower), locked: false }),
    {
        WritePolicy { role: Some(SyncRole::Follower), lock: None }
    }

    /// Leader role without an acquired lock — writes rejected until lock is held.
    pub fn leader() -> (r: WritePolicy<'static>)
        ensures
            r@ == (PolicyView { role: Some(SyncRole::Leader), locked: false }),
    {
        WritePolicy { role: Some(SyncRole::Leader), lock: None }
    }

    pub fn from_role(role: SyncRole) -> (r: WritePolicy<'static>)
        ensures
            r@ == (PolicyView { role: Some(role), locked: false }),
    {
        match role {
            SyncRole::Follower => WritePolicy::follower(),
            SyncRole::Leader => WritePolicy::leader(),
        }
    }
}

impl<'a> WritePolicy<'a> {
    pub fn leader_with_lock(lock: &'a WriteLockGuard) -> (r: WritePolicy<'a>)
        ensures
            r@ == (PolicyView { role: Some(SyncRole::Leader), locked: true }),
    {
        WritePolicy { role: Some(SyncRole::Leader), lock: Some(lock) }
    }

    /// `Ok` exactly when the policy allows writes; a follower gets `ReadOnlyRole`, a
    /// leader without the lock `WriteLockRequired`.
    pub fn assert_can_write(&self) -> (r: Result<()>)
        ensures
            may_write(self@) <==> r is Ok,
            self@.role == Some(SyncRole::Follower) ==> (r matches Err(MagGraphError::ReadOnlyRole { role })
                && role@ == "follower"@),
            self@.role == Some(SyncRole::Leader) && !self@.locked ==> r matches Err(
                MagGraphError::WriteLockRequired,
            ),
    {
        if self.role == Some(SyncRole::Follower) {
            return Err(MagGraphError::ReadOnlyRole { role: "follower".to_owned() });
        }
        if self.role == Some(SyncRole::Leader) && self.lock.is_none() {
            return Err(MagGraphError::WriteLockRequired);
        }
        Ok(())
    }
}

} // verus!
