//! The leader write lock: a record under the metadata directory naming its holder.
use vstd::prelude::*;

use crate::config::resolve_path_spec;
use crate::error::{MagGraphError, Result};
use crate::text::{push_str, string_of};

verus! {

/// Lock record as stored on disk: holder, RFC 3339 acquisition time and a random token.
#[derive(Debug, Clone, PartialEq, Eq)]
pub struct LockRecord {
    pub holder: String,
    pub acquired_at: String,
    pub token: String,
}

/// Guard for the leader write lock; released once.
#[derive(Debug)]
pub struct WriteLockGuard {
    lock_path: String,
    token: String,
    released: bool,
}

/// Path of the lock file under a graph root: `<root>/.maggraph/lock.toml`.
pub open spec fn lock_path_spec(root: Seq<char>) -> Seq<char> {
    resolve_path_spec(resolve_path_spec(root, ".maggraph"@), "lock.toml"@)
}

/// What releasing the lock must do.
#[derive(Debug, Clone, Copy, PartialEq, Eq, Structural)]
pub enum ReleaseStep {
    /// Nothing: already released, or the lock file is gone.
    Nothing,
    /// Remove the lock file.
    RemoveFile,
}

impl WriteLockGuard {
    /// Acquire the lock for a graph rooted at `root_path`, given the lock record found on
    /// disk, if any, and a fresh `token`. The caller writes the new record.
    pub fn acquire(root_path: &str, existing: Option<&LockRecord>, token: String) -> (r: Result<WriteLockGuard>)
        ensures
            match existing {
                Some(rec) => r matches Err(MagGraphError::WriteLockHeld { holder, acquired_at })
                    && holder@ == rec.holder@ && acquired_at@ == rec.acquired_at@,
                None => r matches Ok(g) && g.path_spec() == lock_path_spec(root_path@)
                    && g.token_spec() == token@ && !g.is_released(),
            },
    {
        if let Some(rec) = existing {
            return Err(
                MagGraphError::WriteLockHeld {
                    holder: rec.holder.clone(),
                    acquired_at: rec.acquired_at.clone(),
                },
            );
        }
        let dir = crate::config::join_path(root_path, ".maggraph");
        let lock_path = crate::config::join_path(dir.as_str(), "lock.toml");
        Ok(WriteLockGuard { lock_path, token, released: false })
    }

    pub closed spec fn token_spec(&self) -> Seq<char> {
        self.token@
    }

    pub closed spec fn is_released(&self) -> bool {
        self.released
    }

    pub closed spec fn path_spec(&self) -> Seq<char> {
        self.lock_path@
    }

    pub fn lock_path(&self) -> (r: &str)
        ensures
            r@ == self.path_spec(),
    {
        self.lock_path.as_str()
    }

    pub fn token(&self) -> (r: &str)
        ensures
            r@ == self.token_spec(),
    {
        self.token.as_str()
    }

    /// Release the lock, given the token of the lock record on disk (`None` when the
    /// file is gone). A record with another token belongs to someone else and is kept.
    pub fn release(&mut self, on_disk_token: Option<&str>) -> (r: Result<ReleaseStep>)
        ensures
            final(self).path_spec() == old(self).path_spec(),
            final(self).token_spec() == old(self).token_spec(),
            old(self).is_released() ==> r == Ok::<ReleaseStep, MagGraphError>(ReleaseStep::Nothing)
                && final(self).is_released(),
            !old(self).is_released() && on_disk_token is None ==> r == Ok::<ReleaseStep, MagGraphError>(
                ReleaseStep::Nothing,
            ) && final(self).is_released(),
            !old(self).is_released() && on_disk_token is Some ==> (if on_disk_token->0@
                == old(self).token_spec() {
                r == Ok::<ReleaseStep, MagGraphError>(ReleaseStep::RemoveFile) && final(self).is_released()
            } else {
                r matches Err(MagGraphError::WriteLock { path, message }) && path@ == old(self).path_spec()
                    && message@ == "lock token mismatch; another holder may have replaced the lock"@
                    && !final(self).is_released()
            }),
    {
        if self.released {
            return Ok(ReleaseStep::Nothing);
        }
        match on_disk_token {
            None => {
                self.released = true;
                Ok(ReleaseStep::Nothing)
            },
            Some(t) => {
                if !crate::text::str_eq(t, self.token.as_str()) {
                    return Err(
                        MagGraphError::WriteLock {
                            path: self.lock_path.clone(),
                            message: "lock token mismatch; another holder may have replaced the lock".to_owned(),
                        },
                    );
                }
                self.released = true;
                Ok(ReleaseStep::RemoveFile)
            },
        }
    }
}

} // verus!
