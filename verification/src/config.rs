//! The resolved server configuration and the startup decisions taken from
//! it: the access policy a session dispatcher enforces and the plan for
//! dropping privileges after the listening socket is bound.

use vstd::prelude::*;
use crate::dispatch::AccessPolicy;

verus! {

/// Identity the server drops to when started privileged.
pub const DEFAULT_UNPRIVILEGED_ID: u32 = 65534;

/// UDP port the server listens on.
pub const DEFAULT_PORT: u16 = 69;

/// Worker threads serving sessions.
pub const DEFAULT_THREADS: usize = 2;

/// The immutable server configuration, resolved before startup.
pub struct Config {
    /// Listening UDP port.
    pub port: u16,
    /// User id to drop to.
    pub uid: u32,
    /// Group id to drop to.
    pub gid: u32,
    /// Reject write requests.
    pub read_only: bool,
    /// Reject read requests.
    pub write_only: bool,
    /// Worker-pool size.
    pub threads: usize,
}

impl Default for Config {
    /// The stock configuration: port 69, the conventional unprivileged
    /// identity, both directions allowed, two workers.
    fn default() -> (c: Self)
        ensures
            c.port == DEFAULT_PORT,
            c.uid == DEFAULT_UNPRIVILEGED_ID,
            c.gid == DEFAULT_UNPRIVILEGED_ID,
            !c.read_only,
            !c.write_only,
            c.threads == DEFAULT_THREADS,
    {
        Config {
            port: DEFAULT_PORT,
            uid: DEFAULT_UNPRIVILEGED_ID,
            gid: DEFAULT_UNPRIVILEGED_ID,
            read_only: false,
            write_only: false,
            threads: DEFAULT_THREADS,
        }
    }
}

impl Config {
    /// A configuration is usable unless it both forbids reading and
    /// forbids writing: the two restrictions are mutually exclusive.
    pub fn validate(&self) -> (r: bool)
        ensures
            r == !(self.read_only && self.write_only),
    {
        !(self.read_only && self.write_only)
    }

    /// The access policy the dispatcher enforces for this configuration.
    pub fn policy(&self) -> (r: AccessPolicy)
        ensures
            self.read_only ==> r is ReadOnly,
            self.write_only && !self.read_only ==> r is WriteOnly,
            !self.read_only && !self.write_only ==> r is ReadWrite,
    {
        if self.read_only {
            AccessPolicy::ReadOnly
        } else if self.write_only {
            AccessPolicy::WriteOnly
        } else {
            AccessPolicy::ReadWrite
        }
    }
}

/// Which identity axes to change when dropping privileges. The group is
/// changed before the user: once the user is dropped the process can no
/// longer change its group.
pub struct PrivilegePlan {
    /// Set real, effective and saved group ids to the configured group.
    pub set_gid: bool,
    /// Set real, effective and saved user ids to the configured user.
    pub set_uid: bool,
}

/// Decides the privilege drop from the identities the process runs under:
/// an axis is dropped exactly when its real or effective identity is
/// root. A process unprivileged on both axes changes nothing.
pub fn privilege_plan(ruid: u32, euid: u32, rgid: u32, egid: u32) -> (r: PrivilegePlan)
    ensures
        r.set_gid == (rgid == 0 || egid == 0),
        r.set_uid == (ruid == 0 || euid == 0),
{
    PrivilegePlan { set_gid: rgid == 0 || egid == 0, set_uid: ruid == 0 || euid == 0 }
}

} // verus!
