//! Approval and sandbox policy as data. Mechanism is driver territory; the
//! protocol carries only the declared policy.

use vstd::prelude::*;

verus! {

/// Default approval behavior for one tool family.
#[derive(Clone, Copy, Debug, PartialEq, Eq, Structural)]
#[non_exhaustive]
pub enum ApprovalPolicy {
    /// Execute without asking.
    Auto,
    /// Round-trip an approval request to the client first.
    Ask,
    /// Refuse without asking.
    Deny,
}

/// The verdict a client returns for one approval request.
#[derive(Clone, Copy, Debug, PartialEq, Eq, Structural)]
#[non_exhaustive]
pub enum ApprovalVerdict {
    /// Run it.
    Approve,
    /// Refuse it; the tool call terminates as denied.
    Deny,
}

/// Declared filesystem/process authority for tool execution.
#[derive(Debug, PartialEq, Eq)]
#[non_exhaustive]
pub enum SandboxPolicy {
    /// No sandbox restrictions (explicitly dangerous; never a default).
    DangerFullAccess,
    /// Reads permitted, all mutations refused.
    ReadOnly,
    /// Mutations confined to the listed mount-relative roots.
    WorkspaceWrite {
        /// Mount-relative directories writes may touch.
        writable_roots: Vec<String>,
    },
}

impl SandboxPolicy {
    /// Same variant and, for workspace writes, the same roots.
    pub open spec fn same_as(self, other: Self) -> bool {
        match (self, other) {
            (SandboxPolicy::DangerFullAccess, SandboxPolicy::DangerFullAccess) => true,
            (SandboxPolicy::ReadOnly, SandboxPolicy::ReadOnly) => true,
            (
                SandboxPolicy::WorkspaceWrite { writable_roots: a },
                SandboxPolicy::WorkspaceWrite { writable_roots: b },
            ) => a@ == b@,
            _ => false,
        }
    }
}

impl Clone for SandboxPolicy {
    fn clone(&self) -> (res: Self)
        ensures
            res.same_as(*self),
    {
        match self {
            SandboxPolicy::DangerFullAccess => SandboxPolicy::DangerFullAccess,
            SandboxPolicy::ReadOnly => SandboxPolicy::ReadOnly,
            SandboxPolicy::WorkspaceWrite { writable_roots } => {
                let roots = writable_roots.clone();
                assert forall|i: int| 0 <= i < roots@.len() implies roots@[i] == writable_roots@[i] by {
                    assert(cloned::<String>(writable_roots@[i], roots@[i]));
                }
                assert(roots@ =~= writable_roots@);
                SandboxPolicy::WorkspaceWrite { writable_roots: roots }
            },
        }
    }
}

} // verus!
