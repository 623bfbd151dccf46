//! What a script step may reach, depending on when it runs.
//!
//! While the configuration script loads there is no compositor yet: its
//! assignments and registrations go to the staged configuration. Once the
//! compositor runs, a bound function or handler reaches the live state
//! instead, and registering is no longer possible. Each host call asks for
//! the narrowest thing it needs, and a call made at the wrong time is an
//! error that names itself rather than a silent no-op.

use vstd::prelude::*;
use crate::desk::{spec_active_workspace, wf, Desk};

verus! {

/// When a script step runs.
#[derive(Clone, Copy, PartialEq, Eq, Structural, Debug)]
pub enum Host {
    /// The configuration script is loading.
    Load,
    /// The compositor is running.
    Live,
}

/// Why a host call was refused.
#[derive(Clone, Copy, PartialEq, Eq, Structural, Debug)]
pub enum HostError {
    /// Registering (binding, adding a handler) only works while loading.
    OnlyWhileLoading,
    /// This call needs a running compositor.
    NeedsRunningCompositor,
}

impl HostError {
    /// What a script author reads, after the call's name.
    pub fn message(self) -> (r: &'static str)
        ensures
            r@ == (match self {
                HostError::OnlyWhileLoading => "can only be done while the config is loading, not from a running keybinding or handler"@,
                HostError::NeedsRunningCompositor => "needs a running compositor; it cannot be called while init.lua is still loading"@,
            }),
    {
        match self {
            HostError::OnlyWhileLoading => "can only be done while the config is loading, not from a running keybinding or handler",
            HostError::NeedsRunningCompositor => "needs a running compositor; it cannot be called while init.lua is still loading",
        }
    }
}

/// Registration reaches the staged configuration, which only exists while
/// loading.
pub fn for_registration(h: Host) -> (r: Result<(), HostError>)
    ensures
        r is Ok <==> h == Host::Load,
        r is Err ==> r == Err::<(), HostError>(HostError::OnlyWhileLoading),
{
    match h {
        Host::Load => Ok(()),
        Host::Live => Err(HostError::OnlyWhileLoading),
    }
}

/// Calls that act on the compositor need it running.
pub fn for_server(h: Host) -> (r: Result<(), HostError>)
    ensures
        r is Ok <==> h == Host::Live,
        r is Err ==> r == Err::<(), HostError>(HostError::NeedsRunningCompositor),
{
    match h {
        Host::Live => Ok(()),
        Host::Load => Err(HostError::NeedsRunningCompositor),
    }
}

/// Whether a setting assignment must treat the primary modifier as already
/// used by a binding: only while loading can bindings be pending.
pub fn bindings_pending(h: Host, mod_resolved: bool) -> (r: bool)
    ensures
        r == (h == Host::Load && mod_resolved),
{
    match h {
        Host::Load => mod_resolved,
        Host::Live => false,
    }
}

/// `oxin.workspace()`: the workspace on the active output, counted from 1
/// as a script counts; 0 when there is no output.
pub fn current_workspace_number(desk: &Desk) -> (r: i64)
    requires
        wf(desk@),
    ensures
        desk@.outputs.len() == 0 ==> r == 0,
        desk@.outputs.len() > 0 ==> r == spec_active_workspace(desk@) + 1,
{
    if desk.outputs.len() == 0 {
        return 0;
    }
    let w = desk.active_workspace();
    w as i64 + 1
}

/// `oxin.workspaces()`: every workspace's number (from 1) and how many
/// windows it holds.
pub fn workspace_rows(desk: &Desk) -> (r: Vec<(i64, i64)>)
    requires
        wf(desk@),
    ensures
        r@.len() == desk@.workspaces.len(),
        forall|i: int| 0 <= i < r@.len() ==> #[trigger] r@[i] == ((i + 1) as i64, desk@.workspaces[i].windows.len() as i64),
{
    let mut rows: Vec<(i64, i64)> = Vec::new();
    let mut i: usize = 0;
    while i < desk.workspaces.len()
        invariant
            i <= desk.workspaces.len(),
            desk.workspaces.len() == 9,
            rows@.len() == i,
            forall|k: int| 0 <= k < i ==> #[trigger] rows@[k] == ((k + 1) as i64, desk@.workspaces[k].windows.len() as i64),
        decreases desk.workspaces.len() - i,
    {
        let n = desk.workspaces[i].windows.len();
        assert(desk@.workspaces[i as int].windows.len() == n);
        let number: i64 = i as i64 + 1;
        #[verifier::truncate]
        let count: i64 = n as i64;
        rows.push((number, count));
        i += 1;
    }
    rows
}

} // verus!
