//! The session lock (ext-session-lock-v1): one lock client at a time, every
//! output covered while locked, and no way back to the desktop but an
//! explicit unlock.
//!
//! Accepting a lock covers every output with an opaque fallback before the
//! client has drawn anything, and keyboard input goes to the lock client
//! alone. A lock client that disappears without unlocking leaves the session
//! locked and covered, and a replacement lock client is accepted: the lock
//! never fails open. Drawing the covers and talking to the client are the
//! shell's; the decisions are made here.

use vstd::prelude::*;

verus! {

/// Whether a lock client is connected, and whether the session is locked.
#[derive(Clone, Copy, PartialEq, Eq, Structural, Debug)]
pub struct LockState {
    pub active: bool,
    pub locked: bool,
}

/// What happened to the lock.
#[derive(Clone, Copy, PartialEq, Eq, Structural, Debug)]
pub enum LockEvent {
    /// A client asks to lock the session.
    NewLock,
    /// The lock client asks to unlock.
    Unlock,
    /// The lock client's lock object went away.
    LockGone,
    /// One of the lock client's surfaces was mapped.
    SurfaceMapped,
    /// An output was connected.
    OutputAdded,
}

/// What the shell must do for a lock decision.
#[derive(Clone, Copy, PartialEq, Eq, Structural, Debug)]
pub enum LockCommand {
    /// Refuse the new lock: another one is in charge.
    Reject,
    /// Cover every output with the opaque fallback.
    CoverOutputs,
    /// Cover the output just connected.
    CoverNewOutput,
    /// Take keyboard focus from whichever client has it.
    ClearKeyboardFocus,
    /// Hide (true) or show the pointer cursor.
    LockCursor(bool),
    /// Tell the client the session is locked.
    SendLocked,
    /// Take the covers away.
    Uncover,
    /// Give focus back to the focused window of the active workspace.
    Refocus,
    /// Give keyboard focus to the lock surface that was mapped.
    FocusLockSurface,
}

/// The state the session starts in: no lock client, not locked.
pub open spec fn unlocked() -> LockState {
    LockState { active: false, locked: false }
}

/// One lock event: the new state and what the shell must do.
pub open spec fn spec_lock_step(s: LockState, e: LockEvent) -> (LockState, Seq<LockCommand>) {
    match e {
        LockEvent::NewLock => if s.active {
            (s, seq![LockCommand::Reject])
        } else {
            (
                LockState { active: true, locked: true },
                seq![
                    LockCommand::CoverOutputs,
                    LockCommand::ClearKeyboardFocus,
                    LockCommand::LockCursor(true),
                    LockCommand::SendLocked,
                ],
            )
        },
        LockEvent::Unlock => (
            LockState { locked: false, ..s },
            seq![LockCommand::Uncover, LockCommand::LockCursor(false), LockCommand::Refocus],
        ),
        LockEvent::LockGone => if s.locked {
            (
                LockState { active: false, locked: true },
                seq![LockCommand::CoverOutputs, LockCommand::ClearKeyboardFocus],
            )
        } else {
            (LockState { active: false, locked: false }, Seq::empty())
        },
        LockEvent::SurfaceMapped => if s.locked && s.active {
            (s, seq![LockCommand::FocusLockSurface])
        } else {
            (s, Seq::empty())
        },
        LockEvent::OutputAdded => if s.locked {
            (s, seq![LockCommand::CoverNewOutput])
        } else {
            (s, Seq::empty())
        },
    }
}

impl LockState {
    pub fn new() -> (r: LockState)
        ensures
            r == unlocked(),
    {
        LockState { active: false, locked: false }
    }

    /// Take one lock event.
    pub fn step(&mut self, e: LockEvent) -> (r: Vec<LockCommand>)
        ensures
            *final(self) == spec_lock_step(*old(self), e).0,
            r@ == spec_lock_step(*old(self), e).1,
    {
        let mut out: Vec<LockCommand> = Vec::new();
        match e {
            LockEvent::NewLock => {
                if self.active {
                    out.push(LockCommand::Reject);
                } else {
                    self.active = true;
                    self.locked = true;
                    out.push(LockCommand::CoverOutputs);
                    out.push(LockCommand::ClearKeyboardFocus);
                    out.push(LockCommand::LockCursor(true));
                    out.push(LockCommand::SendLocked);
                }
            },
            LockEvent::Unlock => {
                self.locked = false;
                out.push(LockCommand::Uncover);
                out.push(LockCommand::LockCursor(false));
                out.push(LockCommand::Refocus);
            },
            LockEvent::LockGone => {
                self.active = false;
                if self.locked {
                    out.push(LockCommand::CoverOutputs);
                    out.push(LockCommand::ClearKeyboardFocus);
                }
            },
            LockEvent::SurfaceMapped => {
                if self.locked && self.active {
                    out.push(LockCommand::FocusLockSurface);
                }
            },
            LockEvent::OutputAdded => {
                if self.locked {
                    out.push(LockCommand::CoverNewOutput);
                }
            },
        }
        proof {
            let want = spec_lock_step(*old(self), e).1;
            assert(out@ =~= want);
        }
        out
    }
}

/// The lock never fails open: a locked session stays locked through every
/// event but an unlock, a lock client that goes away included.
pub proof fn law_only_an_unlock_unlocks(s: LockState, e: LockEvent)
    requires
        s.locked,
        e != LockEvent::Unlock,
    ensures
        spec_lock_step(s, e).0.locked,
{
}

/// While a lock client is in charge, a second one is refused and nothing
/// changes.
pub proof fn law_one_lock_client_at_a_time(s: LockState)
    requires
        s.active,
    ensures
        spec_lock_step(s, LockEvent::NewLock) == (s, seq![LockCommand::Reject]),
{
}

/// A lock client that goes away without unlocking leaves every output
/// covered, and a replacement lock client is then accepted.
pub proof fn law_a_vanished_locker_leaves_the_covers_and_a_new_one_is_accepted(s: LockState)
    requires
        s.locked,
    ensures
        spec_lock_step(s, LockEvent::LockGone).0 == (LockState { active: false, locked: true }),
        spec_lock_step(s, LockEvent::LockGone).1.contains(LockCommand::CoverOutputs),
        spec_lock_step(spec_lock_step(s, LockEvent::LockGone).0, LockEvent::NewLock).0 == (LockState {
            active: true,
            locked: true,
        }),
{
    assert(spec_lock_step(s, LockEvent::LockGone).1[0] == LockCommand::CoverOutputs);
}

} // verus!
