//! What a toplevel's surface commit means for its window.
//!
//! A new window waits until it has been configured once and has attached a
//! buffer; mapping it any earlier would put a sizeless, contentless window
//! into the layout. A mapped window that drops its buffer is unmapped and
//! waits again, so it can map a second time. Talking to the client is the
//! shell's; what each commit means is decided here.

use vstd::prelude::*;

verus! {

/// Where a window is in its life: waiting to map, or mapped.
#[derive(Clone, Copy, PartialEq, Eq, Structural, Debug)]
pub enum Stage {
    Pending,
    Mapped,
}

/// What the shell does for a commit.
#[derive(Clone, Copy, PartialEq, Eq, Structural, Debug)]
pub enum CommitAction {
    Nothing,
    /// Answer the first commit with the first configure.
    SendInitialConfigure,
    /// Put the window into the layout.
    MapWindow,
    /// Take the window out of the layout; it waits to map again.
    UnmapWindow,
}

/// A commit on a window at `stage`, given whether its first configure was
/// sent and whether a buffer is attached now: the window's new stage and
/// what to do.
pub open spec fn spec_commit(stage: Stage, configure_sent: bool, has_buffer: bool) -> (Stage, CommitAction) {
    match stage {
        Stage::Pending => if !configure_sent {
            (Stage::Pending, CommitAction::SendInitialConfigure)
        } else if has_buffer {
            (Stage::Mapped, CommitAction::MapWindow)
        } else {
            (Stage::Pending, CommitAction::Nothing)
        },
        Stage::Mapped => if !has_buffer {
            (Stage::Pending, CommitAction::UnmapWindow)
        } else {
            (Stage::Mapped, CommitAction::Nothing)
        },
    }
}

pub fn commit(stage: Stage, configure_sent: bool, has_buffer: bool) -> (r: (Stage, CommitAction))
    ensures
        r == spec_commit(stage, configure_sent, has_buffer),
{
    match stage {
        Stage::Pending => if !configure_sent {
            (Stage::Pending, CommitAction::SendInitialConfigure)
        } else if has_buffer {
            (Stage::Mapped, CommitAction::MapWindow)
        } else {
            (Stage::Pending, CommitAction::Nothing)
        },
        Stage::Mapped => if !has_buffer {
            (Stage::Pending, CommitAction::UnmapWindow)
        } else {
            (Stage::Mapped, CommitAction::Nothing)
        },
    }
}

/// The size the first configure asks for: the predicted size when both
/// sides are positive, else none ("pick your own size").
pub fn initial_size(w: i32, h: i32) -> (r: Option<(i32, i32)>)
    ensures
        r == (if w > 0 && h > 0 {
            Some((w, h))
        } else {
            None::<(i32, i32)>
        }),
{
    if w > 0 && h > 0 {
        Some((w, h))
    } else {
        None
    }
}

/// A window is mapped only by a commit that carries a buffer after its
/// first configure was sent, and a mapped window is unmapped only by a
/// commit without a buffer.
pub proof fn law_maps_only_with_a_buffer_after_configure(stage: Stage, configure_sent: bool, has_buffer: bool)
    ensures
        spec_commit(stage, configure_sent, has_buffer).1 == CommitAction::MapWindow ==> stage == Stage::Pending
            && configure_sent && has_buffer,
        spec_commit(stage, configure_sent, has_buffer).1 == CommitAction::UnmapWindow ==> stage == Stage::Mapped
            && !has_buffer,
        (spec_commit(stage, configure_sent, has_buffer).0 == Stage::Mapped) == ((stage == Stage::Pending
            && configure_sent && has_buffer) || (stage == Stage::Mapped && has_buffer)),
{
}

} // verus!
