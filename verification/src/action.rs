//! `oxin.action`: the built-in actions a script binds a chord or gesture to.
//!
//! An action is built where it is written, not re-parsed where it is used:
//! a mistyped name is an error on the spot. That matters because `nil` is how
//! a script removes a binding, so a name that quietly read as `nil` would
//! silently unbind the key.

use vstd::prelude::*;
use crate::config::{Action, ActionV, Direction};
use crate::desk::WORKSPACE_COUNT;
use crate::text::{chars_of, eq_lit, lower, lower_exec};

verus! {

/// Why an `oxin.action` lookup or constructor call was refused.
#[derive(Clone, Copy, PartialEq, Eq, Structural, Debug)]
pub enum ActionError {
    /// `oxin.action` has no entry by this name.
    NoSuchAction,
    /// The direction is not left, right, up or down.
    BadDirection,
    /// The workspace number is not between 1 and the workspace count.
    WorkspaceRange,
}

impl ActionError {
    /// What a script author reads for this error.
    pub fn message(self) -> (r: &'static str)
        ensures
            r@ == (match self {
                ActionError::NoSuchAction => "oxin.action has no action by that name"@,
                ActionError::BadDirection => "expected \"left\", \"right\", \"up\" or \"down\""@,
                ActionError::WorkspaceRange => "workspaces are numbered 1 to 9"@,
            }),
    {
        match self {
            ActionError::NoSuchAction => "oxin.action has no action by that name",
            ActionError::BadDirection => "expected \"left\", \"right\", \"up\" or \"down\"",
            ActionError::WorkspaceRange => "workspaces are numbered 1 to 9",
        }
    }
}

/// The actions that take no argument, by the name a script writes.
pub open spec fn spec_plain_action(name: Seq<char>) -> Option<ActionV> {
    if name == "close"@ {
        Some(ActionV::Close)
    } else if name == "quit"@ {
        Some(ActionV::Quit)
    } else if name == "fullscreen"@ {
        Some(ActionV::Fullscreen)
    } else if name == "solo"@ {
        Some(ActionV::ToggleSolo)
    } else if name == "float"@ {
        Some(ActionV::ToggleFloating)
    } else if name == "focus_next"@ {
        Some(ActionV::FocusNext)
    } else if name == "focus_prev"@ {
        Some(ActionV::FocusPrev)
    } else if name == "workspace_next"@ {
        Some(ActionV::WorkspaceNext)
    } else if name == "workspace_prev"@ {
        Some(ActionV::WorkspacePrevious)
    } else if name == "move_to_workspace_next"@ {
        Some(ActionV::MoveToWorkspaceNext)
    } else if name == "move_to_workspace_prev"@ {
        Some(ActionV::MoveToWorkspacePrevious)
    } else if name == "keyboard_show"@ {
        Some(ActionV::KeyboardShow)
    } else if name == "keyboard_hide"@ {
        Some(ActionV::KeyboardHide)
    } else if name == "keyboard_toggle"@ {
        Some(ActionV::KeyboardToggle)
    } else {
        None
    }
}

/// The action a script reads as `oxin.action.<name>`, for the names that
/// take no argument; any other name is refused rather than read as `nil`.
pub fn plain_action(name: &str) -> (r: Result<Action, ActionError>)
    ensures
        match r {
            Ok(a) => spec_plain_action(name@) == Some(a@),
            Err(e) => spec_plain_action(name@) is None && e == ActionError::NoSuchAction,
        },
{
    let n = chars_of(name);
    let r = if eq_lit(&n, "close") {
        Ok(Action::Close)
    } else if eq_lit(&n, "quit") {
        Ok(Action::Quit)
    } else if eq_lit(&n, "fullscreen") {
        Ok(Action::Fullscreen)
    } else if eq_lit(&n, "solo") {
        Ok(Action::ToggleSolo)
    } else if eq_lit(&n, "float") {
        Ok(Action::ToggleFloating)
    } else if eq_lit(&n, "focus_next") {
        Ok(Action::FocusNext)
    } else if eq_lit(&n, "focus_prev") {
        Ok(Action::FocusPrev)
    } else if eq_lit(&n, "workspace_next") {
        Ok(Action::WorkspaceNext)
    } else if eq_lit(&n, "workspace_prev") {
        Ok(Action::WorkspacePrevious)
    } else if eq_lit(&n, "move_to_workspace_next") {
        Ok(Action::MoveToWorkspaceNext)
    } else if eq_lit(&n, "move_to_workspace_prev") {
        Ok(Action::MoveToWorkspacePrevious)
    } else if eq_lit(&n, "keyboard_show") {
        Ok(Action::KeyboardShow)
    } else if eq_lit(&n, "keyboard_hide") {
        Ok(Action::KeyboardHide)
    } else if eq_lit(&n, "keyboard_toggle") {
        Ok(Action::KeyboardToggle)
    } else {
        Err(ActionError::NoSuchAction)
    };
    r
}

/// A direction as a script writes it: the full word or its first letter, in
/// any case.
pub open spec fn spec_script_direction(s: Seq<char>) -> Option<Direction> {
    let a = lower(s);
    if a == "l"@ || a == "left"@ {
        Some(Direction::Left)
    } else if a == "r"@ || a == "right"@ {
        Some(Direction::Right)
    } else if a == "u"@ || a == "up"@ {
        Some(Direction::Up)
    } else if a == "d"@ || a == "down"@ {
        Some(Direction::Down)
    } else {
        None
    }
}

/// Parse the argument of `oxin.action.focus("left")` and its siblings.
pub fn direction(s: &str) -> (r: Option<Direction>)
    ensures
        r == spec_script_direction(s@),
{
    let a = lower_exec(&chars_of(s));
    if eq_lit(&a, "l") || eq_lit(&a, "left") {
        Some(Direction::Left)
    } else if eq_lit(&a, "r") || eq_lit(&a, "right") {
        Some(Direction::Right)
    } else if eq_lit(&a, "u") || eq_lit(&a, "up") {
        Some(Direction::Up)
    } else if eq_lit(&a, "d") || eq_lit(&a, "down") {
        Some(Direction::Down)
    } else {
        None
    }
}

/// The actions that take a direction: `focus`, `move` and `resize`.
pub open spec fn spec_directional(name: Seq<char>, d: Direction) -> Option<ActionV> {
    if name == "focus"@ {
        Some(ActionV::MoveFocus(d))
    } else if name == "move"@ {
        Some(ActionV::MoveWindow(d))
    } else if name == "resize"@ {
        Some(ActionV::ResizeWindow(d))
    } else {
        None
    }
}

/// `oxin.action.focus("left")`, `oxin.action.move("down")`,
/// `oxin.action.resize("up")`.
pub fn directional_action(name: &str, dir: &str) -> (r: Result<Action, ActionError>)
    ensures
        match r {
            Ok(a) => exists|d: Direction|
                spec_script_direction(dir@) == Some(d) && spec_directional(name@, d) == Some(a@),
            Err(e) => (e == ActionError::NoSuchAction && spec_directional(name@, Direction::Left) is None)
                || (e == ActionError::BadDirection && spec_directional(name@, Direction::Left) is Some
                    && spec_script_direction(dir@) is None),
        },
{
    let n = chars_of(name);
    let is_focus = eq_lit(&n, "focus");
    let is_move = eq_lit(&n, "move");
    let is_resize = eq_lit(&n, "resize");
    if !is_focus && !is_move && !is_resize {
        return Err(ActionError::NoSuchAction);
    }
    match direction(dir) {
        None => Err(ActionError::BadDirection),
        Some(d) => {
            proof {
                reveal_strlit("focus");
                reveal_strlit("move");
                reveal_strlit("resize");
            }
            assert(spec_directional(name@, d) is Some);
            if is_focus {
                Ok(Action::MoveFocus(d))
            } else if is_move {
                Ok(Action::MoveWindow(d))
            } else {
                Ok(Action::ResizeWindow(d))
            }
        },
    }
}

/// The actions that take a 1-based workspace number: `workspace` and
/// `move_to_workspace`. The action carries it 0-based.
pub open spec fn spec_workspace_action(name: Seq<char>, n: i64) -> Option<ActionV> {
    if 1 <= n <= WORKSPACE_COUNT {
        if name == "workspace"@ {
            Some(ActionV::Workspace((n - 1) as usize))
        } else if name == "move_to_workspace"@ {
            Some(ActionV::MoveToWorkspace((n - 1) as usize))
        } else {
            None
        }
    } else {
        None
    }
}

/// `oxin.action.workspace(3)` and `oxin.action.move_to_workspace(3)`.
pub fn workspace_action(name: &str, n: i64) -> (r: Result<Action, ActionError>)
    ensures
        match r {
            Ok(a) => spec_workspace_action(name@, n) == Some(a@),
            Err(e) => spec_workspace_action(name@, n) is None
                && (e == ActionError::NoSuchAction <==> !(name@ == "workspace"@ || name@ == "move_to_workspace"@))
                && (e == ActionError::WorkspaceRange <==> (name@ == "workspace"@ || name@ == "move_to_workspace"@)),
        },
{
    let s = chars_of(name);
    let is_switch = eq_lit(&s, "workspace");
    let is_move = eq_lit(&s, "move_to_workspace");
    if !is_switch && !is_move {
        proof {
            reveal_strlit("workspace");
            reveal_strlit("move_to_workspace");
        }
        return Err(ActionError::NoSuchAction);
    }
    if n < 1 || n > WORKSPACE_COUNT as i64 {
        return Err(ActionError::WorkspaceRange);
    }
    let w = (n - 1) as usize;
    if is_switch {
        Ok(Action::Workspace(w))
    } else {
        Ok(Action::MoveToWorkspace(w))
    }
}

} // verus!
