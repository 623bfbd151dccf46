//! `oxin.on`: behaviour a script registers, run when something happens.
//!
//! Registration repeats: `oxin.on.window(f)` may be called as often as the
//! script likes, and the handlers run in the order they were registered.
//! `on.window` influences placement: `nil` means "not mine, carry on", a
//! table says what to do instead. The other events' returns are ignored.

use vstd::prelude::*;
use crate::registrars::{field, find_field, ScriptValue};
use crate::staging::{spec_event_index, staged_wf, Event, Staged, StagedV};
use crate::text::{chars_of, eq_lit};

verus! {

/// The event a script names after `oxin.on.`.
pub open spec fn spec_event_named(name: Seq<char>) -> Option<Event> {
    if name == "startup"@ {
        Some(Event::Startup)
    } else if name == "window"@ {
        Some(Event::Window)
    } else if name == "workspace"@ {
        Some(Event::Workspace)
    } else {
        None
    }
}

pub fn event_named(name: &str) -> (r: Option<Event>)
    ensures
        r == spec_event_named(name@),
{
    let n = chars_of(name);
    if eq_lit(&n, "startup") {
        Some(Event::Startup)
    } else if eq_lit(&n, "window") {
        Some(Event::Window)
    } else if eq_lit(&n, "workspace") {
        Some(Event::Workspace)
    } else {
        None
    }
}

/// Why a handler registration was refused.
#[derive(Clone, Copy, PartialEq, Eq, Structural, Debug)]
pub enum HandlerError {
    /// `oxin.on` has no event by that name.
    NoSuchEvent,
    /// Handlers are functions.
    NotAFunction,
}

/// `oxin.on.<name>(f)`: register `f` as the next handler of the event, and
/// return its position among that event's handlers.
pub fn register_handler(staged: &mut Staged, name: &str, f: &ScriptValue) -> (r: Result<u32, HandlerError>)
    requires
        staged_wf(old(staged)@),
        forall|i: int| 0 <= i < 3 ==> old(staged)@.handlers[i] < u32::MAX,
    ensures
        staged_wf(final(staged)@),
        match spec_event_named(name@) {
            None => r == Err::<u32, HandlerError>(HandlerError::NoSuchEvent) && final(staged)@ == old(staged)@,
            Some(e) => if f is Function {
                r == Ok::<u32, HandlerError>(old(staged)@.handlers[spec_event_index(e) as int])
                    && final(staged)@ == (StagedV {
                    handlers: old(staged)@.handlers.update(
                        spec_event_index(e) as int,
                        (old(staged)@.handlers[spec_event_index(e) as int] + 1) as u32,
                    ),
                    ..old(staged)@
                })
            } else {
                r == Err::<u32, HandlerError>(HandlerError::NotAFunction) && final(staged)@ == old(staged)@
            },
        },
{
    match event_named(name) {
        None => Err(HandlerError::NoSuchEvent),
        Some(e) => {
            if let ScriptValue::Function = f {
                Ok(staged.add_handler(e))
            } else {
                Err(HandlerError::NotAFunction)
            }
        },
    }
}

/// What `on.window` may ask for instead of the default placement.
#[derive(Clone, Copy, PartialEq, Eq, Structural, Debug)]
pub struct WindowRule {
    pub float: Option<bool>,
    /// 1-based, as written in the script.
    pub workspace: Option<i64>,
}

/// Why a handler's return value is not a rule.
#[derive(Clone, Copy, PartialEq, Eq, Structural, Debug)]
pub enum RuleError {
    /// `workspace` is there but not a number.
    WorkspaceNotANumber,
    /// The handler returned neither `nil` nor a table.
    NotATable,
}

/// Lua truthiness: everything but `nil` and `false`.
pub open spec fn truthy(v: ScriptValue) -> bool {
    match v {
        ScriptValue::Nil => false,
        ScriptValue::Bool(b) => b,
        _ => true,
    }
}

/// What a handler's return value says: `nil` is "not mine", a table is a
/// rule, anything else is a mistake.
pub open spec fn spec_read_rule(v: ScriptValue) -> Result<Option<WindowRule>, RuleError> {
    match v {
        ScriptValue::Nil => Ok(None),
        ScriptValue::Table(t) => {
            let fl = field(t@, "float"@);
            let float = if fl is Nil {
                None
            } else {
                Some(truthy(fl))
            };
            match field(t@, "workspace"@) {
                ScriptValue::Nil => Ok(Some(WindowRule { float, workspace: None })),
                ScriptValue::Int(n) => Ok(Some(WindowRule { float, workspace: Some(n) })),
                _ => Err(RuleError::WorkspaceNotANumber),
            }
        },
        _ => Err(RuleError::NotATable),
    }
}

/// Read an `on.window` handler's return value.
pub fn read_rule(v: &ScriptValue) -> (r: Result<Option<WindowRule>, RuleError>)
    ensures
        r == spec_read_rule(*v),
{
    match v {
        ScriptValue::Nil => Ok(None),
        ScriptValue::Table(t) => {
            let float = match find_field(t, "float") {
                None | Some(ScriptValue::Nil) => None,
                Some(ScriptValue::Bool(b)) => Some(*b),
                Some(_) => Some(true),
            };
            match find_field(t, "workspace") {
                None | Some(ScriptValue::Nil) => Ok(Some(WindowRule { float, workspace: None })),
                Some(ScriptValue::Int(n)) => Ok(Some(WindowRule { float, workspace: Some(*n) })),
                Some(_) => Err(RuleError::WorkspaceNotANumber),
            }
        },
        _ => Err(RuleError::NotATable),
    }
}

} // verus!
