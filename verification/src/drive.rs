//! Running a script to completion under a budget the host controls.
//!
//! The interpreter is stepped one bounded slice of fuel at a time; running
//! out of a slice is resumable, and the host stops the script on its own
//! terms: when the total fuel is spent, or when the wall clock passes the
//! deadline. The stepping and the clock are the shell's; the decisions are
//! made here.

use vstd::prelude::*;
use crate::plugins::append_lit;
use crate::text::string_of;
use crate::config::Config;

verus! {

/// Fuel handed to one step: bounds how long a single call holds the
/// interpreter.
pub const FUEL_PER_SLICE: i32 = 8192;

/// Total fuel one synchronous handler may spend: a backstop for accidental
/// loops.
pub const FUEL_PER_HANDLER: i32 = 2000000;

/// Total fuel the configuration script may spend.
pub const FUEL_FOR_CONFIG: i32 = 200000000;

/// Wall-clock ceiling for one handler, in milliseconds: roughly three frames
/// at 60Hz.
pub const HANDLER_DEADLINE_MS: u64 = 50;

/// Wall-clock ceiling for the configuration script, in milliseconds.
pub const CONFIG_DEADLINE_MS: u64 = 2000;

/// Why a drive stopped.
#[derive(Clone, Copy, PartialEq, Eq, Structural, Debug)]
pub enum Stop {
    /// The script ran to completion.
    Finished,
    /// The fuel budget is spent.
    OutOfFuel,
    /// The wall-clock deadline passed.
    PastDeadline,
}

impl Stop {
    /// Why a killed drive was stopped, for the report.
    pub fn reason(self) -> (r: &'static str)
        ensures
            r@ == (match self {
                Stop::Finished => "finished"@,
                Stop::OutOfFuel => "fuel budget exhausted"@,
                Stop::PastDeadline => "wall-clock deadline exceeded"@,
            }),
    {
        match self {
            Stop::Finished => "finished",
            Stop::OutOfFuel => "fuel budget exhausted",
            Stop::PastDeadline => "wall-clock deadline exceeded",
        }
    }
}

/// A drive in progress: its total budget and the fuel spent so far.
pub struct Drive {
    pub budget: i32,
    pub spent: i64,
}

/// A drive that is still running has spent a non-negative amount that fits
/// the budget's type.
pub open spec fn drive_wf(d: Drive) -> bool {
    0 <= d.spent <= i32::MAX
}

/// The fuel for the next step: a full slice, or what is left of the budget
/// (at least one).
pub open spec fn spec_slice(d: Drive) -> i32 {
    let remaining = if d.budget - d.spent >= 1 {
        d.budget - d.spent
    } else {
        1
    };
    if FUEL_PER_SLICE <= remaining {
        FUEL_PER_SLICE
    } else {
        remaining as i32
    }
}

impl Drive {
    pub fn new(budget: i32) -> (r: Drive)
        ensures
            r.budget == budget,
            r.spent == 0,
            drive_wf(r),
    {
        Drive { budget, spent: 0 }
    }

    /// The fuel to hand the next step.
    pub fn slice(&self) -> (r: i32)
        requires
            drive_wf(*self),
        ensures
            r == spec_slice(*self),
            1 <= r <= FUEL_PER_SLICE,
    {
        let remaining: i64 = if (self.budget as i64) - self.spent >= 1 {
            (self.budget as i64) - self.spent
        } else {
            1
        };
        if (FUEL_PER_SLICE as i64) <= remaining {
            FUEL_PER_SLICE
        } else {
            remaining as i32
        }
    }

    /// Record a step that began with `before` fuel and ended with `after`
    /// (a step that overspent counts as spending nothing more than it had),
    /// and decide: stop because the script finished, because the budget is
    /// spent, or because the deadline passed; or go on.
    pub fn record(&mut self, before: i32, after: i32, finished: bool, past_deadline: bool) -> (r: Option<Stop>)
        requires
            drive_wf(*old(self)),
        ensures
            final(self).budget == old(self).budget,
            final(self).spent == old(self).spent + (if before - after > 0 {
                before - after
            } else {
                0
            }),
            r == (if finished {
                Some(Stop::Finished)
            } else if final(self).spent >= old(self).budget {
                Some(Stop::OutOfFuel)
            } else if past_deadline {
                Some(Stop::PastDeadline)
            } else {
                None::<Stop>
            }),
            r is None ==> drive_wf(*final(self)),
    {
        let used: i64 = (before as i64) - (after as i64);
        if used > 0 {
            self.spent = self.spent + used;
        }
        if finished {
            Some(Stop::Finished)
        } else if self.spent >= self.budget as i64 {
            Some(Stop::OutOfFuel)
        } else if past_deadline {
            Some(Stop::PastDeadline)
        } else {
            None
        }
    }
}

/// A step never hands out more than the budget has left, and always at
/// least one unit: a script that spends every slice it is given reaches the
/// budget exactly, after at most as many steps as the budget has units.
pub proof fn law_slices_never_overshoot(d: Drive)
    requires
        drive_wf(d),
        d.spent < d.budget,
    ensures
        1 <= spec_slice(d),
        d.spent + spec_slice(d) <= d.budget,
{
}

/// State the scripting layer keeps across event-loop iterations: how many
/// drives are on the stack, the bound functions that were stopped and are
/// skipped from then on, and why the configuration failed to load, if it did.
pub struct Registry {
    pub depth: u32,
    pub quarantined: Vec<u32>,
    pub config_error: Option<String>,
}

impl Registry {
    /// The ids of the quarantined functions.
    pub open spec fn quarantined(&self) -> Set<u32> {
        self.quarantined@.to_set()
    }

    pub fn new() -> (r: Registry)
        ensures
            r.depth == 0,
            r.quarantined() == Set::<u32>::empty(),
            r.config_error is None,
    {
        let r = Registry { depth: 0, quarantined: Vec::new(), config_error: None };
        assert(r.quarantined@.to_set() =~= Set::<u32>::empty());
        r
    }

    pub fn depth(&self) -> (r: u32)
        ensures
            r == self.depth,
    {
        self.depth
    }

    /// A drive starts.
    pub fn enter_drive(&mut self)
        requires
            old(self).depth < u32::MAX,
        ensures
            final(self).depth == old(self).depth + 1,
            final(self).quarantined() == old(self).quarantined(),
            final(self).config_error == old(self).config_error,
    {
        self.depth = self.depth + 1;
    }

    /// A drive ends; the depth never goes below zero.
    pub fn leave_drive(&mut self)
        ensures
            final(self).depth == (if old(self).depth == 0 {
                0
            } else {
                old(self).depth - 1
            }),
            final(self).quarantined() == old(self).quarantined(),
            final(self).config_error == old(self).config_error,
    {
        self.depth = self.depth.saturating_sub(1);
    }

    /// An event raised while a drive is on the stack is skipped: a handler
    /// never runs inside another.
    pub fn event_may_run(&self) -> (r: bool)
        ensures
            r == (self.depth == 0),
    {
        self.depth == 0
    }

    /// Whether the bound function `id` was stopped and is skipped.
    pub fn is_quarantined(&self, id: u32) -> (r: bool)
        ensures
            r == self.quarantined().contains(id),
    {
        let mut i: usize = 0;
        while i < self.quarantined.len()
            invariant
                i <= self.quarantined.len(),
                forall|k: int| 0 <= k < i ==> self.quarantined@[k] != id,
            decreases self.quarantined.len() - i,
        {
            if self.quarantined[i] == id {
                assert(self.quarantined@.contains(id));
                return true;
            }
            i += 1;
        }
        false
    }

    /// A drive of the bound function `bound` (or of an event handler, when
    /// `None`) ended with `stop`. A drive that was stopped left its work half
    /// done, so everything must be re-placed (the result); a stopped bound
    /// function is also skipped from then on, while a stopped handler is
    /// only skipped for the rest of its event.
    pub fn drive_ended(&mut self, bound: Option<u32>, stop: Stop) -> (refresh: bool)
        ensures
            refresh == (stop != Stop::Finished),
            final(self).quarantined() == (match bound {
                Some(id) => if stop != Stop::Finished {
                    old(self).quarantined().insert(id)
                } else {
                    old(self).quarantined()
                },
                None => old(self).quarantined(),
            }),
            final(self).depth == old(self).depth,
            final(self).config_error == old(self).config_error,
    {
        if stop == Stop::Finished {
            return false;
        }
        if let Some(id) = bound {
            self.quarantine(id);
        }
        true
    }

    /// Skip the bound function `id` from now on: it was stopped, and a held
    /// key would otherwise stall every repeat.
    pub fn quarantine(&mut self, id: u32)
        ensures
            final(self).quarantined() == old(self).quarantined().insert(id),
            final(self).depth == old(self).depth,
            final(self).config_error == old(self).config_error,
    {
        let ghost before = self.quarantined@;
        if !self.is_quarantined(id) {
            self.quarantined.push(id);
            proof {
                assert forall|x: u32| self.quarantined@.contains(x) == (before.contains(x) || x == id) by {
                    if self.quarantined@.contains(x) {
                        let k = choose|k: int| 0 <= k < self.quarantined@.len() && self.quarantined@[k] == x;
                        if k < before.len() {
                            assert(before[k] == x);
                        }
                    }
                    if before.contains(x) {
                        let k = choose|k: int| 0 <= k < before.len() && before[k] == x;
                        assert(self.quarantined@[k] == x);
                    }
                    if x == id {
                        assert(self.quarantined@[before.len() as int] == x);
                    }
                }
            }
            assert(self.quarantined@.to_set() =~= old(self).quarantined@.to_set().insert(id));
        } else {
            assert(old(self).quarantined@.to_set().insert(id) =~= old(self).quarantined@.to_set());
        }
    }
}

/// An error while compiling or starting a script, made to name the file:
/// `<path>: <what went wrong>`.
pub open spec fn spec_chunk_error(path: Seq<char>, message: Seq<char>) -> Seq<char> {
    path + ": "@ + message
}

pub fn chunk_error(path: &str, message: &str) -> (r: String)
    ensures
        r@ == spec_chunk_error(path@, message@),
{
    let mut out: Vec<char> = Vec::new();
    append_lit(&mut out, path);
    append_lit(&mut out, ": ");
    append_lit(&mut out, message);
    string_of(&out)
}

/// The report for a configuration script that was stopped: it names the
/// file and why it was stopped.
pub open spec fn spec_config_stopped(path: Seq<char>, why: Stop) -> Seq<char> {
    path + ": config did not finish ("@ + stop_reason(why)
        + "). A loop with no exit, or work far beyond what a config should do at startup."@
}

pub open spec fn stop_reason(why: Stop) -> Seq<char> {
    match why {
        Stop::Finished => "finished"@,
        Stop::OutOfFuel => "fuel budget exhausted"@,
        Stop::PastDeadline => "wall-clock deadline exceeded"@,
    }
}

pub fn config_stopped(path: &str, why: Stop) -> (r: String)
    ensures
        r@ == spec_config_stopped(path@, why),
{
    let mut out: Vec<char> = Vec::new();
    append_lit(&mut out, path);
    append_lit(&mut out, ": config did not finish (");
    append_lit(&mut out, why.reason());
    append_lit(
        &mut out,
        "). A loop with no exit, or work far beyond what a config should do at startup.",
    );
    string_of(&out)
}

/// How the run of a configuration script ended.
pub enum RunEnd {
    /// The chunk ran to its end.
    Finished,
    /// The chunk raised an error; its message already names the file and
    /// line.
    Raised(String),
    /// The host stopped the chunk.
    Killed(Stop),
    /// The interpreter itself failed.
    Broken(String),
}

/// The report for an interpreter failure while running the file at `path`.
pub open spec fn spec_internal_error(path: Seq<char>, message: Seq<char>) -> Seq<char> {
    path + ": internal error: "@ + message
}

pub fn internal_error(path: &str, message: &str) -> (r: String)
    ensures
        r@ == spec_internal_error(path@, message@),
{
    let mut out: Vec<char> = Vec::new();
    append_lit(&mut out, path);
    append_lit(&mut out, ": internal error: ");
    append_lit(&mut out, message);
    string_of(&out)
}

/// What loading the configuration script at `path` gives once its run has
/// ended: the settings it staged when the chunk ran to its end, and the
/// report of the failure otherwise. A configuration applies all or nothing:
/// the staged settings come back only from a finished run.
pub fn finish_load(path: &str, end: RunEnd, staged: Config) -> (r: Result<Config, String>)
    ensures
        r is Ok <==> end is Finished,
        match end {
            RunEnd::Finished => r matches Ok(c) && c@ == staged@,
            RunEnd::Raised(m) => r matches Err(e) && e@ == m@,
            RunEnd::Killed(why) => r matches Err(e) && e@ == spec_config_stopped(path@, why),
            RunEnd::Broken(m) => r matches Err(e) && e@ == spec_internal_error(path@, m@),
        },
{
    match end {
        RunEnd::Finished => Ok(staged),
        RunEnd::Raised(m) => Err(m),
        RunEnd::Killed(why) => Err(config_stopped(path, why)),
        RunEnd::Broken(m) => Err(internal_error(path, &m)),
    }
}

} // verus!
