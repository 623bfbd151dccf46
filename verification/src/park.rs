//! Parking the host for the duration of a scripting step.
//!
//! Script callbacks cannot capture the compositor; the driver parks it here
//! for exactly as long as it drives the interpreter, and host functions pick
//! it back up. Everything a callback can get wrong (running outside a drive,
//! or asking for the host while a host call already holds it) comes back as
//! an error the script can see.

use vstd::prelude::*;

verus! {

/// Why a host function could not reach the parked value.
#[derive(Debug, Clone, Copy, PartialEq, Eq, Structural)]
pub enum ParkError {
    /// No drive is in progress.
    NotParked,
    /// A host function asked for the host while another one holds it.
    Reentered,
}

impl ParkError {
    /// The message a script sees for this error.
    pub fn message(self) -> (r: &'static str)
        ensures
            r@ == (match self {
                ParkError::NotParked => "oxin: host call outside a compositor callback"@,
                ParkError::Reentered => "oxin: nested host call (a handler ran inside another host function); this is a 0xin bug"@,
            }),
    {
        match self {
            ParkError::NotParked => "oxin: host call outside a compositor callback",
            ParkError::Reentered => "oxin: nested host call (a handler ran inside another host function); this is a 0xin bug",
        }
    }
}

/// The parking slot. Drives nest: each parks its own value over the one
/// below it and restores that one when it ends. While a host call holds the
/// innermost value it is lent out of the slot.
pub struct Park<T> {
    stack: Vec<T>,
    lent: bool,
}

/// The mathematical state of the slot: the values in it, innermost last, and
/// whether a host call holds one lent out of it.
pub ghost struct ParkV<T> {
    pub stack: Seq<T>,
    pub lent: bool,
}

impl<T> View for Park<T> {
    type V = ParkV<T>;

    closed spec fn view(&self) -> ParkV<T> {
        ParkV { stack: self.stack@, lent: self.lent }
    }
}

/// The slot after a drive parks `value`.
pub open spec fn spec_park<T>(s: ParkV<T>, value: T) -> ParkV<T> {
    ParkV { stack: s.stack.push(value), lent: s.lent }
}

/// The slot after the innermost drive ends, and the value that comes back.
pub open spec fn spec_unpark<T>(s: ParkV<T>) -> (ParkV<T>, Option<T>) {
    if s.stack.len() == 0 {
        (s, None)
    } else {
        (ParkV { stack: s.stack.drop_last(), lent: s.lent }, Some(s.stack.last()))
    }
}

/// The slot after a host call asks for the host, and what it gets.
pub open spec fn spec_borrow<T>(s: ParkV<T>) -> (ParkV<T>, Result<T, ParkError>) {
    if s.lent {
        (s, Err(ParkError::Reentered))
    } else if s.stack.len() == 0 {
        (s, Err(ParkError::NotParked))
    } else {
        (ParkV { stack: s.stack.drop_last(), lent: true }, Ok(s.stack.last()))
    }
}

/// The slot after a host call hands `value` back.
pub open spec fn spec_release<T>(s: ParkV<T>, value: T) -> ParkV<T> {
    ParkV { stack: s.stack.push(value), lent: false }
}

/// Parking a value around a drive restores the slot: when the drive ends,
/// its value (as the drive's host calls left it) comes back and the slot is
/// as it was before the drive began. In particular, with nothing parked
/// before, a host call after the drive is refused as outside any drive.
pub proof fn law_parking_is_restored<T>(s: ParkV<T>, value: T, changed: T)
    ensures
        spec_unpark(spec_park(s, value)) == (s, Some(value)),
        !s.lent ==> spec_borrow(spec_park(s, value)).1 == Ok::<T, ParkError>(value),
        !s.lent ==> spec_unpark(spec_release(spec_borrow(spec_park(s, value)).0, changed)) == (
            s,
            Some(changed),
        ),
        s.stack.len() == 0 && !s.lent ==> spec_borrow(spec_unpark(spec_park(s, value)).0).1
            == Err::<T, ParkError>(ParkError::NotParked),
{
    assert(spec_park(s, value).stack.drop_last() =~= s.stack);
    if !s.lent {
        assert(spec_borrow(spec_park(s, value)).0.stack =~= s.stack);
        assert(spec_release(spec_borrow(spec_park(s, value)).0, changed).stack.drop_last() =~= s.stack);
    }
}

impl<T> Park<T> {
    /// An empty slot: nothing parked, nothing lent.
    pub fn new() -> (r: Park<T>)
        ensures
            r@.stack == Seq::<T>::empty(),
            !r@.lent,
    {
        Park { stack: Vec::new(), lent: false }
    }

    /// A drive begins: `value` is what its callbacks may reach.
    pub fn park(&mut self, value: T)
        ensures
            final(self)@ == spec_park(old(self)@, value),
    {
        self.stack.push(value);
    }

    /// The drive ends: its value comes back and the one below it, if any, is
    /// parked again.
    pub fn unpark(&mut self) -> (r: Option<T>)
        ensures
            (final(self)@, r) == spec_unpark(old(self)@),
    {
        self.stack.pop()
    }

    /// True while a drive is in progress.
    pub fn is_parked(&self) -> (r: bool)
        ensures
            r == (self@.stack.len() > 0 || self@.lent),
    {
        self.stack.len() > 0 || self.lent
    }

    /// A host call begins: the innermost value is lent to it, unless no drive
    /// is in progress or another host call already holds the host.
    pub fn borrow(&mut self) -> (r: Result<T, ParkError>)
        ensures
            (final(self)@, r) == spec_borrow(old(self)@),
    {
        if self.lent {
            return Err(ParkError::Reentered);
        }
        match self.stack.pop() {
            None => Err(ParkError::NotParked),
            Some(v) => {
                self.lent = true;
                Ok(v)
            },
        }
    }

    /// The host call ends and hands the (possibly changed) value back.
    pub fn release(&mut self, value: T)
        requires
            old(self)@.lent,
        ensures
            final(self)@ == spec_release(old(self)@, value),
    {
        self.stack.push(value);
        self.lent = false;
    }

    /// Run `f` on the parked value as one host call: an error, and nothing
    /// run, when no drive is in progress or a host call already holds it.
    pub fn with_parked<R, F: FnOnce(T) -> (T, R)>(&mut self, f: F) -> (r: Result<R, ParkError>)
        requires
            old(self)@.stack.len() > 0 && !old(self)@.lent ==> f.requires(
                (old(self)@.stack.last(),),
            ),
        ensures
            old(self)@.stack.len() == 0 && !old(self)@.lent ==> (r matches Err(e) && e
                == ParkError::NotParked) && final(self)@ == old(self)@,
            old(self)@.lent ==> (r matches Err(e) && e == ParkError::Reentered) && final(self)@
                == old(self)@,
            old(self)@.stack.len() > 0 && !old(self)@.lent ==> exists|t: T, v: R|
                {
                    &&& #[trigger] f.ensures((old(self)@.stack.last(),), (t, v))
                    &&& r == Ok::<R, ParkError>(v)
                    &&& final(self)@.stack == old(self)@.stack.drop_last().push(t)
                    &&& !final(self)@.lent
                },
    {
        match self.borrow() {
            Err(e) => Err(e),
            Ok(value) => {
                let (back, out) = f(value);
                self.release(back);
                Ok(out)
            },
        }
    }
}

} // verus!
