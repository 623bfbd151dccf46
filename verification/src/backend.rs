//! Which backend turns the scene into pixels, and what a request for a
//! session change asks of it.

use vstd::prelude::*;

verus! {

/// The backend driving the display: a window nested in another session, or
/// DRM/KMS on a TTY with a session of its own.
#[derive(Clone, Copy, PartialEq, Eq, Structural, Debug)]
pub enum Backend {
    Winit,
    Udev,
}

impl Backend {
    /// Ctrl+Alt+F`vt`: the virtual terminal the session is asked to switch
    /// to. Nested there is no session to switch, so nothing is asked.
    pub fn change_vt(&self, vt: i32) -> (r: Option<i32>)
        ensures
            r == (match *self {
                Backend::Winit => None,
                Backend::Udev => Some(vt),
            }),
    {
        match self {
            Backend::Winit => None,
            Backend::Udev => Some(vt),
        }
    }
}

} // verus!
