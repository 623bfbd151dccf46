//! The compositor's window policy: which windows are on which of the nine
//! workspaces, which workspace each output shows, which window has focus,
//! and what each action does to all of that.
//!
//! Windows are known here by an id; the shell keeps the real window handles
//! and carries out the [`Effect`]s each decision asks for (focusing a
//! window, re-tiling, telling a client its new state).

use vstd::prelude::*;
use crate::config::{opt_string_view, Action, ActionV, Config, Direction};
use crate::neighbor::{lemma_small_rects_fit, neighbor_of_rects, small_rect, spec_neighbor};
use crate::seqs::{first_where, is_first_where, lemma_first_where_is, lemma_first_where_none};

verus! {

/// Number of virtual workspaces.
pub const WORKSPACE_COUNT: usize = 9;

/// A rectangle in layout coordinates.
#[derive(Clone, Copy, PartialEq, Eq, Structural, Debug)]
pub struct Rect {
    pub x: i32,
    pub y: i32,
    pub w: i32,
    pub h: i32,
}

impl Rect {
    /// The point lies inside: left and top edges included, right and bottom
    /// excluded.
    pub open spec fn holds(self, px: int, py: int) -> bool {
        self.x <= px < self.x + self.w && self.y <= py < self.y + self.h
    }

    /// Whether the point lies inside the rectangle.
    pub fn contains(&self, px: i32, py: i32) -> (r: bool)
        ensures
            r == self.holds(px as int, py as int),
    {
        let (x, y, w, h) = (self.x as i64, self.y as i64, self.w as i64, self.h as i64);
        x <= px as i64 && (px as i64) < x + w && y <= py as i64 && (py as i64) < y + h
    }
}

/// A window's policy state: its id, whether it floats or is fullscreen, and
/// the rect the last placement gave it.
#[derive(Clone, Copy, PartialEq, Eq, Structural, Debug)]
pub struct Win {
    pub id: u64,
    pub floating: bool,
    pub fullscreen: bool,
    pub rect: Rect,
}

impl Win {
    /// Neither floating nor fullscreen: the windows the split tree arranges.
    pub open spec fn tiled(self) -> bool {
        !self.floating && !self.fullscreen
    }
}

/// One workspace: its windows in stacking order, the focused index, and the
/// window shown alone on it, if any.
pub struct Workspace {
    pub windows: Vec<Win>,
    pub focused: usize,
    pub solo: Option<u64>,
    pub first_split_vertical: bool,
}

pub ghost struct WorkspaceV {
    pub windows: Seq<Win>,
    pub focused: usize,
    pub solo: Option<u64>,
    pub first_split_vertical: bool,
}

impl View for Workspace {
    type V = WorkspaceV;

    open spec fn view(&self) -> WorkspaceV {
        WorkspaceV {
            windows: self.windows@,
            focused: self.focused,
            solo: self.solo,
            first_split_vertical: self.first_split_vertical,
        }
    }
}

impl Workspace {
    /// An empty workspace.
    pub fn new(first_split_vertical: bool) -> (r: Workspace)
        ensures
            r@ == (WorkspaceV {
                windows: Seq::empty(),
                focused: 0,
                solo: None,
                first_split_vertical,
            }),
    {
        Workspace { windows: Vec::new(), focused: 0, solo: None, first_split_vertical }
    }
}

/// One connected output: its box, the usable part of it (what bars leave),
/// and the workspace it shows.
#[derive(Clone, Copy, PartialEq, Eq, Structural, Debug)]
pub struct OutputEntry {
    pub geometry: Rect,
    pub usable: Rect,
    pub workspace: usize,
}

/// What an active pointer grab does to the grabbed floating window.
#[derive(Clone, Copy, PartialEq, Eq, Structural, Debug)]
pub enum GrabMode {
    Inactive,
    Move,
    Resize,
}

/// The whole policy state.
pub struct Desk {
    pub workspaces: Vec<Workspace>,
    pub outputs: Vec<OutputEntry>,
    /// The pointer position, rounded to layout pixels.
    pub pointer_x: i32,
    pub pointer_y: i32,
    pub keyboard_visible: bool,
    pub grab: GrabMode,
    pub grab_window: Option<u64>,
}

pub ghost struct DeskV {
    pub workspaces: Seq<WorkspaceV>,
    pub outputs: Seq<OutputEntry>,
    pub pointer_x: i32,
    pub pointer_y: i32,
    pub keyboard_visible: bool,
    pub grab: GrabMode,
    pub grab_window: Option<u64>,
}

impl View for Desk {
    type V = DeskV;

    open spec fn view(&self) -> DeskV {
        DeskV {
            workspaces: self.workspaces@.map_values(|w: Workspace| w@),
            outputs: self.outputs@,
            pointer_x: self.pointer_x,
            pointer_y: self.pointer_y,
            keyboard_visible: self.keyboard_visible,
            grab: self.grab,
            grab_window: self.grab_window,
        }
    }
}

/// Output coordinates stay far from the edges of `i32`, so centring and
/// clamping never overflow.
pub open spec fn sane_rect(r: Rect) -> bool {
    -0x100_0000 <= r.x <= 0x100_0000 && -0x100_0000 <= r.y <= 0x100_0000 && 0 <= r.w
        <= 0x100_0000 && 0 <= r.h <= 0x100_0000
}

/// The focused index points at a window, or is 0 on an empty workspace; and
/// the windows fit in memory.
pub open spec fn focus_ok(ws: WorkspaceV) -> bool {
    (ws.focused < ws.windows.len() || ws.focused == 0) && ws.windows.len() <= usize::MAX
}

/// The state is well formed: nine workspaces, every output showing one of
/// them with sane geometry, focus in range, and a solo window on its own
/// workspace.
pub open spec fn wf(d: DeskV) -> bool {
    &&& d.workspaces.len() == WORKSPACE_COUNT
    &&& forall|o: int|
        0 <= o < d.outputs.len() ==> (#[trigger] d.outputs[o]).workspace < WORKSPACE_COUNT
            && sane_rect(d.outputs[o].geometry) && sane_rect(d.outputs[o].usable)
    &&& forall|w: int| 0 <= w < d.workspaces.len() ==> focus_ok(#[trigger] d.workspaces[w])
    &&& forall|w: int, i: int|
        0 <= w < d.workspaces.len() && 0 <= i < d.workspaces[w].windows.len() ==> win_rect_ok(
            (#[trigger] d.workspaces[w].windows[i]).rect,
        )
}

/// A window rect: small coordinates and a size that is not negative.
pub open spec fn win_rect_ok(r: Rect) -> bool {
    small_rect(r) && r.w >= 0 && r.h >= 0
}

/// No workspace is shown on two outputs.
pub open spec fn outputs_distinct(d: DeskV) -> bool {
    forall|a: int, b: int|
        0 <= a < d.outputs.len() && 0 <= b < d.outputs.len() && a != b ==> (
        #[trigger] d.outputs[a]).workspace != (#[trigger] d.outputs[b]).workspace
}

/// The pointer is on this output.
pub open spec fn under_pointer(px: i32, py: i32) -> spec_fn(OutputEntry) -> bool {
    |o: OutputEntry| o.geometry.holds(px as int, py as int)
}

/// The output the pointer is on, or output 0 when it is on none.
pub open spec fn spec_active_output(d: DeskV) -> int {
    match first_where(d.outputs, under_pointer(d.pointer_x, d.pointer_y)) {
        Some(i) => i,
        None => 0,
    }
}

/// The workspace the active output shows (0 with no output at all).
pub open spec fn spec_active_workspace(d: DeskV) -> int {
    if d.outputs.len() == 0 {
        0
    } else {
        d.outputs[spec_active_output(d)].workspace as int
    }
}

/// Something the shell must carry out for a decision.
#[derive(Debug, PartialEq)]
pub enum Effect {
    /// Launch a shell command.
    Spawn(String),
    /// Ask a window to close.
    Close(u64),
    /// Stop the compositor.
    Quit,
    /// Give keyboard focus to a window: raise and activate it, deactivate
    /// every other one.
    Focus(u64),
    /// Re-place every window from the policy state.
    Refresh,
    /// Tell a client whether it is fullscreen.
    SendFullscreen(u64, bool),
    /// Set or clear a window's tiled-edge states.
    SetTiledStates(u64, bool),
    /// Take a window's leaf out of its workspace's split tree.
    TreeUntrack(usize, u64),
    /// Give a window a leaf in its workspace's split tree.
    TreeTrack(usize, u64),
    /// Map a window at a rect and configure it to that size.
    Place(u64, Rect),
    /// Resize the split nearest the tiled window at this tree position.
    ResizeSplit(usize, usize, Direction),
    /// No command is configured to show (true) or hide the keyboard.
    NoKeyboardCommand(bool),
    /// The on-screen keyboard is now shown (true) or hidden.
    KeyboardShown(bool),
    /// Run a function the configuration registered.
    CallFunction(u32),
    /// Take a window out of the scene.
    Unmap(u64),
}

pub enum EffectV {
    Spawn(Seq<char>),
    Close(u64),
    Quit,
    Focus(u64),
    Refresh,
    SendFullscreen(u64, bool),
    SetTiledStates(u64, bool),
    TreeUntrack(usize, u64),
    TreeTrack(usize, u64),
    Place(u64, Rect),
    ResizeSplit(usize, usize, Direction),
    NoKeyboardCommand(bool),
    KeyboardShown(bool),
    CallFunction(u32),
    Unmap(u64),
}

impl View for Effect {
    type V = EffectV;

    open spec fn view(&self) -> EffectV {
        match self {
            Effect::Spawn(s) => EffectV::Spawn(s@),
            Effect::Close(id) => EffectV::Close(*id),
            Effect::Quit => EffectV::Quit,
            Effect::Focus(id) => EffectV::Focus(*id),
            Effect::Refresh => EffectV::Refresh,
            Effect::SendFullscreen(id, on) => EffectV::SendFullscreen(*id, *on),
            Effect::SetTiledStates(id, on) => EffectV::SetTiledStates(*id, *on),
            Effect::TreeUntrack(w, id) => EffectV::TreeUntrack(*w, *id),
            Effect::TreeTrack(w, id) => EffectV::TreeTrack(*w, *id),
            Effect::Place(id, r) => EffectV::Place(*id, *r),
            Effect::ResizeSplit(w, i, d) => EffectV::ResizeSplit(*w, *i, *d),
            Effect::NoKeyboardCommand(v) => EffectV::NoKeyboardCommand(*v),
            Effect::KeyboardShown(v) => EffectV::KeyboardShown(*v),
            Effect::CallFunction(id) => EffectV::CallFunction(*id),
            Effect::Unmap(id) => EffectV::Unmap(*id),
        }
    }
}

pub open spec fn effects_view(v: Seq<Effect>) -> Seq<EffectV> {
    v.map_values(|e: Effect| e@)
}

/// Focus window `idx` (wrapped) of the active workspace: the new state and
/// the window to focus, if there is one.
pub open spec fn spec_focus_index(d: DeskV, idx: int) -> (DeskV, Option<u64>) {
    if d.outputs.len() == 0 {
        (d, None)
    } else {
        let w = spec_active_workspace(d);
        let ws = d.workspaces[w];
        if ws.windows.len() == 0 {
            (d, None)
        } else {
            let i = idx % (ws.windows.len() as int);
            (
                DeskV {
                    workspaces: d.workspaces.update(w, WorkspaceV { focused: i as usize, ..ws }),
                    ..d
                },
                Some(ws.windows[i].id),
            )
        }
    }
}

/// Show workspace `target` on the active output; the output already showing
/// it, if any, takes the active output's old one in exchange.
pub open spec fn spec_switch_outputs(d: DeskV, target: int) -> Seq<OutputEntry> {
    let a = spec_active_output(d);
    let current = d.outputs[a].workspace;
    let shows = |o: OutputEntry| o.workspace == target;
    let swapped = match first_where(d.outputs, shows) {
        Some(other) => d.outputs.update(other, OutputEntry { workspace: current, ..d.outputs[other] }),
        None => d.outputs,
    };
    swapped.update(a, OutputEntry { workspace: target as usize, ..d.outputs[a] })
}

/// `switch_workspace`: a no-op with no output, an out-of-range target, or
/// the target already showing on the active output; otherwise the outputs
/// change hands, everything is re-placed, and the target's focused window
/// gets focus.
pub open spec fn spec_switch_workspace(d: DeskV, target: int) -> (DeskV, Seq<EffectV>) {
    if d.outputs.len() == 0 || target >= WORKSPACE_COUNT || target < 0 {
        (d, Seq::empty())
    } else if d.outputs[spec_active_output(d)].workspace == target {
        (d, Seq::empty())
    } else {
        let d1 = DeskV { outputs: spec_switch_outputs(d, target), ..d };
        let (d2, f) = spec_focus_index(d1, d1.workspaces[target].focused as int);
        (
            d2,
            match f {
                Some(id) => seq![EffectV::Refresh, EffectV::Focus(id)],
                None => seq![EffectV::Refresh],
            },
        )
    }
}


/// `d` with workspace `w` replaced.
pub open spec fn with_ws(d: DeskV, w: int, ws: WorkspaceV) -> DeskV {
    DeskV { workspaces: d.workspaces.update(w, ws), ..d }
}

/// `d` with window `i` of workspace `w` replaced.
pub open spec fn with_win(d: DeskV, w: int, i: int, win: Win) -> DeskV {
    with_ws(d, w, WorkspaceV { windows: d.workspaces[w].windows.update(i, win), ..d.workspaces[w] })
}

/// The default floating size: the configured percentages of the active
/// output's usable area, or (0, 0) ("the client decides") with no output.
pub open spec fn spec_float_default_size(d: DeskV, pct: (i32, i32)) -> (i32, i32) {
    if d.outputs.len() == 0 {
        (0, 0)
    } else {
        let u = d.outputs[spec_active_output(d)].usable;
        ((u.w * pct.0 / 100) as i32, (u.h * pct.1 / 100) as i32)
    }
}

/// Where a floating window of size `width`x`height` goes: centred in the
/// active output's usable area, its size capped to that area and its top-left
/// corner kept inside it.
pub open spec fn floating_rect(u: Rect, width: i32, height: i32) -> Rect {
    let w = if width <= u.w { width } else { u.w };
    let h = if height <= u.h { height } else { u.h };
    let x = u.x + (u.w - w) / 2;
    let y = u.y + (u.h - h) / 2;
    Rect {
        x: (if x >= u.x { x } else { u.x as int }) as i32,
        y: (if y >= u.y { y } else { u.y as int }) as i32,
        w,
        h,
    }
}

/// `place_floating`: with an output, window `i` of workspace `w` gets its
/// centred rect and is placed there.
#[verifier::opaque]
pub open spec fn spec_place_floating(d: DeskV, w: int, i: int, width: i32, height: i32) -> (
    DeskV,
    Seq<EffectV>,
) {
    if d.outputs.len() == 0 {
        (d, Seq::empty())
    } else {
        let win = d.workspaces[w].windows[i];
        let r = floating_rect(d.outputs[spec_active_output(d)].usable, width, height);
        (with_win(d, w, i, Win { rect: r, ..win }), seq![EffectV::Place(win.id, r)])
    }
}

/// `set_fullscreen` on window `i` of workspace `w`.
#[verifier::opaque]
pub open spec fn spec_set_fullscreen(d: DeskV, w: int, i: int, on: bool) -> (DeskV, Seq<EffectV>) {
    let win = d.workspaces[w].windows[i];
    if win.fullscreen == on {
        (d, seq![EffectV::SendFullscreen(win.id, on)])
    } else {
        let before = if on && !win.floating {
            seq![EffectV::TreeUntrack(w as usize, win.id)]
        } else {
            Seq::empty()
        };
        let after = if !on && !win.floating {
            seq![EffectV::TreeTrack(w as usize, win.id)]
        } else {
            Seq::empty()
        };
        let d1 = with_win(d, w, i, Win { fullscreen: on, ..win });
        let e1 = before + seq![EffectV::SendFullscreen(win.id, on)] + after + seq![EffectV::Refresh];
        if !on && win.floating {
            let (d2, e2) = spec_place_floating(d1, w, i, win.rect.w, win.rect.h);
            (d2, e1 + e2)
        } else {
            (d1, e1)
        }
    }
}

/// `set_solo` on window `i` of workspace `w`: only tiled windows go solo,
/// and a redundant flip does nothing.
pub open spec fn spec_set_solo(d: DeskV, w: int, i: int, on: bool) -> (DeskV, Seq<EffectV>) {
    let ws = d.workspaces[w];
    let win = ws.windows[i];
    if win.fullscreen || win.floating || on == (ws.solo == Some(win.id)) {
        (d, Seq::empty())
    } else {
        (
            with_ws(d, w, WorkspaceV { solo: if on { Some(win.id) } else { None }, ..ws }),
            seq![EffectV::Refresh],
        )
    }
}

/// `set_floating` on window `i` of workspace `w`, floating at `pct` of the
/// usable area when it starts to float.
pub open spec fn spec_set_floating(d: DeskV, w: int, i: int, on: bool, pct: (i32, i32)) -> (
    DeskV,
    Seq<EffectV>,
) {
    let ws = d.workspaces[w];
    let win = ws.windows[i];
    if win.floating == on {
        (d, Seq::empty())
    } else {
        let leaving = on && !win.fullscreen;
        let e0 = if leaving {
            seq![EffectV::TreeUntrack(w as usize, win.id)]
        } else {
            Seq::empty()
        };
        let solo = if leaving && ws.solo == Some(win.id) {
            None
        } else {
            ws.solo
        };
        let d1 = with_ws(
            d,
            w,
            WorkspaceV { windows: ws.windows.update(i, Win { floating: on, ..win }), solo, ..ws },
        );
        if on {
            let (fw, fh) = spec_float_default_size(d1, pct);
            let (d2, e2) = spec_place_floating(d1, w, i, fw, fh);
            (d2, e0 + seq![EffectV::SetTiledStates(win.id, false)] + e2 + seq![EffectV::Refresh])
        } else {
            let track = if !win.fullscreen {
                seq![EffectV::TreeTrack(w as usize, win.id)]
            } else {
                Seq::empty()
            };
            (d1, e0 + seq![EffectV::SetTiledStates(win.id, true)] + track + seq![EffectV::Refresh])
        }
    }
}

/// The number of tiled windows among the first `k` of `ws`.
pub open spec fn tiled_count(ws: Seq<Win>, k: int) -> int
    decreases k,
{
    if k <= 0 || k > ws.len() {
        0
    } else {
        tiled_count(ws, k - 1) + if ws[k - 1].tiled() {
            1int
        } else {
            0int
        }
    }
}

/// `move_to_workspace`: the active workspace's focused window leaves it for
/// the end of workspace `target`.
pub open spec fn spec_move_to_workspace(d: DeskV, target: int) -> (DeskV, Seq<EffectV>) {
    let c = spec_active_workspace(d);
    if d.outputs.len() == 0 || target < 0 || target >= WORKSPACE_COUNT || target == c
        || d.workspaces[c].windows.len() == 0 {
        (d, Seq::empty())
    } else {
        let ws = d.workspaces[c];
        let win = ws.windows[ws.focused as int];
        let rest = ws.windows.remove(ws.focused as int);
        let focused = if ws.focused >= rest.len() && rest.len() > 0 {
            (rest.len() - 1) as usize
        } else {
            ws.focused
        };
        let solo = if ws.solo == Some(win.id) {
            None
        } else {
            ws.solo
        };
        let d1 = with_ws(d, c, WorkspaceV { windows: rest, focused, solo, ..ws });
        let tw = d1.workspaces[target];
        let d2 = with_ws(d1, target, WorkspaceV { windows: tw.windows.push(win), ..tw });
        let e = if win.tiled() {
            seq![
                EffectV::TreeUntrack(c as usize, win.id),
                EffectV::TreeTrack(target as usize, win.id),
                EffectV::Refresh,
            ]
        } else {
            seq![EffectV::Refresh]
        };
        let (d3, f) = spec_focus_index(d2, focused as int);
        (
            d3,
            match f {
                Some(id) => e.push(EffectV::Focus(id)),
                None => e,
            },
        )
    }
}

/// Where a floating window dragged or nudged to `(x, y)` ends up: inside
/// the usable area of the output showing workspace `w`, unchanged when no
/// output shows it.
pub open spec fn spec_clamp_floating(d: DeskV, w: int, size: Rect, x: int, y: int) -> (int, int) {
    let shows = |o: OutputEntry| o.workspace == w;
    match first_where(d.outputs, shows) {
        None => (x, y),
        Some(o) => {
            let u = d.outputs[o].usable;
            let hx = if u.x + u.w - size.w >= u.x { u.x + u.w - size.w } else { u.x as int };
            let hy = if u.y + u.h - size.h >= u.y { u.y + u.h - size.h } else { u.y as int };
            (
                if x < u.x { u.x as int } else if x > hx { hx } else { x },
                if y < u.y { u.y as int } else if y > hy { hy } else { y },
            )
        },
    }
}

/// How far one nudge moves a floating window, in pixels.
pub const NUDGE_STEP: i32 = 50;

/// `set_keyboard_visible`: run the configured show or hide command and note
/// the keyboard's new state; without a command, only say so.
pub open spec fn spec_set_keyboard(
    d: DeskV,
    visible: bool,
    show_cmd: Option<Seq<char>>,
    hide_cmd: Option<Seq<char>>,
) -> (DeskV, Seq<EffectV>) {
    if d.keyboard_visible == visible {
        (d, Seq::empty())
    } else {
        let cmd = if visible {
            show_cmd
        } else {
            hide_cmd
        };
        match cmd {
            None => (d, seq![EffectV::NoKeyboardCommand(visible)]),
            Some(c) => (
                DeskV { keyboard_visible: visible, ..d },
                seq![EffectV::Spawn(c), EffectV::KeyboardShown(visible)],
            ),
        }
    }
}

/// The rects of a workspace's windows, in order.
pub open spec fn rects_of(ws: Seq<Win>) -> Seq<Rect> {
    ws.map_values(|w: Win| w.rect)
}

/// `nudge_floating`: window `i` of workspace `w` moves one step in `dir`,
/// clamped into the usable area of the output showing its workspace.
pub open spec fn spec_nudge(d: DeskV, w: int, i: int, dir: Direction) -> (DeskV, Seq<EffectV>) {
    let win = d.workspaces[w].windows[i];
    let r = win.rect;
    let (x, y) = match dir {
        Direction::Left => (r.x - NUDGE_STEP, r.y as int),
        Direction::Right => (r.x + NUDGE_STEP, r.y as int),
        Direction::Up => (r.x as int, r.y - NUDGE_STEP),
        Direction::Down => (r.x as int, r.y + NUDGE_STEP),
    };
    let (cx, cy) = spec_clamp_floating(d, w, r, x, y);
    let nr = Rect { x: cx as i32, y: cy as i32, ..r };
    (with_win(d, w, i, Win { rect: nr, ..win }), seq![EffectV::Place(win.id, nr)])
}

/// What an action does to the policy state, and what the shell must do for
/// it. `float_size`, `show_cmd` and `hide_cmd` are the configuration's floating size
/// and keyboard commands.
#[verifier::opaque]
pub open spec fn spec_dispatch(
    d: DeskV,
    a: ActionV,
    float_size: (i32, i32),
    show_cmd: Option<Seq<char>>,
    hide_cmd: Option<Seq<char>>,
) -> (DeskV, Seq<EffectV>) {
    let w = spec_active_workspace(d);
    let ws = d.workspaces[w];
    let n = if d.outputs.len() == 0 {
        0
    } else {
        ws.windows.len() as int
    };
    let f = ws.focused as int;
    let win = ws.windows[f];
    let none = (d, Seq::<EffectV>::empty());
    match a {
        ActionV::Spawn(c) => (d, seq![EffectV::Spawn(c)]),
        ActionV::Close => if n > 0 && f < n {
            (d, seq![EffectV::Close(win.id)])
        } else {
            none
        },
        ActionV::Quit => (d, seq![EffectV::Quit]),
        ActionV::FocusNext => if n > 0 {
            focus_effects(spec_focus_index(d, f + 1))
        } else {
            none
        },
        ActionV::FocusPrev => if n > 0 {
            focus_effects(spec_focus_index(d, if f == 0 { n - 1 } else { f - 1 }))
        } else {
            none
        },
        ActionV::MoveFocus(dir) => if n > 0 {
            match spec_neighbor(rects_of(ws.windows), f, dir) {
                Some(i) => focus_effects(spec_focus_index(d, i)),
                None => none,
            }
        } else {
            none
        },
        ActionV::MoveWindow(dir) => if n > 0 {
            if win.floating && !win.fullscreen {
                spec_nudge(d, w, f, dir)
            } else {
                match spec_neighbor(rects_of(ws.windows), f, dir) {
                    Some(i) => (
                        with_ws(
                            d,
                            w,
                            WorkspaceV {
                                windows: ws.windows.update(f, ws.windows[i]).update(i, win),
                                focused: i as usize,
                                ..ws
                            },
                        ),
                        seq![EffectV::Refresh],
                    ),
                    None => none,
                }
            }
        } else {
            none
        },
        ActionV::ResizeWindow(dir) => if n > 0 && win.tiled() {
            (
                d,
                seq![
                    EffectV::ResizeSplit(w as usize, tiled_count(ws.windows, f) as usize, dir),
                    EffectV::Refresh,
                ],
            )
        } else {
            none
        },
        ActionV::Fullscreen => if n > 0 {
            spec_set_fullscreen(d, w, f, !win.fullscreen)
        } else {
            none
        },
        ActionV::ToggleSolo => if n > 0 {
            spec_set_solo(d, w, f, ws.solo != Some(win.id))
        } else {
            none
        },
        ActionV::ToggleFloating => if n > 0 {
            spec_set_floating(d, w, f, !win.floating, float_size)
        } else {
            none
        },
        ActionV::Workspace(t) => spec_switch_workspace(d, t as int),
        ActionV::MoveToWorkspace(t) => spec_move_to_workspace(d, t as int),
        ActionV::MoveToWorkspaceNext => if n > 0 {
            spec_move_to_workspace(d, (w + 1) % 9)
        } else {
            none
        },
        ActionV::MoveToWorkspacePrevious => if n > 0 {
            spec_move_to_workspace(d, (w + 8) % 9)
        } else {
            none
        },
        ActionV::WorkspaceNext => if d.outputs.len() > 0 {
            spec_switch_workspace(d, (w + 1) % 9)
        } else {
            none
        },
        ActionV::WorkspacePrevious => if d.outputs.len() > 0 {
            spec_switch_workspace(d, (w + 8) % 9)
        } else {
            none
        },
        ActionV::KeyboardShow => spec_set_keyboard(d, true, show_cmd, hide_cmd),
        ActionV::KeyboardHide => spec_set_keyboard(d, false, show_cmd, hide_cmd),
        ActionV::KeyboardToggle => spec_set_keyboard(d, !d.keyboard_visible, show_cmd, hide_cmd),
        ActionV::Lua(id) => (d, seq![EffectV::CallFunction(id)]),
    }
}

/// A focus change and the focus effect it asks for, if any.
pub open spec fn focus_effects(r: (DeskV, Option<u64>)) -> (DeskV, Seq<EffectV>) {
    match r.1 {
        Some(id) => (r.0, seq![EffectV::Focus(id)]),
        None => (r.0, Seq::empty()),
    }
}

/// `map_window`: a window whose surface just mapped joins the active
/// workspace (floating if it asked to, or floats by nature), is placed or
/// given a leaf, re-tiled and focused, and goes fullscreen if it asked to
/// before mapping. With no output there is nowhere to put it.
pub open spec fn spec_map_window(
    d: DeskV,
    win: Win,
    floats_naturally: bool,
    natural_w: i32,
    natural_h: i32,
    wants_fullscreen: bool,
) -> (DeskV, Seq<EffectV>) {
    if d.outputs.len() == 0 {
        (d, Seq::empty())
    } else {
        let w = spec_active_workspace(d);
        let nw = Win { floating: win.floating || floats_naturally, ..win };
        let last = d.workspaces[w].windows.len() as int;
        let (d2, e2) = spec_map_add(d, w, nw, natural_w, natural_h);
        let (d3, e3) = focus_effects(spec_focus_index(d2, last));
        let e = e2 + seq![EffectV::Refresh] + e3;
        if wants_fullscreen {
            let (d4, e4) = spec_set_fullscreen(d3, w, last, true);
            (d4, e + e4)
        } else {
            (d3, e)
        }
    }
}

/// Window `nw` joins the end of workspace `w`, placed if it floats and
/// given a leaf otherwise.
pub open spec fn spec_map_add(d: DeskV, w: int, nw: Win, natural_w: i32, natural_h: i32) -> (
    DeskV,
    Seq<EffectV>,
) {
    let ws = d.workspaces[w];
    let last = ws.windows.len() as int;
    let d1 = with_ws(d, w, WorkspaceV { windows: ws.windows.push(nw), ..ws });
    if nw.floating {
        spec_place_floating(d1, w, last, natural_w, natural_h)
    } else {
        (d1, seq![EffectV::TreeTrack(w as usize, nw.id)])
    }
}

/// Placing a floating window changes nothing but that window's rect.
pub proof fn lemma_place_floating_frame(d: DeskV, w: int, i: int, width: i32, height: i32)
    requires
        0 <= w < d.workspaces.len(),
        0 <= i < d.workspaces[w].windows.len(),
    ensures
        ({
            let r = spec_place_floating(d, w, i, width, height).0;
            &&& r.outputs == d.outputs
            &&& r.pointer_x == d.pointer_x
            &&& r.pointer_y == d.pointer_y
            &&& r.workspaces.len() == d.workspaces.len()
            &&& r.workspaces[w].windows.len() == d.workspaces[w].windows.len()
            &&& r.workspaces[w].windows[i].id == d.workspaces[w].windows[i].id
        }),
{
    reveal(spec_place_floating);
}

/// The workspace holds a window with this id.
pub open spec fn holds_id(id: u64) -> spec_fn(WorkspaceV) -> bool {
    |ws: WorkspaceV| exists|i: int| 0 <= i < ws.windows.len() && #[trigger] ws.windows[i].id == id
}

/// The window has this id.
pub open spec fn has_id(id: u64) -> spec_fn(Win) -> bool {
    |x: Win| x.id == id
}

/// `unmap_window`: the window leaves the scene, any grab on it ends, it
/// leaves the first workspace holding it (its leaf and solo with it, focus
/// kept in range), everything is re-placed, and the active workspace's
/// focused window gets focus.
pub open spec fn spec_unmap_window(d: DeskV, id: u64) -> (DeskV, Seq<EffectV>) {
    let d1 = if d.grab_window == Some(id) {
        DeskV { grab: GrabMode::Inactive, grab_window: None, ..d }
    } else {
        d
    };
    let (d2, e1) = match first_where(d1.workspaces, holds_id(id)) {
        None => (d1, Seq::<EffectV>::empty()),
        Some(w) => {
            let ws = d1.workspaces[w];
            let p = first_where(ws.windows, has_id(id))->0;
            let win = ws.windows[p];
            let rest = ws.windows.remove(p);
            let focused = if ws.focused >= rest.len() && rest.len() > 0 {
                (rest.len() - 1) as usize
            } else {
                ws.focused
            };
            let solo = if ws.solo == Some(id) {
                None
            } else {
                ws.solo
            };
            (
                with_ws(d1, w, WorkspaceV { windows: rest, focused, solo, ..ws }),
                if win.tiled() {
                    seq![EffectV::TreeUntrack(w as usize, id)]
                } else {
                    Seq::empty()
                },
            )
        },
    };
    let e2 = seq![EffectV::Unmap(id)] + e1 + seq![EffectV::Refresh];
    if d2.outputs.len() > 0 && d2.workspaces[spec_active_workspace(d2)].windows.len() > 0 {
        let (d3, e3) = focus_effects(
            spec_focus_index(d2, d2.workspaces[spec_active_workspace(d2)].focused as int),
        );
        (d3, e2 + e3)
    } else {
        (d2, e2)
    }
}

/// Some output shows workspace `k`.
pub open spec fn shown(outs: Seq<OutputEntry>, k: int) -> bool {
    exists|o: int| 0 <= o < outs.len() && #[trigger] outs[o].workspace == k
}

/// The lowest-numbered workspace from `k` on that no output shows, or 0 when
/// every one is shown.
pub open spec fn first_free_from(outs: Seq<OutputEntry>, k: int) -> int
    decreases 9 - k,
{
    if k >= 9 || k < 0 {
        0
    } else if shown(outs, k) {
        first_free_from(outs, k + 1)
    } else {
        k
    }
}

/// An element satisfying `p` means `first_where` finds one.
pub proof fn lemma_first_where_none_means<T>(s: Seq<T>, p: spec_fn(T) -> bool, k: int)
    requires
        0 <= k < s.len(),
        p(s[k]),
    ensures
        first_where(s, p) is Some,
    decreases k,
{
    if forall|j: int| 0 <= j < k ==> !p(#[trigger] s[j]) {
        assert(is_first_where(s, p, k));
    } else {
        let j = choose|j: int| 0 <= j < k && !!p(#[trigger] s[j]);
        lemma_first_where_none_means(s, p, j);
    }
}

/// With an output, the active output is one of them.
pub proof fn lemma_active_output_in_range(d: DeskV)
    ensures
        d.outputs.len() > 0 ==> 0 <= spec_active_output(d) < d.outputs.len(),
        d.outputs.len() == 0 ==> spec_active_output(d) == 0,
{
    let p = under_pointer(d.pointer_x, d.pointer_y);
    if first_where(d.outputs, p) is Some {
        let i = choose|i: int| is_first_where(d.outputs, p, i);
        assert(is_first_where(d.outputs, p, i));
    }
}

/// Replacing a workspace by a well-formed one keeps the state well formed.
pub proof fn lemma_with_ws_wf(d: DeskV, w: int, ws: WorkspaceV)
    requires
        wf(d),
        0 <= w < WORKSPACE_COUNT,
        focus_ok(ws),
        forall|i: int| 0 <= i < ws.windows.len() ==> win_rect_ok((#[trigger] ws.windows[i]).rect),
    ensures
        wf(with_ws(d, w, ws)),
{
    let d2 = with_ws(d, w, ws);
    assert forall|k: int| 0 <= k < d2.workspaces.len() implies focus_ok(
        #[trigger] d2.workspaces[k],
    ) by {
        if k != w {
            assert(d2.workspaces[k] == d.workspaces[k]);
        }
    }
    assert forall|k: int, i: int|
        0 <= k < d2.workspaces.len() && 0 <= i < d2.workspaces[k].windows.len() implies win_rect_ok(
        (#[trigger] d2.workspaces[k].windows[i]).rect,
    ) by {
        if k != w {
            assert(d2.workspaces[k] == d.workspaces[k]);
        }
    }
}

/// Replacing a window by one with a small rect keeps the state well formed.
pub proof fn lemma_with_win_wf(d: DeskV, w: int, i: int, win: Win)
    requires
        wf(d),
        0 <= w < WORKSPACE_COUNT,
        0 <= i < d.workspaces[w].windows.len(),
        win_rect_ok(win.rect),
    ensures
        wf(with_win(d, w, i, win)),
{
    let ws = WorkspaceV { windows: d.workspaces[w].windows.update(i, win), ..d.workspaces[w] };
    assert forall|j: int| 0 <= j < ws.windows.len() implies win_rect_ok(
        (#[trigger] ws.windows[j]).rect,
    ) by {
        if j != i {
            assert(ws.windows[j] == d.workspaces[w].windows[j]);
        }
    }
    lemma_with_ws_wf(d, w, ws);
}

fn push_effect(v: &mut Vec<Effect>, e: Effect)
    ensures
        effects_view(final(v)@) == effects_view(old(v)@).push(e@),
{
    let ghost ev = e@;
    v.push(e);
    assert(effects_view(v@) =~= effects_view(old(v)@).push(ev));
}

pub(crate) fn append_effects(v: &mut Vec<Effect>, mut more: Vec<Effect>)
    ensures
        effects_view(final(v)@) == effects_view(old(v)@) + effects_view(more@),
{
    let ghost m = more@;
    v.append(&mut more);
    assert(effects_view(v@) =~= effects_view(old(v)@) + effects_view(m));
}

impl Desk {
    fn set_win(&mut self, w: usize, i: usize, win: Win)
        requires
            w < old(self)@.workspaces.len(),
            i < old(self)@.workspaces[w as int].windows.len(),
        ensures
            final(self)@ == with_win(old(self)@, w as int, i as int, win),
    {
        self.workspaces[w].windows.set(i, win);
        proof {
            let d = old(self)@;
            assert(self@.workspaces =~= with_win(d, w as int, i as int, win).workspaces);
        }
    }

    /// The configured default floating size (`pct`, percentages) of the
    /// active output's usable area; (0, 0) when there is no output yet.
    pub fn float_default_size(&self, pct: (i32, i32)) -> (r: (i32, i32))
        requires
            wf(self@),
            0 <= pct.0 <= 100,
            0 <= pct.1 <= 100,
        ensures
            r == spec_float_default_size(self@, pct),
    {
        if self.outputs.len() == 0 {
            return (0, 0);
        }
        let a = self.active_output();
        proof {
            lemma_active_output_in_range(self@);
        }
        let u = self.outputs[a].usable;
        let (pw, ph) = pct;
        assert(0 <= u.w * pw <= 0x100_0000 * 100) by (nonlinear_arith)
            requires
                0 <= u.w <= 0x100_0000,
                0 <= pw <= 100,
        ;
        assert(0 <= u.h * ph <= 0x100_0000 * 100) by (nonlinear_arith)
            requires
                0 <= u.h <= 0x100_0000,
                0 <= ph <= 100,
        ;
        (u.w * pw / 100, u.h * ph / 100)
    }

    /// Centre window `i` of workspace `w` (at `width`x`height`) in the active
    /// output's usable area, capping its size to that area, and place it.
    pub fn place_floating(&mut self, w: usize, i: usize, width: i32, height: i32) -> (r: Vec<Effect>)
        requires
            wf(old(self)@),
            w < WORKSPACE_COUNT,
            i < old(self)@.workspaces[w as int].windows.len(),
            0 <= width,
            0 <= height,
        ensures
            wf(final(self)@),
            final(self)@ == spec_place_floating(old(self)@, w as int, i as int, width, height).0,
            effects_view(r@) == spec_place_floating(old(self)@, w as int, i as int, width, height).1,
    {
        reveal(spec_place_floating);
        let mut effects: Vec<Effect> = Vec::new();
        if self.outputs.len() == 0 {
            proof {
                assert(effects_view(effects@) =~= Seq::<EffectV>::empty());
            }
            return effects;
        }
        let a = self.active_output();
        proof {
            lemma_active_output_in_range(self@);
        }
        let u = self.outputs[a].usable;
        let cw = if width <= u.w { width } else { u.w };
        let ch = if height <= u.h { height } else { u.h };
        let x = u.x + (u.w - cw) / 2;
        let y = u.y + (u.h - ch) / 2;
        let r = Rect { x: if x >= u.x { x } else { u.x }, y: if y >= u.y { y } else { u.y }, w: cw, h: ch };
        assert(r == floating_rect(u, width, height));
        let mut win = self.workspaces[w].windows[i];
        win.rect = r;
        let id = win.id;
        proof {
            lemma_with_win_wf(self@, w as int, i as int, win);
        }
        self.set_win(w, i, win);
        push_effect(&mut effects, Effect::Place(id, r));
        proof {
            assert(effects_view(effects@) =~= seq![EffectV::Place(id, r)]);
        }
        effects
    }

    /// Put window `i` of workspace `w` into or out of fullscreen. The client
    /// is told its state either way: every state request needs an answer.
    pub fn set_fullscreen(&mut self, w: usize, i: usize, on: bool) -> (r: Vec<Effect>)
        requires
            wf(old(self)@),
            w < WORKSPACE_COUNT,
            i < old(self)@.workspaces[w as int].windows.len(),
        ensures
            wf(final(self)@),
            final(self)@ == spec_set_fullscreen(old(self)@, w as int, i as int, on).0,
            effects_view(r@) == spec_set_fullscreen(old(self)@, w as int, i as int, on).1,
    {
        reveal(spec_set_fullscreen);
        let mut effects: Vec<Effect> = Vec::new();
        let win = self.workspaces[w].windows[i];
        if win.fullscreen == on {
            push_effect(&mut effects, Effect::SendFullscreen(win.id, on));
            proof {
                assert(effects_view(effects@) =~= seq![EffectV::SendFullscreen(win.id, on)]);
            }
            return effects;
        }
        if on && !win.floating {
            push_effect(&mut effects, Effect::TreeUntrack(w, win.id));
        }
        let mut nw = win;
        nw.fullscreen = on;
        proof {
            lemma_with_win_wf(self@, w as int, i as int, nw);
        }
        self.set_win(w, i, nw);
        push_effect(&mut effects, Effect::SendFullscreen(win.id, on));
        if !on && !win.floating {
            push_effect(&mut effects, Effect::TreeTrack(w, win.id));
        }
        push_effect(&mut effects, Effect::Refresh);
        let ghost e1 = effects_view(effects@);
        proof {
            let before = if on && !win.floating {
                seq![EffectV::TreeUntrack(w, win.id)]
            } else {
                Seq::empty()
            };
            let after = if !on && !win.floating {
                seq![EffectV::TreeTrack(w, win.id)]
            } else {
                Seq::empty()
            };
            assert(e1 =~= before + seq![EffectV::SendFullscreen(win.id, on)] + after + seq![
                EffectV::Refresh,
            ]);
        }
        if !on && win.floating {
            proof {
                assert(win == old(self)@.workspaces[w as int].windows[i as int]);
            }
            let more = self.place_floating(w, i, win.rect.w, win.rect.h);
            append_effects(&mut effects, more);
        }
        effects
    }

    /// Toggle window `i` of workspace `w` as the only visible window there.
    /// Only tiled windows go solo, and a redundant flip does nothing.
    pub fn set_solo(&mut self, w: usize, i: usize, on: bool) -> (r: Vec<Effect>)
        requires
            wf(old(self)@),
            w < WORKSPACE_COUNT,
            i < old(self)@.workspaces[w as int].windows.len(),
        ensures
            wf(final(self)@),
            final(self)@ == spec_set_solo(old(self)@, w as int, i as int, on).0,
            effects_view(r@) == spec_set_solo(old(self)@, w as int, i as int, on).1,
    {
        let mut effects: Vec<Effect> = Vec::new();
        let win = self.workspaces[w].windows[i];
        let is_solo = match self.workspaces[w].solo {
            Some(id) => id == win.id,
            None => false,
        };
        if win.fullscreen || win.floating || on == is_solo {
            proof {
                assert(effects_view(effects@) =~= Seq::<EffectV>::empty());
            }
            return effects;
        }
        let ghost d = self@;
        self.workspaces[w].solo = if on { Some(win.id) } else { None };
        proof {
            let ws = WorkspaceV { solo: if on { Some(win.id) } else { None }, ..d.workspaces[w as int] };
            assert(self@.workspaces =~= with_ws(d, w as int, ws).workspaces);
            lemma_with_ws_wf(d, w as int, ws);
        }
        push_effect(&mut effects, Effect::Refresh);
        proof {
            assert(effects_view(effects@) =~= seq![EffectV::Refresh]);
        }
        effects
    }

    /// Float or re-tile window `i` of workspace `w`. A window that starts to
    /// float leaves the split tree (and solo), and is centred at `pct` of the
    /// usable area; one that stops floating gets its tiled states and a leaf
    /// back.
    pub fn set_floating(&mut self, w: usize, i: usize, on: bool, pct: (i32, i32)) -> (r: Vec<Effect>)
        requires
            wf(old(self)@),
            w < WORKSPACE_COUNT,
            i < old(self)@.workspaces[w as int].windows.len(),
            0 <= pct.0 <= 100,
            0 <= pct.1 <= 100,
        ensures
            wf(final(self)@),
            final(self)@ == spec_set_floating(old(self)@, w as int, i as int, on, pct).0,
            effects_view(r@) == spec_set_floating(old(self)@, w as int, i as int, on, pct).1,
    {
        let mut effects: Vec<Effect> = Vec::new();
        let win = self.workspaces[w].windows[i];
        if win.floating == on {
            proof {
                assert(effects_view(effects@) =~= Seq::<EffectV>::empty());
            }
            return effects;
        }
        let ghost d = self@;
        let leaving = on && !win.fullscreen;
        if leaving {
            push_effect(&mut effects, Effect::TreeUntrack(w, win.id));
            let is_solo = match self.workspaces[w].solo {
                Some(id) => id == win.id,
                None => false,
            };
            if is_solo {
                self.workspaces[w].solo = None;
            }
        }
        let mut nw = win;
        nw.floating = on;
        self.workspaces[w].windows.set(i, nw);
        proof {
            let ws = d.workspaces[w as int];
            let solo = if leaving && ws.solo == Some(win.id) {
                None
            } else {
                ws.solo
            };
            let nws = WorkspaceV {
                windows: ws.windows.update(i as int, Win { floating: on, ..win }),
                solo,
                ..ws
            };
            assert(self@.workspaces =~= with_ws(d, w as int, nws).workspaces);
            assert forall|j: int| 0 <= j < nws.windows.len() implies win_rect_ok(
                (#[trigger] nws.windows[j]).rect,
            ) by {
                if j != i {
                    assert(nws.windows[j] == ws.windows[j]);
                }
            }
            lemma_with_ws_wf(d, w as int, nws);
        }
        let ghost e0 = effects_view(effects@);
        if on {
            push_effect(&mut effects, Effect::SetTiledStates(win.id, false));
            let (fw, fh) = self.float_default_size(pct);
            proof {
                lemma_active_output_in_range(self@);
                if self@.outputs.len() > 0 {
                    let u = self@.outputs[spec_active_output(self@)].usable;
                    assert(0 <= u.w * pct.0 <= 0x100_0000 * 100) by (nonlinear_arith)
                        requires
                            0 <= u.w <= 0x100_0000,
                            0 <= pct.0 <= 100,
                    ;
                    assert(0 <= u.h * pct.1 <= 0x100_0000 * 100) by (nonlinear_arith)
                        requires
                            0 <= u.h <= 0x100_0000,
                            0 <= pct.1 <= 100,
                    ;
                    assert(0 <= (u.w * pct.0) / 100);
                    assert(0 <= (u.h * pct.1) / 100);
                }
            }
            let more = self.place_floating(w, i, fw, fh);
            append_effects(&mut effects, more);
            push_effect(&mut effects, Effect::Refresh);
        } else {
            push_effect(&mut effects, Effect::SetTiledStates(win.id, true));
            let ghost e1 = effects_view(effects@);
            if !win.fullscreen {
                push_effect(&mut effects, Effect::TreeTrack(w, win.id));
            }
            push_effect(&mut effects, Effect::Refresh);
            proof {
                let track = if !win.fullscreen {
                    seq![EffectV::TreeTrack(w, win.id)]
                } else {
                    Seq::empty()
                };
                assert(effects_view(effects@) =~= e0 + seq![EffectV::SetTiledStates(win.id, true)]
                    + track + seq![EffectV::Refresh]);
            }
        }
        proof {
            let e00 = if leaving {
                seq![EffectV::TreeUntrack(w, win.id)]
            } else {
                Seq::empty()
            };
            assert(e0 =~= e00);
        }
        effects
    }

    /// Clamp a floating window's position into the usable area of the output
    /// showing workspace `w`; the position passes through when no output
    /// shows it.
    pub fn clamp_floating(&self, w: usize, size: Rect, x: i32, y: i32) -> (r: (i32, i32))
        requires
            wf(self@),
            size.w >= 0,
            size.h >= 0,
        ensures
            (r.0 as int, r.1 as int) == spec_clamp_floating(self@, w as int, size, x as int, y as int),
    {
        let ghost shows = |o: OutputEntry| o.workspace == w as int;
        let mut j: usize = 0;
        while j < self.outputs.len() && self.outputs[j].workspace != w
            invariant
                j <= self.outputs.len(),
                shows == (|o: OutputEntry| o.workspace == w as int),
                forall|k: int| 0 <= k < j ==> !shows(#[trigger] self@.outputs[k]),
            decreases self.outputs.len() - j,
        {
            j += 1;
        }
        if j == self.outputs.len() {
            proof {
                lemma_first_where_none(self@.outputs, shows);
            }
            return (x, y);
        }
        proof {
            assert(is_first_where(self@.outputs, shows, j as int));
            lemma_first_where_is(self@.outputs, shows, j as int);
        }
        let u = self.outputs[j].usable;
        let (ux, uy, uw, uh) = (u.x as i64, u.y as i64, u.w as i64, u.h as i64);
        let hx = if ux + uw - size.w as i64 >= ux { ux + uw - size.w as i64 } else { ux };
        let hy = if uy + uh - size.h as i64 >= uy { uy + uh - size.h as i64 } else { uy };
        let cx = if (x as i64) < ux { ux } else if x as i64 > hx { hx } else { x as i64 };
        let cy = if (y as i64) < uy { uy } else if y as i64 > hy { hy } else { y as i64 };
        (cx as i32, cy as i32)
    }

    /// Send the active workspace's focused window to the end of workspace
    /// `target`.
    pub fn move_to_workspace(&mut self, target: usize) -> (r: Vec<Effect>)
        requires
            wf(old(self)@),
        ensures
            wf(final(self)@),
            final(self)@ == spec_move_to_workspace(old(self)@, target as int).0,
            effects_view(r@) == spec_move_to_workspace(old(self)@, target as int).1,
    {
        let mut effects: Vec<Effect> = Vec::new();
        if self.outputs.len() == 0 || target >= WORKSPACE_COUNT {
            proof {
                assert(effects_view(effects@) =~= Seq::<EffectV>::empty());
            }
            return effects;
        }
        let c = self.active_workspace();
        if target == c || self.workspaces[c].windows.len() == 0 {
            proof {
                assert(effects_view(effects@) =~= Seq::<EffectV>::empty());
            }
            return effects;
        }
        let ghost d = self@;
        let f = self.workspaces[c].focused;
        proof {
            assert(focus_ok(d.workspaces[c as int]));
        }
        let win = self.workspaces[c].windows.remove(f);
        let len = self.workspaces[c].windows.len();
        if f >= len && len > 0 {
            self.workspaces[c].focused = len - 1;
        }
        let is_solo = match self.workspaces[c].solo {
            Some(id) => id == win.id,
            None => false,
        };
        if is_solo {
            self.workspaces[c].solo = None;
        }
        let ghost d1 = self@;
        proof {
            let ws = d.workspaces[c as int];
            let rest = ws.windows.remove(f as int);
            let focused = if ws.focused >= rest.len() && rest.len() > 0 {
                (rest.len() - 1) as usize
            } else {
                ws.focused
            };
            let solo = if ws.solo == Some(win.id) {
                None
            } else {
                ws.solo
            };
            let nws = WorkspaceV { windows: rest, focused, solo, ..ws };
            assert(d1.workspaces =~= with_ws(d, c as int, nws).workspaces);
            assert forall|j: int| 0 <= j < nws.windows.len() implies win_rect_ok(
                (#[trigger] nws.windows[j]).rect,
            ) by {
                if j < f {
                    assert(nws.windows[j] == ws.windows[j]);
                } else {
                    assert(nws.windows[j] == ws.windows[j + 1]);
                }
            }
            lemma_with_ws_wf(d, c as int, nws);
            assert(win == ws.windows[f as int]);
        }
        self.workspaces[target].windows.push(win);
        proof {
            assert(self.workspaces@[target as int].windows@.len() == self.workspaces@[target as int].windows.len());
            let tw = d1.workspaces[target as int];
            let nws = WorkspaceV { windows: tw.windows.push(win), ..tw };
            assert(self@.workspaces =~= with_ws(d1, target as int, nws).workspaces);
            assert forall|j: int| 0 <= j < nws.windows.len() implies win_rect_ok(
                (#[trigger] nws.windows[j]).rect,
            ) by {
                if j < tw.windows.len() {
                    assert(nws.windows[j] == tw.windows[j]);
                }
            }
            assert(focus_ok(tw));
            lemma_with_ws_wf(d1, target as int, nws);
        }
        if !win.floating && !win.fullscreen {
            push_effect(&mut effects, Effect::TreeUntrack(c, win.id));
            push_effect(&mut effects, Effect::TreeTrack(target, win.id));
        }
        push_effect(&mut effects, Effect::Refresh);
        let ghost e = effects_view(effects@);
        proof {
            if win.tiled() {
                assert(e =~= seq![
                    EffectV::TreeUntrack(c, win.id),
                    EffectV::TreeTrack(target, win.id),
                    EffectV::Refresh,
                ]);
            } else {
                assert(e =~= seq![EffectV::Refresh]);
            }
            assert(self@.outputs == d.outputs);
            assert(self@.pointer_x == d.pointer_x && self@.pointer_y == d.pointer_y);
        }
        let focused = self.workspaces[c].focused;
        match self.focus_index(focused) {
            Some(id) => {
                push_effect(&mut effects, Effect::Focus(id));
            },
            None => {},
        }
        effects
    }

    /// Focus window `idx` (wrapped) of the active workspace, as effects.
    fn focus_effect(&mut self, idx: usize) -> (r: Vec<Effect>)
        requires
            wf(old(self)@),
        ensures
            wf(final(self)@),
            final(self)@ == focus_effects(spec_focus_index(old(self)@, idx as int)).0,
            effects_view(r@) == focus_effects(spec_focus_index(old(self)@, idx as int)).1,
    {
        let mut effects: Vec<Effect> = Vec::new();
        match self.focus_index(idx) {
            Some(id) => {
                push_effect(&mut effects, Effect::Focus(id));
                proof {
                    assert(effects_view(effects@) =~= seq![EffectV::Focus(id)]);
                }
            },
            None => {
                proof {
                    assert(effects_view(effects@) =~= Seq::<EffectV>::empty());
                }
            },
        }
        effects
    }

    /// The rects of workspace `w`'s windows, in order.
    pub fn window_rects(&self, w: usize) -> (r: Vec<Rect>)
        requires
            wf(self@),
            w < WORKSPACE_COUNT,
        ensures
            r@ == rects_of(self@.workspaces[w as int].windows),
            forall|i: int| 0 <= i < r@.len() ==> small_rect(#[trigger] r@[i]),
    {
        let ghost ws = self@.workspaces[w as int].windows;
        let mut r: Vec<Rect> = Vec::new();
        let mut i: usize = 0;
        while i < self.workspaces[w].windows.len()
            invariant
                wf(self@),
                w < WORKSPACE_COUNT,
                ws == self@.workspaces[w as int].windows,
                i <= ws.len(),
                r@ == rects_of(ws.take(i as int)),
            decreases ws.len() - i,
        {
            r.push(self.workspaces[w].windows[i].rect);
            proof {
                assert(rects_of(ws.take(i + 1)) =~= rects_of(ws.take(i as int)).push(ws[i as int].rect));
            }
            i += 1;
        }
        proof {
            assert(ws.take(ws.len() as int) =~= ws);
            assert forall|i: int| 0 <= i < r@.len() implies small_rect(#[trigger] r@[i]) by {
                assert(r@[i] == ws[i].rect);
                assert(win_rect_ok(self@.workspaces[w as int].windows[i].rect));
            }
        }
        r
    }

    /// Move floating window `i` of the active workspace `w` one step in
    /// `dir`, kept within the usable area of its output.
    pub fn nudge_floating(&mut self, w: usize, i: usize, dir: Direction) -> (r: Vec<Effect>)
        requires
            wf(old(self)@),
            old(self)@.outputs.len() > 0,
            w == spec_active_workspace(old(self)@),
            i < old(self)@.workspaces[w as int].windows.len(),
        ensures
            wf(final(self)@),
            final(self)@ == spec_nudge(old(self)@, w as int, i as int, dir).0,
            effects_view(r@) == spec_nudge(old(self)@, w as int, i as int, dir).1,
    {
        let win = self.workspaces[w].windows[i];
        let r = win.rect;
        proof {
            assert(win_rect_ok(self@.workspaces[w as int].windows[i as int].rect));
        }
        let (x, y) = match dir {
            Direction::Left => (r.x - NUDGE_STEP, r.y),
            Direction::Right => (r.x + NUDGE_STEP, r.y),
            Direction::Up => (r.x, r.y - NUDGE_STEP),
            Direction::Down => (r.x, r.y + NUDGE_STEP),
        };
        let (cx, cy) = self.clamp_floating(w, r, x, y);
        proof {
            let d = self@;
            lemma_active_output_in_range(d);
            let a = spec_active_output(d);
            let shows = |o: OutputEntry| o.workspace == w as int;
            assert(shows(d.outputs[a]));
            if first_where(d.outputs, shows) is None {
                lemma_first_where_none_means(d.outputs, shows, a);
            }
            let o = first_where(d.outputs, shows)->0;
            let j = choose|j: int| is_first_where(d.outputs, shows, j);
            assert(is_first_where(d.outputs, shows, j));
            assert(sane_rect(d.outputs[j].usable));
        }
        let nr = Rect { x: cx, y: cy, w: r.w, h: r.h };
        let mut nw = win;
        nw.rect = nr;
        proof {
            lemma_with_win_wf(self@, w as int, i as int, nw);
        }
        self.set_win(w, i, nw);
        let mut effects: Vec<Effect> = Vec::new();
        push_effect(&mut effects, Effect::Place(win.id, nr));
        proof {
            assert(effects_view(effects@) =~= seq![EffectV::Place(win.id, nr)]);
        }
        effects
    }

    /// Show or hide the on-screen keyboard by running the configured command.
    pub fn set_keyboard_visible(
        &mut self,
        visible: bool,
        show_cmd: &Option<String>,
        hide_cmd: &Option<String>,
    ) -> (r: Vec<Effect>)
        requires
            wf(old(self)@),
        ensures
            wf(final(self)@),
            final(self)@ == spec_set_keyboard(
                old(self)@,
                visible,
                opt_string_view(*show_cmd),
                opt_string_view(*hide_cmd),
            ).0,
            effects_view(r@) == spec_set_keyboard(
                old(self)@,
                visible,
                opt_string_view(*show_cmd),
                opt_string_view(*hide_cmd),
            ).1,
    {
        let mut effects: Vec<Effect> = Vec::new();
        if self.keyboard_visible == visible {
            proof {
                assert(effects_view(effects@) =~= Seq::<EffectV>::empty());
            }
            return effects;
        }
        let cmd = if visible {
            show_cmd
        } else {
            hide_cmd
        };
        match cmd {
            None => {
                push_effect(&mut effects, Effect::NoKeyboardCommand(visible));
                proof {
                    assert(effects_view(effects@) =~= seq![EffectV::NoKeyboardCommand(visible)]);
                }
            },
            Some(c) => {
                push_effect(&mut effects, Effect::Spawn(c.clone()));
                self.keyboard_visible = visible;
                push_effect(&mut effects, Effect::KeyboardShown(visible));
                proof {
                    assert(effects_view(effects@) =~= seq![
                        EffectV::Spawn(c@),
                        EffectV::KeyboardShown(visible),
                    ]);
                    assert(self@.workspaces == old(self)@.workspaces);
                }
            },
        }
        effects
    }
}

/// Nine empty workspaces, no output, the pointer at the origin, the
/// keyboard hidden and no grab.
pub open spec fn fresh_desk(first_split_vertical: bool) -> DeskV {
    DeskV {
        workspaces: Seq::new(
            WORKSPACE_COUNT as nat,
            |w: int| WorkspaceV { windows: Seq::empty(), focused: 0, solo: None, first_split_vertical },
        ),
        outputs: Seq::empty(),
        pointer_x: 0,
        pointer_y: 0,
        keyboard_visible: false,
        grab: GrabMode::Inactive,
        grab_window: None,
    }
}

impl Desk {
    /// A desk with nine empty workspaces and no output.
    pub fn new(first_split_vertical: bool) -> (r: Desk)
        ensures
            r@ == fresh_desk(first_split_vertical),
            wf(r@),
            outputs_distinct(r@),
            r@.outputs.len() == 0,
            forall|w: int|
                0 <= w < WORKSPACE_COUNT ==> (#[trigger] r@.workspaces[w]).windows.len() == 0,
    {
        let mut workspaces: Vec<Workspace> = Vec::new();
        let mut i: usize = 0;
        while i < WORKSPACE_COUNT
            invariant
                i <= WORKSPACE_COUNT,
                workspaces@.len() == i,
                forall|w: int|
                    0 <= w < i ==> (#[trigger] workspaces@[w])@ == (WorkspaceV {
                        windows: Seq::empty(),
                        focused: 0,
                        solo: None,
                        first_split_vertical,
                    }),
            decreases WORKSPACE_COUNT - i,
        {
            workspaces.push(Workspace::new(first_split_vertical));
            i += 1;
        }
        let r = Desk {
            workspaces,
            outputs: Vec::new(),
            pointer_x: 0,
            pointer_y: 0,
            keyboard_visible: false,
            grab: GrabMode::Inactive,
            grab_window: None,
        };
        proof {
            assert forall|w: int| 0 <= w < r@.workspaces.len() implies focus_ok(
                #[trigger] r@.workspaces[w],
            ) by {
                assert(r@.workspaces[w] == r.workspaces@[w]@);
            }
            assert forall|w: int| 0 <= w < WORKSPACE_COUNT implies (
            #[trigger] r@.workspaces[w]).windows.len() == 0 by {
                assert(r@.workspaces[w] == r.workspaces@[w]@);
            }
            assert forall|w: int| 0 <= w < WORKSPACE_COUNT implies #[trigger] r@.workspaces[w]
                == fresh_desk(first_split_vertical).workspaces[w] by {
                assert(r@.workspaces[w] == r.workspaces@[w]@);
            }
            assert(r@.workspaces =~= fresh_desk(first_split_vertical).workspaces);
            assert(r@.outputs =~= Seq::<OutputEntry>::empty());
        }
        r
    }

    /// The output the pointer is on (the target for new windows and
    /// workspace switches), or output 0 if it is on none.
    pub fn active_output(&self) -> (r: usize)
        ensures
            r == spec_active_output(self@),
    {
        let ghost p = under_pointer(self.pointer_x, self.pointer_y);
        let mut i: usize = 0;
        while i < self.outputs.len()
            invariant
                i <= self.outputs.len(),
                p == under_pointer(self.pointer_x, self.pointer_y),
                forall|k: int| 0 <= k < i ==> !p(#[trigger] self@.outputs[k]),
            decreases self.outputs.len() - i,
        {
            if self.outputs[i].geometry.contains(self.pointer_x, self.pointer_y) {
                proof {
                    assert(is_first_where(self@.outputs, p, i as int));
                    lemma_first_where_is(self@.outputs, p, i as int);
                }
                return i;
            }
            i += 1;
        }
        proof {
            lemma_first_where_none(self@.outputs, p);
        }
        0
    }

    /// The workspace currently shown on the active output.
    pub fn active_workspace(&self) -> (r: usize)
        requires
            wf(self@),
        ensures
            r == spec_active_workspace(self@),
            r < WORKSPACE_COUNT,
    {
        if self.outputs.len() == 0 {
            return 0;
        }
        let a = self.active_output();
        proof {
            if first_where(self@.outputs, under_pointer(self.pointer_x, self.pointer_y)) is Some {
                let i = choose|i: int|
                    is_first_where(self@.outputs, under_pointer(self.pointer_x, self.pointer_y), i);
                assert(0 <= i < self@.outputs.len());
            }
            assert(0 <= a < self@.outputs.len());
            assert(self@.outputs[a as int].workspace < WORKSPACE_COUNT);
        }
        self.outputs[a].workspace
    }

    /// Focus window `idx` (wrapped) of the active workspace; the window to
    /// give keyboard focus to, if there is one.
    pub fn focus_index(&mut self, idx: usize) -> (r: Option<u64>)
        requires
            wf(old(self)@),
        ensures
            wf(final(self)@),
            final(self)@ == spec_focus_index(old(self)@, idx as int).0,
            r == spec_focus_index(old(self)@, idx as int).1,
    {
        if self.outputs.len() == 0 {
            return None;
        }
        let w = self.active_workspace();
        let len = self.workspaces[w].windows.len();
        if len == 0 {
            return None;
        }
        let i = idx % len;
        self.workspaces[w].focused = i;
        let id = self.workspaces[w].windows[i].id;
        proof {
            let d = old(self)@;
            assert(self@.workspaces =~= d.workspaces.update(
                w as int,
                WorkspaceV { focused: i, ..d.workspaces[w as int] },
            ));
            assert forall|k: int| 0 <= k < self@.workspaces.len() implies focus_ok(
                #[trigger] self@.workspaces[k],
            ) by {
                if k != w {
                    assert(self@.workspaces[k] == d.workspaces[k]);
                }
            }
        }
        Some(id)
    }

    /// Show workspace `target` on the active output. If another output
    /// already shows it, the two outputs swap workspaces, so no workspace is
    /// ever on two monitors.
    pub fn switch_workspace(&mut self, target: usize) -> (r: Vec<Effect>)
        requires
            wf(old(self)@),
        ensures
            wf(final(self)@),
            final(self)@ == spec_switch_workspace(old(self)@, target as int).0,
            effects_view(r@) == spec_switch_workspace(old(self)@, target as int).1,
    {
        let mut effects: Vec<Effect> = Vec::new();
        if self.outputs.len() == 0 || target >= WORKSPACE_COUNT {
            proof {
                assert(effects_view(effects@) =~= Seq::<EffectV>::empty());
            }
            return effects;
        }
        let a = self.active_output();
        let current = self.outputs[a].workspace;
        proof {
            if first_where(self@.outputs, under_pointer(self.pointer_x, self.pointer_y)) is Some {
                let i = choose|i: int|
                    is_first_where(self@.outputs, under_pointer(self.pointer_x, self.pointer_y), i);
                assert(0 <= i < self@.outputs.len());
            }
        }
        if target == current {
            proof {
                assert(effects_view(effects@) =~= Seq::<EffectV>::empty());
            }
            return effects;
        }
        let ghost d = self@;
        let ghost shows = |o: OutputEntry| o.workspace == target as int;
        let mut j: usize = 0;
        while j < self.outputs.len() && self.outputs[j].workspace != target
            invariant
                j <= self.outputs.len(),
                self@ == d,
                shows == (|o: OutputEntry| o.workspace == target as int),
                forall|k: int| 0 <= k < j ==> !shows(#[trigger] self@.outputs[k]),
            decreases self.outputs.len() - j,
        {
            j += 1;
        }
        if j < self.outputs.len() {
            proof {
                assert(is_first_where(d.outputs, shows, j as int));
                lemma_first_where_is(d.outputs, shows, j as int);
            }
            let mut o = self.outputs[j];
            o.workspace = current;
            self.outputs.set(j, o);
        } else {
            proof {
                lemma_first_where_none(d.outputs, shows);
            }
        }
        let mut oa = self.outputs[a];
        oa.workspace = target;
        self.outputs.set(a, oa);
        proof {
            assert(self@.outputs =~= spec_switch_outputs(d, target as int));
            assert forall|o: int| 0 <= o < self@.outputs.len() implies (
            #[trigger] self@.outputs[o]).workspace < WORKSPACE_COUNT && sane_rect(
                self@.outputs[o].geometry,
            ) && sane_rect(self@.outputs[o].usable) by {
                assert(d.outputs[o].workspace < WORKSPACE_COUNT);
            }
        }
        effects.push(Effect::Refresh);
        let focused = self.workspaces[target].focused;
        let f = self.focus_index(focused);
        match f {
            Some(id) => {
                effects.push(Effect::Focus(id));
                proof {
                    assert(effects_view(effects@) =~= seq![EffectV::Refresh, EffectV::Focus(id)]);
                }
            },
            None => {
                proof {
                    assert(effects_view(effects@) =~= seq![EffectV::Refresh]);
                }
            },
        }
        effects
    }
}

impl Desk {
    /// Carry out an action's policy: change the state and say what the shell
    /// must do. `cfg` gives the floating size and the keyboard commands.
    pub fn dispatch_action(&mut self, action: &Action, cfg: &Config) -> (r: Vec<Effect>)
        requires
            wf(old(self)@),
            0 <= cfg.float_size.0 <= 100,
            0 <= cfg.float_size.1 <= 100,
        ensures
            wf(final(self)@),
            final(self)@ == spec_dispatch(
                old(self)@,
                action@,
                cfg.float_size,
                opt_string_view(cfg.virtual_keyboard_show),
                opt_string_view(cfg.virtual_keyboard_hide),
            ).0,
            effects_view(r@) == spec_dispatch(
                old(self)@,
                action@,
                cfg.float_size,
                opt_string_view(cfg.virtual_keyboard_show),
                opt_string_view(cfg.virtual_keyboard_hide),
            ).1,
    {
        let ghost fs = cfg.float_size;
        let ghost sh = opt_string_view(cfg.virtual_keyboard_show);
        let ghost hi = opt_string_view(cfg.virtual_keyboard_hide);
        match action {
            Action::Spawn(_) | Action::Close | Action::Quit | Action::Lua(_)
            | Action::ResizeWindow(_) => self.act_plain(action, cfg),
            Action::FocusNext | Action::FocusPrev | Action::MoveFocus(_) => self.act_focus(
                action,
                cfg,
            ),
            Action::MoveWindow(_) | Action::Fullscreen | Action::ToggleSolo
            | Action::ToggleFloating => self.act_window(action, cfg),
            Action::Workspace(_) | Action::MoveToWorkspace(_) | Action::MoveToWorkspaceNext
            | Action::MoveToWorkspacePrevious | Action::WorkspaceNext
            | Action::WorkspacePrevious => self.act_workspace(action, cfg),
            Action::KeyboardShow | Action::KeyboardHide | Action::KeyboardToggle => self.act_keyboard(
                action,
                cfg,
            ),
        }
    }

    /// The actions that change no state.
    fn act_plain(&mut self, action: &Action, cfg: &Config) -> (r: Vec<Effect>)
        requires
            wf(old(self)@),
            action is Spawn || action is Close || action is Quit || action is Lua
                || action is ResizeWindow,
        ensures
            wf(final(self)@),
            (final(self)@, effects_view(r@)) == spec_dispatch(
                old(self)@,
                action@,
                cfg.float_size,
                opt_string_view(cfg.virtual_keyboard_show),
                opt_string_view(cfg.virtual_keyboard_hide),
            ),
    {
        reveal(spec_dispatch);
        let w = self.active_workspace();
        let n = if self.outputs.len() == 0 {
            0
        } else {
            self.workspaces[w].windows.len()
        };
        let f = self.workspaces[w].focused;
        proof {
            assert(focus_ok(self@.workspaces[w as int]));
        }
        let mut effects: Vec<Effect> = Vec::new();
        match action {
            Action::Spawn(c) => {
                push_effect(&mut effects, Effect::Spawn(c.clone()));
                proof {
                    assert(effects_view(effects@) =~= seq![EffectV::Spawn(c@)]);
                }
            },
            Action::Close => {
                if n > 0 && f < n {
                    push_effect(&mut effects, Effect::Close(self.workspaces[w].windows[f].id));
                    proof {
                        assert(effects_view(effects@) =~= seq![
                            EffectV::Close(self@.workspaces[w as int].windows[f as int].id),
                        ]);
                    }
                } else {
                    proof {
                        assert(effects_view(effects@) =~= Seq::<EffectV>::empty());
                    }
                }
            },
            Action::Quit => {
                push_effect(&mut effects, Effect::Quit);
                proof {
                    assert(effects_view(effects@) =~= seq![EffectV::Quit]);
                }
            },
            Action::Lua(id) => {
                push_effect(&mut effects, Effect::CallFunction(*id));
                proof {
                    assert(effects_view(effects@) =~= seq![EffectV::CallFunction(*id)]);
                }
            },
            Action::ResizeWindow(dir) => {
                if n > 0 && !self.workspaces[w].windows[f].floating
                    && !self.workspaces[w].windows[f].fullscreen {
                    let k = tiled_position(&self.workspaces[w].windows, f);
                    push_effect(&mut effects, Effect::ResizeSplit(w, k, *dir));
                    push_effect(&mut effects, Effect::Refresh);
                    proof {
                        assert(effects_view(effects@) =~= seq![
                            EffectV::ResizeSplit(w, k, *dir),
                            EffectV::Refresh,
                        ]);
                    }
                } else {
                    proof {
                        assert(effects_view(effects@) =~= Seq::<EffectV>::empty());
                    }
                }
            },
            _ => {},
        }
        effects
    }

    /// The focus actions.
    fn act_focus(&mut self, action: &Action, cfg: &Config) -> (r: Vec<Effect>)
        requires
            wf(old(self)@),
            action is FocusNext || action is FocusPrev || action is MoveFocus,
        ensures
            wf(final(self)@),
            (final(self)@, effects_view(r@)) == spec_dispatch(
                old(self)@,
                action@,
                cfg.float_size,
                opt_string_view(cfg.virtual_keyboard_show),
                opt_string_view(cfg.virtual_keyboard_hide),
            ),
    {
        reveal(spec_dispatch);
        let w = self.active_workspace();
        let n = if self.outputs.len() == 0 {
            0
        } else {
            self.workspaces[w].windows.len()
        };
        let f = self.workspaces[w].focused;
        proof {
            assert(focus_ok(self@.workspaces[w as int]));
        }
        let effects: Vec<Effect> = Vec::new();
        proof {
            assert(effects_view(effects@) =~= Seq::<EffectV>::empty());
        }
        if n == 0 {
            return effects;
        }
        match action {
            Action::FocusNext => self.focus_effect(f + 1),
            Action::FocusPrev => {
                let idx = if f == 0 {
                    n - 1
                } else {
                    f - 1
                };
                self.focus_effect(idx)
            },
            Action::MoveFocus(dir) => {
                let rects = self.window_rects(w);
                proof {
                    lemma_small_rects_fit(rects@, f as int, *dir);
                }
                match neighbor_of_rects(&rects, f, *dir) {
                    Some(i) => self.focus_effect(i),
                    None => effects,
                }
            },
            _ => effects,
        }
    }

    /// The actions on the focused window.
    fn act_window(&mut self, action: &Action, cfg: &Config) -> (r: Vec<Effect>)
        requires
            wf(old(self)@),
            0 <= cfg.float_size.0 <= 100,
            0 <= cfg.float_size.1 <= 100,
            action is MoveWindow || action is Fullscreen || action is ToggleSolo
                || action is ToggleFloating,
        ensures
            wf(final(self)@),
            (final(self)@, effects_view(r@)) == spec_dispatch(
                old(self)@,
                action@,
                cfg.float_size,
                opt_string_view(cfg.virtual_keyboard_show),
                opt_string_view(cfg.virtual_keyboard_hide),
            ),
    {
        reveal(spec_dispatch);
        let w = self.active_workspace();
        let n = if self.outputs.len() == 0 {
            0
        } else {
            self.workspaces[w].windows.len()
        };
        let f = self.workspaces[w].focused;
        proof {
            assert(focus_ok(self@.workspaces[w as int]));
        }
        let effects: Vec<Effect> = Vec::new();
        proof {
            assert(effects_view(effects@) =~= Seq::<EffectV>::empty());
        }
        if n == 0 {
            return effects;
        }
        match action {
            Action::MoveWindow(dir) => self.move_window(w, f, *dir),
            Action::Fullscreen => {
                let on = !self.workspaces[w].windows[f].fullscreen;
                self.set_fullscreen(w, f, on)
            },
            Action::ToggleSolo => {
                let id = self.workspaces[w].windows[f].id;
                let on = match self.workspaces[w].solo {
                    Some(s) => s != id,
                    None => true,
                };
                self.set_solo(w, f, on)
            },
            Action::ToggleFloating => {
                let on = !self.workspaces[w].windows[f].floating;
                self.set_floating(w, f, on, cfg.float_size)
            },
            _ => effects,
        }
    }

    /// The workspace actions.
    fn act_workspace(&mut self, action: &Action, cfg: &Config) -> (r: Vec<Effect>)
        requires
            wf(old(self)@),
            action is Workspace || action is MoveToWorkspace || action is MoveToWorkspaceNext
                || action is MoveToWorkspacePrevious || action is WorkspaceNext
                || action is WorkspacePrevious,
        ensures
            wf(final(self)@),
            (final(self)@, effects_view(r@)) == spec_dispatch(
                old(self)@,
                action@,
                cfg.float_size,
                opt_string_view(cfg.virtual_keyboard_show),
                opt_string_view(cfg.virtual_keyboard_hide),
            ),
    {
        reveal(spec_dispatch);
        let w = self.active_workspace();
        let n = if self.outputs.len() == 0 {
            0
        } else {
            self.workspaces[w].windows.len()
        };
        let effects: Vec<Effect> = Vec::new();
        proof {
            assert(effects_view(effects@) =~= Seq::<EffectV>::empty());
        }
        match action {
            Action::Workspace(t) => self.switch_workspace(*t),
            Action::MoveToWorkspace(t) => self.move_to_workspace(*t),
            Action::MoveToWorkspaceNext => if n > 0 {
                self.move_to_workspace((w + 1) % 9)
            } else {
                effects
            },
            Action::MoveToWorkspacePrevious => if n > 0 {
                self.move_to_workspace((w + 8) % 9)
            } else {
                effects
            },
            Action::WorkspaceNext => if self.outputs.len() > 0 {
                self.switch_workspace((w + 1) % 9)
            } else {
                effects
            },
            Action::WorkspacePrevious => if self.outputs.len() > 0 {
                self.switch_workspace((w + 8) % 9)
            } else {
                effects
            },
            _ => effects,
        }
    }

    /// The on-screen keyboard actions.
    fn act_keyboard(&mut self, action: &Action, cfg: &Config) -> (r: Vec<Effect>)
        requires
            wf(old(self)@),
            action is KeyboardShow || action is KeyboardHide || action is KeyboardToggle,
        ensures
            wf(final(self)@),
            (final(self)@, effects_view(r@)) == spec_dispatch(
                old(self)@,
                action@,
                cfg.float_size,
                opt_string_view(cfg.virtual_keyboard_show),
                opt_string_view(cfg.virtual_keyboard_hide),
            ),
    {
        reveal(spec_dispatch);
        let visible = match action {
            Action::KeyboardShow => true,
            Action::KeyboardHide => false,
            _ => !self.keyboard_visible,
        };
        self.set_keyboard_visible(visible, &cfg.virtual_keyboard_show, &cfg.virtual_keyboard_hide)
    }

    /// Swap the focused window of the active workspace `w` with its spatial
    /// neighbour in `dir`, or nudge it when it floats.
    fn move_window(&mut self, w: usize, f: usize, dir: Direction) -> (r: Vec<Effect>)
        requires
            wf(old(self)@),
            old(self)@.outputs.len() > 0,
            w == spec_active_workspace(old(self)@),
            f == old(self)@.workspaces[w as int].focused,
            f < old(self)@.workspaces[w as int].windows.len(),
        ensures
            wf(final(self)@),
            (final(self)@, effects_view(r@)) == spec_dispatch(
                old(self)@,
                ActionV::MoveWindow(dir),
                (0, 0),
                None,
                None,
            ),
    {
        reveal(spec_dispatch);
        let mut effects: Vec<Effect> = Vec::new();
        let win = self.workspaces[w].windows[f];
        if win.floating && !win.fullscreen {
            return self.nudge_floating(w, f, dir);
        }
        let rects = self.window_rects(w);
        proof {
            lemma_small_rects_fit(rects@, f as int, dir);
        }
        match neighbor_of_rects(&rects, f, dir) {
            Some(i) => {
                let ghost d = self@;
                let other = self.workspaces[w].windows[i];
                self.workspaces[w].windows.set(f, other);
                self.workspaces[w].windows.set(i, win);
                self.workspaces[w].focused = i;
                proof {
                    let ws = d.workspaces[w as int];
                    let nws = WorkspaceV {
                        windows: ws.windows.update(f as int, ws.windows[i as int]).update(i as int, win),
                        focused: i,
                        ..ws
                    };
                    assert(self@.workspaces =~= with_ws(d, w as int, nws).workspaces);
                    assert forall|j: int| 0 <= j < nws.windows.len() implies win_rect_ok(
                        (#[trigger] nws.windows[j]).rect,
                    ) by {
                        if j != i && j != f {
                            assert(nws.windows[j] == ws.windows[j]);
                        }
                        assert(win_rect_ok(ws.windows[i as int].rect));
                        assert(win_rect_ok(ws.windows[f as int].rect));
                    }
                    lemma_with_ws_wf(d, w as int, nws);
                }
                push_effect(&mut effects, Effect::Refresh);
                proof {
                    assert(effects_view(effects@) =~= seq![EffectV::Refresh]);
                    let expected = spec_dispatch(d, ActionV::MoveWindow(dir), (0, 0), None, None);
                    assert(spec_neighbor(rects@, f as int, dir) == Some(i as int));
                    assert(expected.1 == seq![EffectV::Refresh]);
                    assert(self@ == expected.0);
                }
                effects
            },
            None => {
                proof {
                    assert(effects_view(effects@) =~= Seq::<EffectV>::empty());
                }
                effects
            },
        }
    }
}

/// Window `f`'s position among the tiled windows of `ws`: its leaf in the
/// split tree.
fn tiled_position(ws: &Vec<Win>, f: usize) -> (r: usize)
    requires
        f < ws.len(),
    ensures
        r == tiled_count(ws@, f as int),
{
    let mut k: usize = 0;
    let mut c: usize = 0;
    while k < f
        invariant
            k <= f < ws.len(),
            c == tiled_count(ws@, k as int),
            c <= k,
        decreases f - k,
    {
        if !ws[k].floating && !ws[k].fullscreen {
            c += 1;
        }
        k += 1;
    }
    c
}

impl Desk {
    /// A window's surface mapped: add it to the active workspace, place or
    /// tile it and focus it; `floats_naturally` (a dialog or a fixed-size
    /// window), its natural size and whether it asked for fullscreen come
    /// from the client.
    pub fn map_window(
        &mut self,
        win: Win,
        floats_naturally: bool,
        natural_w: i32,
        natural_h: i32,
        wants_fullscreen: bool,
    ) -> (r: Vec<Effect>)
        requires
            wf(old(self)@),
            win_rect_ok(win.rect),
            0 <= natural_w,
            0 <= natural_h,
        ensures
            wf(final(self)@),
            final(self)@ == spec_map_window(
                old(self)@,
                win,
                floats_naturally,
                natural_w,
                natural_h,
                wants_fullscreen,
            ).0,
            effects_view(r@) == spec_map_window(
                old(self)@,
                win,
                floats_naturally,
                natural_w,
                natural_h,
                wants_fullscreen,
            ).1,
    {
        let mut effects: Vec<Effect> = Vec::new();
        if self.outputs.len() == 0 {
            proof {
                assert(effects_view(effects@) =~= Seq::<EffectV>::empty());
            }
            return effects;
        }
        let w = self.active_workspace();
        let mut nw = win;
        nw.floating = win.floating || floats_naturally;
        let last = self.workspaces[w].windows.len();
        let more = self.map_add(w, nw, natural_w, natural_h);
        append_effects(&mut effects, more);
        push_effect(&mut effects, Effect::Refresh);
        let more = self.focus_effect(last);
        append_effects(&mut effects, more);
        if wants_fullscreen {
            let more = self.set_fullscreen(w, last, true);
            append_effects(&mut effects, more);
        }
        effects
    }

    fn map_add(&mut self, w: usize, nw: Win, natural_w: i32, natural_h: i32) -> (r: Vec<Effect>)
        requires
            wf(old(self)@),
            w < WORKSPACE_COUNT,
            win_rect_ok(nw.rect),
            0 <= natural_w,
            0 <= natural_h,
        ensures
            wf(final(self)@),
            (final(self)@, effects_view(r@)) == spec_map_add(old(self)@, w as int, nw, natural_w, natural_h),
            final(self)@.workspaces[w as int].windows.len() == old(self)@.workspaces[w as int].windows.len() + 1,
            final(self)@.outputs == old(self)@.outputs,
            final(self)@.pointer_x == old(self)@.pointer_x,
            final(self)@.pointer_y == old(self)@.pointer_y,
    {
        let mut effects: Vec<Effect> = Vec::new();
        let ghost d = self@;
        let last = self.workspaces[w].windows.len();
        self.workspaces[w].windows.push(nw);
        proof {
            assert(self.workspaces@[w as int].windows@.len() == self.workspaces@[w as int].windows.len());
            let ws = d.workspaces[w as int];
            let nws = WorkspaceV { windows: ws.windows.push(nw), ..ws };
            assert(self@.workspaces =~= with_ws(d, w as int, nws).workspaces);
            assert forall|j: int| 0 <= j < nws.windows.len() implies win_rect_ok(
                (#[trigger] nws.windows[j]).rect,
            ) by {
                if j < ws.windows.len() {
                    assert(nws.windows[j] == ws.windows[j]);
                }
            }
            assert(focus_ok(ws));
            lemma_with_ws_wf(d, w as int, nws);
        }
        if nw.floating {
            proof {
                lemma_place_floating_frame(self@, w as int, last as int, natural_w, natural_h);
            }
            let more = self.place_floating(w, last, natural_w, natural_h);
            append_effects(&mut effects, more);
            proof {
                assert(effects_view(effects@) =~= effects_view(more@));
            }
        } else {
            push_effect(&mut effects, Effect::TreeTrack(w, nw.id));
            proof {
                assert(effects_view(effects@) =~= seq![EffectV::TreeTrack(w, nw.id)]);
            }
        }
        effects
    }

    /// Where the window with this id is: the first workspace holding it
    /// and its first position there.
    pub fn find_window(&self, id: u64) -> (r: Option<(usize, usize)>)
        requires
            wf(self@),
        ensures
            r is None ==> first_where(self@.workspaces, holds_id(id)) is None,
            r matches Some((w, p)) ==> first_where(self@.workspaces, holds_id(id)) == Some(w as int)
                && first_where(self@.workspaces[w as int].windows, has_id(id)) == Some(p as int)
                && w < WORKSPACE_COUNT && p < self@.workspaces[w as int].windows.len(),
    {
        let ghost d1 = self@;
        let ghost hp = holds_id(id);
        let ghost ip = has_id(id);
        let mut w: usize = 0;
        while w < self.workspaces.len()
            invariant
                self@ == d1,
                wf(d1),
                w <= self.workspaces.len(),
                hp == holds_id(id),
                ip == has_id(id),
                forall|k: int| 0 <= k < w ==> !hp(#[trigger] d1.workspaces[k]),
            decreases self.workspaces.len() - w,
        {
            let mut i: usize = 0;
            while i < self.workspaces[w].windows.len() && self.workspaces[w].windows[i].id != id
                invariant
                    self@ == d1,
                    w < self.workspaces.len(),
                    i <= self.workspaces[w as int].windows.len(),
                    ip == has_id(id),
                    forall|k: int| 0 <= k < i ==> !ip(#[trigger] d1.workspaces[w as int].windows[k]),
                decreases self.workspaces[w as int].windows.len() - i,
            {
                i += 1;
            }
            if i < self.workspaces[w].windows.len() {
                proof {
                    assert(hp(d1.workspaces[w as int]));
                    assert(is_first_where(d1.workspaces, hp, w as int));
                    assert(is_first_where(d1.workspaces[w as int].windows, ip, i as int));
                    lemma_first_where_is(d1.workspaces, hp, w as int);
                    lemma_first_where_is(d1.workspaces[w as int].windows, ip, i as int);
                }
                return Some((w, i));
            }
            proof {
                assert(!hp(d1.workspaces[w as int])) by {
                    if hp(d1.workspaces[w as int]) {
                        let j = choose|j: int|
                            0 <= j < d1.workspaces[w as int].windows.len()
                                && #[trigger] d1.workspaces[w as int].windows[j].id == id;
                        assert(!ip(d1.workspaces[w as int].windows[j]));
                    }
                }
            }
            w += 1;
        }
        proof {
            lemma_first_where_none(d1.workspaces, hp);
        }
        None
    }

    /// Take window `p` out of workspace `w`: its leaf and solo go with it and
    /// focus stays in range.
    fn remove_window(&mut self, w: usize, p: usize) -> (r: Vec<Effect>)
        requires
            wf(old(self)@),
            w < WORKSPACE_COUNT,
            p < old(self)@.workspaces[w as int].windows.len(),
        ensures
            wf(final(self)@),
            ({
                let ws = old(self)@.workspaces[w as int];
                let win = ws.windows[p as int];
                let rest = ws.windows.remove(p as int);
                let focused = if ws.focused >= rest.len() && rest.len() > 0 {
                    (rest.len() - 1) as usize
                } else {
                    ws.focused
                };
                let solo = if ws.solo == Some(win.id) {
                    None
                } else {
                    ws.solo
                };
                &&& final(self)@ == with_ws(
                    old(self)@,
                    w as int,
                    WorkspaceV { windows: rest, focused, solo, ..ws },
                )
                &&& effects_view(r@) == if win.tiled() {
                    seq![EffectV::TreeUntrack(w, win.id)]
                } else {
                    Seq::empty()
                }
            }),
    {
        let ghost d1 = self@;
        let mut effects: Vec<Effect> = Vec::new();
        proof {
            assert(focus_ok(d1.workspaces[w as int]));
        }
        let win = self.workspaces[w].windows.remove(p);
        if !win.floating && !win.fullscreen {
            push_effect(&mut effects, Effect::TreeUntrack(w, win.id));
            proof {
                assert(effects_view(effects@) =~= seq![EffectV::TreeUntrack(w, win.id)]);
            }
        } else {
            proof {
                assert(effects_view(effects@) =~= Seq::<EffectV>::empty());
            }
        }
        let is_solo = match self.workspaces[w].solo {
            Some(s) => s == win.id,
            None => false,
        };
        if is_solo {
            self.workspaces[w].solo = None;
        }
        let len = self.workspaces[w].windows.len();
        if self.workspaces[w].focused >= len && len > 0 {
            self.workspaces[w].focused = len - 1;
        }
        proof {
            let ws = d1.workspaces[w as int];
            let rest = ws.windows.remove(p as int);
            let focused = if ws.focused >= rest.len() && rest.len() > 0 {
                (rest.len() - 1) as usize
            } else {
                ws.focused
            };
            let solo = if ws.solo == Some(win.id) {
                None
            } else {
                ws.solo
            };
            let nws = WorkspaceV { windows: rest, focused, solo, ..ws };
            assert(self@.workspaces =~= with_ws(d1, w as int, nws).workspaces);
            assert forall|j: int| 0 <= j < nws.windows.len() implies win_rect_ok(
                (#[trigger] nws.windows[j]).rect,
            ) by {
                if j < p {
                    assert(nws.windows[j] == ws.windows[j]);
                } else {
                    assert(nws.windows[j] == ws.windows[j + 1]);
                }
            }
            lemma_with_ws_wf(d1, w as int, nws);
            assert(win == ws.windows[p as int]);
        }
        effects
    }

    /// A window went away: drop it from whichever workspace holds it, then
    /// re-tile and focus.
    pub fn unmap_window(&mut self, id: u64) -> (r: Vec<Effect>)
        requires
            wf(old(self)@),
        ensures
            wf(final(self)@),
            final(self)@ == spec_unmap_window(old(self)@, id).0,
            effects_view(r@) == spec_unmap_window(old(self)@, id).1,
    {
        let mut effects: Vec<Effect> = Vec::new();
        let grabbed = match self.grab_window {
            Some(g) => g == id,
            None => false,
        };
        if grabbed {
            self.grab = GrabMode::Inactive;
            self.grab_window = None;
        }
        push_effect(&mut effects, Effect::Unmap(id));
        let ghost d1 = self@;
        match self.find_window(id) {
            None => {},
            Some((w, p)) => {
                proof {
                    let ws = d1.workspaces[w as int];
                    assert(first_where(ws.windows, has_id(id)) == Some(p as int));
                    let i = choose|i: int| is_first_where(ws.windows, has_id(id), i);
                    assert(is_first_where(ws.windows, has_id(id), i));
                    assert(ws.windows[p as int].id == id);
                }
                let more = self.remove_window(w, p);
                append_effects(&mut effects, more);
            },
        }
        push_effect(&mut effects, Effect::Refresh);
        if self.outputs.len() > 0 {
            let aw = self.active_workspace();
            if self.workspaces[aw].windows.len() > 0 {
                let f = self.workspaces[aw].focused;
                let more = self.focus_effect(f);
                append_effects(&mut effects, more);
            }
        }
        effects
    }
}
impl Desk {
    /// A new output joins, showing the lowest-numbered workspace no other
    /// output shows (workspace 0 when all nine are taken).
    pub fn add_output(&mut self, geometry: Rect, usable: Rect)
        requires
            wf(old(self)@),
            sane_rect(geometry),
            sane_rect(usable),
        ensures
            wf(final(self)@),
            final(self)@ == (DeskV {
                outputs: old(self)@.outputs.push(
                    OutputEntry { geometry, usable, workspace: first_free_from(old(self)@.outputs, 0) as usize },
                ),
                ..old(self)@
            }),
    {
        let ghost outs = self@.outputs;
        let mut k: usize = 0;
        let mut found = false;
        while k < WORKSPACE_COUNT && !found
            invariant
                outs == self@.outputs,
                k <= WORKSPACE_COUNT,
                !found ==> first_free_from(outs, 0) == first_free_from(outs, k as int),
                found ==> first_free_from(outs, 0) == k as int && k < WORKSPACE_COUNT,
            decreases WORKSPACE_COUNT - k, if found { 0int } else { 1int },
        {
            let mut o: usize = 0;
            while o < self.outputs.len() && self.outputs[o].workspace != k
                invariant
                    outs == self@.outputs,
                    o <= self.outputs.len(),
                    forall|j: int| 0 <= j < o ==> (#[trigger] outs[j]).workspace != k,
                decreases self.outputs.len() - o,
            {
                o += 1;
            }
            if o == self.outputs.len() {
                proof {
                    assert(!shown(outs, k as int));
                }
                found = true;
            } else {
                proof {
                    assert(outs[o as int].workspace == k);
                    assert(shown(outs, k as int));
                }
                k += 1;
            }
        }
        let workspace = if found {
            k
        } else {
            0
        };
        self.outputs.push(OutputEntry { geometry, usable, workspace });
        proof {
            assert forall|o: int| 0 <= o < self@.outputs.len() implies (
            #[trigger] self@.outputs[o]).workspace < WORKSPACE_COUNT && sane_rect(
                self@.outputs[o].geometry,
            ) && sane_rect(self@.outputs[o].usable) by {
                if o < outs.len() {
                    assert(self@.outputs[o] == outs[o]);
                }
            }
        }
    }

    /// An output went away.
    pub fn remove_output(&mut self, index: usize)
        requires
            wf(old(self)@),
            index < old(self)@.outputs.len(),
        ensures
            wf(final(self)@),
            final(self)@ == (DeskV { outputs: old(self)@.outputs.remove(index as int), ..old(self)@ }),
    {
        let ghost outs = self@.outputs;
        self.outputs.remove(index);
        proof {
            assert forall|o: int| 0 <= o < self@.outputs.len() implies (
            #[trigger] self@.outputs[o]).workspace < WORKSPACE_COUNT && sane_rect(
                self@.outputs[o].geometry,
            ) && sane_rect(self@.outputs[o].usable) by {
                if o < index {
                    assert(self@.outputs[o] == outs[o]);
                } else {
                    assert(self@.outputs[o] == outs[o + 1]);
                }
            }
        }
    }

    /// The layer shell left output `index` this usable area.
    pub fn set_usable(&mut self, index: usize, usable: Rect)
        requires
            wf(old(self)@),
            index < old(self)@.outputs.len(),
            sane_rect(usable),
        ensures
            wf(final(self)@),
            final(self)@ == (DeskV {
                outputs: old(self)@.outputs.update(
                    index as int,
                    OutputEntry { usable, ..old(self)@.outputs[index as int] },
                ),
                ..old(self)@
            }),
    {
        let mut o = self.outputs[index];
        o.usable = usable;
        self.outputs.set(index, o);
    }

    /// The pointer moved.
    pub fn set_pointer(&mut self, x: i32, y: i32)
        requires
            wf(old(self)@),
        ensures
            wf(final(self)@),
            final(self)@ == (DeskV { pointer_x: x, pointer_y: y, ..old(self)@ }),
    {
        self.pointer_x = x;
        self.pointer_y = y;
    }

    /// A placement gave window `i` of workspace `w` this rect.
    pub fn set_window_rect(&mut self, w: usize, i: usize, rect: Rect)
        requires
            wf(old(self)@),
            w < WORKSPACE_COUNT,
            i < old(self)@.workspaces[w as int].windows.len(),
            win_rect_ok(rect),
        ensures
            wf(final(self)@),
            final(self)@ == with_win(
                old(self)@,
                w as int,
                i as int,
                Win { rect, ..old(self)@.workspaces[w as int].windows[i as int] },
            ),
    {
        let mut win = self.workspaces[w].windows[i];
        win.rect = rect;
        proof {
            lemma_with_win_wf(self@, w as int, i as int, win);
        }
        self.set_win(w, i, win);
    }
}

/// A new window opens where the pointer is: it joins the end of the
/// workspace shown on the output under the pointer (output 0 when the
/// pointer is on none), takes the focus there, and no other workspace
/// changes.
pub proof fn law_new_windows_open_under_the_pointer(
    d: DeskV,
    win: Win,
    floats_naturally: bool,
    natural_w: i32,
    natural_h: i32,
    wants_fullscreen: bool,
)
    requires
        wf(d),
        d.outputs.len() > 0,
    ensures
        ({
            let r = spec_map_window(d, win, floats_naturally, natural_w, natural_h, wants_fullscreen).0;
            let w = d.outputs[spec_active_output(d)].workspace as int;
            &&& r.workspaces.len() == d.workspaces.len()
            &&& r.workspaces[w].windows.len() == d.workspaces[w].windows.len() + 1
            &&& r.workspaces[w].windows.last().id == win.id
            &&& r.workspaces[w].focused == d.workspaces[w].windows.len()
            &&& forall|k: int| 0 <= k < d.workspaces.len() && k != w ==> #[trigger] r.workspaces[k] == d.workspaces[k]
        }),
{
    reveal(spec_place_floating);
    reveal(spec_set_fullscreen);
    lemma_active_output_in_range(d);
    let w = spec_active_workspace(d);
    let nw = Win { floating: win.floating || floats_naturally, ..win };
    let last = d.workspaces[w].windows.len() as int;
    let d2 = spec_map_add(d, w, nw, natural_w, natural_h).0;
    assert(d2.outputs == d.outputs && d2.pointer_x == d.pointer_x && d2.pointer_y == d.pointer_y);
    assert(spec_active_output(d2) == spec_active_output(d));
    assert(spec_active_workspace(d2) == w);
    assert(d2.workspaces[w].windows.len() == last + 1);
    assert(last % (last + 1) == last) by (nonlinear_arith)
        requires
            last >= 0,
    ;
}

/// A new output keeps every workspace on at most one output, as long as
/// fewer than nine outputs are connected (a tenth has no free workspace and
/// shares workspace 0).
pub proof fn law_add_output_keeps_outputs_distinct(d: DeskV, geometry: Rect, usable: Rect)
    requires
        wf(d),
        outputs_distinct(d),
        d.outputs.len() < WORKSPACE_COUNT,
    ensures
        outputs_distinct(
            DeskV {
                outputs: d.outputs.push(
                    OutputEntry { geometry, usable, workspace: first_free_from(d.outputs, 0) as usize },
                ),
                ..d
            },
        ),
{
    let k = first_free_from(d.outputs, 0);
    lemma_free_exists(d.outputs);
    lemma_first_free_unshown(d.outputs, 0);
    let outs = d.outputs.push(OutputEntry { geometry, usable, workspace: k as usize });
    assert forall|a: int, b: int|
        0 <= a < outs.len() && 0 <= b < outs.len() && a != b implies (#[trigger] outs[a]).workspace
            != (#[trigger] outs[b]).workspace by {
        if a == d.outputs.len() as int {
            assert(outs[b] == d.outputs[b]);
        } else if b == d.outputs.len() as int {
            assert(outs[a] == d.outputs[a]);
        } else {
            assert(outs[a] == d.outputs[a] && outs[b] == d.outputs[b]);
        }
    }
}

/// With fewer than nine outputs, and each output's workspace under nine,
/// some workspace is free.
proof fn lemma_free_exists(outs: Seq<OutputEntry>)
    requires
        outs.len() < 9,
        forall|a: int, b: int|
            0 <= a < outs.len() && 0 <= b < outs.len() && a != b ==> (#[trigger] outs[a]).workspace
                != (#[trigger] outs[b]).workspace,
        forall|o: int| 0 <= o < outs.len() ==> (#[trigger] outs[o]).workspace < 9,
    ensures
        exists|k: int| 0 <= k < 9 && !shown(outs, k),
{
    if forall|k: int| 0 <= k < 9 ==> shown(outs, k) {
        // Nine workspaces, each shown by a different output: nine outputs.
        let f = |k: int| choose|o: int| 0 <= o < outs.len() && #[trigger] outs[o].workspace == k;
        let img = Set::new(|o: int| 0 <= o < outs.len());
        let dom = Set::new(|k: int| 0 <= k < 9);
        assert forall|k: int| dom.contains(k) implies img.contains(f(k)) by {
            assert(shown(outs, k));
        }
        assert forall|k1: int, k2: int| dom.contains(k1) && dom.contains(k2) && f(k1) == f(k2) implies k1 == k2 by {
            assert(shown(outs, k1));
            assert(shown(outs, k2));
        }
        vstd::set_lib::lemma_int_range(0, 9);
        vstd::set_lib::lemma_int_range(0, outs.len() as int);
        assert(dom =~= vstd::set_lib::set_int_range(0, 9));
        assert(img =~= vstd::set_lib::set_int_range(0, outs.len() as int));
        assert(vstd::relations::injective_on(f, dom));
        vstd::set_lib::lemma_map_size(dom, dom.map(f), f);
        assert forall|o: int| dom.map(f).contains(o) implies img.contains(o) by {
            let k = choose|k: int| dom.contains(k) && f(k) == o;
            assert(img.contains(f(k)));
        }
        assert(dom.map(f).subset_of(img));
        vstd::set_lib::lemma_len_subset(dom.map(f), img);
    }
}

/// The free workspace found from `k` is free, when one exists from `k` on.
proof fn lemma_first_free_unshown(outs: Seq<OutputEntry>, k: int)
    requires
        0 <= k <= 9,
        exists|j: int| k <= j < 9 && !shown(outs, j),
    ensures
        0 <= first_free_from(outs, k) < 9,
        !shown(outs, first_free_from(outs, k)),
    decreases 9 - k,
{
    if shown(outs, k) {
        let j = choose|j: int| k <= j < 9 && !shown(outs, j);
        assert(j != k);
        lemma_first_free_unshown(outs, k + 1);
    }
}

/// Sending the focused window to another workspace moves exactly that
/// window to the end of the target, takes it out of its own workspace, and
/// leaves every other workspace's windows alone.
pub proof fn law_move_to_workspace_moves_one_window(d: DeskV, target: int)
    requires
        wf(d),
        d.outputs.len() > 0,
        0 <= target < WORKSPACE_COUNT,
        target != spec_active_workspace(d),
        d.workspaces[spec_active_workspace(d)].windows.len() > 0,
    ensures
        ({
            let c = spec_active_workspace(d);
            let ws = d.workspaces[c];
            let r = spec_move_to_workspace(d, target).0;
            &&& r.workspaces[target].windows == d.workspaces[target].windows.push(
                ws.windows[ws.focused as int],
            )
            &&& r.workspaces[c].windows == ws.windows.remove(ws.focused as int)
            &&& forall|k: int|
                0 <= k < WORKSPACE_COUNT && k != c && k != target ==> (#[trigger] r.workspaces[k]).windows
                    == d.workspaces[k].windows
            &&& r.outputs == d.outputs
        }),
{
    lemma_active_output_in_range(d);
    let c = spec_active_workspace(d);
    assert(0 <= c < WORKSPACE_COUNT);
}

/// "Move to the next workspace" sends the focused window of the active
/// workspace to the end of the workspace after it (the first after the
/// last), and "move to the previous workspace" to the end of the one before
/// it (the last before the first); the window leaves its own workspace.
pub proof fn law_move_to_next_and_previous_workspace(
    d: DeskV,
    float_size: (i32, i32),
    show_cmd: Option<Seq<char>>,
    hide_cmd: Option<Seq<char>>,
)
    requires
        wf(d),
        d.outputs.len() > 0,
        d.workspaces[spec_active_workspace(d)].windows.len() > 0,
    ensures
        ({
            let c = spec_active_workspace(d);
            let ws = d.workspaces[c];
            let win = ws.windows[ws.focused as int];
            let next = if c + 1 == WORKSPACE_COUNT { 0 } else { c + 1 };
            let r = spec_dispatch(d, ActionV::MoveToWorkspaceNext, float_size, show_cmd, hide_cmd).0;
            &&& r.workspaces[next].windows == d.workspaces[next].windows.push(win)
            &&& r.workspaces[c].windows == ws.windows.remove(ws.focused as int)
        }),
        ({
            let c = spec_active_workspace(d);
            let ws = d.workspaces[c];
            let win = ws.windows[ws.focused as int];
            let prev = if c == 0 { WORKSPACE_COUNT - 1 } else { c - 1 };
            let r = spec_dispatch(d, ActionV::MoveToWorkspacePrevious, float_size, show_cmd, hide_cmd).0;
            &&& r.workspaces[prev].windows == d.workspaces[prev].windows.push(win)
            &&& r.workspaces[c].windows == ws.windows.remove(ws.focused as int)
        }),
{
    reveal(spec_dispatch);
    lemma_active_output_in_range(d);
    let c = spec_active_workspace(d);
    let next = if c + 1 == WORKSPACE_COUNT { 0 } else { c + 1 };
    let prev = if c == 0 { WORKSPACE_COUNT - 1 } else { c - 1 };
    assert((c + 1) % 9 == next);
    assert((c + 8) % 9 == prev);
    law_move_to_workspace_moves_one_window(d, next);
    law_move_to_workspace_moves_one_window(d, prev);
}

/// "Next workspace" makes the active output show the workspace after the
/// one it showed (the first after the last), and "previous workspace" the
/// one before it (the last before the first).
pub proof fn law_next_and_previous_workspace_are_neighbours(
    d: DeskV,
    float_size: (i32, i32),
    show_cmd: Option<Seq<char>>,
    hide_cmd: Option<Seq<char>>,
)
    requires
        wf(d),
        d.outputs.len() > 0,
    ensures
        ({
            let c = spec_active_workspace(d);
            let r = spec_dispatch(d, ActionV::WorkspaceNext, float_size, show_cmd, hide_cmd).0;
            spec_active_workspace(r) == if c + 1 == WORKSPACE_COUNT { 0 } else { c + 1 }
        }),
        ({
            let c = spec_active_workspace(d);
            let r = spec_dispatch(d, ActionV::WorkspacePrevious, float_size, show_cmd, hide_cmd).0;
            spec_active_workspace(r) == if c == 0 { WORKSPACE_COUNT - 1 } else { c - 1 }
        }),
{
    reveal(spec_dispatch);
    lemma_active_output_in_range(d);
    let c = spec_active_workspace(d);
    assert((c + 1) % 9 == if c + 1 == WORKSPACE_COUNT { 0 } else { c + 1 });
    assert((c + 8) % 9 == if c == 0 { WORKSPACE_COUNT - 1 } else { c - 1 });
    law_switch_shows_target(d, (c + 1) % 9);
    law_switch_shows_target(d, (c + 8) % 9);
}

/// The active output is determined by the pointer and the output boxes
/// alone.
pub proof fn lemma_active_output_same(d1: DeskV, d2: DeskV)
    requires
        d1.pointer_x == d2.pointer_x,
        d1.pointer_y == d2.pointer_y,
        d1.outputs.len() == d2.outputs.len(),
        forall|o: int| 0 <= o < d1.outputs.len() ==> (#[trigger] d1.outputs[o]).geometry == d2.outputs[o].geometry,
    ensures
        spec_active_output(d1) == spec_active_output(d2),
{
    let p = under_pointer(d1.pointer_x, d1.pointer_y);
    assert forall|o: int| 0 <= o < d1.outputs.len() implies p(#[trigger] d1.outputs[o]) == p(d2.outputs[o]) by {}
    if first_where(d1.outputs, p) is Some {
        let i = choose|i: int| is_first_where(d1.outputs, p, i);
        assert(is_first_where(d1.outputs, p, i));
        assert(is_first_where(d2.outputs, p, i)) by {
            assert forall|k: int| 0 <= k < i implies !p(#[trigger] d2.outputs[k]) by {
                assert(!p(d1.outputs[k]));
            }
        }
        lemma_first_where_is(d2.outputs, p, i);
    } else {
        assert forall|k: int| 0 <= k < d2.outputs.len() implies !p(#[trigger] d2.outputs[k]) by {
            if p(d2.outputs[k]) {
                assert(p(d1.outputs[k]));
                lemma_first_where_none_means(d1.outputs, p, k);
            }
        }
        lemma_first_where_none(d2.outputs, p);
    }
}

/// Under distinct outputs, `first_where` of "shows `t`" is the one output
/// that shows it.
proof fn lemma_unique_shower(outs: Seq<OutputEntry>, t: int, b: int)
    requires
        0 <= b < outs.len(),
        outs[b].workspace == t,
        forall|x: int, y: int|
            0 <= x < outs.len() && 0 <= y < outs.len() && x != y ==> (#[trigger] outs[x]).workspace
                != (#[trigger] outs[y]).workspace,
    ensures
        first_where(outs, |o: OutputEntry| o.workspace == t) == Some(b),
{
    let shows = |o: OutputEntry| o.workspace == t;
    assert forall|k: int| 0 <= k < b implies !shows(#[trigger] outs[k]) by {
        assert(outs[k].workspace != outs[b].workspace);
    }
    assert(is_first_where(outs, shows, b));
    lemma_first_where_is(outs, shows, b);
}

/// Switching workspaces never puts one workspace on two outputs, and only
/// reassigns workspaces: output boxes, the pointer and every workspace's
/// windows stay as they were.
pub proof fn law_switch_keeps_outputs_distinct(d: DeskV, target: int)
    requires
        wf(d),
        outputs_distinct(d),
    ensures
        outputs_distinct(spec_switch_workspace(d, target).0),
        spec_switch_workspace(d, target).0.outputs.len() == d.outputs.len(),
        forall|o: int|
            0 <= o < d.outputs.len() ==> (#[trigger] spec_switch_workspace(d, target).0.outputs[o]).geometry
                == d.outputs[o].geometry,
        forall|w: int|
            0 <= w < WORKSPACE_COUNT ==> (#[trigger] spec_switch_workspace(d, target).0.workspaces[w]).windows
                == d.workspaces[w].windows,
{
    lemma_active_output_in_range(d);
    if d.outputs.len() == 0 || target >= WORKSPACE_COUNT || target < 0
        || d.outputs[spec_active_output(d)].workspace == target {
    } else {
        let a = spec_active_output(d);
        let current = d.outputs[a].workspace;
        let shows = |o: OutputEntry| o.workspace == target;
        let outs = spec_switch_outputs(d, target);
        match first_where(d.outputs, shows) {
            Some(b) => {
                let j = choose|j: int| is_first_where(d.outputs, shows, j);
                assert(is_first_where(d.outputs, shows, j));
                assert(b == j);
                assert(b != a);
                assert forall|x: int, y: int|
                    0 <= x < outs.len() && 0 <= y < outs.len() && x != y implies (
                    #[trigger] outs[x]).workspace != (#[trigger] outs[y]).workspace by {
                    assert(d.outputs[x].workspace != d.outputs[y].workspace);
                }
            },
            None => {
                assert forall|x: int, y: int|
                    0 <= x < outs.len() && 0 <= y < outs.len() && x != y implies (
                    #[trigger] outs[x]).workspace != (#[trigger] outs[y]).workspace by {
                    assert(d.outputs[x].workspace != d.outputs[y].workspace);
                    if x == a {
                        if shows(d.outputs[y]) {
                            lemma_first_where_none_means(d.outputs, shows, y);
                        }
                    }
                    if y == a {
                        if shows(d.outputs[x]) {
                            lemma_first_where_none_means(d.outputs, shows, x);
                        }
                    }
                }
            },
        }
        let d1 = DeskV { outputs: outs, ..d };
        assert(d1.outputs.len() == d.outputs.len());
        assert forall|o: int| 0 <= o < d.outputs.len() implies (#[trigger] d1.outputs[o]).geometry
            == d.outputs[o].geometry by {}
        assert(outputs_distinct(d1));
    }
}

/// After a switch to a valid workspace, the active output (which does not
/// move) shows it.
pub proof fn law_switch_shows_target(d: DeskV, target: int)
    requires
        wf(d),
        d.outputs.len() > 0,
        0 <= target < WORKSPACE_COUNT,
    ensures
        spec_active_output(spec_switch_workspace(d, target).0) == spec_active_output(d),
        spec_active_workspace(spec_switch_workspace(d, target).0) == target,
{
    lemma_active_output_in_range(d);
    law_switch_keeps_outputs_distinct_geometry(d, target);
    lemma_active_output_same(spec_switch_workspace(d, target).0, d);
}

proof fn law_switch_keeps_outputs_distinct_geometry(d: DeskV, target: int)
    requires
        wf(d),
    ensures
        spec_switch_workspace(d, target).0.outputs.len() == d.outputs.len(),
        spec_switch_workspace(d, target).0.pointer_x == d.pointer_x,
        spec_switch_workspace(d, target).0.pointer_y == d.pointer_y,
        forall|o: int|
            0 <= o < d.outputs.len() ==> (#[trigger] spec_switch_workspace(d, target).0.outputs[o]).geometry
                == d.outputs[o].geometry,
{
    lemma_active_output_in_range(d);
}

/// WorkspaceNext then WorkspacePrevious gives every output back the
/// workspace it showed, whether or not another output was showing the next
/// one.
pub proof fn law_next_then_previous_restores_outputs(
    d: DeskV,
    fs: (i32, i32),
    sh: Option<Seq<char>>,
    hi: Option<Seq<char>>,
)
    requires
        wf(d),
        outputs_distinct(d),
        d.outputs.len() > 0,
    ensures
        spec_dispatch(
            spec_dispatch(d, ActionV::WorkspaceNext, fs, sh, hi).0,
            ActionV::WorkspacePrevious,
            fs,
            sh,
            hi,
        ).0.outputs == d.outputs,
{
    reveal(spec_dispatch);
    lemma_active_output_in_range(d);
    let a = spec_active_output(d);
    let c = d.outputs[a].workspace as int;
    let t = (c + 1) % 9;
    let d1 = spec_switch_workspace(d, t).0;
    law_switch_keeps_outputs_distinct(d, t);
    law_switch_shows_target(d, t);
    assert(spec_dispatch(d, ActionV::WorkspaceNext, fs, sh, hi).0 == d1);
    assert(spec_active_workspace(d1) == t);
    let back = (t + 8) % 9;
    assert(back == c);
    let shows_t = |o: OutputEntry| o.workspace == t;
    let shows_c = |o: OutputEntry| o.workspace == c;
    let d2 = spec_switch_workspace(d1, c).0;
    assert(spec_dispatch(d1, ActionV::WorkspacePrevious, fs, sh, hi).0 == d2);
    match first_where(d.outputs, shows_t) {
        Some(b) => {
            let j = choose|j: int| is_first_where(d.outputs, shows_t, j);
            assert(is_first_where(d.outputs, shows_t, j));
            assert(b != a);
            assert(d1.outputs[b].workspace == c);
            lemma_unique_shower(d1.outputs, c, b);
            assert(d2.outputs =~= d.outputs);
        },
        None => {
            assert forall|k: int| 0 <= k < d1.outputs.len() implies !shows_c(#[trigger] d1.outputs[k]) by {
                if k != a {
                    assert(d1.outputs[k] == d.outputs[k]);
                    assert(d.outputs[k].workspace != d.outputs[a].workspace);
                }
            }
            lemma_first_where_none(d1.outputs, shows_c);
            assert(d2.outputs =~= d.outputs);
        },
    }
}

/// FocusNext then FocusPrev on a workspace with windows gives focus back to
/// the window that had it.
pub proof fn law_focus_next_then_previous_restores_focus(
    d: DeskV,
    fs: (i32, i32),
    sh: Option<Seq<char>>,
    hi: Option<Seq<char>>,
)
    requires
        wf(d),
        d.outputs.len() > 0,
        d.workspaces[spec_active_workspace(d)].windows.len() > 0,
    ensures
        spec_dispatch(
            spec_dispatch(d, ActionV::FocusNext, fs, sh, hi).0,
            ActionV::FocusPrev,
            fs,
            sh,
            hi,
        ).0 == d,
{
    reveal(spec_dispatch);
    lemma_active_output_in_range(d);
    let w = spec_active_workspace(d);
    let ws = d.workspaces[w];
    let n = ws.windows.len() as int;
    let f = ws.focused as int;
    assert(focus_ok(ws));
    let i = (f + 1) % n;
    assert(i == if f + 1 < n { f + 1 } else { 0 }) by {
        if f + 1 < n {
            vstd::arithmetic::div_mod::lemma_small_mod((f + 1) as nat, n as nat);
        } else {
            vstd::arithmetic::div_mod::lemma_mod_self_0(n);
        }
    }
    let d1 = spec_focus_index(d, f + 1).0;
    assert(0 <= i < n);
    assert((i as usize) as int == i);
    assert(spec_dispatch(d, ActionV::FocusNext, fs, sh, hi).0 == d1);
    assert(d1.outputs == d.outputs);
    lemma_active_output_same(d1, d);
    assert(spec_active_workspace(d1) == w);
    let prev = if i == 0 { n - 1 } else { i - 1 };
    assert(prev == f);
    vstd::arithmetic::div_mod::lemma_small_mod(f as nat, n as nat);
    let d2 = spec_focus_index(d1, prev).0;
    assert(d1.workspaces[w].windows.len() == n);
    assert(d1.workspaces[w].focused as int == i);
    assert(spec_dispatch(d1, ActionV::FocusPrev, fs, sh, hi).0 == d2);
    assert(d2.workspaces =~= d.workspaces);
    assert(d2 == d);
}

} // verus!
