//! The vocabulary a configuration resolves to: modifiers, directions,
//! actions, key/hold/gesture bindings and the settings record itself.

use vstd::prelude::*;

verus! {

/// Modifier bits (the `WLR_MODIFIER_*` layout).
pub const MOD_SHIFT: u32 = 1;

pub const MOD_CTRL: u32 = 4;

pub const MOD_ALT: u32 = 8;

pub const MOD_LOGO: u32 = 64;

/// The modifier bits that take part in matching a bind: Caps Lock and Num Lock
/// never break one.
pub const MOD_MASK: u32 = 77;

/// A screen-relative direction, for directional focus and moves.
#[derive(Clone, Copy, PartialEq, Eq, Structural, Debug)]
pub enum Direction {
    Left,
    Right,
    Up,
    Down,
}

/// What a keybinding or gesture does when triggered.
#[derive(Clone, Debug, PartialEq)]
pub enum Action {
    Spawn(String),
    Close,
    Quit,
    FocusNext,
    FocusPrev,
    /// Focus whichever window is spatially adjacent in this direction.
    MoveFocus(Direction),
    /// Swap the focused window's tiling position with its spatial neighbor.
    MoveWindow(Direction),
    /// Resize the focused tiled window along its nearest matching-axis split.
    ResizeWindow(Direction),
    /// Toggle the focused window fullscreen.
    Fullscreen,
    /// Toggle the focused tiled window as the only visible one.
    ToggleSolo,
    /// Toggle the focused window between tiled and floating.
    ToggleFloating,
    /// Switch to a workspace (0-based).
    Workspace(usize),
    /// Move the focused window to a workspace (0-based).
    MoveToWorkspace(usize),
    MoveToWorkspaceNext,
    MoveToWorkspacePrevious,
    WorkspaceNext,
    WorkspacePrevious,
    KeyboardShow,
    KeyboardHide,
    KeyboardToggle,
    /// A function the config registered, by its id.
    Lua(u32),
}

/// The mathematical form of an [`Action`]: the command text as characters.
pub enum ActionV {
    Spawn(Seq<char>),
    Close,
    Quit,
    FocusNext,
    FocusPrev,
    MoveFocus(Direction),
    MoveWindow(Direction),
    ResizeWindow(Direction),
    Fullscreen,
    ToggleSolo,
    ToggleFloating,
    Workspace(usize),
    MoveToWorkspace(usize),
    MoveToWorkspaceNext,
    MoveToWorkspacePrevious,
    WorkspaceNext,
    WorkspacePrevious,
    KeyboardShow,
    KeyboardHide,
    KeyboardToggle,
    Lua(u32),
}

impl View for Action {
    type V = ActionV;

    open spec fn view(&self) -> ActionV {
        match self {
            Action::Spawn(s) => ActionV::Spawn(s@),
            Action::Close => ActionV::Close,
            Action::Quit => ActionV::Quit,
            Action::FocusNext => ActionV::FocusNext,
            Action::FocusPrev => ActionV::FocusPrev,
            Action::MoveFocus(d) => ActionV::MoveFocus(*d),
            Action::MoveWindow(d) => ActionV::MoveWindow(*d),
            Action::ResizeWindow(d) => ActionV::ResizeWindow(*d),
            Action::Fullscreen => ActionV::Fullscreen,
            Action::ToggleSolo => ActionV::ToggleSolo,
            Action::ToggleFloating => ActionV::ToggleFloating,
            Action::Workspace(w) => ActionV::Workspace(*w),
            Action::MoveToWorkspace(w) => ActionV::MoveToWorkspace(*w),
            Action::MoveToWorkspaceNext => ActionV::MoveToWorkspaceNext,
            Action::MoveToWorkspacePrevious => ActionV::MoveToWorkspacePrevious,
            Action::WorkspaceNext => ActionV::WorkspaceNext,
            Action::WorkspacePrevious => ActionV::WorkspacePrevious,
            Action::KeyboardShow => ActionV::KeyboardShow,
            Action::KeyboardHide => ActionV::KeyboardHide,
            Action::KeyboardToggle => ActionV::KeyboardToggle,
            Action::Lua(id) => ActionV::Lua(*id),
        }
    }
}

impl Action {
    /// A copy with the same meaning.
    pub fn duplicate(&self) -> (r: Action)
        ensures
            r@ == self@,
    {
        match self {
            Action::Spawn(s) => Action::Spawn(s.clone()),
            Action::Close => Action::Close,
            Action::Quit => Action::Quit,
            Action::FocusNext => Action::FocusNext,
            Action::FocusPrev => Action::FocusPrev,
            Action::MoveFocus(d) => Action::MoveFocus(*d),
            Action::MoveWindow(d) => Action::MoveWindow(*d),
            Action::ResizeWindow(d) => Action::ResizeWindow(*d),
            Action::Fullscreen => Action::Fullscreen,
            Action::ToggleSolo => Action::ToggleSolo,
            Action::ToggleFloating => Action::ToggleFloating,
            Action::Workspace(w) => Action::Workspace(*w),
            Action::MoveToWorkspace(w) => Action::MoveToWorkspace(*w),
            Action::MoveToWorkspaceNext => Action::MoveToWorkspaceNext,
            Action::MoveToWorkspacePrevious => Action::MoveToWorkspacePrevious,
            Action::WorkspaceNext => Action::WorkspaceNext,
            Action::WorkspacePrevious => Action::WorkspacePrevious,
            Action::KeyboardShow => Action::KeyboardShow,
            Action::KeyboardHide => Action::KeyboardHide,
            Action::KeyboardToggle => Action::KeyboardToggle,
            Action::Lua(id) => Action::Lua(*id),
        }
    }
}

/// One key combination mapped to an action.
#[derive(Clone, Debug)]
pub struct Bind {
    pub mods: u32,
    pub keysym: u32,
    pub action: Action,
}

pub struct BindV {
    pub mods: u32,
    pub keysym: u32,
    pub action: ActionV,
}

impl View for Bind {
    type V = BindV;

    open spec fn view(&self) -> BindV {
        BindV { mods: self.mods, keysym: self.keysym, action: self.action@ }
    }
}

impl Bind {
    pub fn duplicate(&self) -> (r: Bind)
        ensures
            r@ == self@,
    {
        Bind { mods: self.mods, keysym: self.keysym, action: self.action.duplicate() }
    }
}

/// A chord that fires only after being held for `duration_ms`.
#[derive(Clone, Debug)]
pub struct HoldBind {
    pub mods: u32,
    pub keysym: u32,
    pub duration_ms: i32,
    pub action: Action,
}

pub struct HoldBindV {
    pub mods: u32,
    pub keysym: u32,
    pub duration_ms: i32,
    pub action: ActionV,
}

impl View for HoldBind {
    type V = HoldBindV;

    open spec fn view(&self) -> HoldBindV {
        HoldBindV {
            mods: self.mods,
            keysym: self.keysym,
            duration_ms: self.duration_ms,
            action: self.action@,
        }
    }
}

impl HoldBind {
    pub fn duplicate(&self) -> (r: HoldBind)
        ensures
            r@ == self@,
    {
        HoldBind {
            mods: self.mods,
            keysym: self.keysym,
            duration_ms: self.duration_ms,
            action: self.action.duplicate(),
        }
    }
}

/// A touch or touchpad gesture the recognizer can report.
#[derive(Clone, Copy, Debug, PartialEq, Eq, Structural)]
pub enum GestureTrigger {
    BottomUp,
    BottomDown,
    EdgeLeftIn,
    EdgeRightIn,
    TopRight,
    TopLeft,
    TopDown,
    ToTop,
    TwoUp,
    TwoDown,
    TwoLeft,
    TwoRight,
    ThreeUp,
    ThreeDown,
    ThreeLeft,
    ThreeRight,
    DoubleTap,
    EdgeLeftUp,
    EdgeLeftDown,
    /// A single finger travelling sideways to near the left edge.
    ToLeft,
    ToRight,
    EdgeRightUp,
    EdgeRightDown,
    PadThreeLeft,
    PadThreeRight,
    PadThreeUp,
    PadThreeDown,
    PadPinchIn,
    PadPinchOut,
}

/// The bit a trigger occupies in a gesture mask.
pub open spec fn trigger_bit(t: GestureTrigger) -> u32 {
    match t {
        GestureTrigger::BottomUp => 0,
        GestureTrigger::BottomDown => 1,
        GestureTrigger::EdgeLeftIn => 2,
        GestureTrigger::EdgeRightIn => 3,
        GestureTrigger::TopRight => 4,
        GestureTrigger::TopLeft => 5,
        GestureTrigger::TopDown => 6,
        GestureTrigger::ToTop => 7,
        GestureTrigger::TwoUp => 8,
        GestureTrigger::TwoDown => 9,
        GestureTrigger::TwoLeft => 10,
        GestureTrigger::TwoRight => 11,
        GestureTrigger::ThreeUp => 12,
        GestureTrigger::ThreeDown => 13,
        GestureTrigger::ThreeLeft => 14,
        GestureTrigger::ThreeRight => 15,
        GestureTrigger::DoubleTap => 16,
        GestureTrigger::EdgeLeftUp => 17,
        GestureTrigger::EdgeLeftDown => 18,
        GestureTrigger::ToLeft => 19,
        GestureTrigger::ToRight => 20,
        GestureTrigger::EdgeRightUp => 21,
        GestureTrigger::EdgeRightDown => 22,
        GestureTrigger::PadThreeLeft => 23,
        GestureTrigger::PadThreeRight => 24,
        GestureTrigger::PadThreeUp => 25,
        GestureTrigger::PadThreeDown => 26,
        GestureTrigger::PadPinchIn => 27,
        GestureTrigger::PadPinchOut => 28,
    }
}

/// The recognizer's raw trigger numbers: the first nineteen, in bit order.
pub open spec fn spec_trigger_from_raw(raw: u32) -> Option<GestureTrigger> {
    if raw == 0 {
        Some(GestureTrigger::BottomUp)
    } else if raw == 1 {
        Some(GestureTrigger::BottomDown)
    } else if raw == 2 {
        Some(GestureTrigger::EdgeLeftIn)
    } else if raw == 3 {
        Some(GestureTrigger::EdgeRightIn)
    } else if raw == 4 {
        Some(GestureTrigger::TopRight)
    } else if raw == 5 {
        Some(GestureTrigger::TopLeft)
    } else if raw == 6 {
        Some(GestureTrigger::TopDown)
    } else if raw == 7 {
        Some(GestureTrigger::ToTop)
    } else if raw == 8 {
        Some(GestureTrigger::TwoUp)
    } else if raw == 9 {
        Some(GestureTrigger::TwoDown)
    } else if raw == 10 {
        Some(GestureTrigger::TwoLeft)
    } else if raw == 11 {
        Some(GestureTrigger::TwoRight)
    } else if raw == 12 {
        Some(GestureTrigger::ThreeUp)
    } else if raw == 13 {
        Some(GestureTrigger::ThreeDown)
    } else if raw == 14 {
        Some(GestureTrigger::ThreeLeft)
    } else if raw == 15 {
        Some(GestureTrigger::ThreeRight)
    } else if raw == 16 {
        Some(GestureTrigger::DoubleTap)
    } else if raw == 17 {
        Some(GestureTrigger::EdgeLeftUp)
    } else if raw == 18 {
        Some(GestureTrigger::EdgeLeftDown)
    } else {
        None
    }
}

impl GestureTrigger {
    /// This trigger's bit number.
    pub fn bit(self) -> (r: u32)
        ensures
            r == trigger_bit(self),
            r < 29,
    {
        match self {
            GestureTrigger::BottomUp => 0,
            GestureTrigger::BottomDown => 1,
            GestureTrigger::EdgeLeftIn => 2,
            GestureTrigger::EdgeRightIn => 3,
            GestureTrigger::TopRight => 4,
            GestureTrigger::TopLeft => 5,
            GestureTrigger::TopDown => 6,
            GestureTrigger::ToTop => 7,
            GestureTrigger::TwoUp => 8,
            GestureTrigger::TwoDown => 9,
            GestureTrigger::TwoLeft => 10,
            GestureTrigger::TwoRight => 11,
            GestureTrigger::ThreeUp => 12,
            GestureTrigger::ThreeDown => 13,
            GestureTrigger::ThreeLeft => 14,
            GestureTrigger::ThreeRight => 15,
            GestureTrigger::DoubleTap => 16,
            GestureTrigger::EdgeLeftUp => 17,
            GestureTrigger::EdgeLeftDown => 18,
            GestureTrigger::ToLeft => 19,
            GestureTrigger::ToRight => 20,
            GestureTrigger::EdgeRightUp => 21,
            GestureTrigger::EdgeRightDown => 22,
            GestureTrigger::PadThreeLeft => 23,
            GestureTrigger::PadThreeRight => 24,
            GestureTrigger::PadThreeUp => 25,
            GestureTrigger::PadThreeDown => 26,
            GestureTrigger::PadPinchIn => 27,
            GestureTrigger::PadPinchOut => 28,
        }
    }
}

/// The trigger for one of the recognizer's raw numbers (0 to 18).
pub fn trigger_from_raw(raw: u32) -> (r: Option<GestureTrigger>)
    ensures
        r == spec_trigger_from_raw(raw),
{
    if raw == 0 {
        Some(GestureTrigger::BottomUp)
    } else if raw == 1 {
        Some(GestureTrigger::BottomDown)
    } else if raw == 2 {
        Some(GestureTrigger::EdgeLeftIn)
    } else if raw == 3 {
        Some(GestureTrigger::EdgeRightIn)
    } else if raw == 4 {
        Some(GestureTrigger::TopRight)
    } else if raw == 5 {
        Some(GestureTrigger::TopLeft)
    } else if raw == 6 {
        Some(GestureTrigger::TopDown)
    } else if raw == 7 {
        Some(GestureTrigger::ToTop)
    } else if raw == 8 {
        Some(GestureTrigger::TwoUp)
    } else if raw == 9 {
        Some(GestureTrigger::TwoDown)
    } else if raw == 10 {
        Some(GestureTrigger::TwoLeft)
    } else if raw == 11 {
        Some(GestureTrigger::TwoRight)
    } else if raw == 12 {
        Some(GestureTrigger::ThreeUp)
    } else if raw == 13 {
        Some(GestureTrigger::ThreeDown)
    } else if raw == 14 {
        Some(GestureTrigger::ThreeLeft)
    } else if raw == 15 {
        Some(GestureTrigger::ThreeRight)
    } else if raw == 16 {
        Some(GestureTrigger::DoubleTap)
    } else if raw == 17 {
        Some(GestureTrigger::EdgeLeftUp)
    } else if raw == 18 {
        Some(GestureTrigger::EdgeLeftDown)
    } else {
        None
    }
}

/// Raw numbers and triggers agree: every raw number that names a trigger
/// names the one whose bit it is, and every trigger in the first nineteen
/// bits is named by its bit.
pub proof fn law_trigger_raw_roundtrip(raw: u32, t: GestureTrigger)
    ensures
        spec_trigger_from_raw(raw) matches Some(u) ==> trigger_bit(u) == raw,
        trigger_bit(t) <= 18 ==> spec_trigger_from_raw(trigger_bit(t)) == Some(t),
{
}

/// A gesture mapped to an action.
#[derive(Clone, Debug)]
pub struct GestureBind {
    pub trigger: GestureTrigger,
    pub action: Action,
}

pub struct GestureBindV {
    pub trigger: GestureTrigger,
    pub action: ActionV,
}

impl View for GestureBind {
    type V = GestureBindV;

    open spec fn view(&self) -> GestureBindV {
        GestureBindV { trigger: self.trigger, action: self.action@ }
    }
}

impl GestureBind {
    pub fn duplicate(&self) -> (r: GestureBind)
        ensures
            r@ == self@,
    {
        GestureBind { trigger: self.trigger, action: self.action.duplicate() }
    }
}

/// The scale a script gave a named output.
#[derive(Clone, Copy, PartialEq, Eq, Structural, Debug)]
pub enum MonitorScale {
    /// No scale given (or not a number): 1.
    Unset,
    /// A whole, positive scale.
    Whole(i64),
    /// A scale with a fractional part, which the shell reads and checks.
    Fraction,
    /// A positive decimal scale written in the configuration file: its
    /// digits read as one whole number, over ten to the power of how many
    /// follow the point (`1.5` is `Decimal(15, 1)`).
    Decimal(u64, u32),
}

/// Where a script placed a named output (by connector name), and at what
/// scale.
#[derive(Debug, PartialEq, Eq)]
pub struct MonitorPlace {
    pub name: String,
    pub x: i32,
    pub y: i32,
    pub scale: MonitorScale,
}

pub ghost struct MonitorPlaceV {
    pub name: Seq<char>,
    pub x: i32,
    pub y: i32,
    pub scale: MonitorScale,
}

impl View for MonitorPlace {
    type V = MonitorPlaceV;

    open spec fn view(&self) -> MonitorPlaceV {
        MonitorPlaceV { name: self.name@, x: self.x, y: self.y, scale: self.scale }
    }
}

pub open spec fn monitors_view(v: Seq<MonitorPlace>) -> Seq<MonitorPlaceV> {
    v.map_values(|m: MonitorPlace| m@)
}

/// Parsed compositor configuration (the settings that hold no fractional
/// values; colours and opacity live beside it in the shell).
#[derive(Debug)]
pub struct Config {
    /// The primary modifier (`MOD` in binds); Super by default.
    pub modifier: u32,
    /// Gap between and around tiled windows, in pixels.
    pub gap: i32,
    /// Axis of the first dwindle split: true is left/right.
    pub first_split_vertical: bool,
    /// Optional PNG/JPEG wallpaper path.
    pub wallpaper: Option<String>,
    /// Corner radius for tiled/floating windows, in logical pixels.
    pub corner_radius: i32,
    pub binds: Vec<Bind>,
    pub hold_binds: Vec<HoldBind>,
    /// Commands launched once, in order, at startup.
    pub exec_once: Vec<String>,
    /// App ids that always float, lower-cased.
    pub float_rules: Vec<String>,
    /// Default floating size, as percentages of the usable area.
    pub float_size: (i32, i32),
    pub gestures: Vec<GestureBind>,
    pub virtual_keyboard_show: Option<String>,
    pub virtual_keyboard_hide: Option<String>,
    /// Logical height used to place the visible keyboard's close handle.
    pub virtual_keyboard_height: i32,
    /// Whether bottom keyboard gestures get a visible pill.
    pub gesture_handle_visible: bool,
    /// Named outputs placed by `monitor =` lines or a script.
    pub monitors: Vec<MonitorPlace>,
}

pub struct ConfigV {
    pub modifier: u32,
    pub gap: i32,
    pub first_split_vertical: bool,
    pub wallpaper: Option<Seq<char>>,
    pub corner_radius: i32,
    pub binds: Seq<BindV>,
    pub hold_binds: Seq<HoldBindV>,
    pub exec_once: Seq<Seq<char>>,
    pub float_rules: Seq<Seq<char>>,
    pub float_size: (i32, i32),
    pub gestures: Seq<GestureBindV>,
    pub virtual_keyboard_show: Option<Seq<char>>,
    pub virtual_keyboard_hide: Option<Seq<char>>,
    pub virtual_keyboard_height: i32,
    pub gesture_handle_visible: bool,
    pub monitors: Seq<MonitorPlaceV>,
}

pub open spec fn opt_string_view(o: Option<String>) -> Option<Seq<char>> {
    match o {
        Some(s) => Some(s@),
        None => None,
    }
}

impl View for Config {
    type V = ConfigV;

    open spec fn view(&self) -> ConfigV {
        ConfigV {
            modifier: self.modifier,
            gap: self.gap,
            first_split_vertical: self.first_split_vertical,
            wallpaper: opt_string_view(self.wallpaper),
            corner_radius: self.corner_radius,
            binds: self.binds@.map_values(|b: Bind| b@),
            hold_binds: self.hold_binds@.map_values(|b: HoldBind| b@),
            exec_once: self.exec_once@.map_values(|s: String| s@),
            float_rules: self.float_rules@.map_values(|s: String| s@),
            float_size: self.float_size,
            gestures: self.gestures@.map_values(|g: GestureBind| g@),
            virtual_keyboard_show: opt_string_view(self.virtual_keyboard_show),
            virtual_keyboard_hide: opt_string_view(self.virtual_keyboard_hide),
            virtual_keyboard_height: self.virtual_keyboard_height,
            gesture_handle_visible: self.gesture_handle_visible,
            monitors: monitors_view(self.monitors@),
        }
    }
}

/// The built-in settings before any configuration is read.
pub open spec fn default_config() -> ConfigV {
    ConfigV {
        modifier: MOD_LOGO,
        gap: 2,
        first_split_vertical: true,
        wallpaper: None,
        corner_radius: 0,
        binds: Seq::empty(),
        hold_binds: Seq::empty(),
        exec_once: Seq::empty(),
        float_rules: Seq::empty(),
        float_size: (60, 60),
        gestures: Seq::empty(),
        virtual_keyboard_show: None,
        virtual_keyboard_hide: None,
        virtual_keyboard_height: 300,
        gesture_handle_visible: true,
        monitors: Seq::empty(),
    }
}

impl Default for Config {
    fn default() -> (r: Config)
        ensures
            r@ == default_config(),
    {
        let r = Config {
            modifier: MOD_LOGO,
            gap: 2,
            first_split_vertical: true,
            wallpaper: None,
            corner_radius: 0,
            binds: Vec::new(),
            hold_binds: Vec::new(),
            exec_once: Vec::new(),
            float_rules: Vec::new(),
            float_size: (60, 60),
            gestures: Vec::new(),
            virtual_keyboard_show: None,
            virtual_keyboard_hide: None,
            virtual_keyboard_height: 300,
            gesture_handle_visible: true,
            monitors: Vec::new(),
        };
        assert(r@.monitors =~= Seq::empty());
        assert(r@.binds =~= Seq::empty());
        assert(r@.hold_binds =~= Seq::empty());
        assert(r@.exec_once =~= Seq::empty());
        assert(r@.float_rules =~= Seq::empty());
        assert(r@.gestures =~= Seq::empty());
        r
    }
}

/// The bits of every trigger in `gs`, or-ed together.
pub open spec fn mask_of(gs: Seq<GestureBindV>) -> u32
    decreases gs.len(),
{
    if gs.len() == 0 {
        0
    } else {
        mask_of(gs.drop_last()) | (1u32 << trigger_bit(gs.last().trigger))
    }
}

/// Some binding is for a bottom-edge keyboard gesture.
pub open spec fn binds_keyboard_gesture(gs: Seq<GestureBindV>) -> bool {
    exists|i: int|
        #![trigger gs[i]]
        0 <= i < gs.len() && (gs[i].trigger == GestureTrigger::BottomUp || gs[i].trigger
            == GestureTrigger::BottomDown)
}

impl Config {
    /// One bit per bound gesture trigger.
    pub fn gesture_mask(&self) -> (r: u32)
        ensures
            r == mask_of(self@.gestures),
    {
        let mut mask: u32 = 0;
        let mut i: usize = 0;
        while i < self.gestures.len()
            invariant
                i <= self.gestures.len(),
                mask == mask_of(self@.gestures.take(i as int)),
            decreases self.gestures.len() - i,
        {
            let b = self.gestures[i].trigger.bit();
            proof {
                let t = self@.gestures.take(i + 1);
                assert(t.drop_last() =~= self@.gestures.take(i as int));
                assert(t.last() == self.gestures@[i as int]@);
            }
            mask = mask | (1u32 << b);
            i += 1;
        }
        assert(self@.gestures.take(self.gestures.len() as int) =~= self@.gestures);
        mask
    }

    /// Whether a visible keyboard handle should be drawn: the handle is on
    /// and a bottom-edge keyboard gesture is bound.
    pub fn has_keyboard_handle(&self) -> (r: bool)
        ensures
            r == (self@.gesture_handle_visible && binds_keyboard_gesture(self@.gestures)),
    {
        if !self.gesture_handle_visible {
            return false;
        }
        let mut i: usize = 0;
        while i < self.gestures.len()
            invariant
                i <= self.gestures.len(),
                self.gesture_handle_visible,
                forall|k: int|
                    0 <= k < i ==> !(self@.gestures[k].trigger == GestureTrigger::BottomUp
                        || self@.gestures[k].trigger == GestureTrigger::BottomDown),
            decreases self.gestures.len() - i,
        {
            let t = self.gestures[i].trigger;
            proof {
                assert(self@.gestures[i as int] == self.gestures@[i as int]@);
            }
            match t {
                GestureTrigger::BottomUp | GestureTrigger::BottomDown => {
                    assert(self@.gestures[i as int].trigger == t);
                    return true;
                },
                _ => {},
            }
            i += 1;
        }
        false
    }
}

} // verus!
