//! Data model of keyboard shortcuts and touchpad gestures.
use vstd::prelude::*;

use crate::text::{pieces, split_on};

verus! {

/// An operation which may be bound to a keyboard shortcut.
#[derive(Clone, Debug, Eq, Ord, PartialEq, PartialOrd)]
pub enum Action {
    /// Close the active window
    Close,
    /// Show a debug overlay, if enabled in the compositor build
    Debug,
    /// Disable a default shortcut binding
    Disable,
    /// Change focus to the window or workspace in the given direction
    Focus(FocusDirection),
    /// Change focus to the last workspace
    LastWorkspace,
    /// Maximize the active window
    Maximize,
    /// Sets the active window to fullscreen
    Fullscreen,
    /// Migrate the active workspace to the next output
    MigrateWorkspaceToNextOutput,
    /// Migrate the active workspace to the output in the given direction
    MigrateWorkspaceToOutput(Direction),
    /// Migrate the active workspace to the previous output
    MigrateWorkspaceToPreviousOutput,
    /// Minimize the active window
    Minimize,
    /// Move a window in the given direction
    Move(Direction),
    /// Move a window to the last workspace
    MoveToLastWorkspace,
    /// Move a window to the next output
    MoveToNextOutput,
    /// Move a window to the next workspace
    MoveToNextWorkspace,
    /// Move a window to the given output
    MoveToOutput(Direction),
    /// Move a window to the previous output
    MoveToPreviousOutput,
    /// Move a window to the previous workspace
    MoveToPreviousWorkspace,
    /// Move a window to the given workspace
    MoveToWorkspace(u8),
    /// Change focus to the next output
    NextOutput,
    /// Change focus to the next workspace
    NextWorkspace,
    /// Change the orientation of a tiling group
    Orientation(Orientation),
    /// Change focus to the previous output
    PreviousOutput,
    /// Change focus to the previous workspace
    PreviousWorkspace,
    /// Resize the active window in a given direction
    Resizing(ResizeDirection),
    /// Move a window to the last workspace
    SendToLastWorkspace,
    /// Move a window to the next output
    SendToNextOutput,
    /// Move a window to the next workspace
    SendToNextWorkspace,
    /// Move a window to the output in the given direction
    SendToOutput(Direction),
    /// Move a window to the previous output
    SendToPreviousOutput,
    /// Move a window to the previous workspace
    SendToPreviousWorkspace,
    /// Move a window to the given workspace
    SendToWorkspace(u8),
    /// Swap positions of the active window with another
    SwapWindow,
    /// Move to an output in the given direction
    SwitchOutput(Direction),
    /// Perform a common system operation
    System(System),
    /// Execute a command with any given arguments
    Spawn(String),
    /// Stop the compositor
    Terminate,
    /// Toggle the orientation of a tiling group
    ToggleOrientation,
    /// Toggle window stacking for the active window
    ToggleStacking,
    /// Toggle the sticky state of the active window
    ToggleSticky,
    /// Toggle tiling mode of the active workspace
    ToggleTiling,
    /// Toggle between tiling and floating window states for the active window
    ToggleWindowFloating,
    /// Change focus to the given workspace ID
    Workspace(u8),
    /// Enter Magnification / Increase the zoom level by the configured interval
    ZoomIn,
    /// Leave Magnification / Decrease the zoom level by the configured interval
    ZoomOut,
}

/// Common system operations which may be controlled by system commands
#[derive(Clone, Copy, Debug, Eq, Ord, PartialEq, PartialOrd, Hash)]
pub enum System {
    /// Opens the application library
    AppLibrary,
    /// Decreases screen brightness
    BrightnessDown,
    /// Increases screen brightness
    BrightnessUp,
    /// Toggles display mode
    DisplayToggle,
    /// Opens the home folder in a system default file browser
    HomeFolder,
    /// Switch the currently-active input source
    InputSourceSwitch,
    /// Decreases keyboard brightness
    KeyboardBrightnessDown,
    /// Increases keyboard brightness
    KeyboardBrightnessUp,
    /// Opens the launcher
    Launcher,
    /// Locks the screen
    LockScreen,
    /// Logs out
    LogOut,
    /// Mutes the active audio output
    Mute,
    /// Mutes the active microphone
    MuteMic,
    /// Plays and Pauses audio
    PlayPause,
    /// Goes to the next track
    PlayNext,
    /// Goes to the previous track
    PlayPrev,
    /// Power off button handler
    PowerOff,
    /// Takes a screenshot
    Screenshot,
    /// Opens the system default terminal
    Terminal,
    /// Toggles touchpad on/off
    TouchpadToggle,
    /// Lowers the volume of the active audio output
    VolumeLower,
    /// Raises the volume of the active audio output
    VolumeRaise,
    /// Opens the system default web browser
    WebBrowser,
    /// Opens the (alt+tab) window switcher
    WindowSwitcher,
    /// Opens the (alt+shift+tab) window switcher
    WindowSwitcherPrevious,
    /// Opens the workspace overview
    WorkspaceOverview,
}

/// Defines the direction of an operation
#[derive(Copy, Clone, Debug, Eq, Ord, PartialEq, PartialOrd, Hash, Structural)]
pub enum Direction {
    Left,
    Right,
    Up,
    Down,
}

pub open spec fn opposite_direction(d: Direction) -> Direction {
    match d {
        Direction::Left => Direction::Right,
        Direction::Right => Direction::Left,
        Direction::Up => Direction::Down,
        Direction::Down => Direction::Up,
    }
}

impl Direction {
    /// The opposite direction.
    pub fn opposite(self) -> (r: Direction)
        ensures
            r == opposite_direction(self),
    {
        match self {
            Direction::Left => Direction::Right,
            Direction::Right => Direction::Left,
            Direction::Up => Direction::Down,
            Direction::Down => Direction::Up,
        }
    }
}

impl std::ops::Not for Direction {
    type Output = Self;

    fn not(self) -> (r: Self) {
        self.opposite()
    }
}

impl vstd::std_specs::ops::NotSpecImpl for Direction {
    open spec fn obeys_not_spec() -> bool {
        true
    }

    open spec fn not_req(self) -> bool {
        true
    }

    open spec fn not_spec(self) -> Direction {
        opposite_direction(self)
    }
}

/// Defines the direction to focus towards
#[derive(Copy, Clone, Debug, Eq, Ord, PartialEq, PartialOrd, Hash)]
pub enum FocusDirection {
    Left,
    Right,
    Up,
    Down,
    In,
    Out,
}

/// Defines the direction to resize towards
#[derive(Copy, Clone, Debug, Eq, Ord, PartialEq, PartialOrd, Hash)]
pub enum ResizeDirection {
    Inwards,
    Outwards,
}

/// Defines the edge of a window to resize from
#[derive(Clone, Debug, Eq, Ord, PartialEq, PartialOrd, Hash)]
pub enum ResizeEdge {
    Bottom,
    BottomLeft,
    BottomRight,
    Left,
    Right,
    Top,
    TopLeft,
    TopRight,
}

/// Tiling orientation for a tiling window group
#[derive(Copy, Clone, Debug, Eq, Ord, PartialEq, PartialOrd, Hash, Structural)]
pub enum Orientation {
    Horizontal,
    Vertical,
}

pub open spec fn other_orientation(o: Orientation) -> Orientation {
    match o {
        Orientation::Horizontal => Orientation::Vertical,
        Orientation::Vertical => Orientation::Horizontal,
    }
}

impl Orientation {
    /// The other orientation.
    pub fn other(self) -> (r: Orientation)
        ensures
            r == other_orientation(self),
    {
        match self {
            Orientation::Horizontal => Orientation::Vertical,
            Orientation::Vertical => Orientation::Horizontal,
        }
    }
}

impl std::ops::Not for Orientation {
    type Output = Self;

    fn not(self) -> (r: Self) {
        self.other()
    }
}

impl vstd::std_specs::ops::NotSpecImpl for Orientation {
    open spec fn obeys_not_spec() -> bool {
        true
    }

    open spec fn not_req(self) -> bool {
        true
    }

    open spec fn not_spec(self) -> Orientation {
        other_orientation(self)
    }
}

/// How many fingers a gesture uses.
#[derive(Copy, Clone, Debug, Eq, Ord, PartialEq, PartialOrd, Hash, Structural)]
pub enum FingerCount {
    Three,
    Four,
    Five,
}

/// Whether a key is pressed or released.
#[derive(Clone, Copy, Debug, PartialEq, Eq, Hash)]
pub enum State {
    Pressed,
    Released,
}

/// Description of a gesture that can be handled by the compositor
#[derive(Clone, Debug, PartialEq, Eq, Hash, Ord, PartialOrd)]
pub struct Gesture {
    /// How many fingers are held down
    pub fingers: FingerCount,
    pub direction: Direction,
    // A custom description for a custom binding
    pub description: Option<String>,
}

impl Gesture {
    /// Creates a new gesture from a number of fingers and a direction
    pub fn new(fingers: FingerCount, direction: Direction) -> (r: Gesture)
        ensures
            r.fingers == fingers,
            r.direction == direction,
            r.description is None,
    {
        Gesture { fingers, direction, description: None }
    }

    /// Reads a gesture written `<fingers>+<direction>`, as in `3+Left`.
    pub fn parse(value: &str) -> (r: Result<Gesture, GestureParseError>)
        ensures
            gesture_result(r) == gesture_parsed(value@),
            r matches Ok(g) ==> g.description is None,
    {
        let parts = split_on(value, '+');
        if parts.len() == 0 {
            return Err(GestureParseError::NoFingerValue);
        }
        let fingers = match finger_count_from(&parts[0]) {
            Some(f) => f,
            None => {
                return Err(GestureParseError::InvalidFingerValue(parts[0].clone()));
            },
        };
        if parts.len() < 2 {
            return Err(GestureParseError::NoDirectionValue);
        }
        let direction = match direction_from(&parts[1]) {
            Some(d) => d,
            None => {
                return Err(GestureParseError::InvalidDirectionValue(parts[1].clone()));
            },
        };
        if parts.len() > 2 {
            return Err(GestureParseError::ExtraData(parts[2].clone()));
        }
        Ok(Gesture { fingers, direction, description: None })
    }
}

impl std::str::FromStr for Gesture {
    type Err = GestureParseError;

    fn from_str(value: &str) -> Result<Self, Self::Err> {
        Gesture::parse(value)
    }
}

/// Why a gesture could not be read.
#[derive(Clone, Debug, PartialEq)]
pub enum GestureParseError {
    /// Expected value for the number of fingers
    NoFingerValue,
    /// Invalid finger value
    InvalidFingerValue(String),
    /// Expected value for the direction
    NoDirectionValue,
    /// Invalid direction value
    InvalidDirectionValue(String),
    /// Received unknown extra data
    ExtraData(String),
}

pub enum GestureParseErrorView {
    NoFingerValue,
    InvalidFingerValue(Seq<char>),
    NoDirectionValue,
    InvalidDirectionValue(Seq<char>),
    ExtraData(Seq<char>),
}

impl View for GestureParseError {
    type V = GestureParseErrorView;

    open spec fn view(&self) -> GestureParseErrorView {
        match self {
            GestureParseError::NoFingerValue => GestureParseErrorView::NoFingerValue,
            GestureParseError::InvalidFingerValue(s) => GestureParseErrorView::InvalidFingerValue(s@),
            GestureParseError::NoDirectionValue => GestureParseErrorView::NoDirectionValue,
            GestureParseError::InvalidDirectionValue(s) => GestureParseErrorView::InvalidDirectionValue(s@),
            GestureParseError::ExtraData(s) => GestureParseErrorView::ExtraData(s@),
        }
    }
}

/// The fingers and direction of a gesture read, or why it could not be read.
pub open spec fn gesture_result(r: Result<Gesture, GestureParseError>) -> Result<(FingerCount, Direction), GestureParseErrorView> {
    match r {
        Ok(g) => Ok((g.fingers, g.direction)),
        Err(e) => Err(e@),
    }
}

pub open spec fn finger_count_of(p: Seq<char>) -> Option<FingerCount> {
    if p == "3"@ {
        Some(FingerCount::Three)
    } else if p == "4"@ {
        Some(FingerCount::Four)
    } else if p == "5"@ {
        Some(FingerCount::Five)
    } else {
        None
    }
}

pub open spec fn direction_of(p: Seq<char>) -> Option<Direction> {
    if p == "Left"@ {
        Some(Direction::Left)
    } else if p == "Right"@ {
        Some(Direction::Right)
    } else if p == "Up"@ {
        Some(Direction::Up)
    } else if p == "Down"@ {
        Some(Direction::Down)
    } else {
        None
    }
}

/// What reading `s` as a gesture gives: the first `+`-separated piece names the
/// fingers, the second the direction, and there is no third.
pub open spec fn gesture_parsed(s: Seq<char>) -> Result<(FingerCount, Direction), GestureParseErrorView> {
    let p = pieces(s, '+');
    if finger_count_of(p[0]) is None {
        Err(GestureParseErrorView::InvalidFingerValue(p[0]))
    } else if p.len() < 2 {
        Err(GestureParseErrorView::NoDirectionValue)
    } else if direction_of(p[1]) is None {
        Err(GestureParseErrorView::InvalidDirectionValue(p[1]))
    } else if p.len() > 2 {
        Err(GestureParseErrorView::ExtraData(p[2]))
    } else {
        Ok((finger_count_of(p[0])->0, direction_of(p[1])->0))
    }
}

fn finger_count_from(p: &String) -> (r: Option<FingerCount>)
    ensures
        r == finger_count_of(p@),
{
    if *p == String::from_str("3") {
        Some(FingerCount::Three)
    } else if *p == String::from_str("4") {
        Some(FingerCount::Four)
    } else if *p == String::from_str("5") {
        Some(FingerCount::Five)
    } else {
        None
    }
}

fn direction_from(p: &String) -> (r: Option<Direction>)
    ensures
        r == direction_of(p@),
{
    if *p == String::from_str("Left") {
        Some(Direction::Left)
    } else if *p == String::from_str("Right") {
        Some(Direction::Right)
    } else if *p == String::from_str("Up") {
        Some(Direction::Up)
    } else if *p == String::from_str("Down") {
        Some(Direction::Down)
    } else {
        None
    }
}

/// A modifier key.
#[derive(Debug, Clone, Copy, PartialEq, Eq, Structural)]
pub enum Modifier {
    Ctrl,
    Alt,
    Shift,
    Super,
}

/// The modifier keys held down alongside a key.
#[derive(Debug, Clone, Copy, PartialEq, Eq, Hash, Structural)]
pub struct Modifiers {
    pub ctrl: bool,
    pub alt: bool,
    pub shift: bool,
    pub logo: bool,
}

/// `m` with modifier `k` held down too.
pub open spec fn with_modifier(m: Modifiers, k: Modifier) -> Modifiers {
    match k {
        Modifier::Ctrl => Modifiers { ctrl: true, ..m },
        Modifier::Alt => Modifiers { alt: true, ..m },
        Modifier::Shift => Modifiers { shift: true, ..m },
        Modifier::Super => Modifiers { logo: true, ..m },
    }
}

pub open spec fn no_modifiers() -> Modifiers {
    Modifiers { ctrl: false, alt: false, shift: false, logo: false }
}

impl Modifiers {
    /// No modifier held down.
    pub fn new() -> (r: Self)
        ensures
            r == no_modifiers(),
    {
        Modifiers { ctrl: false, alt: false, shift: false, logo: false }
    }

    /// These modifiers and Ctrl.
    pub fn ctrl(self) -> (r: Self)
        ensures
            r == with_modifier(self, Modifier::Ctrl),
    {
        Modifiers { ctrl: true, ..self }
    }

    /// These modifiers and Alt.
    pub fn alt(self) -> (r: Self)
        ensures
            r == with_modifier(self, Modifier::Alt),
    {
        Modifiers { alt: true, ..self }
    }

    /// These modifiers and Shift.
    pub fn shift(self) -> (r: Self)
        ensures
            r == with_modifier(self, Modifier::Shift),
    {
        Modifiers { shift: true, ..self }
    }

    /// These modifiers and Super.
    pub fn logo(self) -> (r: Self)
        ensures
            r == with_modifier(self, Modifier::Super),
    {
        Modifiers { logo: true, ..self }
    }

    /// Holds modifier `k` down too.
    pub fn press(&mut self, k: Modifier)
        ensures
            *final(self) == with_modifier(*old(self), k),
    {
        match k {
            Modifier::Ctrl => self.ctrl = true,
            Modifier::Alt => self.alt = true,
            Modifier::Shift => self.shift = true,
            Modifier::Super => self.logo = true,
        }
    }
}

impl Default for Modifiers {
    fn default() -> (r: Self)
        ensures
            r == no_modifiers(),
    {
        Modifiers::new()
    }
}

impl std::ops::AddAssign<Modifier> for Modifiers {
    fn add_assign(&mut self, rhs: Modifier) {
        self.press(rhs);
    }
}

impl Modifier {
    /// This modifier and `other`, held down together.
    pub fn and(self, other: Modifier) -> (r: Modifiers)
        ensures
            r == with_modifier(with_modifier(no_modifiers(), self), other),
    {
        let mut modifiers = Modifiers::from(self);
        modifiers.press(other);
        modifiers
    }
}

impl std::ops::BitOr for Modifier {
    type Output = Modifiers;

    fn bitor(self, rhs: Modifier) -> (r: Modifiers) {
        self.and(rhs)
    }
}

impl vstd::std_specs::ops::BitOrSpecImpl for Modifier {
    open spec fn obeys_bitor_spec() -> bool {
        true
    }

    open spec fn bitor_req(self, rhs: Modifier) -> bool {
        true
    }

    open spec fn bitor_spec(self, rhs: Modifier) -> Modifiers {
        with_modifier(with_modifier(no_modifiers(), self), rhs)
    }
}

impl From<Modifier> for Modifiers {
    fn from(k: Modifier) -> (r: Modifiers) {
        let mut modifiers = Modifiers::new();
        modifiers.press(k);
        modifiers
    }
}

impl vstd::std_specs::convert::FromSpecImpl<Modifier> for Modifiers {
    open spec fn obeys_from_spec() -> bool {
        true
    }

    open spec fn from_spec(k: Modifier) -> Modifiers {
        with_modifier(no_modifiers(), k)
    }
}

/// Modifiers written as the list of those held down.
pub struct ModifiersDef(pub Vec<Modifier>);

/// The modifiers held down in `m`, in the order Super, Ctrl, Alt, Shift.
pub open spec fn modifier_list(m: Modifiers) -> Seq<Modifier> {
    (if m.logo { seq![Modifier::Super] } else { seq![] }) + (if m.ctrl { seq![Modifier::Ctrl] } else { seq![] }) + (
    if m.alt { seq![Modifier::Alt] } else { seq![] }) + (if m.shift { seq![Modifier::Shift] } else { seq![] })
}

/// The modifiers held down after pressing each of `ks` in turn, starting from `m`.
pub open spec fn pressed_all(m: Modifiers, ks: Seq<Modifier>) -> Modifiers
    decreases ks.len(),
{
    if ks.len() == 0 {
        m
    } else {
        with_modifier(pressed_all(m, ks.drop_last()), ks.last())
    }
}

impl From<Modifiers> for ModifiersDef {
    fn from(src: Modifiers) -> (r: ModifiersDef) {
        ModifiersDef::of(src)
    }
}

impl vstd::std_specs::convert::FromSpecImpl<Modifiers> for ModifiersDef {
    open spec fn obeys_from_spec() -> bool {
        false
    }

    open spec fn from_spec(src: Modifiers) -> ModifiersDef {
        vstd::pervasive::arbitrary()
    }
}

impl From<ModifiersDef> for Modifiers {
    fn from(src: ModifiersDef) -> (r: Modifiers) {
        src.modifiers()
    }
}

impl vstd::std_specs::convert::FromSpecImpl<ModifiersDef> for Modifiers {
    open spec fn obeys_from_spec() -> bool {
        true
    }

    open spec fn from_spec(src: ModifiersDef) -> Modifiers {
        pressed_all(no_modifiers(), src.0@)
    }
}

impl ModifiersDef {
    /// The list of the modifiers held down in `src`.
    pub fn of(src: Modifiers) -> (r: ModifiersDef)
        ensures
            r.0@ == modifier_list(src),
    {
        let mut modifiers: Vec<Modifier> = Vec::new();
        if src.logo {
            modifiers.push(Modifier::Super);
        }
        if src.ctrl {
            modifiers.push(Modifier::Ctrl);
        }
        if src.alt {
            modifiers.push(Modifier::Alt);
        }
        if src.shift {
            modifiers.push(Modifier::Shift);
        }
        proof {
            assert(modifiers@ =~= modifier_list(src));
        }
        ModifiersDef(modifiers)
    }

    /// The modifiers held down: each of the list pressed in turn.
    pub fn modifiers(&self) -> (r: Modifiers)
        ensures
            r == pressed_all(no_modifiers(), self.0@),
    {
        let mut m = Modifiers::new();
        let mut i: usize = 0;
        while i < self.0.len()
            invariant
                i <= self.0@.len(),
                m == pressed_all(no_modifiers(), self.0@.subrange(0, i as int)),
            decreases self.0@.len() - i,
        {
            assert(self.0@.subrange(0, i + 1).drop_last() =~= self.0@.subrange(0, i as int));
            m.press(self.0[i]);
            i = i + 1;
        }
        assert(self.0@.subrange(0, i as int) =~= self.0@);
        m
    }
}

/// Writing modifiers as a list and reading the list back gives the same modifiers.
pub proof fn lemma_modifier_list_round_trip(m: Modifiers)
    ensures
        pressed_all(no_modifiers(), modifier_list(m)) == m,
{
    let a = if m.logo { seq![Modifier::Super] } else { seq![] };
    let b = if m.ctrl { seq![Modifier::Ctrl] } else { seq![] };
    let c = if m.alt { seq![Modifier::Alt] } else { seq![] };
    let d = if m.shift { seq![Modifier::Shift] } else { seq![] };
    let l = modifier_list(m);
    reveal_with_fuel(pressed_all, 5);
    assert(l =~= a + b + c + d);
    if m.shift {
        assert(l.drop_last() =~= a + b + c);
    }
    let l3 = a + b + c;
    if m.alt {
        assert(l3.drop_last() =~= a + b);
    }
    let l2 = a + b;
    if m.ctrl {
        assert(l2.drop_last() =~= a);
    }
    if m.logo {
        assert(a.drop_last() =~= Seq::<Modifier>::empty());
    }
    assert(a + b + c + d =~= if m.shift { l3.push(Modifier::Shift) } else { l3 });
    assert(l3 =~= if m.alt { l2.push(Modifier::Alt) } else { l2 });
    assert(l2 =~= if m.ctrl { a.push(Modifier::Ctrl) } else { a });
}

} // verus!
