//! The emulated device's screen and the decisions behind input handling.
//!
//! The window itself, SDL and everything in floating point live outside the
//! library; what stands here is the device model (families, orientations and
//! their sizes) and the small state machines that turn controller input into
//! touches.
use vstd::prelude::*;

verus! {

/// The kind of device the app runs on.
#[allow(non_camel_case_types)]
#[derive(Clone, Copy, PartialEq, Eq, Structural, Debug)]
pub enum DeviceFamily {
    iPhone,
    iPhone5,
    iPad,
}

/// Portrait size in points, by family.
pub open spec fn portrait_size_spec(f: DeviceFamily) -> (u32, u32) {
    match f {
        DeviceFamily::iPhone => (320, 480),
        DeviceFamily::iPhone5 => (320, 568),
        DeviceFamily::iPad => (768, 1024),
    }
}

impl DeviceFamily {
    /// Portrait (width, height) in logical points.
    pub fn portrait_size(&self) -> (r: (u32, u32))
        ensures
            r == portrait_size_spec(*self),
    {
        match self {
            DeviceFamily::iPhone => (320, 480),
            DeviceFamily::iPhone5 => (320, 568),
            DeviceFamily::iPad => (768, 1024),
        }
    }

    /// The `hw.machine` string of the family.
    pub fn machine_name(&self) -> (r: &'static str)
        ensures
            r@ == match *self {
                DeviceFamily::iPhone => "iPhone1,1"@,
                DeviceFamily::iPhone5 => "iPhone5,1"@,
                DeviceFamily::iPad => "iPad1,1"@,
            },
    {
        match self {
            DeviceFamily::iPhone => "iPhone1,1",
            DeviceFamily::iPhone5 => "iPhone5,1",
            DeviceFamily::iPad => "iPad1,1",
        }
    }

    /// The family's name, as it is printed.
    pub fn name(&self) -> (r: &'static str)
        ensures
            r@ == match *self {
                DeviceFamily::iPhone => "iPhone"@,
                DeviceFamily::iPhone5 => "iPhone5"@,
                DeviceFamily::iPad => "iPad"@,
            },
    {
        match self {
            DeviceFamily::iPhone => "iPhone",
            DeviceFamily::iPhone5 => "iPhone5",
            DeviceFamily::iPad => "iPad",
        }
    }

    /// The family with the given `UIDeviceFamily` number: 1 for iPhone, 2
    /// for iPad.
    pub fn try_from_u64(value: u64) -> (r: Result<DeviceFamily, ()>)
        ensures
            value == 1 ==> r == Ok::<DeviceFamily, ()>(DeviceFamily::iPhone),
            value == 2 ==> r == Ok::<DeviceFamily, ()>(DeviceFamily::iPad),
            value != 1 && value != 2 ==> r is Err,
    {
        match value {
            1 => Ok(DeviceFamily::iPhone),
            2 => Ok(DeviceFamily::iPad),
            _ => Err(()),
        }
    }

    /// The family with the given option name.
    pub fn try_from_name(value: &str) -> (r: Result<DeviceFamily, ()>)
        ensures
            value@ == "iphone"@ ==> r == Ok::<DeviceFamily, ()>(DeviceFamily::iPhone),
            value@ == "iphone5"@ ==> r == Ok::<DeviceFamily, ()>(DeviceFamily::iPhone5),
            value@ == "ipad"@ ==> r == Ok::<DeviceFamily, ()>(DeviceFamily::iPad),
            value@ != "iphone"@ && value@ != "iphone5"@ && value@ != "ipad"@ ==> r is Err,
    {
        proof {
            reveal_strlit("iphone");
            reveal_strlit("iphone5");
            reveal_strlit("ipad");
            assert("iphone"@.len() != "iphone5"@.len());
            assert("iphone"@[2] != "ipad"@[2]);
            assert("iphone5"@.len() != "ipad"@.len());
        }
        if crate::text::str_eq(value, "iphone") {
            Ok(DeviceFamily::iPhone)
        } else if crate::text::str_eq(value, "iphone5") {
            Ok(DeviceFamily::iPhone5)
        } else if crate::text::str_eq(value, "ipad") {
            Ok(DeviceFamily::iPad)
        } else {
            Err(())
        }
    }
}

/// Which way up the device is held.
#[derive(Clone, Copy, PartialEq, Eq, Structural, Debug)]
pub enum DeviceOrientation {
    Portrait,
    LandscapeLeft,
    LandscapeRight,
}

/// The size of the app's screen in the given orientation, scaled by
/// `scale_hack`.
pub open spec fn size_for_orientation_spec(family: DeviceFamily, orientation: DeviceOrientation, scale_hack: u32) -> (int, int) {
    let (w, h) = portrait_size_spec(family);
    match orientation {
        DeviceOrientation::Portrait => (w * scale_hack, h * scale_hack),
        _ => (h * scale_hack, w * scale_hack),
    }
}

/// The window size for the app's screen in the given orientation, scaled by
/// `scale_hack` (at least 1).
pub fn size_for_orientation(family: DeviceFamily, orientation: DeviceOrientation, scale_hack: u32) -> (r: (u32, u32))
    requires
        scale_hack >= 1,
        1024 * scale_hack <= u32::MAX,
    ensures
        (r.0 as int, r.1 as int) == size_for_orientation_spec(family, orientation, scale_hack),
{
    let (width, height) = family.portrait_size();
    assert(width * scale_hack <= 1024 * scale_hack && height * scale_hack <= 1024 * scale_hack) by (nonlinear_arith)
        requires
            width <= 1024,
            height <= 1024,
    ;
    match orientation {
        DeviceOrientation::Portrait => (width * scale_hack, height * scale_hack),
        DeviceOrientation::LandscapeLeft => (height * scale_hack, width * scale_hack),
        DeviceOrientation::LandscapeRight => (height * scale_hack, width * scale_hack),
    }
}

/// A full screen of the given size turned to the orientation: the short side
/// across in portrait, the long side across in landscape.
pub fn rotate_fullscreen_size(orientation: DeviceOrientation, screen_size: (u32, u32)) -> (r: (u32, u32))
    ensures
        ({
            let short = if screen_size.0 < screen_size.1 { screen_size.0 } else { screen_size.1 };
            let long = if screen_size.0 < screen_size.1 { screen_size.1 } else { screen_size.0 };
            r == if orientation is Portrait { (short, long) } else { (long, short) }
        }),
{
    let (short_side, long_side) = if screen_size.0 < screen_size.1 {
        (screen_size.0, screen_size.1)
    } else {
        (screen_size.1, screen_size.0)
    };
    match orientation {
        DeviceOrientation::Portrait => (short_side, long_side),
        DeviceOrientation::LandscapeLeft | DeviceOrientation::LandscapeRight => (long_side, short_side),
    }
}

/// The value of SDL's orientation hint for an orientation. The landscape
/// names are swapped on purpose: SDL names the content's orientation.
pub fn orientation_hint(orientation: DeviceOrientation) -> (r: &'static str)
    ensures
        r@ == match orientation {
            DeviceOrientation::Portrait => "Portrait"@,
            DeviceOrientation::LandscapeLeft => "LandscapeRight"@,
            DeviceOrientation::LandscapeRight => "LandscapeLeft"@,
        },
{
    match orientation {
        DeviceOrientation::Portrait => "Portrait",
        DeviceOrientation::LandscapeLeft => "LandscapeRight",
        DeviceOrientation::LandscapeRight => "LandscapeLeft",
    }
}

/// The new size of a window that is turned to `new`, when it has to be
/// resized: only a window that is not full-screen is, and only when the
/// orientation changes.
pub fn rotated_window_size(
    family: DeviceFamily,
    current: DeviceOrientation,
    new: DeviceOrientation,
    fullscreen: bool,
    rotatable_fullscreen: bool,
    scale_hack: u32,
) -> (r: Option<(u32, u32)>)
    requires
        scale_hack >= 1,
        1024 * scale_hack <= u32::MAX,
    ensures
        (new == current || fullscreen || rotatable_fullscreen) ==> r is None,
        !(new == current || fullscreen || rotatable_fullscreen) ==> (r matches Some(s)
            && (s.0 as int, s.1 as int) == size_for_orientation_spec(family, new, scale_hack)),
{
    if new == current || fullscreen || rotatable_fullscreen {
        None
    } else {
        Some(size_for_orientation(family, new, scale_hack))
    }
}

/// Buttons of a game controller that can be mapped to touches.
#[derive(Clone, Copy, PartialEq, Eq, Structural, Debug, Hash)]
pub enum Button {
    DPadLeft,
    DPadUp,
    DPadRight,
    DPadDown,
    Start,
    A,
    B,
    X,
    Y,
    LeftShoulder,
}

/// Where a touch comes from.
#[derive(Clone, Copy, PartialEq, Eq, Structural, Debug, Hash)]
pub enum FingerId {
    Mouse,
    Touch(i64),
    VirtualCursor,
    ButtonToTouch(Button),
    StickToTouch,
    DpadToTouch,
}

/// Text typed while text input is on.
#[derive(Debug)]
pub enum TextInputEvent {
    Text(String),
    Backspace,
    Return,
}

/// The state of the battery, as the host reports it.
#[derive(Clone, Copy, PartialEq, Eq, Structural, Debug)]
pub enum BatteryState {
    Unknown,
    OnBattery,
    NoBattery,
    Charging,
    Full,
}

/// The graphics APIs a context can be made for.
#[derive(Clone, Copy, PartialEq, Eq, Structural, Debug)]
pub enum GLVersion {
    /// OpenGL ES 1.1
    GLES11,
    /// OpenGL ES 2.0
    GLES20,
    /// OpenGL 2.1 compatibility profile
    GL21Compat,
}

/// The profile a context is made with.
#[derive(Clone, Copy, PartialEq, Eq, Structural, Debug)]
pub enum GLProfile {
    GLES,
    Compatibility,
}

/// The context version (major, minor) and profile to ask for.
pub fn gl_context_attributes(version: GLVersion) -> (r: (u8, u8, GLProfile))
    ensures
        r == match version {
            GLVersion::GLES11 => (1u8, 1u8, GLProfile::GLES),
            GLVersion::GLES20 => (2u8, 0u8, GLProfile::GLES),
            GLVersion::GL21Compat => (2u8, 1u8, GLProfile::Compatibility),
        },
{
    match version {
        GLVersion::GLES11 => (1, 1, GLProfile::GLES),
        GLVersion::GLES20 => (2, 0, GLProfile::GLES),
        GLVersion::GL21Compat => (2, 1, GLProfile::Compatibility),
    }
}

/// What a touch does.
#[derive(Clone, Copy, PartialEq, Eq, Structural, Debug)]
pub enum TouchPhase {
    Down,
    Move,
    Up,
}

/// The directions of the controller's d-pad held down, and whether the
/// touch they make is on the screen.
#[derive(Clone, Copy, PartialEq, Eq, Structural, Debug)]
pub struct DpadState {
    pub left: bool,
    pub right: bool,
    pub up: bool,
    pub down: bool,
    pub active: bool,
}

impl DpadState {
    pub open spec fn any_held(self) -> bool {
        self.left || self.right || self.up || self.down
    }

    /// No direction held and no touch.
    pub fn new() -> (s: DpadState)
        ensures
            !s.any_held(),
            !s.active,
    {
        DpadState { left: false, right: false, up: false, down: false, active: false }
    }
}

/// The d-pad state after `button` was pressed or released.
pub open spec fn dpad_pressed(s: DpadState, button: Button, pressed: bool) -> DpadState {
    match button {
        Button::DPadLeft => DpadState { left: pressed, ..s },
        Button::DPadRight => DpadState { right: pressed, ..s },
        Button::DPadUp => DpadState { up: pressed, ..s },
        _ => DpadState { down: pressed, ..s },
    }
}

/// A d-pad button went down or up while the d-pad is mapped to a touch: the
/// new state, and the touch to send. The first direction pressed puts the
/// touch down, the last one released lifts it, and anything in between
/// moves it (to the offset the directions held give, which the caller
/// computes).
pub fn dpad_transition(s: DpadState, button: Button, pressed: bool) -> (r: (DpadState, Option<TouchPhase>))
    requires
        button is DPadLeft || button is DPadRight || button is DPadUp || button is DPadDown,
    ensures
        ({
            let held = dpad_pressed(s, button, pressed);
            &&& r.0.left == held.left && r.0.right == held.right && r.0.up == held.up && r.0.down == held.down
            &&& r.0.active == held.any_held()
            &&& r.1 == if !s.active && held.any_held() {
                Some(TouchPhase::Down)
            } else if s.active && held.any_held() {
                Some(TouchPhase::Move)
            } else if s.active {
                Some(TouchPhase::Up)
            } else {
                None::<TouchPhase>
            }
        }),
{
    let mut n = s;
    match button {
        Button::DPadLeft => n.left = pressed,
        Button::DPadRight => n.right = pressed,
        Button::DPadUp => n.up = pressed,
        _ => n.down = pressed,
    }
    let any_held = n.left || n.right || n.up || n.down;
    if !n.active && any_held {
        n.active = true;
        (n, Some(TouchPhase::Down))
    } else if n.active && any_held {
        (n, Some(TouchPhase::Move))
    } else if n.active && !any_held {
        n.active = false;
        (n, Some(TouchPhase::Up))
    } else {
        (n, None)
    }
}

/// The analog stick mapped to a touch moved: whether the touch is on the
/// screen now, and the touch to send. In the dead zone the touch is
/// lifted; out of it, it goes down or moves.
pub fn stick_transition(active: bool, in_deadzone: bool) -> (r: (bool, Option<TouchPhase>))
    ensures
        r.0 == !in_deadzone,
        r.1 == if in_deadzone {
            if active { Some(TouchPhase::Up) } else { None::<TouchPhase> }
        } else if !active {
            Some(TouchPhase::Down)
        } else {
            Some(TouchPhase::Move)
        },
{
    if in_deadzone {
        if !active {
            (false, None)
        } else {
            (false, Some(TouchPhase::Up))
        }
    } else if !active {
        (true, Some(TouchPhase::Down))
    } else {
        (true, Some(TouchPhase::Move))
    }
}

/// The touch the virtual cursor sends after the controller was read: down
/// or up when its button changed, a move while it is pressed and moved.
pub fn virtual_cursor_phase(pressed: bool, pressed_changed: bool, moved: bool) -> (r: Option<TouchPhase>)
    ensures
        r == if pressed && pressed_changed {
            Some(TouchPhase::Down)
        } else if !pressed && pressed_changed {
            Some(TouchPhase::Up)
        } else if pressed && moved {
            Some(TouchPhase::Move)
        } else {
            None::<TouchPhase>
        },
{
    if pressed && pressed_changed {
        Some(TouchPhase::Down)
    } else if !pressed && pressed_changed {
        Some(TouchPhase::Up)
    } else if pressed && moved {
        Some(TouchPhase::Move)
    } else {
        None
    }
}

/// Events waiting for the app, with one slot for an event that goes before
/// all others.
pub struct EventQueue<T> {
    high_priority: Option<T>,
    queue: Vec<T>,
}

impl<T> EventQueue<T> {
    /// The events in the order they come out.
    pub closed spec fn view(&self) -> Seq<T> {
        match self.high_priority {
            Some(e) => seq![e] + self.queue@,
            None => self.queue@,
        }
    }

    /// Whether the slot for a high-priority event is taken.
    pub closed spec fn has_high_priority(&self) -> bool {
        self.high_priority is Some
    }

    pub fn new() -> (q: EventQueue<T>)
        ensures
            q@ == Seq::<T>::empty(),
            !q.has_high_priority(),
    {
        EventQueue { high_priority: None, queue: Vec::new() }
    }

    /// Add an event after all others.
    pub fn push_back(&mut self, e: T)
        ensures
            final(self)@ == old(self)@.push(e),
            final(self).has_high_priority() == old(self).has_high_priority(),
    {
        self.queue.push(e);
        proof {
            if self.high_priority is Some {
                assert(self@ =~= old(self)@.push(e));
            }
        }
    }

    /// Put an event before all others. Only one can wait there.
    pub fn set_high_priority(&mut self, e: T)
        requires
            !old(self).has_high_priority(),
        ensures
            final(self)@ == seq![e] + old(self)@,
            final(self).has_high_priority(),
    {
        self.high_priority = Some(e);
    }

    /// Take the next event: the high-priority one if there is one, else the
    /// oldest.
    pub fn pop_event(&mut self) -> (r: Option<T>)
        ensures
            old(self)@.len() == 0 ==> r is None && final(self)@ == old(self)@,
            old(self)@.len() > 0 ==> r == Some(old(self)@[0]) && final(self)@ == old(self)@.drop_first(),
            !final(self).has_high_priority(),
    {
        match self.high_priority.take() {
            Some(e) => {
                assert(old(self)@.drop_first() =~= self@);
                Some(e)
            },
            None => {
                if self.queue.len() == 0 {
                    None
                } else {
                    let e = self.queue.remove(0);
                    assert(old(self)@.drop_first() =~= self@);
                    Some(e)
                }
            },
        }
    }
}

} // verus!

verus! {

/// What the host window reports, as far as the decisions below read it.
#[derive(Clone, Copy, PartialEq, Eq, Structural, Debug)]
pub enum HostEvent {
    Quit,
    /// A mouse button went down, moved or went up; whether it is the left
    /// button (for a move: whether the left button is held).
    MouseDown(bool),
    MouseMove(bool),
    MouseUp(bool),
    ControllerAdded,
    ControllerRemoved,
    ControllerButton,
    ControllerAxis,
    AppWillEnterBackground,
    AppTerminating,
    FingerDown,
    FingerMove,
    FingerUp,
    /// A key went down: F12, Backspace, Return, or another.
    KeyF12,
    KeyBackspace,
    KeyReturn,
    KeyOther,
    TextInput,
    Other,
}

/// What the window does with a host event.
#[derive(Clone, Copy, PartialEq, Eq, Structural, Debug)]
pub enum HostEventDecision {
    /// Queue `Quit` for the app.
    QueueQuit,
    /// Queue a touch of the mouse, in this phase.
    QueueMouseTouch(TouchPhase),
    /// Queue a touch of a finger, in this phase.
    QueueFingerTouch(TouchPhase),
    /// Open or close a game controller.
    OpenController,
    CloseController,
    /// Work the button or stick of a game controller.
    ControllerInput,
    /// Put `AppWillTerminate` in the high-priority slot and poll no more.
    TerminateAndStopPolling,
    /// Queue the debugger request.
    QueueEnterDebugger,
    /// Queue a text input event.
    QueueBackspace,
    QueueReturn,
    QueueText,
    /// Nothing.
    Ignore,
}

/// What the window does with a host event: mouse events with the left
/// button are touches, the app going to the background is ignored, and the
/// app terminating takes the high-priority slot and ends polling.
pub fn host_event_decision(e: HostEvent) -> (r: HostEventDecision)
    ensures
        r == match e {
            HostEvent::Quit => HostEventDecision::QueueQuit,
            HostEvent::MouseDown(left) => if left { HostEventDecision::QueueMouseTouch(TouchPhase::Down) } else { HostEventDecision::Ignore },
            HostEvent::MouseMove(left) => if left { HostEventDecision::QueueMouseTouch(TouchPhase::Move) } else { HostEventDecision::Ignore },
            HostEvent::MouseUp(left) => if left { HostEventDecision::QueueMouseTouch(TouchPhase::Up) } else { HostEventDecision::Ignore },
            HostEvent::ControllerAdded => HostEventDecision::OpenController,
            HostEvent::ControllerRemoved => HostEventDecision::CloseController,
            HostEvent::ControllerButton => HostEventDecision::ControllerInput,
            HostEvent::ControllerAxis => HostEventDecision::ControllerInput,
            HostEvent::AppWillEnterBackground => HostEventDecision::Ignore,
            HostEvent::AppTerminating => HostEventDecision::TerminateAndStopPolling,
            HostEvent::FingerDown => HostEventDecision::QueueFingerTouch(TouchPhase::Down),
            HostEvent::FingerMove => HostEventDecision::QueueFingerTouch(TouchPhase::Move),
            HostEvent::FingerUp => HostEventDecision::QueueFingerTouch(TouchPhase::Up),
            HostEvent::KeyF12 => HostEventDecision::QueueEnterDebugger,
            HostEvent::KeyBackspace => HostEventDecision::QueueBackspace,
            HostEvent::KeyReturn => HostEventDecision::QueueReturn,
            HostEvent::KeyOther => HostEventDecision::Ignore,
            HostEvent::TextInput => HostEventDecision::QueueText,
            HostEvent::Other => HostEventDecision::Ignore,
        },
{
    match e {
        HostEvent::Quit => HostEventDecision::QueueQuit,
        HostEvent::MouseDown(left) => if left { HostEventDecision::QueueMouseTouch(TouchPhase::Down) } else { HostEventDecision::Ignore },
        HostEvent::MouseMove(left) => if left { HostEventDecision::QueueMouseTouch(TouchPhase::Move) } else { HostEventDecision::Ignore },
        HostEvent::MouseUp(left) => if left { HostEventDecision::QueueMouseTouch(TouchPhase::Up) } else { HostEventDecision::Ignore },
        HostEvent::ControllerAdded => HostEventDecision::OpenController,
        HostEvent::ControllerRemoved => HostEventDecision::CloseController,
        HostEvent::ControllerButton => HostEventDecision::ControllerInput,
        HostEvent::ControllerAxis => HostEventDecision::ControllerInput,
        HostEvent::AppWillEnterBackground => HostEventDecision::Ignore,
        HostEvent::AppTerminating => HostEventDecision::TerminateAndStopPolling,
        HostEvent::FingerDown => HostEventDecision::QueueFingerTouch(TouchPhase::Down),
        HostEvent::FingerMove => HostEventDecision::QueueFingerTouch(TouchPhase::Move),
        HostEvent::FingerUp => HostEventDecision::QueueFingerTouch(TouchPhase::Up),
        HostEvent::KeyF12 => HostEventDecision::QueueEnterDebugger,
        HostEvent::KeyBackspace => HostEventDecision::QueueBackspace,
        HostEvent::KeyReturn => HostEventDecision::QueueReturn,
        HostEvent::KeyOther => HostEventDecision::Ignore,
        HostEvent::TextInput => HostEventDecision::QueueText,
        HostEvent::Other => HostEventDecision::Ignore,
    }
}

} // verus!

verus! {

/// The app's screen is taller than wide in portrait, at the family's size
/// times the scale; in either landscape orientation it is the portrait
/// screen turned on its side: wider than tall, with the sides swapped.
pub proof fn lemma_orientation_sizes(f: DeviceFamily, o: DeviceOrientation, s: u32)
    requires
        s >= 1,
    ensures
        size_for_orientation_spec(f, DeviceOrientation::Portrait, s) == (portrait_size_spec(f).0 * s, portrait_size_spec(f).1 * s),
        size_for_orientation_spec(f, DeviceOrientation::Portrait, s).0 < size_for_orientation_spec(f, DeviceOrientation::Portrait, s).1,
        o != DeviceOrientation::Portrait ==> {
            let p = size_for_orientation_spec(f, DeviceOrientation::Portrait, s);
            &&& size_for_orientation_spec(f, o, s) == (p.1, p.0)
            &&& size_for_orientation_spec(f, o, s).0 > size_for_orientation_spec(f, o, s).1
        },
{
    let (w, h) = portrait_size_spec(f);
    assert(w < h);
    assert(w * s < h * s) by (nonlinear_arith)
        requires
            w < h,
            s >= 1,
    ;
}

} // verus!
