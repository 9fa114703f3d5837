//! Decisions of UIKit: what to do with each window event, how the app is
//! started, and which nib file a view controller loads. The messages these
//! decisions lead to are sent by the caller.
use vstd::prelude::*;
use crate::dyld::{CustomConstant, make_custom_constant, custom_constant_words, words_at, constant_block_size, HostConstant};
use crate::mem::Mem;
use crate::text::{answered, concat, seq_ends_with, seq_starts_with, str_ends_with, str_starts_with};
use crate::window::EventQueue;

verus! {

/// What kind of window event an event is.
#[derive(Clone, Copy, PartialEq, Eq, Structural, Debug)]
pub enum EventKind {
    Quit,
    Touches,
    AppWillResignActive,
    AppWillTerminate,
    EnterDebugger,
    TextInput,
}

/// What UIKit does with a window event.
#[derive(Clone, Copy, PartialEq, Eq, Structural, Debug)]
pub enum EventAction {
    /// End the app.
    Exit,
    /// Hand the touches to the touch handling.
    Touches,
    /// Nothing.
    Ignore,
    /// Stop in the debugger.
    EnterDebugger,
    /// Hand the text to the first responder, if it is a text field.
    TextInput,
}

/// The action for an event of the given kind. Resigning active and
/// terminating are ignored, so the app is never paused; the debugger is
/// entered only when one is connected.
pub open spec fn event_action_spec(kind: EventKind, debugging_enabled: bool) -> EventAction {
    match kind {
        EventKind::Quit => EventAction::Exit,
        EventKind::Touches => EventAction::Touches,
        EventKind::AppWillResignActive => EventAction::Ignore,
        EventKind::AppWillTerminate => EventAction::Ignore,
        EventKind::EnterDebugger => if debugging_enabled { EventAction::EnterDebugger } else { EventAction::Ignore },
        EventKind::TextInput => EventAction::TextInput,
    }
}

/// The action for an event of the given kind.
pub fn event_action(kind: EventKind, debugging_enabled: bool) -> (r: EventAction)
    ensures
        r == event_action_spec(kind, debugging_enabled),
{
    match kind {
        EventKind::Quit => EventAction::Exit,
        EventKind::Touches => EventAction::Touches,
        EventKind::AppWillResignActive => EventAction::Ignore,
        EventKind::AppWillTerminate => EventAction::Ignore,
        EventKind::EnterDebugger => if debugging_enabled {
            EventAction::EnterDebugger
        } else {
            EventAction::Ignore
        },
        EventKind::TextInput => EventAction::TextInput,
    }
}

/// Take the waiting events off the queue, in order, with what to do with
/// each; a quit ends the app, so the events after it stay where they are.
pub fn handle_events<T, F: Fn(&T) -> EventKind>(queue: &mut EventQueue<T>, kind_of: F, debugging_enabled: bool) -> (r: Vec<(T, EventAction)>)
    requires
        forall|e: &T| kind_of.requires((e,)),
    ensures
        r@.len() <= old(queue)@.len(),
        final(queue)@ == old(queue)@.skip(r@.len() as int),
        forall|i: int| 0 <= i < r@.len() ==> (#[trigger] r@[i]).0 == old(queue)@[i] && exists|k: EventKind|
            kind_of.ensures((&old(queue)@[i],), k) && r@[i].1 == event_action_spec(k, debugging_enabled),
        forall|i: int| 0 <= i < r@.len() - 1 ==> (#[trigger] r@[i]).1 != EventAction::Exit,
        r@.len() < old(queue)@.len() ==> r@.len() > 0 && r@.last().1 == EventAction::Exit,
{
    let mut r: Vec<(T, EventAction)> = Vec::new();
    loop
        invariant_except_break
            forall|i: int| 0 <= i < r@.len() ==> (#[trigger] r@[i]).1 != EventAction::Exit,
        invariant
            forall|e: &T| kind_of.requires((e,)),
            r@.len() <= old(queue)@.len(),
            queue@ == old(queue)@.skip(r@.len() as int),
            forall|i: int| 0 <= i < r@.len() ==> (#[trigger] r@[i]).0 == old(queue)@[i] && exists|k: EventKind|
                kind_of.ensures((&old(queue)@[i],), k) && r@[i].1 == event_action_spec(k, debugging_enabled),
        ensures
            r@.len() <= old(queue)@.len(),
            queue@ == old(queue)@.skip(r@.len() as int),
            forall|i: int| 0 <= i < r@.len() ==> (#[trigger] r@[i]).0 == old(queue)@[i] && exists|k: EventKind|
                kind_of.ensures((&old(queue)@[i],), k) && r@[i].1 == event_action_spec(k, debugging_enabled),
            forall|i: int| 0 <= i < r@.len() - 1 ==> (#[trigger] r@[i]).1 != EventAction::Exit,
            r@.len() < old(queue)@.len() ==> r@.len() > 0 && r@.last().1 == EventAction::Exit,
        decreases queue@.len(),
    {
        let ghost before = queue@;
        let e = match queue.pop_event() {
            Some(e) => e,
            None => {
                assert(old(queue)@.skip(r@.len() as int).len() == 0);
                assert(forall|i: int| 0 <= i < r@.len() - 1 ==> (#[trigger] r@[i]).1 != EventAction::Exit);
                break;
            },
        };
        let kind = kind_of(&e);
        let action = event_action(kind, debugging_enabled);
        let ghost n = r@.len();
        proof {
            assert(e == old(queue)@[n as int]);
            assert(queue@ =~= old(queue)@.skip((n + 1) as int));
        }
        r.push((e, action));
        proof {
            assert(r@[n as int].0 == old(queue)@[n as int]);
            assert(kind_of.ensures((&old(queue)@[n as int],), kind));
        }
        if action == EventAction::Exit {
            break;
        }
    }
    r
}

/// The class of the shared application object: the one named, or
/// `UIApplication`.
pub fn principal_class_name(name: Option<String>) -> (r: String)
    ensures
        r@ == match name {
            Some(n) => n@,
            None => "UIApplication"@,
        },
{
    match name {
        Some(n) => n,
        None => "UIApplication".to_owned(),
    }
}

/// How the application gets its delegate.
#[derive(Clone, Copy, PartialEq, Eq, Structural, Debug)]
pub enum DelegateSetup {
    /// The main nib set one: keep it, retained.
    KeepAndRetain,
    /// The delegate class is the principal class: the application is its
    /// own delegate.
    SelfDelegate,
    /// Make an object of the delegate class.
    Instantiate,
}

/// How the application gets its delegate, given whether the nib set one
/// and whether the delegate class name equals the principal class name.
pub fn delegate_setup(has_delegate: bool, names_equal: bool) -> (r: DelegateSetup)
    ensures
        r == if has_delegate {
            DelegateSetup::KeepAndRetain
        } else if names_equal {
            DelegateSetup::SelfDelegate
        } else {
            DelegateSetup::Instantiate
        },
{
    if has_delegate {
        DelegateSetup::KeepAndRetain
    } else if names_equal {
        DelegateSetup::SelfDelegate
    } else {
        DelegateSetup::Instantiate
    }
}

/// Which launch message the delegate gets.
#[derive(Clone, Copy, PartialEq, Eq, Structural, Debug)]
pub enum LaunchMessage {
    /// `application:didFinishLaunchingWithOptions:`
    WithOptions,
    /// `applicationDidFinishLaunching:`
    Plain,
    /// Neither.
    NoMessage,
}

/// The launch message for a delegate that implements the given methods.
/// Toy Story Mania takes the old path: it is never sent the one with
/// options.
pub fn launch_message(bundle_identifier: &str, has_with_options: bool, has_plain: bool) -> (r: LaunchMessage)
    ensures
        r == if has_with_options && !seq_starts_with(bundle_identifier@, "com.disney.toystory"@) {
            LaunchMessage::WithOptions
        } else if has_plain {
            LaunchMessage::Plain
        } else {
            LaunchMessage::NoMessage
        },
{
    let with_options = has_with_options && !str_starts_with(bundle_identifier, "com.disney.toystory");
    if with_options {
        LaunchMessage::WithOptions
    } else if has_plain {
        LaunchMessage::Plain
    } else {
        LaunchMessage::NoMessage
    }
}

/// The suffixes tried, in order, after a nib's base name.
pub open spec fn nib_suffixes() -> Seq<Seq<char>> {
    seq![""@, "~iphone"@, "~ipad"@, "-iPhone"@, "-iPad"@, "_iPhone"@, "_iPad"@]
}

fn nib_suffix(i: usize) -> (r: &'static str)
    requires
        i < 7,
    ensures
        r@ == nib_suffixes()[i as int],
{
    match i {
        0 => "",
        1 => "~iphone",
        2 => "~ipad",
        3 => "-iPhone",
        4 => "-iPad",
        5 => "_iPhone",
        _ => "_iPad",
    }
}

/// Candidate `j` for the nib `base`: the base name and suffix `j`.
pub open spec fn nib_candidate(base: Seq<char>, j: int) -> Seq<char> {
    base + nib_suffixes()[j]
}

/// What the search for the nib `base` gives, where `has_nib` says whether
/// the bundle has a nib: the first candidate it says yes to; none if it says
/// no to all.
pub open spec fn nib_search<E: Fn(&str) -> bool>(has_nib: E, base: Seq<char>, r: Option<Seq<char>>) -> bool {
    match r {
        Some(name) => exists|i: int| 0 <= i < 7 && name == nib_candidate(base, i) && answered(has_nib, name, true)
            && forall|j: int| 0 <= j < i ==> answered(has_nib, #[trigger] nib_candidate(base, j), false),
        None => forall|j: int| 0 <= j < 7 ==> answered(has_nib, #[trigger] nib_candidate(base, j), false),
    }
}

/// The view of an optional string.
pub open spec fn opt_view(r: Option<String>) -> Option<Seq<char>> {
    match r {
        Some(s) => Some(s@),
        None => None,
    }
}

/// The first of the candidate names for the nib `base` (the base name with
/// each suffix) for which `has_nib` says the bundle has a nib.
pub fn check_and_resolve_nib<E: Fn(&str) -> bool>(base: &str, has_nib: &E) -> (r: Option<String>)
    requires
        forall|s: &str| has_nib.requires((s,)),
    ensures
        nib_search(*has_nib, base@, opt_view(r)),
{
    let mut i: usize = 0;
    while i < 7
        invariant
            i <= 7,
            forall|s: &str| has_nib.requires((s,)),
            forall|j: int| 0 <= j < i ==> answered(*has_nib, #[trigger] nib_candidate(base@, j), false),
        decreases 7 - i,
    {
        let candidate = concat(base, nib_suffix(i));
        let cs = candidate.as_str();
        let found = has_nib(cs);
        assert(answered(*has_nib, nib_candidate(base@, i as int), found));
        if found {
            return Some(candidate);
        }
        i = i + 1;
    }
    None
}

/// The class name without its last ten characters (`Controller`).
pub open spec fn without_controller(class_name: Seq<char>) -> Seq<char> {
    class_name.subrange(0, class_name.len() - 10)
}

/// The nib a view controller of the class `class_name` loads: one named
/// after the class, or, for a class whose name ends in "Controller", after
/// the name without it.
pub fn resolve_nib_name_from_class<E: Fn(&str) -> bool>(class_name: &str, has_nib: &E) -> (r: Option<String>)
    requires
        forall|s: &str| has_nib.requires((s,)),
    ensures
        (r is Some && nib_search(*has_nib, class_name@, opt_view(r))) || (nib_search(*has_nib, class_name@, None)
            && if seq_ends_with(class_name@, "Controller"@) {
                nib_search(*has_nib, without_controller(class_name@), opt_view(r))
            } else {
                r is None
            }),
{
    match check_and_resolve_nib(class_name, has_nib) {
        Some(n) => {
            return Some(n);
        },
        None => {},
    }
    if str_ends_with(class_name, "Controller") {
        proof {
            reveal_strlit("Controller");
        }
        let chars = crate::text::chars_of(class_name);
        let short_chars = crate::text::copy_range(chars.as_slice(), 0, chars.len() - 10);
        let short = crate::text::string_from_chars(short_chars.as_slice());
        assert(short@ == without_controller(class_name@));
        return check_and_resolve_nib(short.as_str(), has_nib);
    }
    None
}

/// The constant `UIBackgroundTaskInvalid`, in memory allocated for it.
pub fn ui_background_task_invalid(mem: &mut Mem) -> (r: u32)
    requires
        old(mem).wf(),
        old(mem).free_space() >= 64,
    ensures
        final(mem).wf(),
        r == old(mem).next_free_spec(),
        words_at(final(mem)@, r as int, seq![0xffff_ffffu32]),
        final(mem).next_free_spec() == old(mem).next_free_spec() + 16,
{
    let r = make_custom_constant(mem, CustomConstant::UIBackgroundTaskInvalid);
    assert(crate::mem::alloc_size(4) == 16);
    r
}

/// The constant `UIWindowLevelNormal` (0.0 as a float), in memory allocated
/// for it.
pub fn ui_window_level_normal(mem: &mut Mem) -> (r: u32)
    requires
        old(mem).wf(),
        old(mem).free_space() >= 64,
    ensures
        final(mem).wf(),
        r == old(mem).next_free_spec(),
        words_at(final(mem)@, r as int, seq![0u32]),
        final(mem).next_free_spec() == old(mem).next_free_spec() + 16,
{
    let r = make_custom_constant(mem, CustomConstant::UIWindowLevelNormal);
    assert(crate::mem::alloc_size(4) == 16);
    r
}

/// The constant `UIWindowLevelStatusBar` (1000.0 as a float), in memory
/// allocated for it.
pub fn ui_window_level_status_bar(mem: &mut Mem) -> (r: u32)
    requires
        old(mem).wf(),
        old(mem).free_space() >= 64,
    ensures
        final(mem).wf(),
        r == old(mem).next_free_spec(),
        words_at(final(mem)@, r as int, seq![0x447a_0000u32]),
        final(mem).next_free_spec() == old(mem).next_free_spec() + 16,
{
    let r = make_custom_constant(mem, CustomConstant::UIWindowLevelStatusBar);
    assert(crate::mem::alloc_size(4) == 16);
    r
}

/// The constant `UIWindowLevelAlert` (2000.0 as a float), in memory
/// allocated for it.
pub fn ui_window_level_alert(mem: &mut Mem) -> (r: u32)
    requires
        old(mem).wf(),
        old(mem).free_space() >= 64,
    ensures
        final(mem).wf(),
        r == old(mem).next_free_spec(),
        words_at(final(mem)@, r as int, seq![0x44fa_0000u32]),
        final(mem).next_free_spec() == old(mem).next_free_spec() + 16,
{
    let r = make_custom_constant(mem, CustomConstant::UIWindowLevelAlert);
    assert(crate::mem::alloc_size(4) == 16);
    r
}

/// The constant `GLKMatrix4Identity` (the 4×4 identity matrix of floats),
/// in memory allocated for it.
pub fn glk_matrix4_identity(mem: &mut Mem) -> (r: u32)
    requires
        old(mem).wf(),
        old(mem).free_space() >= 64,
    ensures
        final(mem).wf(),
        r == old(mem).next_free_spec(),
        words_at(final(mem)@, r as int, custom_constant_words(CustomConstant::GLKMatrix4Identity)),
        final(mem).next_free_spec() == old(mem).next_free_spec() + 64,
{
    let r = make_custom_constant(mem, CustomConstant::GLKMatrix4Identity);
    assert(crate::mem::alloc_size(64) == 64);
    r
}


/// One thing `exit` has done while the app terminates.
#[derive(Clone, Copy, Debug, PartialEq, Eq, Structural)]
pub enum ExitStep {
    /// `[[NSUserDefaults standardUserDefaults] synchronize]`.
    SynchronizeUserDefaults,
    /// `[delegate applicationWillResignActive:app]`.
    DelegateWillResignActive,
    /// Post `UIApplicationWillResignActiveNotification`.
    PostWillResignActive,
    /// `[delegate applicationWillTerminate:app]`.
    DelegateWillTerminate,
    /// Post `UIApplicationWillTerminateNotification`.
    PostWillTerminate,
}

/// The first phase of `exit`: save the user defaults (not in the app
/// picker), tell the delegate if it implements
/// `applicationWillResignActive:`, and post the notification.
pub fn exit_resign_phase(is_app_picker: bool, delegate_has_will_resign: bool) -> (r: Vec<ExitStep>)
    ensures
        r@ == (if is_app_picker { Seq::empty() } else { seq![ExitStep::SynchronizeUserDefaults] })
            + (if delegate_has_will_resign { seq![ExitStep::DelegateWillResignActive] } else { Seq::empty() })
            + seq![ExitStep::PostWillResignActive],
{
    let mut r: Vec<ExitStep> = Vec::new();
    if !is_app_picker {
        r.push(ExitStep::SynchronizeUserDefaults);
    }
    if delegate_has_will_resign {
        r.push(ExitStep::DelegateWillResignActive);
    }
    r.push(ExitStep::PostWillResignActive);
    proof {
        assert(r@ =~= (if is_app_picker { Seq::empty() } else { seq![ExitStep::SynchronizeUserDefaults] })
            + (if delegate_has_will_resign { seq![ExitStep::DelegateWillResignActive] } else { Seq::empty() })
            + seq![ExitStep::PostWillResignActive]);
    }
    r
}

/// The second phase of `exit` (the delegate is asked again): tell it if it
/// implements `applicationWillTerminate:`, and post the notification; the
/// process then ends.
pub fn exit_terminate_phase(delegate_has_will_terminate: bool) -> (r: Vec<ExitStep>)
    ensures
        r@ == (if delegate_has_will_terminate { seq![ExitStep::DelegateWillTerminate] } else { Seq::empty() })
            + seq![ExitStep::PostWillTerminate],
{
    let mut r: Vec<ExitStep> = Vec::new();
    if delegate_has_will_terminate {
        r.push(ExitStep::DelegateWillTerminate);
    }
    r.push(ExitStep::PostWillTerminate);
    proof {
        assert(r@ =~= (if delegate_has_will_terminate { seq![ExitStep::DelegateWillTerminate] } else { Seq::empty() })
            + seq![ExitStep::PostWillTerminate]);
    }
    r
}

} // verus!

verus! {

/// Where `UIApplicationMain` stands in starting the app.
#[derive(Clone, Copy, PartialEq, Eq, Structural, Debug)]
pub enum LaunchState {
    /// Nothing done yet.
    Start,
    /// The shared application object was made; the bundle's main nib is
    /// being looked for.
    Created,
    /// The main nib's path was asked of the main bundle.
    NibLookedUp,
    /// The main nib was loaded (or there was none); the status bar is next.
    NibDone,
    /// The application was asked for its delegate.
    DelegateAsked,
    /// The delegate is set up; the delegate's launch methods are asked.
    DelegateSet,
    /// The launch message and notification were sent; views are laid out.
    Launched,
    /// The views were laid out; the app becomes active.
    LaidOut,
    /// The app is active; the device orientation is posted.
    Active,
    /// The main run loop runs.
    Running,
}

/// What the caller found out by doing the last action.
#[derive(Clone, Copy, PartialEq, Eq, Structural, Debug)]
pub enum LaunchEvent {
    /// The action was done; nothing was to be found out.
    Done,
    /// Whether the bundle names a main nib file (for the device family).
    HasMainNib(bool),
    /// Whether the main bundle has a path for the main nib.
    NibPathFound(bool),
    /// Whether the bundle hides the status bar.
    StatusBarHidden(bool),
    /// Whether the application has a delegate (set by the nib), and
    /// whether the delegate class name equals the principal class name.
    Delegate(bool, bool),
    /// The launch message the delegate takes (see [launch_message]).
    LaunchMethods(LaunchMessage),
    /// Whether the delegate implements `applicationDidBecomeActive:`.
    BecomeActiveMethod(bool),
}

/// What the caller does next for `UIApplicationMain`.
#[derive(Clone, Copy, PartialEq, Eq, Structural, Debug)]
pub enum LaunchAction {
    /// Make the shared application object of the principal class (see
    /// [principal_class_name]) and ask whether the bundle names a main nib.
    CreateApplication,
    /// Ask the main bundle for the path of the main nib.
    FindMainNib,
    /// Load the main nib with the application as its owner, then ask
    /// whether the status bar is hidden.
    LoadMainNib,
    /// Ask whether the status bar is hidden.
    CheckStatusBar,
    /// Hide the status bar, then ask the application for its delegate.
    HideStatusBarAndAskDelegate,
    /// Ask the application for its delegate.
    AskDelegate,
    /// Set up the delegate as given, drain the pool, and ask which launch
    /// message the delegate takes.
    SetUpDelegate(DelegateSetup),
    /// Send the launch message (if any), post
    /// `UIApplicationDidFinishLaunchingNotification`, and lay out all views.
    FinishLaunching(LaunchMessage),
    /// Ask whether the delegate implements `applicationDidBecomeActive:`.
    AskBecomeActive,
    /// Send `applicationDidBecomeActive:` if the delegate has it, post
    /// `UIApplicationDidBecomeActiveNotification`, and post the device
    /// orientation if the device generates such notifications.
    BecomeActive(bool),
    /// Run the main run loop.
    RunMainLoop,
    /// The event does not fit the state: nothing to do.
    Stay,
}

/// One step of `UIApplicationMain`: from where it stands and what the last
/// action found out, the next state and the next action. Events that do not
/// fit the state leave it as it is.
pub fn launch_step(state: LaunchState, event: LaunchEvent) -> (r: (LaunchState, LaunchAction))
    ensures
        r == match (state, event) {
            (LaunchState::Start, LaunchEvent::Done) => (LaunchState::Created, LaunchAction::CreateApplication),
            (LaunchState::Created, LaunchEvent::HasMainNib(true)) => (LaunchState::NibLookedUp, LaunchAction::FindMainNib),
            (LaunchState::Created, LaunchEvent::HasMainNib(false)) => (LaunchState::NibDone, LaunchAction::CheckStatusBar),
            (LaunchState::NibLookedUp, LaunchEvent::NibPathFound(true)) => (LaunchState::NibDone, LaunchAction::LoadMainNib),
            (LaunchState::NibLookedUp, LaunchEvent::NibPathFound(false)) => (LaunchState::NibDone, LaunchAction::CheckStatusBar),
            (LaunchState::NibDone, LaunchEvent::StatusBarHidden(true)) => (LaunchState::DelegateAsked, LaunchAction::HideStatusBarAndAskDelegate),
            (LaunchState::NibDone, LaunchEvent::StatusBarHidden(false)) => (LaunchState::DelegateAsked, LaunchAction::AskDelegate),
            (LaunchState::DelegateAsked, LaunchEvent::Delegate(has, eq)) => (
                LaunchState::DelegateSet,
                LaunchAction::SetUpDelegate(if has {
                    DelegateSetup::KeepAndRetain
                } else if eq {
                    DelegateSetup::SelfDelegate
                } else {
                    DelegateSetup::Instantiate
                }),
            ),
            (LaunchState::DelegateSet, LaunchEvent::LaunchMethods(m)) => (LaunchState::Launched, LaunchAction::FinishLaunching(m)),
            (LaunchState::Launched, LaunchEvent::Done) => (LaunchState::LaidOut, LaunchAction::AskBecomeActive),
            (LaunchState::LaidOut, LaunchEvent::BecomeActiveMethod(b)) => (LaunchState::Active, LaunchAction::BecomeActive(b)),
            (LaunchState::Active, LaunchEvent::Done) => (LaunchState::Running, LaunchAction::RunMainLoop),
            _ => (state, LaunchAction::Stay),
        },
{
    match (state, event) {
        (LaunchState::Start, LaunchEvent::Done) => (LaunchState::Created, LaunchAction::CreateApplication),
        (LaunchState::Created, LaunchEvent::HasMainNib(has)) => if has {
            (LaunchState::NibLookedUp, LaunchAction::FindMainNib)
        } else {
            (LaunchState::NibDone, LaunchAction::CheckStatusBar)
        },
        (LaunchState::NibLookedUp, LaunchEvent::NibPathFound(found)) => if found {
            (LaunchState::NibDone, LaunchAction::LoadMainNib)
        } else {
            (LaunchState::NibDone, LaunchAction::CheckStatusBar)
        },
        (LaunchState::NibDone, LaunchEvent::StatusBarHidden(hidden)) => if hidden {
            (LaunchState::DelegateAsked, LaunchAction::HideStatusBarAndAskDelegate)
        } else {
            (LaunchState::DelegateAsked, LaunchAction::AskDelegate)
        },
        (LaunchState::DelegateAsked, LaunchEvent::Delegate(has, eq)) => (LaunchState::DelegateSet, LaunchAction::SetUpDelegate(delegate_setup(has, eq))),
        (LaunchState::DelegateSet, LaunchEvent::LaunchMethods(m)) => (LaunchState::Launched, LaunchAction::FinishLaunching(m)),
        (LaunchState::Launched, LaunchEvent::Done) => (LaunchState::LaidOut, LaunchAction::AskBecomeActive),
        (LaunchState::LaidOut, LaunchEvent::BecomeActiveMethod(b)) => (LaunchState::Active, LaunchAction::BecomeActive(b)),
        (LaunchState::Active, LaunchEvent::Done) => (LaunchState::Running, LaunchAction::RunMainLoop),
        _ => (state, LaunchAction::Stay),
    }
}

} // verus!

verus! {

/// The object a text input event goes to: the first responder, if there is
/// one and it is a `UITextField` (`is_text_field` says whether its class is
/// `UITextField` or a subclass); else the event is dropped.
pub fn text_input_receiver(first_responder: u32, is_text_field: bool) -> (r: Option<u32>)
    ensures
        r == if first_responder != 0 && is_text_field { Some(first_responder) } else { None::<u32> },
{
    if first_responder != 0 && is_text_field {
        Some(first_responder)
    } else {
        None
    }
}

} // verus!
