use touchhle::mem::Mem;
use touchhle::uikit::{
    check_and_resolve_nib, delegate_setup, event_action, exit_resign_phase, exit_terminate_phase, glk_matrix4_identity,
    handle_events, launch_message, launch_step, principal_class_name, resolve_nib_name_from_class, ui_background_task_invalid,
    ui_window_level_alert, ui_window_level_normal, DelegateSetup, EventAction, EventKind, ExitStep, LaunchAction, LaunchEvent, LaunchMessage,
    LaunchState, text_input_receiver,
};
use touchhle::window::EventQueue;

#[test]
fn event_actions() {
    assert_eq!(event_action(EventKind::Quit, false), EventAction::Exit);
    assert_eq!(event_action(EventKind::AppWillResignActive, false), EventAction::Ignore);
    assert_eq!(event_action(EventKind::EnterDebugger, false), EventAction::Ignore);
    assert_eq!(event_action(EventKind::EnterDebugger, true), EventAction::EnterDebugger);
    assert_eq!(event_action(EventKind::TextInput, false), EventAction::TextInput);
}

#[test]
fn events_after_quit_stay_queued() {
    let mut q: EventQueue<EventKind> = EventQueue::new();
    q.push_back(EventKind::Touches);
    q.push_back(EventKind::Quit);
    q.push_back(EventKind::Touches);
    let handled = handle_events(&mut q, |e: &EventKind| *e, false);
    assert_eq!(handled, vec![(EventKind::Touches, EventAction::Touches), (EventKind::Quit, EventAction::Exit)]);
    assert_eq!(q.pop_event(), Some(EventKind::Touches));
    assert_eq!(q.pop_event(), None);
}

#[test]
fn application_setup_decisions() {
    assert_eq!(principal_class_name(None), "UIApplication");
    assert_eq!(principal_class_name(Some("MyApp".to_string())), "MyApp");
    assert_eq!(delegate_setup(true, true), DelegateSetup::KeepAndRetain);
    assert_eq!(delegate_setup(false, true), DelegateSetup::SelfDelegate);
    assert_eq!(delegate_setup(false, false), DelegateSetup::Instantiate);
    assert_eq!(launch_message("com.example", true, true), LaunchMessage::WithOptions);
    assert_eq!(launch_message("com.disney.toystorymania", true, true), LaunchMessage::Plain);
    assert_eq!(launch_message("com.example", false, false), LaunchMessage::NoMessage);
}

#[test]
fn nibs_are_searched_in_order() {
    let has = |n: &str| n == "Main~ipad" || n == "Main-iPad";
    assert_eq!(check_and_resolve_nib("Main", &has), Some("Main~ipad".to_string()));
    let none = |_: &str| false;
    assert_eq!(check_and_resolve_nib("Main", &none), None);
    let short = |n: &str| n == "Game";
    assert_eq!(resolve_nib_name_from_class("GameController", &short), Some("Game".to_string()));
    let full = |n: &str| n == "GameController_iPhone";
    assert_eq!(resolve_nib_name_from_class("GameController", &full), Some("GameController_iPhone".to_string()));
    assert_eq!(resolve_nib_name_from_class("GameView", &short), None);
}

#[test]
fn constants_are_written_to_guest_memory() {
    let mut mem = Mem::new(0x1000, 0x100);
    let a = ui_background_task_invalid(&mut mem);
    assert_eq!(mem.read_u32(a), 0xffff_ffff);
    let n = ui_window_level_normal(&mut mem);
    assert_eq!(mem.read_u32(n), 0);
    let al = ui_window_level_alert(&mut mem);
    assert_eq!(mem.read_u32(al), 2000.0f32.to_bits());
    let m = glk_matrix4_identity(&mut mem);
    assert_eq!(mem.read_u32(m), 1.0f32.to_bits());
    assert_eq!(mem.read_u32(m + 4), 0);
    assert_eq!(mem.read_u32(m + 20), 1.0f32.to_bits());
}

#[test]
fn exit_sends_the_right_messages() {
    assert_eq!(
        exit_resign_phase(false, true),
        vec![ExitStep::SynchronizeUserDefaults, ExitStep::DelegateWillResignActive, ExitStep::PostWillResignActive]
    );
    assert_eq!(exit_resign_phase(true, false), vec![ExitStep::PostWillResignActive]);
    assert_eq!(exit_terminate_phase(true), vec![ExitStep::DelegateWillTerminate, ExitStep::PostWillTerminate]);
    assert_eq!(exit_terminate_phase(false), vec![ExitStep::PostWillTerminate]);
}

#[test]
fn launch_runs_through_to_the_main_loop() {
    let mut state = LaunchState::Start;
    let mut actions = Vec::new();
    let events = [
        LaunchEvent::Done,
        LaunchEvent::HasMainNib(true),
        LaunchEvent::NibPathFound(true),
        LaunchEvent::StatusBarHidden(false),
        LaunchEvent::Delegate(false, true),
        LaunchEvent::LaunchMethods(LaunchMessage::Plain),
        LaunchEvent::Done,
        LaunchEvent::BecomeActiveMethod(true),
        LaunchEvent::Done,
    ];
    for e in events {
        let (s, a) = launch_step(state, e);
        state = s;
        actions.push(a);
    }
    assert_eq!(state, LaunchState::Running);
    assert_eq!(
        actions,
        vec![
            LaunchAction::CreateApplication,
            LaunchAction::FindMainNib,
            LaunchAction::LoadMainNib,
            LaunchAction::AskDelegate,
            LaunchAction::SetUpDelegate(DelegateSetup::SelfDelegate),
            LaunchAction::FinishLaunching(LaunchMessage::Plain),
            LaunchAction::AskBecomeActive,
            LaunchAction::BecomeActive(true),
            LaunchAction::RunMainLoop,
        ]
    );
    assert_eq!(launch_step(LaunchState::Start, LaunchEvent::HasMainNib(true)), (LaunchState::Start, LaunchAction::Stay));
    assert_eq!(
        launch_step(LaunchState::Created, LaunchEvent::HasMainNib(false)),
        (LaunchState::NibDone, LaunchAction::CheckStatusBar)
    );
}

#[test]
fn text_goes_only_to_a_text_field_first_responder() {
    assert_eq!(text_input_receiver(0x500, true), Some(0x500));
    assert_eq!(text_input_receiver(0x500, false), None);
    assert_eq!(text_input_receiver(0, true), None);
}
