use touchhle::window::{
    dpad_transition, gl_context_attributes, orientation_hint, rotate_fullscreen_size, rotated_window_size,
    size_for_orientation, stick_transition, virtual_cursor_phase, Button, DeviceFamily, DeviceOrientation, DpadState,
    EventQueue, GLProfile, GLVersion, TouchPhase, host_event_decision, HostEvent, HostEventDecision,
};

#[test]
fn device_families() {
    assert_eq!(DeviceFamily::iPhone.portrait_size(), (320, 480));
    assert_eq!(DeviceFamily::iPhone5.portrait_size(), (320, 568));
    assert_eq!(DeviceFamily::iPad.portrait_size(), (768, 1024));
    assert_eq!(DeviceFamily::iPad.machine_name(), "iPad1,1");
    assert_eq!(DeviceFamily::iPhone5.name(), "iPhone5");
    assert_eq!(DeviceFamily::try_from_u64(1), Ok(DeviceFamily::iPhone));
    assert_eq!(DeviceFamily::try_from_u64(2), Ok(DeviceFamily::iPad));
    assert_eq!(DeviceFamily::try_from_u64(3), Err(()));
    assert_eq!(DeviceFamily::try_from_name("iphone5"), Ok(DeviceFamily::iPhone5));
    assert_eq!(DeviceFamily::try_from_name("IPAD"), Err(()));
}

#[test]
fn sizes_follow_orientation() {
    assert_eq!(size_for_orientation(DeviceFamily::iPhone, DeviceOrientation::Portrait, 1), (320, 480));
    assert_eq!(size_for_orientation(DeviceFamily::iPhone, DeviceOrientation::LandscapeLeft, 2), (960, 640));
    assert_eq!(rotate_fullscreen_size(DeviceOrientation::Portrait, (1920, 1080)), (1080, 1920));
    assert_eq!(rotate_fullscreen_size(DeviceOrientation::LandscapeRight, (1080, 1920)), (1920, 1080));
    assert_eq!(orientation_hint(DeviceOrientation::LandscapeLeft), "LandscapeRight");
    assert_eq!(orientation_hint(DeviceOrientation::Portrait), "Portrait");
}

#[test]
fn window_is_resized_only_when_needed() {
    let r = rotated_window_size(DeviceFamily::iPad, DeviceOrientation::Portrait, DeviceOrientation::LandscapeLeft, false, false, 1);
    assert_eq!(r, Some((1024, 768)));
    let same = rotated_window_size(DeviceFamily::iPad, DeviceOrientation::Portrait, DeviceOrientation::Portrait, false, false, 1);
    assert_eq!(same, None);
    let full = rotated_window_size(DeviceFamily::iPad, DeviceOrientation::Portrait, DeviceOrientation::LandscapeLeft, true, false, 1);
    assert_eq!(full, None);
}

#[test]
fn gl_contexts() {
    assert_eq!(gl_context_attributes(GLVersion::GLES11), (1, 1, GLProfile::GLES));
    assert_eq!(gl_context_attributes(GLVersion::GL21Compat), (2, 1, GLProfile::Compatibility));
}

#[test]
fn dpad_touch_goes_down_moves_and_lifts() {
    let s = DpadState::new();
    let (s, p) = dpad_transition(s, Button::DPadLeft, true);
    assert_eq!(p, Some(TouchPhase::Down));
    assert!(s.active && s.left);
    let (s, p) = dpad_transition(s, Button::DPadUp, true);
    assert_eq!(p, Some(TouchPhase::Move));
    let (s, p) = dpad_transition(s, Button::DPadLeft, false);
    assert_eq!(p, Some(TouchPhase::Move));
    let (s, p) = dpad_transition(s, Button::DPadUp, false);
    assert_eq!(p, Some(TouchPhase::Up));
    assert!(!s.active);
    let (_, p) = dpad_transition(s, Button::DPadDown, false);
    assert_eq!(p, None);
}

#[test]
fn stick_and_cursor_phases() {
    assert_eq!(stick_transition(false, false), (true, Some(TouchPhase::Down)));
    assert_eq!(stick_transition(true, false), (true, Some(TouchPhase::Move)));
    assert_eq!(stick_transition(true, true), (false, Some(TouchPhase::Up)));
    assert_eq!(stick_transition(false, true), (false, None));
    assert_eq!(virtual_cursor_phase(true, true, false), Some(TouchPhase::Down));
    assert_eq!(virtual_cursor_phase(false, true, true), Some(TouchPhase::Up));
    assert_eq!(virtual_cursor_phase(true, false, true), Some(TouchPhase::Move));
    assert_eq!(virtual_cursor_phase(true, false, false), None);
}

#[test]
fn event_queue_serves_high_priority_first() {
    let mut q: EventQueue<u32> = EventQueue::new();
    assert_eq!(q.pop_event(), None);
    q.push_back(1);
    q.push_back(2);
    q.set_high_priority(9);
    assert_eq!(q.pop_event(), Some(9));
    assert_eq!(q.pop_event(), Some(1));
    q.set_high_priority(8);
    assert_eq!(q.pop_event(), Some(8));
    assert_eq!(q.pop_event(), Some(2));
    assert_eq!(q.pop_event(), None);
}

#[test]
fn host_events_become_app_events() {
    assert_eq!(host_event_decision(HostEvent::Quit), HostEventDecision::QueueQuit);
    assert_eq!(host_event_decision(HostEvent::MouseDown(true)), HostEventDecision::QueueMouseTouch(TouchPhase::Down));
    assert_eq!(host_event_decision(HostEvent::MouseMove(false)), HostEventDecision::Ignore);
    assert_eq!(host_event_decision(HostEvent::AppTerminating), HostEventDecision::TerminateAndStopPolling);
    assert_eq!(host_event_decision(HostEvent::AppWillEnterBackground), HostEventDecision::Ignore);
    assert_eq!(host_event_decision(HostEvent::KeyF12), HostEventDecision::QueueEnterDebugger);
    assert_eq!(host_event_decision(HostEvent::FingerUp), HostEventDecision::QueueFingerTouch(TouchPhase::Up));
}
