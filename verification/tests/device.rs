use tpower::device::{device_event, device_step, DeviceState, InterfaceSet};
use tpower::events::DeviceEvent;
use tpower::ffi::{call_status, prepare_step, Action, DeviceError, InterfaceType, PrepareOutcome, PrepareStep};

#[test]
fn raw_codes_decode() {
    assert_eq!(Action::from_raw(1), Some(Action::Attached));
    assert_eq!(Action::from_raw(2), Some(Action::Detached));
    assert_eq!(Action::from_raw(3), Some(Action::NotificationStopped));
    assert_eq!(Action::from_raw(4), Some(Action::Paired));
    assert_eq!(Action::from_raw(0), None);
    assert_eq!(Action::from_raw(5), None);
    assert_eq!(InterfaceType::from_raw(1), InterfaceType::USB);
    assert_eq!(InterfaceType::from_raw(2), InterfaceType::WiFi);
    assert_eq!(InterfaceType::from_raw(7), InterfaceType::Unknown);
    assert_eq!(call_status(0), Ok(()));
    assert_eq!(call_status(-402653083), Err(-402653083));
}

fn run(codes: [i32; 5]) -> PrepareOutcome {
    let mut step = PrepareStep::Connect;
    loop {
        let code = match step {
            PrepareStep::Connect => codes[0],
            PrepareStep::CheckPaired => codes[1],
            PrepareStep::Pair => codes[2],
            PrepareStep::Validate => codes[3],
            PrepareStep::StartSession => codes[4],
        };
        match prepare_step(step, code) {
            PrepareOutcome::Next(s) => step = s,
            other => return other,
        }
    }
}

#[test]
fn preparation_stops_at_the_first_failure() {
    assert_eq!(run([0, 1, 9, 0, 0]), PrepareOutcome::Ready);
    assert_eq!(run([0, 0, 0, 0, 0]), PrepareOutcome::Ready);
    assert_eq!(run([5, 1, 0, 0, 0]), PrepareOutcome::Failed(DeviceError::Connect(5)));
    assert_eq!(run([0, 0, 6, 0, 0]), PrepareOutcome::Failed(DeviceError::Pair(6)));
    assert_eq!(run([0, 1, 6, 7, 0]), PrepareOutcome::Failed(DeviceError::Validate(7)));
    assert_eq!(run([0, 1, 0, 0, 8]), PrepareOutcome::Failed(DeviceError::Session(8)));
}

fn event(udid: &str, name: &str, interface: InterfaceType, action: Action) -> DeviceEvent {
    DeviceEvent { udid: udid.into(), name: name.into(), interface, action }
}

#[test]
fn the_device_table_tracks_interfaces() {
    let mut state = DeviceState::new();
    state.apply(&event("u1", "iPhone", InterfaceType::USB, Action::Attached));
    state.apply(&event("u1", "", InterfaceType::WiFi, Action::Attached));
    let r = state.get("u1").unwrap();
    assert_eq!(r.name, "iPhone");
    assert!(r.interfaces.contains(InterfaceType::USB) && r.interfaces.contains(InterfaceType::WiFi));
    state.apply(&event("u1", "", InterfaceType::USB, Action::Detached));
    let r = state.get("u1").unwrap();
    assert!(!r.interfaces.contains(InterfaceType::USB) && r.interfaces.contains(InterfaceType::WiFi));
    state.apply(&event("u2", "iPad", InterfaceType::WiFi, Action::Paired));
    let r = state.get("u2").unwrap();
    assert_eq!(r.name, "iPad");
    assert_eq!(r.interfaces, InterfaceSet::empty());
    assert!(state.get("u3").is_none());
}

#[test]
fn the_sender_emits_attach_and_detach_events() {
    let e = device_event(Action::Attached, &"u".to_string(), &"Phone".to_string(), InterfaceType::USB).unwrap();
    assert_eq!((e.udid.as_str(), e.name.as_str()), ("u", "Phone"));
    let e = device_event(Action::Detached, &"u".to_string(), &"Phone".to_string(), InterfaceType::USB).unwrap();
    assert_eq!(e.name, "");
    assert!(device_event(Action::Paired, &"u".to_string(), &"Phone".to_string(), InterfaceType::USB).is_none());
}

#[test]
fn action_codes_round_trip() {
    for a in [Action::Attached, Action::Detached, Action::NotificationStopped, Action::Paired] {
        assert_eq!(Action::from_raw(a.to_raw()), Some(a));
    }
    assert_eq!(Action::Attached.to_raw(), 1);
    assert_eq!(Action::Paired.to_raw(), 4);
}

#[test]
fn the_sender_follows_each_device_once() {
    let mut followed: Vec<String> = Vec::new();
    let u = "u1".to_string();
    assert!(!device_step(&mut followed, &u, Action::Attached, false));
    assert!(followed.is_empty());
    assert!(device_step(&mut followed, &u, Action::Attached, true));
    assert!(device_step(&mut followed, &"u2".to_string(), Action::Attached, true));
    assert!(device_step(&mut followed, &u, Action::Attached, true));
    assert_eq!(followed, vec!["u2".to_string(), "u1".to_string()]);
    assert!(!device_step(&mut followed, &u, Action::Paired, true));
    assert!(device_step(&mut followed, &u, Action::Detached, false));
    assert_eq!(followed, vec!["u2".to_string()]);
}
