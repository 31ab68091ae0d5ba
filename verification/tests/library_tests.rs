use exclave::config::Config;
use exclave::description::Description;
use exclave::interface::{deactivation_outcome, InterfaceDescription, UnitDeactivateError, UnitDescriptionError};
use exclave::unit::{UnitKind, UnitName};
use exclave::unitbroadcaster::{UnitEvent, UnitStatus, UnitStatusEvent};
use exclave::unitlibrary::UnitLibrary;
use exclave::unitmanager::ManagerAction;

fn lib() -> UnitLibrary {
    UnitLibrary::new(Config::new(5000))
}

fn name(s: &str, dk: &str) -> UnitName {
    UnitName::from_str(s, dk).unwrap()
}

fn added(l: &mut UnitLibrary, path: &str, contents: &str) {
    let evt = UnitStatusEvent::new_added(path).unwrap();
    l.process_message(&UnitEvent::Status(evt), &Ok(String::from(contents)));
}

fn removed(l: &mut UnitLibrary, path: &str) {
    let evt = UnitStatusEvent::new_removed(path).unwrap();
    l.process_message(&UnitEvent::Status(evt), &Err(String::from("gone")));
}

const MAIN_JIG: &str = "[Jig]\nName=Main";
const OP_IFACE: &str = "[Interface]\nExecStart=/bin/cat\nJigs=main";

#[test]
fn interface_files_parse_with_their_directives() {
    let d = InterfaceDescription::from_contents("u/op.interface", OP_IFACE).unwrap();
    assert_eq!(d.id().full_name(), "op.interface");
    assert_eq!(d.exec_start(), "/bin/cat");
    assert!(d.supports_jig(&name("main", "jig")));
    assert!(!d.supports_jig(&name("other", "jig")));
}

#[test]
fn interfaces_need_an_exec_start() {
    let r = InterfaceDescription::from_contents("u/op.interface", "[Interface]\nName=x");
    assert!(matches!(r, Err(UnitDescriptionError::MissingValue(_, _))));
}

#[test]
fn interfaces_need_their_section() {
    let r = InterfaceDescription::from_contents("u/op.interface", "[Other]\nExecStart=/bin/cat");
    assert!(matches!(r, Err(UnitDescriptionError::MissingSection(_))));
}

#[test]
fn format_must_be_text_or_json() {
    let ok = InterfaceDescription::from_contents(
        "u/op.interface",
        "[Interface]\nExecStart=/bin/cat\nFormat=JSON",
    );
    assert!(ok.is_ok());
    let bad = InterfaceDescription::from_contents(
        "u/op.interface",
        "[Interface]\nExecStart=/bin/cat\nFormat=xml",
    );
    match bad {
        Err(UnitDescriptionError::InvalidValue(sec, key, val, choices)) => {
            assert_eq!(sec, "Interface");
            assert_eq!(key, "Format");
            assert_eq!(val, "xml");
            assert_eq!(choices, vec![String::from("text"), String::from("json")]);
        },
        _ => panic!("expected an invalid-value error"),
    }
}

#[test]
fn scenarios_record_their_test_composition() {
    let d = Description::from_contents("u/s.scenario", "[Scenario]\nTests=t1, t2").unwrap();
    assert!(d.uses_test(&name("t1", "test")));
    assert!(d.uses_test(&name("t2", "test")));
    assert!(!d.uses_test(&name("t3", "test")));
}

#[test]
fn events_mark_exactly_their_own_kind_dirty() {
    let mut l = lib();
    added(&mut l, "u/main.jig", MAIN_JIG);
    assert!(l.is_dirty(&name("main", "jig")));
    assert!(!l.is_dirty(&name("main", "test")));
    assert!(matches!(l.status(&name("main", "jig")), Some(UnitStatus::LoadStarted(_))));
}

#[test]
fn test_updates_are_deliberately_ignored() {
    let mut l = lib();
    let evt = UnitStatusEvent::new_updated("u/t.test").unwrap();
    l.process_message(&UnitEvent::Status(evt), &Ok(String::from("[Test]\nName=t")));
    assert!(!l.is_dirty(&name("t", "test")));
    assert!(l.status(&name("t", "test")).is_none());
}

#[test]
fn fresh_start_loads_and_activates_both_units() {
    let mut l = lib();
    let sub = l.bus_subscribe();
    added(&mut l, "u/main.jig", MAIN_JIG);
    added(&mut l, "u/op.interface", OP_IFACE);
    l.rescan();
    assert!(l.get_manager().jig_is_loaded(&name("main", "jig")));
    assert!(l.get_manager().unit_is_loaded(&name("op", "interface")));
    let actions = l.take_actions();
    let mut spawned = false;
    for a in &actions {
        if let ManagerAction::Spawn(req) = a {
            assert_eq!(req.id.full_name(), "op.interface");
            assert_eq!(req.exec_start, "/bin/cat");
            spawned = true;
        }
    }
    assert!(spawned);
    assert!(l.complete_activation(&name("op", "interface"), Ok(7)).is_ok());
    let msgs = l.take_control_messages();
    assert_eq!(msgs.len(), 1);
    assert!(matches!(
        msgs[0].contents(),
        exclave::protocol::ManagerControlMessageContents::InitialGreeting
    ));
    let events = l.bus_drain(sub);
    assert!(events.iter().any(|e| matches!(e, UnitEvent::RescanStart)));
    assert!(events.iter().any(|e| matches!(e, UnitEvent::RescanFinish)));
}

#[test]
fn incompatible_interfaces_fail_and_spawn_nothing() {
    let mut l = lib();
    added(&mut l, "u/op.interface", "[Interface]\nExecStart=/bin/cat\nJigs=other");
    l.rescan();
    assert!(!l.get_manager().unit_is_loaded(&name("op", "interface")));
    match l.status(&name("op", "interface")) {
        Some(UnitStatus::LoadFailed(reason)) => assert_eq!(reason, "incompatible jig"),
        _ => panic!("expected a load failure"),
    }
    let actions = l.take_actions();
    assert!(actions.iter().all(|a| !matches!(a, ManagerAction::Spawn(_))));
}

#[test]
fn failed_spawns_leave_no_instance_behind() {
    let mut l = lib();
    added(&mut l, "u/main.jig", MAIN_JIG);
    added(&mut l, "u/op.interface", OP_IFACE);
    l.rescan();
    let r = l.complete_activation(&name("op", "interface"), Err(String::from("no such file")));
    assert!(r.is_err());
    assert!(!l.get_manager().unit_is_loaded(&name("op", "interface")));
    assert!(matches!(
        l.status(&name("op", "interface")),
        Some(UnitStatus::LoadFailed(_))
    ));
}

#[test]
fn dirty_tests_invalidate_the_scenarios_that_use_them() {
    let mut l = lib();
    added(&mut l, "u/j.jig", "[Jig]\nName=J");
    added(&mut l, "u/t.test", "[Test]\nName=T");
    added(&mut l, "u/s.scenario", "[Scenario]\nTests=t");
    l.rescan();
    assert!(l.get_manager().unit_is_loaded(&name("s", "scenario")));
    added(&mut l, "u/t.test", "[Test]\nName=T2");
    assert!(l.is_dirty(&name("t", "test")));
    l.propagate_dirty_tests();
    assert!(l.is_dirty(&name("s", "scenario")));
}

#[test]
fn dirty_jigs_invalidate_their_dependents() {
    let mut l = lib();
    added(&mut l, "u/main.jig", MAIN_JIG);
    added(&mut l, "u/dep.test", "[Test]\nJigs=main");
    added(&mut l, "u/free.test", "[Test]\nName=free");
    l.rescan();
    removed(&mut l, "u/main.jig");
    l.propagate_dirty_jigs();
    assert!(l.is_dirty(&name("dep", "test")));
    assert!(!l.is_dirty(&name("free", "test")));
}

#[test]
fn removed_jigs_are_evicted_and_universal_units_stay() {
    let mut l = lib();
    added(&mut l, "u/main.jig", MAIN_JIG);
    added(&mut l, "u/free.test", "[Test]\nName=free");
    l.rescan();
    removed(&mut l, "u/main.jig");
    l.rescan();
    assert!(!l.get_manager().jig_is_loaded(&name("main", "jig")));
    assert!(l.status(&name("main", "jig")).is_none());
    assert!(l.get_manager().unit_is_loaded(&name("free", "test")));
}

#[test]
fn a_second_rescan_broadcasts_only_its_bracket() {
    let mut l = lib();
    added(&mut l, "u/main.jig", MAIN_JIG);
    l.rescan();
    let sub = l.bus_subscribe();
    l.rescan();
    let events = l.bus_drain(sub);
    assert_eq!(events.len(), 2);
    assert!(matches!(events[0], UnitEvent::RescanStart));
    assert!(matches!(events[1], UnitEvent::RescanFinish));
    assert!(!l.is_dirty(&name("main", "jig")));
}

#[test]
fn terminations_carry_the_attached_child_and_clear_the_instance() {
    let mut l = lib();
    added(&mut l, "u/op.interface", "[Interface]\nExecStart=/bin/cat");
    l.rescan();
    let _ = l.take_actions();
    assert!(l.complete_activation(&name("op", "interface"), Ok(9)).is_ok());
    removed(&mut l, "u/op.interface");
    l.rescan();
    assert!(!l.get_manager().unit_is_loaded(&name("op", "interface")));
    let actions = l.take_actions();
    let mut terminated = false;
    for a in &actions {
        if let ManagerAction::Terminate(t) = a {
            assert_eq!(t.child, 9);
            assert_eq!(t.timeout_ms, 5000);
            assert_eq!(t.id.full_name(), "op.interface");
            terminated = true;
        }
    }
    assert!(terminated);
}

#[test]
fn deactivation_outcomes_map_exit_codes() {
    assert!(deactivation_outcome(&Ok(0)).is_ok());
    assert!(matches!(
        deactivation_outcome(&Ok(3)),
        Err(UnitDeactivateError::NonZeroReturn(3))
    ));
    assert!(matches!(
        deactivation_outcome(&Err(String::from("still running"))),
        Err(UnitDeactivateError::RunningError(_))
    ));
}

#[test]
fn unreadable_files_are_reported_as_failures() {
    let mut l = lib();
    let evt = UnitStatusEvent::new_added("u/bad.jig").unwrap();
    l.process_message(&UnitEvent::Status(evt), &Err(String::from("permission denied")));
    match l.status(&name("bad", "jig")) {
        Some(UnitStatus::LoadFailed(reason)) => {
            assert_eq!(reason, "unreadable unit file: permission denied")
        },
        _ => panic!("expected a load failure"),
    }
    assert!(l.is_dirty(&name("bad", "jig")));
}

#[test]
fn internal_names_never_enter_the_pipeline() {
    assert_eq!(UnitKind::Internal, UnitKind::Internal);
    let mut l = lib();
    added(&mut l, "u/x.jig", MAIN_JIG);
    l.rescan();
    assert!(!l.is_dirty(&name("x", "jig")));
}
