use exclave::protocol::{
    parse_control_line, render_status_message, LogEntry, ManagerControlMessageContents,
    ManagerStatusMessage,
};
use exclave::unit::UnitName;

fn name(s: &str, dk: &str) -> UnitName {
    UnitName::from_str(s, dk).unwrap()
}

#[test]
fn tests_record_is_verb_ids_and_newline() {
    let msg = ManagerStatusMessage::Tests(
        name("s", "scenario"),
        vec![name("t1", "test"), name("t2", "test")],
    );
    assert_eq!(render_status_message(&msg), "TESTS s t1 t2\n");
}

#[test]
fn hello_record_carries_the_full_name() {
    let msg = ManagerStatusMessage::Hello(name("op", "interface"));
    assert_eq!(render_status_message(&msg), "HELLO op.interface\n");
}

#[test]
fn optional_records_render_bare_without_payload() {
    assert_eq!(render_status_message(&ManagerStatusMessage::Jig(None)), "JIG\n");
    assert_eq!(
        render_status_message(&ManagerStatusMessage::Jig(Some(name("m", "jig")))),
        "JIG m.jig\n"
    );
    assert_eq!(render_status_message(&ManagerStatusMessage::Scenario(None)), "SCENARIO\n");
    assert_eq!(render_status_message(&ManagerStatusMessage::Scenarios(vec![])), "SCENARIOS\n");
}

#[test]
fn reasons_are_escaped_in_records() {
    let msg = ManagerStatusMessage::Skipped(name("t", "test"), String::from("a\tb"));
    assert_eq!(render_status_message(&msg), "SKIP t a\\tb\n");
    let f = ManagerStatusMessage::Finished(name("s", "scenario"), 2, String::from("bad\nend"));
    assert_eq!(render_status_message(&f), "FINISH s 2 bad\\nend\n");
}

#[test]
fn log_record_uses_raw_tabs_between_fields() {
    let msg = ManagerStatusMessage::Log(LogEntry {
        kind: String::from("info"),
        id: name("t", "test"),
        secs: 12,
        nsecs: 500,
        message: String::from("two\twords"),
    });
    assert_eq!(render_status_message(&msg), "LOG info\tt\ttest\t12\t500\ttwo\\twords\n");
}

#[test]
fn blank_lines_mean_nothing() {
    assert!(parse_control_line("").is_none());
    assert!(parse_control_line("   \t ").is_none());
}

#[test]
fn verbs_are_case_folded() {
    assert!(matches!(
        parse_control_line("SCENARIOS"),
        Some(ManagerControlMessageContents::Scenarios)
    ));
    assert!(matches!(parse_control_line("Jig"), Some(ManagerControlMessageContents::Jig)));
}

#[test]
fn log_and_shutdown_join_their_arguments() {
    match parse_control_line("log two words here") {
        Some(ManagerControlMessageContents::Log(m)) => assert_eq!(m, "two words here"),
        other => panic!("unexpected parse: {:?}", other.is_some()),
    }
    match parse_control_line("shutdown all done") {
        Some(ManagerControlMessageContents::Shutdown(Some(m))) => assert_eq!(m, "all done"),
        _ => panic!("unexpected parse"),
    }
    assert!(matches!(
        parse_control_line("shutdown"),
        Some(ManagerControlMessageContents::Shutdown(None))
    ));
}

#[test]
fn tests_asks_for_a_scenario_by_name() {
    assert!(matches!(
        parse_control_line("tests"),
        Some(ManagerControlMessageContents::Tests(None))
    ));
    match parse_control_line("tests foo") {
        Some(ManagerControlMessageContents::Tests(Some(n))) => {
            assert_eq!(n.kind(), exclave::unit::UnitKind::Scenario);
            assert_eq!(n.id(), "foo");
        },
        _ => panic!("unexpected parse"),
    }
}

#[test]
fn start_without_argument_starts_the_selected_scenario() {
    assert!(matches!(
        parse_control_line("start"),
        Some(ManagerControlMessageContents::StartScenario(None))
    ));
}

#[test]
fn start_preserves_embedded_escapes_in_the_name() {
    match parse_control_line("start main\\nscn") {
        Some(ManagerControlMessageContents::StartScenario(Some(n))) => {
            assert_eq!(n.id(), "main\nscn");
            assert_eq!(n.kind(), exclave::unit::UnitKind::Scenario);
        },
        _ => panic!("unexpected parse"),
    }
}

#[test]
fn bad_names_come_back_as_errors() {
    match parse_control_line("scenario x.bogus") {
        Some(ManagerControlMessageContents::Error(m)) => {
            assert_eq!(m, "Invalid scenario name: unrecognized unit kind bogus");
        },
        _ => panic!("unexpected parse"),
    }
    match parse_control_line("tests x.bogus") {
        Some(ManagerControlMessageContents::Error(m)) => {
            assert_eq!(m, "Invalid test name specified: unrecognized unit kind bogus");
        },
        _ => panic!("unexpected parse"),
    }
}

#[test]
fn unknown_verbs_are_reported_not_dropped() {
    match parse_control_line("HELLO there friend") {
        Some(ManagerControlMessageContents::Unimplemented(v, rest)) => {
            assert_eq!(v, "hello");
            assert_eq!(rest, "there friend");
        },
        _ => panic!("unexpected parse"),
    }
}
