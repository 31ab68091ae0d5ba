use exclave::unit::{UnitKind, UnitName};

#[test]
fn from_path_takes_kind_from_extension() {
    let n = UnitName::from_path("units/op.interface").unwrap();
    assert_eq!(n.kind(), UnitKind::Interface);
    assert_eq!(n.id(), "op");
    assert_eq!(n.full_name(), "op.interface");
}

#[test]
fn from_path_folds_case_and_ignores_directories() {
    let n = UnitName::from_path("/Units/MAIN.JIG").unwrap();
    assert_eq!(n.kind(), UnitKind::Jig);
    assert_eq!(n.id(), "main");
}

#[test]
fn from_path_rejects_unknown_extensions() {
    assert!(UnitName::from_path("units/readme.txt").is_err());
    assert!(UnitName::from_path("units/noextension").is_err());
}

#[test]
fn from_str_reads_written_kind_or_default() {
    let a = UnitName::from_str("main.jig", "scenario").unwrap();
    assert_eq!(a.kind(), UnitKind::Jig);
    assert_eq!(a.id(), "main");
    let b = UnitName::from_str("main", "scenario").unwrap();
    assert_eq!(b.kind(), UnitKind::Scenario);
    assert_eq!(b.id(), "main");
    assert!(UnitName::from_str("main.bogus", "scenario").is_err());
    assert!(UnitName::from_str("main", "bogus").is_err());
}

#[test]
fn names_compare_by_kind_and_id() {
    let a = UnitName::from_str("x.test", "test").unwrap();
    let b = UnitName::from_str("x", "test").unwrap();
    let c = UnitName::from_str("x.jig", "test").unwrap();
    assert!(a.eq_name(&b));
    assert!(!a.eq_name(&c));
}

#[test]
fn from_list_splits_on_commas_and_spaces() {
    let v = UnitName::from_list("a,b c\td.test", "jig").unwrap();
    assert_eq!(v.len(), 4);
    assert_eq!(v[0].full_name(), "a.jig");
    assert_eq!(v[1].full_name(), "b.jig");
    assert_eq!(v[2].full_name(), "c.jig");
    assert_eq!(v[3].full_name(), "d.test");
    assert!(UnitName::from_list("a,b.bogus", "jig").is_err());
}
