use vdw_simulation::error::ErrorKind;
use vdw_simulation::error::InvalidParamError;

#[test]
fn new_keeps_the_kinds_in_order() {
    let e = InvalidParamError::new(vec![ErrorKind::Dt, ErrorKind::Bound]);
    assert_eq!(e.kinds(), &vec![ErrorKind::Dt, ErrorKind::Bound]);
}

#[test]
fn has_finds_only_listed_kinds() {
    let e = InvalidParamError::new(vec![ErrorKind::Reach, ErrorKind::Particle]);
    assert!(e.has(ErrorKind::Reach));
    assert!(e.has(ErrorKind::Particle));
    assert!(!e.has(ErrorKind::Bound));
    assert!(!e.has(ErrorKind::UnitSize));
    assert!(!e.has(ErrorKind::Dt));
    assert!(!e.has(ErrorKind::StepsPerFrame));
    assert!(!e.has(ErrorKind::ExtCond));
}

#[test]
fn message_lists_the_kinds_by_name() {
    let e = InvalidParamError::new(vec![ErrorKind::Bound, ErrorKind::Reach, ErrorKind::Dt]);
    assert_eq!(e.message(), "InvalidInputError: [Bound, Reach, Dt]");
}

#[test]
fn message_of_one_kind_has_no_separator() {
    let e = InvalidParamError::new(vec![ErrorKind::StepsPerFrame]);
    assert_eq!(e.message(), "InvalidInputError: [StepsPerFrame]");
}

#[test]
fn message_of_no_kind_is_an_empty_list() {
    let e = InvalidParamError::new(Vec::new());
    assert_eq!(e.message(), "InvalidInputError: []");
}

#[test]
fn message_names_every_kind() {
    let e = InvalidParamError::new(vec![
        ErrorKind::Bound,
        ErrorKind::UnitSize,
        ErrorKind::Reach,
        ErrorKind::Dt,
        ErrorKind::StepsPerFrame,
        ErrorKind::ExtCond,
        ErrorKind::Particle,
    ]);
    assert_eq!(
        e.message(),
        "InvalidInputError: [Bound, UnitSize, Reach, Dt, StepsPerFrame, ExtCond, Particle]"
    );
    assert_eq!(e.message(), format!("InvalidInputError: {:?}", e.kinds()));
}
