use nativelink_scheduler::error::{Error, ErrorKind};
use nativelink_scheduler::monitoring_server::error_response;

#[test]
fn new_error_has_its_kind_and_no_context() {
    let error = Error::new(ErrorKind::OwnershipViolation);
    assert_eq!(error.kind, ErrorKind::OwnershipViolation);
    assert!(error.context.is_empty());
    assert!(!error.is_not_found());
    assert!(Error::new(ErrorKind::NotFound).is_not_found());
}

#[test]
fn kinds_have_names() {
    assert_eq!(ErrorKind::NotFound.name(), "NotFound");
    assert_eq!(ErrorKind::OwnershipViolation.name(), "OwnershipViolation");
    assert_eq!(ErrorKind::AlreadyConnected.name(), "AlreadyConnected");
    assert_eq!(ErrorKind::AlreadyExists.name(), "AlreadyExists");
    assert_eq!(ErrorKind::CollaboratorFailure.name(), "CollaboratorFailure");
}

#[test]
fn context_is_added_behind_what_is_there() {
    let error = Error::new(ErrorKind::CollaboratorFailure)
        .err_tip("store is gone")
        .err_tip("Failed to filter operations");
    assert_eq!(error.kind, ErrorKind::CollaboratorFailure);
    assert_eq!(error.context, vec!["store is gone".to_string(), "Failed to filter operations".to_string()]);
}

#[test]
fn description_names_the_kind_and_then_the_context() {
    assert_eq!(Error::new(ErrorKind::AlreadyConnected).describe(), "AlreadyConnected");
    assert_eq!(
        Error::new(ErrorKind::NotFound).err_tip("Worker w9 not found").describe(),
        "NotFound: Worker w9 not found"
    );
    assert_eq!(
        Error::new(ErrorKind::CollaboratorFailure).err_tip("a").err_tip("").err_tip("c").describe(),
        "CollaboratorFailure: a: : c"
    );
}

#[test]
fn what_was_not_found_is_answered_with_404() {
    let (status, text) = error_response(&Error::new(ErrorKind::NotFound).err_tip("Worker x not found"));
    assert_eq!(status, 404);
    assert_eq!(text, "NotFound: Worker x not found");
}

#[test]
fn every_other_error_is_answered_with_500() {
    for kind in [
        ErrorKind::OwnershipViolation,
        ErrorKind::AlreadyConnected,
        ErrorKind::AlreadyExists,
        ErrorKind::CollaboratorFailure,
    ] {
        let (status, text) = error_response(&Error::new(kind).err_tip("Failed to get workers info"));
        assert_eq!(status, 500);
        assert_eq!(text, format!("{}: Failed to get workers info", kind.name()));
    }
}
