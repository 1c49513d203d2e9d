use luma::auth::{
    classify_pam_error, completion_outcome, validate_service, AuthenticationError,
    AuthenticationResult, PamErrorCode, ServiceFile, PAM_SERVICE, PAM_SERVICE_PATH,
};
use luma::state::AuthenticationOutcome;

#[test]
fn authentication_failures_are_generic_denials() {
    for code in [
        PamErrorCode::AUTH_ERR,
        PamErrorCode::USER_UNKNOWN,
        PamErrorCode::ACCT_EXPIRED,
    ] {
        assert_eq!(classify_pam_error(code), Ok(AuthenticationResult::Denied));
    }
}

#[test]
fn infrastructure_failures_remain_distinguishable() {
    assert_eq!(
        classify_pam_error(PamErrorCode::SERVICE_ERR),
        Err(AuthenticationError::Pam(PamErrorCode::SERVICE_ERR))
    );
}

#[test]
fn rejects_a_missing_pam_policy_before_locking() {
    assert_eq!(
        validate_service(ServiceFile::Missing),
        Err(AuthenticationError::PamServiceUnavailable)
    );
}

#[test]
fn accepts_only_a_readable_regular_policy_file() {
    assert_eq!(validate_service(ServiceFile::Readable), Ok(()));
    assert_eq!(
        validate_service(ServiceFile::NotRegularFile),
        Err(AuthenticationError::PamServiceUnavailable)
    );
    assert_eq!(
        validate_service(ServiceFile::Unreadable),
        Err(AuthenticationError::PamServiceUnavailable)
    );
    assert_eq!(PAM_SERVICE, "luma");
    assert_eq!(PAM_SERVICE_PATH, "/etc/pam.d/luma");
}

#[test]
fn every_account_rejection_is_a_denial() {
    for code in [
        PamErrorCode::AUTH_ERR,
        PamErrorCode::CRED_INSUFFICIENT,
        PamErrorCode::USER_UNKNOWN,
        PamErrorCode::MAXTRIES,
        PamErrorCode::PERM_DENIED,
        PamErrorCode::ACCT_EXPIRED,
        PamErrorCode::NEW_AUTHTOK_REQD,
        PamErrorCode::CRED_EXPIRED,
    ] {
        assert_eq!(classify_pam_error(code), Ok(AuthenticationResult::Denied));
    }
    for code in [
        PamErrorCode::CONV_ERR,
        PamErrorCode::ABORT,
        PamErrorCode::SYSTEM_ERR,
        PamErrorCode::AUTHINFO_UNAVAIL,
    ] {
        assert_eq!(classify_pam_error(code), Err(AuthenticationError::Pam(code)));
    }
}

#[test]
fn reports_authenticated_completion_with_attempt_token() {
    assert_eq!(
        completion_outcome(Some(Ok(AuthenticationResult::Authenticated))),
        AuthenticationOutcome::Authenticated
    );
}

#[test]
fn maps_denial_without_exposing_authentication_details() {
    assert_eq!(
        completion_outcome(Some(Ok(AuthenticationResult::Denied))),
        AuthenticationOutcome::Denied
    );
}

#[test]
fn maps_authentication_errors_to_infrastructure_failure() {
    assert_eq!(
        completion_outcome(Some(Err(AuthenticationError::CurrentUserUnavailable))),
        AuthenticationOutcome::InfrastructureError
    );
}

#[test]
fn contains_authenticator_panics_as_infrastructure_failure() {
    assert_eq!(completion_outcome(None), AuthenticationOutcome::InfrastructureError);
}

#[test]
fn error_messages_stay_generic() {
    assert_eq!(
        AuthenticationError::CurrentUserUnavailable.to_string(),
        "could not resolve the current user"
    );
    assert_eq!(
        AuthenticationError::PamServiceUnavailable.to_string(),
        "the Luma PAM service is not installed or readable"
    );
    assert_eq!(
        AuthenticationError::Pam(PamErrorCode::AUTH_ERR).to_string(),
        "PAM authentication could not be completed"
    );
}
