//! The rules around PAM: which PAM results are credential denials, when the
//! service policy counts as available, and what a worker's result tells the
//! authentication state.
//!
//! The PAM transaction itself runs outside the library; it hands back the PAM
//! error code, which the library classifies here.

use vstd::prelude::*;

use crate::state::AuthenticationOutcome;

verus! {

/// The PAM service that authenticates the lock.
pub const PAM_SERVICE: &'static str = "luma";

/// Where the PAM policy of the service lives.
pub const PAM_SERVICE_PATH: &'static str = "/etc/pam.d/luma";

/// What PAM decided about the credentials.
#[derive(Clone, Copy, Debug, Eq, PartialEq, Structural)]
pub enum AuthenticationResult {
    Authenticated,
    Denied,
}

/// The error codes that a PAM transaction can end with.
#[allow(non_camel_case_types)]
#[derive(Clone, Copy, Debug, Eq, PartialEq, Structural)]
pub enum PamErrorCode {
    OPEN_ERR,
    SYMBOL_ERR,
    SERVICE_ERR,
    SYSTEM_ERR,
    BUF_ERR,
    PERM_DENIED,
    AUTH_ERR,
    CRED_INSUFFICIENT,
    AUTHINFO_UNAVAIL,
    USER_UNKNOWN,
    MAXTRIES,
    NEW_AUTHTOK_REQD,
    ACCT_EXPIRED,
    SESSION_ERR,
    CRED_UNAVAIL,
    CRED_EXPIRED,
    CRED_ERR,
    CONV_ERR,
    AUTHTOK_ERR,
    AUTHTOK_RECOVERY_ERR,
    AUTHTOK_LOCK_BUSY,
    AUTHTOK_DISABLE_AGING,
    ABORT,
    AUTHTOK_EXPIRED,
    MODULE_UNKNOWN,
    BAD_ITEM,
    CONV_AGAIN,
    INCOMPLETE,
}

/// Why authentication could not be completed.
#[derive(Clone, Copy, Debug, Eq, PartialEq, Structural)]
pub enum AuthenticationError {
    CurrentUserUnavailable,
    PamServiceUnavailable,
    Pam(PamErrorCode),
}

impl AuthenticationError {
    /// A generic description that reveals nothing of the credentials.
    pub fn to_string(&self) -> (text: String)
        ensures
            text@ == match self {
                AuthenticationError::CurrentUserUnavailable => "could not resolve the current user"@,
                AuthenticationError::PamServiceUnavailable => "the Luma PAM service is not installed or readable"@,
                AuthenticationError::Pam(_) => "PAM authentication could not be completed"@,
            },
    {
        match self {
            AuthenticationError::CurrentUserUnavailable => String::from_str(
                "could not resolve the current user",
            ),
            AuthenticationError::PamServiceUnavailable => String::from_str(
                "the Luma PAM service is not installed or readable",
            ),
            AuthenticationError::Pam(_) => String::from_str(
                "PAM authentication could not be completed",
            ),
        }
    }
}

/// The PAM codes that reject the credentials or the account rather than the
/// infrastructure.
pub open spec fn is_credential_denial(code: PamErrorCode) -> bool {
    match code {
        PamErrorCode::AUTH_ERR => true,
        PamErrorCode::CRED_INSUFFICIENT => true,
        PamErrorCode::USER_UNKNOWN => true,
        PamErrorCode::MAXTRIES => true,
        PamErrorCode::PERM_DENIED => true,
        PamErrorCode::ACCT_EXPIRED => true,
        PamErrorCode::NEW_AUTHTOK_REQD => true,
        PamErrorCode::CRED_EXPIRED => true,
        _ => false,
    }
}

/// Sorts a failed PAM transaction: credential and account rejections are a
/// generic denial; every other code stays a distinguishable infrastructure error.
pub fn classify_pam_error(code: PamErrorCode) -> (result: Result<
    AuthenticationResult,
    AuthenticationError,
>)
    ensures
        is_credential_denial(code) ==> result == Ok::<
            AuthenticationResult,
            AuthenticationError,
        >(AuthenticationResult::Denied),
        !is_credential_denial(code) ==> result == Err::<
            AuthenticationResult,
            AuthenticationError,
        >(AuthenticationError::Pam(code)),
{
    match code {
        PamErrorCode::AUTH_ERR | PamErrorCode::CRED_INSUFFICIENT | PamErrorCode::USER_UNKNOWN
        | PamErrorCode::MAXTRIES | PamErrorCode::PERM_DENIED | PamErrorCode::ACCT_EXPIRED
        | PamErrorCode::NEW_AUTHTOK_REQD | PamErrorCode::CRED_EXPIRED => Ok(
            AuthenticationResult::Denied,
        ),
        _ => Err(AuthenticationError::Pam(code)),
    }
}

/// What the file system reports of the service policy file.
#[derive(Clone, Copy, Debug, Eq, PartialEq, Structural)]
pub enum ServiceFile {
    /// Its metadata could not be read.
    Missing,
    /// It exists but is not a regular file.
    NotRegularFile,
    /// It is a regular file that could not be opened.
    Unreadable,
    /// It is a regular file that opened for reading.
    Readable,
}

/// The PAM policy is available only as a readable regular file.
///
/// This check runs before the session lock is requested, so that a missing
/// policy cannot trap the user behind a lock that nothing can unlock.
pub fn validate_service(service: ServiceFile) -> (result: Result<(), AuthenticationError>)
    ensures
        result is Ok <==> service == ServiceFile::Readable,
        result is Err ==> result == Err::<(), AuthenticationError>(
            AuthenticationError::PamServiceUnavailable,
        ),
{
    match service {
        ServiceFile::Readable => Ok(()),
        _ => Err(AuthenticationError::PamServiceUnavailable),
    }
}

/// The outcome that a worker reports for one attempt: the authenticator's result,
/// or `None` when the authenticator panicked.
pub open spec fn spec_completion_outcome(
    result: Option<Result<AuthenticationResult, AuthenticationError>>,
) -> AuthenticationOutcome {
    match result {
        Some(Ok(AuthenticationResult::Authenticated)) => AuthenticationOutcome::Authenticated,
        Some(Ok(AuthenticationResult::Denied)) => AuthenticationOutcome::Denied,
        _ => AuthenticationOutcome::InfrastructureError,
    }
}

/// Maps what the authenticator produced to the outcome handed to the lock; a
/// panic or an error is an infrastructure failure.
pub fn completion_outcome(
    result: Option<Result<AuthenticationResult, AuthenticationError>>,
) -> (outcome: AuthenticationOutcome)
    ensures
        outcome == spec_completion_outcome(result),
{
    match result {
        Some(Ok(AuthenticationResult::Authenticated)) => AuthenticationOutcome::Authenticated,
        Some(Ok(AuthenticationResult::Denied)) => AuthenticationOutcome::Denied,
        _ => AuthenticationOutcome::InfrastructureError,
    }
}

/// Only PAM's own success authorizes unlocking: a panicking authenticator, an
/// infrastructure error or any PAM failure code never yields an authenticated
/// outcome, and PAM failures never pass as success.
pub proof fn lemma_only_pam_success_authenticates(
    result: Option<Result<AuthenticationResult, AuthenticationError>>,
    code: PamErrorCode,
)
    ensures
        (spec_completion_outcome(result) == AuthenticationOutcome::Authenticated) <==> result
            == Some(Ok::<AuthenticationResult, AuthenticationError>(AuthenticationResult::Authenticated)),
        spec_completion_outcome(None) == AuthenticationOutcome::InfrastructureError,
        spec_completion_outcome(
            Some(
                if is_credential_denial(code) {
                    Ok::<AuthenticationResult, AuthenticationError>(AuthenticationResult::Denied)
                } else {
                    Err::<AuthenticationResult, AuthenticationError>(AuthenticationError::Pam(code))
                },
            ),
        ) != AuthenticationOutcome::Authenticated,
{
}

} // verus!
