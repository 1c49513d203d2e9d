use luma::state::{
    AuthenticationOutcome, AuthenticationPhase, AuthenticationPolicy, AuthenticationState,
    BeginAttemptError, CompletionAction,
};

const SECOND: u64 = 1_000_000_000;
const START: u64 = 10 * SECOND;

fn policy() -> AuthenticationPolicy {
    AuthenticationPolicy {
        feedback_duration: SECOND,
        initial_cooldown: 2 * SECOND,
        maximum_cooldown: 4 * SECOND,
    }
}

#[test]
fn starts_only_one_attempt_at_a_time() {
    let mut state = AuthenticationState::new(policy());

    let _token = state.begin_attempt().expect("idle state should start");

    assert_eq!(state.phase(), AuthenticationPhase::Authenticating);
    assert_eq!(state.begin_attempt(), Err(BeginAttemptError::Busy));
    assert!(!state.accepts_input());
}

#[test]
fn only_successful_completion_authorizes_unlock() {
    let now = START;
    let mut denied = AuthenticationState::new(policy());
    let denied_token = denied.begin_attempt().expect("attempt should start");
    let mut authenticated = AuthenticationState::new(policy());
    let authenticated_token = authenticated.begin_attempt().expect("attempt should start");

    assert_eq!(
        denied.complete_attempt(denied_token, AuthenticationOutcome::Denied, now),
        CompletionAction::KeepLocked
    );
    assert!(!denied.unlock_authorized());
    assert_eq!(
        authenticated.complete_attempt(
            authenticated_token,
            AuthenticationOutcome::Authenticated,
            now
        ),
        CompletionAction::UnlockAuthorized
    );
    assert!(authenticated.unlock_authorized());
    assert_eq!(
        authenticated.begin_attempt(),
        Err(BeginAttemptError::AlreadyAuthenticated)
    );
}

#[test]
fn denial_moves_through_feedback_cooldown_and_idle() {
    let now = START;
    let mut state = AuthenticationState::new(policy());
    let token = state.begin_attempt().expect("attempt should start");

    state.complete_attempt(token, AuthenticationOutcome::Denied, now);
    assert_eq!(state.phase(), AuthenticationPhase::Denied);
    assert_eq!(state.next_deadline(), now.checked_add(SECOND));

    state.advance(now + SECOND);
    assert_eq!(state.phase(), AuthenticationPhase::Cooldown);
    assert_eq!(state.begin_attempt(), Err(BeginAttemptError::CoolingDown));

    state.advance(now + 3 * SECOND);
    assert_eq!(state.phase(), AuthenticationPhase::Idle);
    assert!(state.accepts_input());
}

#[test]
fn infrastructure_failure_uses_generic_error_feedback() {
    let now = START;
    let mut state = AuthenticationState::new(policy());
    let token = state.begin_attempt().expect("attempt should start");

    assert_eq!(
        state.complete_attempt(token, AuthenticationOutcome::InfrastructureError, now),
        CompletionAction::KeepLocked
    );
    assert_eq!(state.phase(), AuthenticationPhase::Error);
    assert!(!state.unlock_authorized());
}

#[test]
fn late_completion_is_ignored_after_cancellation() {
    let now = START;
    let mut state = AuthenticationState::new(policy());
    let stale_token = state.begin_attempt().expect("attempt should start");
    assert!(state.cancel_attempt(stale_token));
    let active_token = state.begin_attempt().expect("new attempt should start");

    assert_eq!(
        state.complete_attempt(stale_token, AuthenticationOutcome::Authenticated, now),
        CompletionAction::Ignored
    );
    assert_eq!(state.phase(), AuthenticationPhase::Authenticating);
    assert!(!state.unlock_authorized());
    assert_eq!(
        state.complete_attempt(active_token, AuthenticationOutcome::Authenticated, now),
        CompletionAction::UnlockAuthorized
    );
}

#[test]
fn progressive_cooldown_is_capped() {
    let mut state = AuthenticationState::new(policy());
    let mut now = START;

    for expected_cooldown in [2, 4, 4] {
        let token = state.begin_attempt().expect("attempt should start");
        state.complete_attempt(token, AuthenticationOutcome::Denied, now);
        state.advance(now + SECOND);
        let cooldown_deadline = state.next_deadline().expect("cooldown needs a deadline");
        assert_eq!(cooldown_deadline - (now + SECOND), expected_cooldown * SECOND);
        now = cooldown_deadline;
        state.advance(now);
    }
}

#[test]
fn default_policy_uses_short_feedback_and_bounded_cooldown() {
    let policy = AuthenticationPolicy::default();
    assert_eq!(policy.feedback_duration, 800_000_000);
    assert_eq!(policy.initial_cooldown, 500_000_000);
    assert_eq!(policy.maximum_cooldown, 8 * SECOND);
    let state = AuthenticationState::default();
    assert_eq!(state.phase(), AuthenticationPhase::Idle);
    assert!(state.accepts_input());
    assert_eq!(state.next_deadline(), None);
}

#[test]
fn denial_and_error_share_deadlines() {
    let mut denied = AuthenticationState::new(policy());
    let mut failed = AuthenticationState::new(policy());
    let denied_token = denied.begin_attempt().expect("attempt should start");
    let failed_token = failed.begin_attempt().expect("attempt should start");

    let denied_action = denied.complete_attempt(denied_token, AuthenticationOutcome::Denied, START);
    let failed_action =
        failed.complete_attempt(failed_token, AuthenticationOutcome::InfrastructureError, START);

    assert_eq!(denied_action, failed_action);
    assert_eq!(denied.next_deadline(), failed.next_deadline());
    denied.advance(START + SECOND);
    failed.advance(START + SECOND);
    assert_eq!(denied.phase(), failed.phase());
    assert_eq!(denied.next_deadline(), Some(START + 3 * SECOND));
    assert_eq!(denied.next_deadline(), failed.next_deadline());
}

#[test]
fn advancing_twice_changes_nothing_more() {
    let mut state = AuthenticationState::new(policy());
    let token = state.begin_attempt().expect("attempt should start");
    state.complete_attempt(token, AuthenticationOutcome::Denied, START);
    state.advance(START + SECOND);
    let once = (state.phase(), state.next_deadline());
    state.advance(START + SECOND);
    assert_eq!((state.phase(), state.next_deadline()), once);
}

#[test]
fn stale_results_before_any_attempt_are_ignored() {
    let mut state = AuthenticationState::new(policy());
    let token = state.begin_attempt().expect("attempt should start");
    state.complete_attempt(token, AuthenticationOutcome::Denied, START);
    assert_eq!(
        state.complete_attempt(token, AuthenticationOutcome::Authenticated, START),
        CompletionAction::Ignored
    );
    assert_eq!(state.phase(), AuthenticationPhase::Denied);
    assert!(!state.cancel_attempt(token));
}

#[test]
fn advancing_in_order_matches_the_later_time_alone() {
    let mut stepped = AuthenticationState::new(policy());
    let mut direct = AuthenticationState::new(policy());
    let stepped_token = stepped.begin_attempt().expect("attempt should start");
    let direct_token = direct.begin_attempt().expect("attempt should start");
    stepped.complete_attempt(stepped_token, AuthenticationOutcome::Denied, START);
    direct.complete_attempt(direct_token, AuthenticationOutcome::Denied, START);

    stepped.advance(START + SECOND);
    stepped.advance(START + 3 * SECOND);
    direct.advance(START + 3 * SECOND);
    assert_eq!(stepped.phase(), AuthenticationPhase::Idle);
    assert_eq!(
        (stepped.phase(), stepped.next_deadline()),
        (direct.phase(), direct.next_deadline())
    );
}

#[test]
fn each_attempt_gets_a_fresh_token() {
    let mut state = AuthenticationState::new(policy());
    let first = state.begin_attempt().expect("attempt should start");
    assert!(state.cancel_attempt(first));
    let second = state.begin_attempt().expect("attempt should start");
    assert_ne!(first, second);
    assert_eq!(
        state.complete_attempt(first, AuthenticationOutcome::Authenticated, START),
        CompletionAction::Ignored
    );
    assert!(!state.unlock_authorized());
    assert_eq!(state.phase(), AuthenticationPhase::Authenticating);
}

#[test]
fn time_alone_never_authorizes_unlock() {
    let mut state = AuthenticationState::new(policy());
    for now in [0, START, u64::MAX] {
        state.advance(now);
        assert!(!state.unlock_authorized());
    }
    let token = state.begin_attempt().expect("attempt should start");
    state.advance(u64::MAX);
    assert_eq!(state.phase(), AuthenticationPhase::Authenticating);
    assert!(!state.unlock_authorized());
    assert_eq!(
        state.complete_attempt(token, AuthenticationOutcome::Authenticated, START),
        CompletionAction::UnlockAuthorized
    );
    state.advance(u64::MAX);
    assert!(state.unlock_authorized());
    assert_eq!(state.phase(), AuthenticationPhase::Authenticated);
}
