use luma::input::InputState;
use luma::state::{AuthenticationOutcome, AuthenticationPhase, AuthenticationState};
use luma::wayland::lock::{
    handle_backspace, prompt_state_for_phase, CompletionEffect, Key, KeyEffect, LockSession,
    Presentation, CLOCK_FRAME_INTERVAL, FEEDBACK_FRAME_INTERVAL,
};
use luma::wayland::opaque::PromptState;

const NOW: u64 = 50_000_000_000;

fn text(value: &str) -> Key {
    Key::Text(Some(value.to_owned()))
}

fn session() -> LockSession {
    LockSession::new(
        12,
        Some(AuthenticationState::default()),
        Some(Presentation { clock_enabled: true, date_enabled: false }),
    )
}

#[test]
fn control_backspace_clears_the_password_input() {
    let mut input = InputState::new(12);
    input.push_text("secret");

    handle_backspace(&mut input, true);

    assert!(input.is_empty());
}

#[test]
fn backspace_without_control_removes_one_character() {
    let mut input = InputState::new(12);
    input.push_text("secret");

    handle_backspace(&mut input, false);

    assert_eq!(input.character_count(), 5);
}

#[test]
fn smoke_timeout_is_explicitly_bounded_by_the_caller() {
    let timeout = std::time::Duration::from_secs(5);
    assert!(timeout <= std::time::Duration::from_secs(30));
}

#[test]
fn credential_denial_and_infrastructure_error_share_feedback() {
    assert_eq!(
        prompt_state_for_phase(Some(AuthenticationPhase::Denied)),
        PromptState::Failure
    );
    assert_eq!(
        prompt_state_for_phase(Some(AuthenticationPhase::Error)),
        PromptState::Failure
    );
}

#[test]
fn smoke_mode_keeps_the_neutral_prompt() {
    assert_eq!(prompt_state_for_phase(None), PromptState::Ready);
}

#[test]
fn every_phase_maps_to_one_prompt_state() {
    assert_eq!(prompt_state_for_phase(Some(AuthenticationPhase::Idle)), PromptState::Ready);
    assert_eq!(
        prompt_state_for_phase(Some(AuthenticationPhase::Authenticating)),
        PromptState::Authenticating
    );
    assert_eq!(
        prompt_state_for_phase(Some(AuthenticationPhase::Authenticated)),
        PromptState::Authenticating
    );
    assert_eq!(
        prompt_state_for_phase(Some(AuthenticationPhase::Cooldown)),
        PromptState::Cooldown
    );
}

#[test]
fn keys_are_ignored_until_the_lock_is_confirmed() {
    let mut session = session();
    assert!(matches!(session.handle_key(text("abc"), false, false, NOW), KeyEffect::Ignored));
    assert_eq!(session.password_length(), 0);
    assert!(matches!(session.handle_key(text("abc"), false, true, NOW), KeyEffect::Redraw));
    assert_eq!(session.password_length(), 3);
    assert!(matches!(session.handle_key(Key::Backspace, false, true, NOW), KeyEffect::Redraw));
    assert_eq!(session.password_length(), 2);
    assert!(matches!(session.handle_key(Key::Backspace, true, true, NOW), KeyEffect::Redraw));
    assert_eq!(session.password_length(), 0);
    assert!(matches!(session.handle_key(Key::Text(None), false, true, NOW), KeyEffect::Redraw));
}

#[test]
fn return_submits_the_input_once_and_blocks_further_keys() {
    let mut session = session();
    assert!(matches!(session.handle_key(Key::Return, false, true, NOW), KeyEffect::Redraw));
    session.handle_key(text("hunter2"), false, true, NOW);

    let (token, attempt) = match session.handle_key(Key::Return, false, true, NOW) {
        KeyEffect::Submit(token, attempt) => (token, attempt),
        _ => panic!("a non-empty input must be submitted"),
    };
    assert_eq!(attempt.as_bytes(), b"hunter2");
    assert_eq!(session.password_length(), 0);
    assert_eq!(session.prompt_state(), PromptState::Authenticating);
    assert_eq!(session.event_timeout(NOW), Some(FEEDBACK_FRAME_INTERVAL));
    assert!(matches!(session.handle_key(text("x"), false, true, NOW), KeyEffect::Ignored));
    assert_eq!(session.password_length(), 0);

    assert_eq!(
        session.handle_completion(token, AuthenticationOutcome::Authenticated, true, NOW + 5),
        CompletionEffect::Unlock
    );
    assert!(session.finished());
    assert!(session.unlock_authorized());
    assert_eq!(
        session.handle_completion(token, AuthenticationOutcome::Authenticated, true, NOW + 6),
        CompletionEffect::Ignored
    );
}

#[test]
fn denial_shows_failure_then_cooldown_then_ready() {
    let mut session = session();
    session.handle_key(text("wrong"), false, true, NOW);
    let token = match session.handle_key(Key::Return, false, true, NOW) {
        KeyEffect::Submit(token, _) => token,
        _ => panic!("attempt expected"),
    };
    assert_eq!(
        session.handle_completion(token, AuthenticationOutcome::Denied, true, NOW),
        CompletionEffect::Redraw
    );
    assert!(!session.finished());
    assert_eq!(session.prompt_state(), PromptState::Failure);
    assert_eq!(session.event_timeout(NOW), Some(FEEDBACK_FRAME_INTERVAL));

    assert!(!session.advance_authentication(NOW + 1));
    assert!(session.advance_authentication(NOW + 800_000_000));
    assert_eq!(session.prompt_state(), PromptState::Cooldown);
    assert!(session.advance_authentication(NOW + 1_300_000_000));
    assert_eq!(session.prompt_state(), PromptState::Ready);
    assert_eq!(session.visual_interval(), Some(CLOCK_FRAME_INTERVAL));
}

#[test]
fn results_before_confirmation_or_for_stale_attempts_change_nothing_visible() {
    let mut session = session();
    session.handle_key(text("pw"), false, true, NOW);
    let token = match session.handle_key(Key::Return, false, true, NOW) {
        KeyEffect::Submit(token, _) => token,
        _ => panic!("attempt expected"),
    };
    assert_eq!(
        session.handle_completion(token, AuthenticationOutcome::Authenticated, false, NOW),
        CompletionEffect::Ignored
    );
    assert!(!session.unlock_authorized());
    session.worker_unavailable(token, NOW);
    assert_eq!(session.prompt_state(), PromptState::Failure);
    assert_eq!(
        session.handle_completion(token, AuthenticationOutcome::Authenticated, true, NOW),
        CompletionEffect::Redraw
    );
    assert!(!session.unlock_authorized());
    assert_eq!(session.prompt_state(), PromptState::Failure);
}

#[test]
fn animation_advances_only_when_its_redraw_is_due() {
    let mut session = session();
    assert_eq!(session.event_timeout(NOW), None);
    session.schedule_visual_redraw(NOW);
    assert_eq!(session.event_timeout(NOW), Some(CLOCK_FRAME_INTERVAL));
    assert!(!session.advance_visuals(NOW + 1));
    assert_eq!(session.visual_frame(), 0);
    assert!(session.advance_visuals(NOW + CLOCK_FRAME_INTERVAL));
    assert_eq!(session.visual_frame(), 1);
    assert_eq!(session.event_timeout(NOW + CLOCK_FRAME_INTERVAL), Some(CLOCK_FRAME_INTERVAL));
    assert_eq!(session.event_timeout(NOW + 3 * CLOCK_FRAME_INTERVAL), Some(0));
}

#[test]
fn a_lock_without_authentication_or_text_never_animates() {
    let mut session = LockSession::new(12, None, None);
    session.handle_key(text("abc"), false, true, NOW);
    session.clear_input();
    assert_eq!(session.password_length(), 0);
    session.handle_key(text("abc"), false, true, NOW);
    assert!(matches!(session.handle_key(Key::Return, false, true, NOW), KeyEffect::Redraw));
    assert_eq!(session.password_length(), 0);
    assert_eq!(session.prompt_state(), PromptState::Ready);
    assert_eq!(session.visual_interval(), None);
    session.finish();
    assert!(session.finished());
    assert!(!session.unlock_authorized());
}
