//! The decisions of a running lock: which key edits the password, when an
//! attempt starts, what a worker result does, when the next redraw is due and
//! which prompt state a frame shows.
//!
//! The surrounding event loop performs the Wayland and worker calls; each
//! method here takes what happened and says what to do next. Times are
//! monotonic nanoseconds.

use vstd::prelude::*;

use crate::input::{InputState, PasswordAttempt};
use crate::state::{
    complete_transition, phase_of, AttemptToken, AuthenticationModel, AuthenticationOutcome,
    AuthenticationPhase, AuthenticationState, CompletionAction,
};
use crate::wayland::opaque::PromptState;

verus! {

/// The interval between animation frames of the feedback states: 120 ms.
pub const FEEDBACK_FRAME_INTERVAL: u64 = 120_000_000;

/// The interval between clock redraws: one second.
pub const CLOCK_FRAME_INTERVAL: u64 = 1_000_000_000;

/// The prompt state that an authentication phase shows; without authentication
/// the prompt stays ready.
pub open spec fn spec_prompt_state(phase: Option<AuthenticationPhase>) -> PromptState {
    match phase {
        None => PromptState::Ready,
        Some(AuthenticationPhase::Idle) => PromptState::Ready,
        Some(AuthenticationPhase::Authenticating) => PromptState::Authenticating,
        Some(AuthenticationPhase::Authenticated) => PromptState::Authenticating,
        Some(AuthenticationPhase::Denied) => PromptState::Failure,
        Some(AuthenticationPhase::Error) => PromptState::Failure,
        Some(AuthenticationPhase::Cooldown) => PromptState::Cooldown,
    }
}

/// Maps an authentication phase to the prompt state that a frame shows.
pub fn prompt_state_for_phase(phase: Option<AuthenticationPhase>) -> (state: PromptState)
    ensures
        state == spec_prompt_state(phase),
{
    match phase {
        None => PromptState::Ready,
        Some(AuthenticationPhase::Idle) => PromptState::Ready,
        Some(AuthenticationPhase::Authenticating) => PromptState::Authenticating,
        Some(AuthenticationPhase::Authenticated) => PromptState::Authenticating,
        Some(AuthenticationPhase::Denied) => PromptState::Failure,
        Some(AuthenticationPhase::Error) => PromptState::Failure,
        Some(AuthenticationPhase::Cooldown) => PromptState::Cooldown,
    }
}

/// `Backspace` removes one character; `Ctrl+Backspace` clears the whole input.
pub fn handle_backspace(input: &mut InputState, control: bool)
    requires
        old(input).well_formed(),
    ensures
        final(input).well_formed(),
        final(input).max_characters() == old(input).max_characters(),
        control ==> final(input)@ == Seq::<char>::empty(),
        !control ==> final(input)@ == if old(input)@.len() == 0 {
            old(input)@
        } else {
            old(input)@.drop_last()
        },
{
    if control {
        input.clear();
    } else {
        input.backspace();
    }
}

/// A key press, as far as the lock reads it.
pub enum Key {
    Backspace,
    Return,
    /// Any other key, with the text it produces, if any.
    Text(Option<String>),
}

/// What the event loop does after a key press.
pub enum KeyEffect {
    /// Nothing changed.
    Ignored,
    /// The input changed or a submission was refused: redraw the surfaces.
    Redraw,
    /// Hand the attempt to the authentication worker, then redraw.
    Submit(AttemptToken, PasswordAttempt),
}

/// What the event loop does after a worker result.
#[derive(Clone, Copy, Debug, Eq, PartialEq, Structural)]
pub enum CompletionEffect {
    /// The result arrived after the lock ended or without authentication: nothing to do.
    Ignored,
    /// The session may be unlocked; the event loop ends.
    Unlock,
    /// The prompt changed: redraw the surfaces.
    Redraw,
}

/// Which text the lock draws besides the prompt.
#[derive(Clone, Copy, Debug, Eq, PartialEq, Structural)]
pub struct Presentation {
    pub clock_enabled: bool,
    pub date_enabled: bool,
}

/// What a lock session holds, as a value.
pub struct LockModel {
    pub input: Seq<char>,
    pub max_characters: nat,
    pub authentication: Option<AuthenticationModel>,
    pub presentation: Option<Presentation>,
    pub finished: bool,
    pub unlock_authorized: bool,
    pub visual_frame: u64,
    pub next_visual_redraw: Option<u64>,
}

/// The decision state of a running lock.
pub struct LockSession {
    input: InputState,
    authentication: Option<AuthenticationState>,
    presentation: Option<Presentation>,
    finished: bool,
    unlock_authorized: bool,
    visual_frame: u64,
    next_visual_redraw: Option<u64>,
}

/// The phase that a session's authentication shows, if it has one.
pub open spec fn session_phase(authentication: Option<AuthenticationModel>) -> Option<
    AuthenticationPhase,
> {
    match authentication {
        Some(model) => Some(phase_of(model.phase)),
        None => None,
    }
}

/// The redraw interval of a session, if it animates at all.
pub open spec fn spec_visual_interval(
    authentication: Option<AuthenticationModel>,
    presentation: Option<Presentation>,
) -> Option<u64> {
    match presentation {
        None => None,
        Some(shown) => match spec_prompt_state(session_phase(authentication)) {
            PromptState::Ready => if shown.clock_enabled || shown.date_enabled {
                Some(CLOCK_FRAME_INTERVAL)
            } else {
                None
            },
            _ => Some(FEEDBACK_FRAME_INTERVAL),
        },
    }
}

/// The redraw deadline scheduled at `now`.
pub open spec fn scheduled_redraw(
    authentication: Option<AuthenticationModel>,
    presentation: Option<Presentation>,
    now: u64,
) -> Option<u64> {
    match spec_visual_interval(authentication, presentation) {
        Some(interval) => Some((now + interval) as u64),
        None => None,
    }
}

/// The time left until `deadline`, zero once it has passed.
pub open spec fn time_until(deadline: u64, now: u64) -> u64 {
    if deadline > now {
        (deadline - now) as u64
    } else {
        0
    }
}

/// How long the event loop may wait at `now` before a deadline falls due.
pub open spec fn spec_event_timeout(
    authentication_deadline: Option<u64>,
    redraw: Option<u64>,
    now: u64,
) -> Option<u64> {
    match (authentication_deadline, redraw) {
        (Some(a), Some(v)) => Some(
            if time_until(a, now) <= time_until(v, now) {
                time_until(a, now)
            } else {
                time_until(v, now)
            },
        ),
        (Some(a), None) => Some(time_until(a, now)),
        (None, Some(v)) => Some(time_until(v, now)),
        (None, None) => None,
    }
}

/// The authentication deadline of a session, if any.
pub open spec fn authentication_deadline(authentication: Option<AuthenticationModel>) -> Option<u64> {
    match authentication {
        Some(model) => crate::state::deadline_of(model.phase),
        None => None,
    }
}

/// The frame after `frame`, wrapping to zero after the last.
pub open spec fn next_frame(frame: u64) -> u64 {
    if frame == u64::MAX {
        0
    } else {
        (frame + 1) as u64
    }
}

/// The latest time at which a redraw can still be scheduled without overflow.
pub open spec fn schedulable(now: u64) -> bool {
    now <= u64::MAX - CLOCK_FRAME_INTERVAL
}

impl View for LockSession {
    type V = LockModel;

    closed spec fn view(&self) -> LockModel {
        LockModel {
            input: self.input@,
            max_characters: self.input.max_characters(),
            authentication: match self.authentication {
                Some(state) => Some(state@),
                None => None,
            },
            presentation: self.presentation,
            finished: self.finished,
            unlock_authorized: self.unlock_authorized,
            visual_frame: self.visual_frame,
            next_visual_redraw: self.next_visual_redraw,
        }
    }
}

impl LockSession {
    /// The password input is well formed.
    pub closed spec fn well_formed(&self) -> bool {
        self.input.well_formed()
    }

    /// A session with empty input that has not finished; with `authentication`
    /// absent, the lock takes input but never starts an attempt.
    pub fn new(
        max_characters: usize,
        authentication: Option<AuthenticationState>,
        presentation: Option<Presentation>,
    ) -> (session: Self)
        ensures
            session.well_formed(),
            session@.input == Seq::<char>::empty(),
            session@.max_characters == max_characters,
            session@.authentication == match authentication {
                Some(state) => Some(state@),
                None => None::<AuthenticationModel>,
            },
            session@.presentation == presentation,
            !session@.finished,
            !session@.unlock_authorized,
            session@.visual_frame == 0,
            session@.next_visual_redraw is None,
    {
        LockSession {
            input: InputState::new(max_characters),
            authentication,
            presentation,
            finished: false,
            unlock_authorized: false,
            visual_frame: 0,
            next_visual_redraw: None,
        }
    }

    /// Whether the event loop has ended.
    pub fn finished(&self) -> (finished: bool)
        ensures
            finished == self@.finished,
    {
        self.finished
    }

    /// Whether an authenticated result authorized unlocking.
    pub fn unlock_authorized(&self) -> (authorized: bool)
        ensures
            authorized == self@.unlock_authorized,
    {
        self.unlock_authorized
    }

    /// Ends the event loop without unlocking, as when the compositor ends the lock.
    pub fn finish(&mut self)
        ensures
            final(self)@ == (LockModel { finished: true, ..old(self)@ }),
            final(self).well_formed() == old(self).well_formed(),
    {
        self.finished = true;
    }

    /// Forgets the typed input, as when the keyboard goes away or the lock ends.
    pub fn clear_input(&mut self)
        requires
            old(self).well_formed(),
        ensures
            final(self).well_formed(),
            final(self)@ == (LockModel { input: Seq::<char>::empty(), ..old(self)@ }),
    {
        self.input.clear();
    }

    /// The animation frame counter.
    pub fn visual_frame(&self) -> (frame: u64)
        ensures
            frame == self@.visual_frame,
    {
        self.visual_frame
    }

    /// The number of entered characters, which the ready indicator shows.
    pub fn password_length(&self) -> (length: usize)
        requires
            self.well_formed(),
        ensures
            length == self@.input.len(),
    {
        self.input.character_count()
    }

    /// The prompt state that frames show now.
    pub fn prompt_state(&self) -> (state: PromptState)
        ensures
            state == spec_prompt_state(session_phase(self@.authentication)),
    {
        let phase = match &self.authentication {
            Some(authentication) => Some(authentication.phase()),
            None => None,
        };
        prompt_state_for_phase(phase)
    }

    /// The redraw interval, if the session animates at all.
    pub fn visual_interval(&self) -> (interval: Option<u64>)
        ensures
            interval == spec_visual_interval(self@.authentication, self@.presentation),
    {
        let shown = match self.presentation {
            Some(shown) => shown,
            None => {
                return None;
            },
        };
        match self.prompt_state() {
            PromptState::Ready => if shown.clock_enabled || shown.date_enabled {
                Some(CLOCK_FRAME_INTERVAL)
            } else {
                None
            },
            _ => Some(FEEDBACK_FRAME_INTERVAL),
        }
    }

    /// Schedules the next redraw one interval after `now`.
    pub fn schedule_visual_redraw(&mut self, now: u64)
        requires
            schedulable(now),
        ensures
            final(self)@ == (LockModel {
                next_visual_redraw: scheduled_redraw(
                    old(self)@.authentication,
                    old(self)@.presentation,
                    now,
                ),
                ..old(self)@
            }),
            final(self).well_formed() == old(self).well_formed(),
    {
        self.next_visual_redraw = match self.visual_interval() {
            Some(interval) => Some(now + interval),
            None => None,
        };
    }

    /// How long the event loop may wait at `now`: until the earlier of the next
    /// authentication deadline and the next redraw, or without limit when neither
    /// is pending.
    pub fn event_timeout(&self, now: u64) -> (timeout: Option<u64>)
        ensures
            timeout == spec_event_timeout(
                authentication_deadline(self@.authentication),
                self@.next_visual_redraw,
                now,
            ),
    {
        let authentication = match &self.authentication {
            Some(authentication) => match authentication.next_deadline() {
                Some(deadline) => Some(until(deadline, now)),
                None => None,
            },
            None => None,
        };
        let visuals = match self.next_visual_redraw {
            Some(deadline) => Some(until(deadline, now)),
            None => None,
        };
        match (authentication, visuals) {
            (Some(a), Some(v)) => Some(
                if a <= v {
                    a
                } else {
                    v
                },
            ),
            (Some(a), None) => Some(a),
            (None, Some(v)) => Some(v),
            (None, None) => None,
        }
    }

    /// Handles a key press while the lock is `locked` by the compositor, with the
    /// control modifier held or not, at time `now`.
    ///
    /// Keys are ignored before the lock is confirmed and while authentication does
    /// not accept input. `Return` submits the input: an empty input or a refused
    /// attempt only redraws, an accepted attempt is handed out with its token.
    pub fn handle_key(&mut self, key: Key, control: bool, locked: bool, now: u64) -> (effect:
        KeyEffect)
        requires
            old(self).well_formed(),
            schedulable(now),
            key matches Key::Text(Some(text)) ==> 4 * (old(self)@.input.len() + text@.len())
                < isize::MAX,
        ensures
            final(self).well_formed(),
            final(self)@.max_characters == old(self)@.max_characters,
            final(self)@.finished == old(self)@.finished,
            final(self)@.unlock_authorized == old(self)@.unlock_authorized,
            final(self)@.presentation == old(self)@.presentation,
            final(self)@.visual_frame == old(self)@.visual_frame,
            (!locked || (old(self)@.authentication matches Some(model) && !(model.phase is Idle)))
                ==> (effect is Ignored && final(self)@ == old(self)@),
            effect is Submit ==> (key is Return && old(self)@.input.len() > 0),
            effect matches KeyEffect::Submit(token, attempt) ==> (
                attempt@ == vstd::utf8::encode_utf8(old(self)@.input)
                && (old(self)@.authentication matches Some(model)
                && model.phase is Idle
                && final(self)@.authentication == Some(crate::state::begin_transition(model).0)
                && crate::state::begin_transition(model).1 == Ok::<AttemptToken, crate::state::BeginAttemptError>(token))
            ),
            (locked && !(old(self)@.authentication matches Some(model) && !(model.phase is Idle)))
                ==> match key {
                Key::Backspace => effect is Redraw && final(self)@.authentication == old(self)@.authentication
                    && final(self)@.next_visual_redraw == old(self)@.next_visual_redraw
                    && (control ==> final(self)@.input == Seq::<char>::empty())
                    && (!control ==> final(self)@.input == if old(self)@.input.len() == 0 {
                        old(self)@.input
                    } else {
                        old(self)@.input.drop_last()
                    }),
                Key::Return => final(self)@.input == Seq::<char>::empty() && (
                    (old(self)@.input.len() > 0 && old(self)@.authentication is Some) <==> effect is Submit
                ) && (effect is Submit ==> final(self)@.next_visual_redraw == scheduled_redraw(
                    final(self)@.authentication,
                    final(self)@.presentation,
                    now,
                )) && (!(effect is Submit) ==> (effect is Redraw
                    && final(self)@.authentication == old(self)@.authentication
                    && final(self)@.next_visual_redraw == old(self)@.next_visual_redraw)),
                Key::Text(text) => effect is Redraw && final(self)@.authentication == old(self)@.authentication
                    && final(self)@.next_visual_redraw == old(self)@.next_visual_redraw
                    && final(self)@.input == match text {
                    Some(text) => crate::input::accept_text(
                        old(self)@.input,
                        text@,
                        old(self)@.max_characters,
                    ),
                    None => old(self)@.input,
                },
            },
    {
        if !locked {
            return KeyEffect::Ignored;
        }
        let accepting = match &self.authentication {
            Some(authentication) => authentication.accepts_input(),
            None => true,
        };
        if !accepting {
            return KeyEffect::Ignored;
        }
        match key {
            Key::Backspace => {
                handle_backspace(&mut self.input, control);
                KeyEffect::Redraw
            },
            Key::Return => self.submit_authentication(now),
            Key::Text(text) => {
                match text {
                    Some(text) => self.input.push_text(&text),
                    None => {},
                }
                KeyEffect::Redraw
            },
        }
    }

    /// Takes the input out and starts an attempt, when there is input and an
    /// authentication that accepts it.
    fn submit_authentication(&mut self, now: u64) -> (effect: KeyEffect)
        requires
            old(self).well_formed(),
            schedulable(now),
            old(self)@.authentication matches Some(model) ==> model.phase is Idle,
        ensures
            final(self).well_formed(),
            final(self)@.input == Seq::<char>::empty(),
            final(self)@.max_characters == old(self)@.max_characters,
            final(self)@.finished == old(self)@.finished,
            final(self)@.unlock_authorized == old(self)@.unlock_authorized,
            final(self)@.presentation == old(self)@.presentation,
            final(self)@.visual_frame == old(self)@.visual_frame,
            (old(self)@.input.len() > 0 && old(self)@.authentication is Some) <==> effect is Submit,
            effect matches KeyEffect::Submit(token, attempt) ==> (
                attempt@ == vstd::utf8::encode_utf8(old(self)@.input)
                && (old(self)@.authentication matches Some(model)
                && final(self)@.authentication == Some(crate::state::begin_transition(model).0)
                && crate::state::begin_transition(model).1 == Ok::<AttemptToken, crate::state::BeginAttemptError>(token)
                && final(self)@.next_visual_redraw == scheduled_redraw(
                    final(self)@.authentication,
                    final(self)@.presentation,
                    now,
                ))
            ),
            !(effect is Submit) ==> (effect is Redraw
                && final(self)@.authentication == old(self)@.authentication
                && final(self)@.next_visual_redraw == old(self)@.next_visual_redraw),
    {
        let password = match self.input.submit() {
            Some(password) => password,
            None => {
                return KeyEffect::Redraw;
            },
        };
        let mut authentication = match self.authentication.take() {
            Some(authentication) => authentication,
            None => {
                return KeyEffect::Redraw;
            },
        };
        proof {
            crate::state::lemma_one_attempt_at_a_time(authentication@);
        }
        let started = authentication.begin_attempt();
        self.authentication = Some(authentication);
        match started {
            Ok(token) => {
                self.schedule_visual_redraw(now);
                KeyEffect::Submit(token, password)
            },
            Err(_) => KeyEffect::Redraw,
        }
    }

    /// Records that the worker could not take attempt `token`: the attempt ends as
    /// an infrastructure failure.
    pub fn worker_unavailable(&mut self, token: AttemptToken, now: u64)
        ensures
            final(self).well_formed() == old(self).well_formed(),
            final(self)@ == (LockModel {
                authentication: match old(self)@.authentication {
                    Some(model) => Some(
                        complete_transition(
                            model,
                            token,
                            AuthenticationOutcome::InfrastructureError,
                            now,
                        ).0,
                    ),
                    None => None,
                },
                ..old(self)@
            }),
    {
        let mut authentication = match self.authentication.take() {
            Some(authentication) => authentication,
            None => {
                return;
            },
        };
        authentication.complete_attempt(token, AuthenticationOutcome::InfrastructureError, now);
        self.authentication = Some(authentication);
    }

    /// Applies the worker's result for attempt `token` at time `now` while the lock
    /// is `locked` by the compositor.
    ///
    /// Results after the session ended, before the lock is confirmed or without
    /// authentication are ignored. An authorized unlock ends the session.
    pub fn handle_completion(
        &mut self,
        token: AttemptToken,
        outcome: AuthenticationOutcome,
        locked: bool,
        now: u64,
    ) -> (effect: CompletionEffect)
        requires
            schedulable(now),
        ensures
            final(self).well_formed() == old(self).well_formed(),
            final(self)@.input == old(self)@.input,
            final(self)@.max_characters == old(self)@.max_characters,
            final(self)@.presentation == old(self)@.presentation,
            final(self)@.visual_frame == old(self)@.visual_frame,
            (old(self)@.finished || !locked || old(self)@.authentication is None) ==> (
                effect == CompletionEffect::Ignored && final(self)@ == old(self)@),
            (!old(self)@.finished && locked && old(self)@.authentication is Some) ==> (
                old(self)@.authentication matches Some(model) && {
                    let (next, action) = complete_transition(model, token, outcome, now);
                    &&& final(self)@.authentication == Some(next)
                    &&& (action == CompletionAction::UnlockAuthorized) ==> (
                        effect == CompletionEffect::Unlock
                        && final(self)@.finished
                        && final(self)@.unlock_authorized
                        && final(self)@.next_visual_redraw == old(self)@.next_visual_redraw)
                    &&& (action != CompletionAction::UnlockAuthorized) ==> (
                        effect == CompletionEffect::Redraw
                        && !final(self)@.finished
                        && final(self)@.unlock_authorized == old(self)@.unlock_authorized
                        && final(self)@.next_visual_redraw == scheduled_redraw(
                            Some(next),
                            old(self)@.presentation,
                            now,
                        ))
                }),
    {
        if self.finished || !locked {
            return CompletionEffect::Ignored;
        }
        let mut authentication = match self.authentication.take() {
            Some(authentication) => authentication,
            None => {
                return CompletionEffect::Ignored;
            },
        };
        let action = authentication.complete_attempt(token, outcome, now);
        self.authentication = Some(authentication);
        if action == CompletionAction::UnlockAuthorized {
            self.unlock_authorized = true;
            self.finished = true;
            return CompletionEffect::Unlock;
        }
        self.schedule_visual_redraw(now);
        CompletionEffect::Redraw
    }

    /// Advances feedback and cooldown to time `now`; returns whether the prompt
    /// changed and the surfaces need a redraw.
    pub fn advance_authentication(&mut self, now: u64) -> (changed: bool)
        requires
            schedulable(now),
        ensures
            final(self).well_formed() == old(self).well_formed(),
            final(self)@.input == old(self)@.input,
            final(self)@.max_characters == old(self)@.max_characters,
            final(self)@.finished == old(self)@.finished,
            final(self)@.unlock_authorized == old(self)@.unlock_authorized,
            final(self)@.presentation == old(self)@.presentation,
            final(self)@.visual_frame == old(self)@.visual_frame,
            final(self)@.authentication == match old(self)@.authentication {
                Some(model) => Some(crate::state::advance_transition(model, now)),
                None => None,
            },
            changed == (session_phase(final(self)@.authentication) != session_phase(
                old(self)@.authentication,
            )),
            changed ==> final(self)@.next_visual_redraw == scheduled_redraw(
                final(self)@.authentication,
                final(self)@.presentation,
                now,
            ),
            !changed ==> final(self)@.next_visual_redraw == old(self)@.next_visual_redraw,
    {
        let mut authentication = match self.authentication.take() {
            Some(authentication) => authentication,
            None => {
                return false;
            },
        };
        let previous = authentication.phase();
        authentication.advance(now);
        let current = authentication.phase();
        self.authentication = Some(authentication);
        if current != previous {
            self.schedule_visual_redraw(now);
            true
        } else {
            false
        }
    }

    /// Moves the animation on when its redraw is due at `now`; returns whether the
    /// surfaces need a redraw.
    pub fn advance_visuals(&mut self, now: u64) -> (due: bool)
        requires
            schedulable(now),
        ensures
            final(self).well_formed() == old(self).well_formed(),
            due == (old(self)@.next_visual_redraw matches Some(deadline) && now >= deadline),
            due ==> final(self)@ == (LockModel {
                visual_frame: next_frame(old(self)@.visual_frame),
                next_visual_redraw: scheduled_redraw(
                    old(self)@.authentication,
                    old(self)@.presentation,
                    now,
                ),
                ..old(self)@
            }),
            !due ==> final(self)@ == old(self)@,
    {
        let deadline = match self.next_visual_redraw {
            Some(deadline) => deadline,
            None => {
                return false;
            },
        };
        if now < deadline {
            return false;
        }
        self.visual_frame = self.visual_frame.wrapping_add(1);
        self.schedule_visual_redraw(now);
        true
    }
}

/// The time left until `deadline`, zero once it has passed.
fn until(deadline: u64, now: u64) -> (left: u64)
    ensures
        left == time_until(deadline, now),
{
    if deadline > now {
        deadline - now
    } else {
        0
    }
}

/// Credential denial and infrastructure failure look alike: whatever the state, a
/// denied result and a failed one lead to the same prompt state and the same
/// redraw schedule.
pub proof fn lemma_denial_and_error_look_alike(
    model: AuthenticationModel,
    token: AttemptToken,
    now: u64,
    presentation: Option<Presentation>,
)
    ensures
        spec_prompt_state(
            session_phase(
                Some(complete_transition(model, token, AuthenticationOutcome::Denied, now).0),
            ),
        ) == spec_prompt_state(
            session_phase(
                Some(
                    complete_transition(
                        model,
                        token,
                        AuthenticationOutcome::InfrastructureError,
                        now,
                    ).0,
                ),
            ),
        ),
        spec_visual_interval(
            Some(complete_transition(model, token, AuthenticationOutcome::Denied, now).0),
            presentation,
        ) == spec_visual_interval(
            Some(
                complete_transition(model, token, AuthenticationOutcome::InfrastructureError, now).0,
            ),
            presentation,
        ),
{
    crate::state::lemma_failures_share_feedback(model, token, now);
}

/// The event loop never sleeps past a pending deadline: the timeout ends no later
/// than the authentication deadline and the redraw deadline, and there is one
/// whenever either is pending.
pub proof fn lemma_timeout_respects_deadlines(
    authentication_deadline: Option<u64>,
    redraw: Option<u64>,
    now: u64,
)
    ensures
        (authentication_deadline is Some || redraw is Some) <==> spec_event_timeout(
            authentication_deadline,
            redraw,
            now,
        ) is Some,
        spec_event_timeout(authentication_deadline, redraw, now) matches Some(timeout) ==> (
        (authentication_deadline matches Some(deadline) ==> (now + timeout <= deadline || timeout
            == 0)) && (redraw matches Some(deadline) ==> (now + timeout <= deadline || timeout
            == 0))),
{
}

/// Feedback states always animate when text is shown: whenever authentication is
/// running, has failed or is cooling down, a redraw is scheduled every 120 ms.
pub proof fn lemma_feedback_animates(
    authentication: Option<AuthenticationModel>,
    presentation: Presentation,
)
    requires
        spec_prompt_state(session_phase(authentication)) != PromptState::Ready,
    ensures
        spec_visual_interval(authentication, Some(presentation)) == Some(FEEDBACK_FRAME_INTERVAL),
{
}

} // verus!
