//! The authentication state machine of the lock.
//!
//! The machine is independent from PAM, Wayland and rendering. Time is given by
//! the caller as a monotonic counter in nanoseconds, and every duration of the
//! policy is a number of nanoseconds.

use vstd::arithmetic::power2::*;
use vstd::bits::*;
use vstd::prelude::*;

verus! {

/// The phases that the lock exposes to its presentation.
#[derive(Clone, Copy, Debug, PartialEq, Eq, Structural)]
pub enum AuthenticationPhase {
    Idle,
    Authenticating,
    Denied,
    Error,
    Cooldown,
    Authenticated,
}

/// What the authentication backend reported for one attempt.
#[derive(Clone, Copy, Debug, PartialEq, Eq, Structural)]
pub enum AuthenticationOutcome {
    Authenticated,
    Denied,
    InfrastructureError,
}

/// What the lock must do after a completion was applied.
#[derive(Clone, Copy, Debug, PartialEq, Eq, Structural)]
pub enum CompletionAction {
    KeepLocked,
    UnlockAuthorized,
    Ignored,
}

/// Why a new attempt could not start.
#[derive(Clone, Copy, Debug, PartialEq, Eq, Structural)]
pub enum BeginAttemptError {
    Busy,
    CoolingDown,
    AlreadyAuthenticated,
}

/// Identifies one authentication attempt. Only the state machine creates tokens.
#[derive(Clone, Copy, Debug, PartialEq, Eq, Structural)]
pub struct AttemptToken(u64);

impl AttemptToken {
    /// The attempt number that this token carries.
    pub closed spec fn id(self) -> u64 {
        self.0
    }
}

/// Feedback and cooldown timing, every field in nanoseconds.
#[derive(Clone, Copy, Debug, PartialEq, Eq, Structural)]
pub struct AuthenticationPolicy {
    pub feedback_duration: u64,
    pub initial_cooldown: u64,
    pub maximum_cooldown: u64,
}

impl Default for AuthenticationPolicy {
    /// 800 ms of feedback, a first cooldown of 500 ms, and a cooldown cap of 8 s.
    fn default() -> (policy: Self)
        ensures
            policy.feedback_duration == 800_000_000,
            policy.initial_cooldown == 500_000_000,
            policy.maximum_cooldown == 8_000_000_000,
    {
        AuthenticationPolicy {
            feedback_duration: 800_000_000,
            initial_cooldown: 500_000_000,
            maximum_cooldown: 8_000_000_000,
        }
    }
}

/// The internal phase of the machine, with the deadlines that the phase waits for.
#[derive(Clone, Copy, Debug, PartialEq, Eq, Structural)]
pub enum PhaseState {
    Idle,
    Authenticating { token: AttemptToken },
    Denied { feedback_until: u64, cooldown_until: u64 },
    Error { feedback_until: u64, cooldown_until: u64 },
    Cooldown { until: u64 },
    Authenticated,
}

/// The abstract value of an [`AuthenticationState`].
pub struct AuthenticationModel {
    pub phase: PhaseState,
    pub policy: AuthenticationPolicy,
    pub next_attempt_id: u64,
    pub consecutive_failures: u32,
}

/// The authentication state of one lock.
#[derive(Debug)]
pub struct AuthenticationState {
    phase: PhaseState,
    policy: AuthenticationPolicy,
    next_attempt_id: u64,
    consecutive_failures: u32,
}

impl View for AuthenticationState {
    type V = AuthenticationModel;

    closed spec fn view(&self) -> AuthenticationModel {
        AuthenticationModel {
            phase: self.phase,
            policy: self.policy,
            next_attempt_id: self.next_attempt_id,
            consecutive_failures: self.consecutive_failures,
        }
    }
}

/// The public phase that an internal phase shows.
pub open spec fn phase_of(phase: PhaseState) -> AuthenticationPhase {
    match phase {
        PhaseState::Idle => AuthenticationPhase::Idle,
        PhaseState::Authenticating { .. } => AuthenticationPhase::Authenticating,
        PhaseState::Denied { .. } => AuthenticationPhase::Denied,
        PhaseState::Error { .. } => AuthenticationPhase::Error,
        PhaseState::Cooldown { .. } => AuthenticationPhase::Cooldown,
        PhaseState::Authenticated => AuthenticationPhase::Authenticated,
    }
}

/// The deadline that a phase waits for, if any.
pub open spec fn deadline_of(phase: PhaseState) -> Option<u64> {
    match phase {
        PhaseState::Denied { feedback_until, .. } => Some(feedback_until),
        PhaseState::Error { feedback_until, .. } => Some(feedback_until),
        PhaseState::Cooldown { until } => Some(until),
        _ => None,
    }
}

/// `time + duration`, or `time` itself when the sum leaves the clock's range.
pub open spec fn later(time: u64, duration: u64) -> u64 {
    if time + duration <= u64::MAX {
        (time + duration) as u64
    } else {
        time
    }
}

/// The exponent of the cooldown after `failures` consecutive failures.
pub open spec fn cooldown_exponent(failures: u32) -> nat {
    if failures <= 1 {
        0
    } else if failures - 1 <= 31 {
        (failures - 1) as nat
    } else {
        31
    }
}

/// The cooldown after `failures` consecutive failures: the initial cooldown doubled
/// for each failure after the first (at most 31 times), capped at the maximum.
pub open spec fn cooldown_for(policy: AuthenticationPolicy, failures: u32) -> u64 {
    let product = policy.initial_cooldown * pow2(cooldown_exponent(failures));
    if product < policy.maximum_cooldown {
        product as u64
    } else {
        policy.maximum_cooldown
    }
}

/// The state of a freshly created machine.
pub open spec fn initial_model(policy: AuthenticationPolicy) -> AuthenticationModel {
    AuthenticationModel {
        phase: PhaseState::Idle,
        policy,
        next_attempt_id: 0,
        consecutive_failures: 0,
    }
}

/// The phase entered once feedback has been shown at time `now`.
pub open spec fn after_feedback(now: u64, cooldown_until: u64) -> PhaseState {
    if now >= cooldown_until {
        PhaseState::Idle
    } else {
        PhaseState::Cooldown { until: cooldown_until }
    }
}

/// The attempt number that follows `id`, wrapping at the end of the range.
pub open spec fn next_id(id: u64) -> u64 {
    if id == u64::MAX {
        0
    } else {
        (id + 1) as u64
    }
}

/// What `begin_attempt` does to a state, and what it returns.
pub closed spec fn begin_transition(s: AuthenticationModel) -> (
    AuthenticationModel,
    Result<AttemptToken, BeginAttemptError>,
) {
    match s.phase {
        PhaseState::Idle => {
            let token = AttemptToken(s.next_attempt_id);
            (
                AuthenticationModel {
                    phase: PhaseState::Authenticating { token },
                    next_attempt_id: next_id(s.next_attempt_id),
                    ..s
                },
                Ok(token),
            )
        },
        PhaseState::Authenticating { .. } => (s, Err(BeginAttemptError::Busy)),
        PhaseState::Denied { .. } => (s, Err(BeginAttemptError::Busy)),
        PhaseState::Error { .. } => (s, Err(BeginAttemptError::Busy)),
        PhaseState::Cooldown { .. } => (s, Err(BeginAttemptError::CoolingDown)),
        PhaseState::Authenticated => (s, Err(BeginAttemptError::AlreadyAuthenticated)),
    }
}

/// What `complete_attempt` does to a state, and what it returns.
pub closed spec fn complete_transition(
    s: AuthenticationModel,
    token: AttemptToken,
    outcome: AuthenticationOutcome,
    now: u64,
) -> (AuthenticationModel, CompletionAction) {
    if s.phase != (PhaseState::Authenticating { token }) {
        (s, CompletionAction::Ignored)
    } else if outcome == AuthenticationOutcome::Authenticated {
        (
            AuthenticationModel {
                phase: PhaseState::Authenticated,
                consecutive_failures: 0,
                ..s
            },
            CompletionAction::UnlockAuthorized,
        )
    } else {
        let failures: u32 = if s.consecutive_failures == u32::MAX {
            u32::MAX
        } else {
            (s.consecutive_failures + 1) as u32
        };
        let feedback_until = later(now, s.policy.feedback_duration);
        let cooldown_until = later(feedback_until, cooldown_for(s.policy, failures));
        let phase = if outcome == AuthenticationOutcome::Denied {
            PhaseState::Denied { feedback_until, cooldown_until }
        } else {
            PhaseState::Error { feedback_until, cooldown_until }
        };
        (
            AuthenticationModel { phase, consecutive_failures: failures, ..s },
            CompletionAction::KeepLocked,
        )
    }
}

/// What `cancel_attempt` does to a state, and what it returns.
pub closed spec fn cancel_transition(s: AuthenticationModel, token: AttemptToken) -> (
    AuthenticationModel,
    bool,
) {
    if s.phase == (PhaseState::Authenticating { token }) {
        (AuthenticationModel { phase: PhaseState::Idle, ..s }, true)
    } else {
        (s, false)
    }
}

/// What `advance` does to a state.
pub closed spec fn advance_transition(s: AuthenticationModel, now: u64) -> AuthenticationModel {
    match s.phase {
        PhaseState::Denied { feedback_until, cooldown_until } => if now >= feedback_until {
            AuthenticationModel { phase: after_feedback(now, cooldown_until), ..s }
        } else {
            s
        },
        PhaseState::Error { feedback_until, cooldown_until } => if now >= feedback_until {
            AuthenticationModel { phase: after_feedback(now, cooldown_until), ..s }
        } else {
            s
        },
        PhaseState::Cooldown { until } => if now >= until {
            AuthenticationModel { phase: PhaseState::Idle, ..s }
        } else {
            s
        },
        _ => s,
    }
}

/// The invariant that every reachable state keeps: a feedback deadline never lies
/// after its cooldown deadline, and the active token is the last one handed out.
pub closed spec fn well_formed(s: AuthenticationModel) -> bool {
    match s.phase {
        PhaseState::Denied { feedback_until, cooldown_until } => feedback_until <= cooldown_until,
        PhaseState::Error { feedback_until, cooldown_until } => feedback_until <= cooldown_until,
        PhaseState::Authenticating { token } => next_id(token.0) == s.next_attempt_id,
        _ => true,
    }
}

impl AuthenticationState {
    /// A machine that waits for input, with no attempt started yet.
    pub fn new(policy: AuthenticationPolicy) -> (state: Self)
        ensures
            state@ == initial_model(policy),
    {
        AuthenticationState {
            phase: PhaseState::Idle,
            policy,
            next_attempt_id: 0,
            consecutive_failures: 0,
        }
    }

    pub fn phase(&self) -> (phase: AuthenticationPhase)
        ensures
            phase == phase_of(self@.phase),
    {
        match self.phase {
            PhaseState::Idle => AuthenticationPhase::Idle,
            PhaseState::Authenticating { .. } => AuthenticationPhase::Authenticating,
            PhaseState::Denied { .. } => AuthenticationPhase::Denied,
            PhaseState::Error { .. } => AuthenticationPhase::Error,
            PhaseState::Cooldown { .. } => AuthenticationPhase::Cooldown,
            PhaseState::Authenticated => AuthenticationPhase::Authenticated,
        }
    }

    /// Password input is accepted only while the machine is idle.
    pub fn accepts_input(&self) -> (accepts: bool)
        ensures
            accepts == (self@.phase is Idle),
    {
        match self.phase {
            PhaseState::Idle => true,
            _ => false,
        }
    }

    /// Unlocking is authorized only in the authenticated phase.
    pub fn unlock_authorized(&self) -> (authorized: bool)
        ensures
            authorized == (self@.phase is Authenticated),
    {
        match self.phase {
            PhaseState::Authenticated => true,
            _ => false,
        }
    }

    /// Starts one authentication attempt when the state is idle.
    ///
    /// Returns an error while another attempt, feedback, cooldown, or an authenticated
    /// terminal state is active; the state is then unchanged.
    pub fn begin_attempt(&mut self) -> (result: Result<AttemptToken, BeginAttemptError>)
        ensures
            (final(self)@, result) == begin_transition(old(self)@),
    {
        match self.phase {
            PhaseState::Idle => {
                let token = AttemptToken(self.next_attempt_id);
                self.next_attempt_id = self.next_attempt_id.wrapping_add(1);
                self.phase = PhaseState::Authenticating { token };
                Ok(token)
            },
            PhaseState::Authenticating { .. } => Err(BeginAttemptError::Busy),
            PhaseState::Denied { .. } => Err(BeginAttemptError::Busy),
            PhaseState::Error { .. } => Err(BeginAttemptError::Busy),
            PhaseState::Cooldown { .. } => Err(BeginAttemptError::CoolingDown),
            PhaseState::Authenticated => Err(BeginAttemptError::AlreadyAuthenticated),
        }
    }

    /// Applies the result of the attempt `token`, observed at time `now`.
    ///
    /// A result for any attempt but the active one is ignored. Only an authenticated
    /// result authorizes unlocking; a failure starts feedback and then a cooldown.
    pub fn complete_attempt(
        &mut self,
        token: AttemptToken,
        outcome: AuthenticationOutcome,
        now: u64,
    ) -> (action: CompletionAction)
        ensures
            (final(self)@, action) == complete_transition(old(self)@, token, outcome, now),
    {
        let active_token = match self.phase {
            PhaseState::Authenticating { token } => token,
            _ => {
                return CompletionAction::Ignored;
            },
        };
        if active_token != token {
            return CompletionAction::Ignored;
        }
        if outcome == AuthenticationOutcome::Authenticated {
            self.consecutive_failures = 0;
            self.phase = PhaseState::Authenticated;
            return CompletionAction::UnlockAuthorized;
        }
        self.consecutive_failures = self.consecutive_failures.saturating_add(1);
        let feedback_until = match now.checked_add(self.policy.feedback_duration) {
            Some(time) => time,
            None => now,
        };
        let cooldown_until = match feedback_until.checked_add(self.cooldown_duration()) {
            Some(time) => time,
            None => feedback_until,
        };
        self.phase = if outcome == AuthenticationOutcome::Denied {
            PhaseState::Denied { feedback_until, cooldown_until }
        } else {
            PhaseState::Error { feedback_until, cooldown_until }
        };
        CompletionAction::KeepLocked
    }

    /// Invalidates an in-flight attempt so a late worker result cannot affect the lock.
    pub fn cancel_attempt(&mut self, token: AttemptToken) -> (cancelled: bool)
        ensures
            (final(self)@, cancelled) == cancel_transition(old(self)@, token),
    {
        let active = match self.phase {
            PhaseState::Authenticating { token } => Some(token),
            _ => None,
        };
        match active {
            Some(active_token) => {
                if active_token == token {
                    self.phase = PhaseState::Idle;
                    true
                } else {
                    false
                }
            },
            None => false,
        }
    }

    /// Advances feedback and cooldown states using a caller-provided monotonic time.
    pub fn advance(&mut self, now: u64)
        ensures
            final(self)@ == advance_transition(old(self)@, now),
    {
        match self.phase {
            PhaseState::Denied { feedback_until, cooldown_until } => {
                if now >= feedback_until {
                    self.phase = next_after_feedback(now, cooldown_until);
                }
            },
            PhaseState::Error { feedback_until, cooldown_until } => {
                if now >= feedback_until {
                    self.phase = next_after_feedback(now, cooldown_until);
                }
            },
            PhaseState::Cooldown { until } => {
                if now >= until {
                    self.phase = PhaseState::Idle;
                }
            },
            _ => {},
        }
    }

    /// The next time at which `advance` can change the phase, if any.
    pub fn next_deadline(&self) -> (deadline: Option<u64>)
        ensures
            deadline == deadline_of(self@.phase),
    {
        match self.phase {
            PhaseState::Denied { feedback_until, .. } => Some(feedback_until),
            PhaseState::Error { feedback_until, .. } => Some(feedback_until),
            PhaseState::Cooldown { until } => Some(until),
            _ => None,
        }
    }

    fn cooldown_duration(&self) -> (duration: u64)
        ensures
            duration == cooldown_for(self.policy, self.consecutive_failures),
    {
        let failures_after_first: u32 = self.consecutive_failures.saturating_sub(1);
        let exponent: u32 = if failures_after_first > 31 {
            31
        } else {
            failures_after_first
        };
        proof {
            lemma_u32_pow2_no_overflow(exponent as nat);
            lemma_u32_shl_is_mul(1, exponent);
        }
        let factor: u32 = 1u32 << exponent;
        assert(factor == pow2(cooldown_exponent(self.consecutive_failures)));
        let scaled = match self.policy.initial_cooldown.checked_mul(factor as u64) {
            Some(duration) => duration,
            None => self.policy.maximum_cooldown,
        };
        if scaled < self.policy.maximum_cooldown {
            scaled
        } else {
            self.policy.maximum_cooldown
        }
    }
}

impl Default for AuthenticationState {
    fn default() -> (state: Self)
        ensures
            state@.phase is Idle,
            state@.next_attempt_id == 0,
            state@.consecutive_failures == 0,
            state@.policy.feedback_duration == 800_000_000,
            state@.policy.initial_cooldown == 500_000_000,
            state@.policy.maximum_cooldown == 8_000_000_000,
    {
        AuthenticationState::new(AuthenticationPolicy::default())
    }
}

fn next_after_feedback(now: u64, cooldown_until: u64) -> (phase: PhaseState)
    ensures
        phase == after_feedback(now, cooldown_until),
{
    if now >= cooldown_until {
        PhaseState::Idle
    } else {
        PhaseState::Cooldown { until: cooldown_until }
    }
}

/// The cooldown deadline that a failure phase waits for; zero for other phases.
pub open spec fn cooldown_deadline_of(phase: PhaseState) -> u64 {
    match phase {
        PhaseState::Denied { cooldown_until, .. } => cooldown_until,
        PhaseState::Error { cooldown_until, .. } => cooldown_until,
        _ => 0,
    }
}

/// A fresh machine satisfies the invariant.
pub proof fn lemma_initial_well_formed(policy: AuthenticationPolicy)
    ensures
        well_formed(initial_model(policy)),
{
}

/// Every operation keeps the invariant of the machine.
pub proof fn lemma_operations_keep_well_formed(
    s: AuthenticationModel,
    token: AttemptToken,
    outcome: AuthenticationOutcome,
    now: u64,
)
    requires
        well_formed(s),
    ensures
        well_formed(begin_transition(s).0),
        well_formed(complete_transition(s, token, outcome, now).0),
        well_formed(cancel_transition(s, token).0),
        well_formed(advance_transition(s, now)),
{
}

/// Only an authenticated result for the active attempt authorizes unlocking, and
/// only such a result enters the authenticated phase.
pub proof fn lemma_only_active_success_unlocks(
    s: AuthenticationModel,
    token: AttemptToken,
    outcome: AuthenticationOutcome,
    now: u64,
)
    ensures
        (complete_transition(s, token, outcome, now).1 == CompletionAction::UnlockAuthorized) <==> (
        s.phase == (PhaseState::Authenticating { token }) && outcome
            == AuthenticationOutcome::Authenticated),
        complete_transition(s, token, outcome, now).0.phase is Authenticated ==> (s.phase is Authenticated
            || (s.phase == (PhaseState::Authenticating { token }) && outcome
            == AuthenticationOutcome::Authenticated)),
{
}

/// Starting, cancelling and advancing never enter or leave the authenticated phase, and
/// an authenticated machine ignores every further request.
pub proof fn lemma_authenticated_is_terminal(
    s: AuthenticationModel,
    token: AttemptToken,
    outcome: AuthenticationOutcome,
    now: u64,
)
    ensures
        (begin_transition(s).0.phase is Authenticated) == (s.phase is Authenticated),
        (cancel_transition(s, token).0.phase is Authenticated) == (s.phase is Authenticated),
        (advance_transition(s, now).phase is Authenticated) == (s.phase is Authenticated),
        s.phase is Authenticated ==> begin_transition(s) == (
            s,
            Err::<AttemptToken, BeginAttemptError>(BeginAttemptError::AlreadyAuthenticated),
        ),
        s.phase is Authenticated ==> complete_transition(s, token, outcome, now) == (
            s,
            CompletionAction::Ignored,
        ),
        s.phase is Authenticated ==> cancel_transition(s, token) == (s, false),
        s.phase is Authenticated ==> advance_transition(s, now) == s,
{
}

/// A result for any attempt but the active one changes nothing.
pub proof fn lemma_stale_results_are_ignored(
    s: AuthenticationModel,
    token: AttemptToken,
    outcome: AuthenticationOutcome,
    now: u64,
)
    requires
        s.phase != (PhaseState::Authenticating { token }),
    ensures
        complete_transition(s, token, outcome, now) == (s, CompletionAction::Ignored),
{
}

/// Only one attempt runs at a time: while an attempt, its feedback or a cooldown is
/// active, no new attempt starts and the state is unchanged.
pub proof fn lemma_one_attempt_at_a_time(s: AuthenticationModel)
    ensures
        begin_transition(s).1 is Ok <==> s.phase is Idle,
        !(s.phase is Idle) ==> begin_transition(s).0 == s,
        s.phase is Idle ==> begin_transition(s).0.phase is Authenticating,
{
}

/// Once an attempt is cancelled, the next attempt receives another token, so a late
/// result of the cancelled attempt, even a successful one, is ignored.
pub proof fn lemma_cancelled_attempt_stays_ignored(
    s: AuthenticationModel,
    token: AttemptToken,
    outcome: AuthenticationOutcome,
    now: u64,
)
    requires
        well_formed(s),
        s.phase == (PhaseState::Authenticating { token }),
        token.id() < u64::MAX,
    ensures
        cancel_transition(s, token).1,
        begin_transition(cancel_transition(s, token).0).1 matches Ok(fresh) && fresh != token,
        complete_transition(begin_transition(cancel_transition(s, token).0).0, token, outcome, now)
            == (begin_transition(cancel_transition(s, token).0).0, CompletionAction::Ignored),
{
}

/// Credential denial and infrastructure failure keep the lock alike: the same action,
/// the same deadlines and the same failure count; only the internal label differs.
pub proof fn lemma_failures_share_feedback(
    s: AuthenticationModel,
    token: AttemptToken,
    now: u64,
)
    ensures
        complete_transition(s, token, AuthenticationOutcome::Denied, now).1 == complete_transition(
            s,
            token,
            AuthenticationOutcome::InfrastructureError,
            now,
        ).1,
        complete_transition(s, token, AuthenticationOutcome::Denied, now).1
            != CompletionAction::UnlockAuthorized,
        deadline_of(complete_transition(s, token, AuthenticationOutcome::Denied, now).0.phase)
            == deadline_of(
            complete_transition(s, token, AuthenticationOutcome::InfrastructureError, now).0.phase,
        ),
        cooldown_deadline_of(
            complete_transition(s, token, AuthenticationOutcome::Denied, now).0.phase,
        ) == cooldown_deadline_of(
            complete_transition(s, token, AuthenticationOutcome::InfrastructureError, now).0.phase,
        ),
        complete_transition(s, token, AuthenticationOutcome::Denied, now).0.consecutive_failures
            == complete_transition(
            s,
            token,
            AuthenticationOutcome::InfrastructureError,
            now,
        ).0.consecutive_failures,
        s.phase == (PhaseState::Authenticating { token }) ==> (complete_transition(
            s,
            token,
            AuthenticationOutcome::Denied,
            now,
        ).0.phase is Denied && complete_transition(
            s,
            token,
            AuthenticationOutcome::InfrastructureError,
            now,
        ).0.phase is Error),
        s.phase != (PhaseState::Authenticating { token }) ==> complete_transition(s, token, AuthenticationOutcome::Denied, now).0
            == complete_transition(s, token, AuthenticationOutcome::InfrastructureError, now).0,
{
}

/// The cooldown never exceeds the policy's maximum.
pub proof fn lemma_cooldown_is_capped(policy: AuthenticationPolicy, failures: u32)
    ensures
        cooldown_for(policy, failures) <= policy.maximum_cooldown,
{
}

/// The cooldown never shrinks as failures accumulate.
pub proof fn lemma_cooldown_is_progressive(policy: AuthenticationPolicy, fewer: u32, more: u32)
    requires
        fewer <= more,
    ensures
        cooldown_for(policy, fewer) <= cooldown_for(policy, more),
{
    let e1 = cooldown_exponent(fewer);
    let e2 = cooldown_exponent(more);
    if e1 < e2 {
        lemma_pow2_strictly_increases(e1, e2);
    }
    vstd::arithmetic::mul::lemma_mul_inequality(
        pow2(e1) as int,
        pow2(e2) as int,
        policy.initial_cooldown as int,
    );
    assert(policy.initial_cooldown * pow2(e1) <= policy.initial_cooldown * pow2(e2)) by (
    nonlinear_arith)
        requires
            pow2(e1) * policy.initial_cooldown <= pow2(e2) * policy.initial_cooldown,
    ;
}

/// Applying `advance` twice at the same time is the same as applying it once.
pub proof fn lemma_advance_is_idempotent(s: AuthenticationModel, now: u64)
    ensures
        advance_transition(advance_transition(s, now), now) == advance_transition(s, now),
{
}

/// Reaching the reported deadline always changes the phase, so waiting for it makes
/// progress.
pub proof fn lemma_deadline_makes_progress(s: AuthenticationModel, now: u64)
    requires
        deadline_of(s.phase) matches Some(deadline) && now >= deadline,
    ensures
        advance_transition(s, now).phase != s.phase,
{
}

/// After a failed attempt, time alone brings the machine back to accepting input:
/// any time at or after the cooldown deadline leads to the idle phase.
pub proof fn lemma_failure_returns_to_idle(
    s: AuthenticationModel,
    token: AttemptToken,
    outcome: AuthenticationOutcome,
    now: u64,
    later_time: u64,
)
    requires
        s.phase == (PhaseState::Authenticating { token }),
        outcome != AuthenticationOutcome::Authenticated,
        later_time >= cooldown_deadline_of(complete_transition(s, token, outcome, now).0.phase),
    ensures
        advance_transition(complete_transition(s, token, outcome, now).0, later_time).phase is Idle,
{
}

/// The cooldown grows by doubling: the first failure (and none) waits the initial
/// cooldown, each further failure up to the thirty-second waits twice as long as
/// the one before, every wait is capped at the maximum, and from the
/// thirty-second failure on the wait no longer grows.
pub proof fn lemma_cooldown_doubles(policy: AuthenticationPolicy, failures: u32)
    ensures
        failures <= 1 ==> cooldown_for(policy, failures) == if policy.initial_cooldown
            < policy.maximum_cooldown {
            policy.initial_cooldown
        } else {
            policy.maximum_cooldown
        },
        1 <= failures < 32 ==> cooldown_for(policy, (failures + 1) as u32) == if 2
            * cooldown_for(policy, failures) < policy.maximum_cooldown {
            2 * cooldown_for(policy, failures)
        } else {
            policy.maximum_cooldown as int
        },
        32 <= failures ==> cooldown_for(policy, failures) == cooldown_for(policy, 32),
        cooldown_for(policy, failures) <= policy.maximum_cooldown,
{
    lemma_pow2_unfold(cooldown_exponent(failures) + 1);
    lemma_pow2_pos(cooldown_exponent(failures));
    assert(pow2(0) == 1) by {
        lemma2_to64();
    }
    if 1 <= failures < 32 {
        let next = (failures + 1) as u32;
        assert(cooldown_exponent(next) == cooldown_exponent(failures) + 1);
        let e = cooldown_exponent(failures);
        assert(policy.initial_cooldown * pow2(e + 1) == 2 * (policy.initial_cooldown * pow2(e)))
            by (nonlinear_arith)
            requires
                pow2(e + 1) == 2 * pow2(e),
        ;
        assert(policy.initial_cooldown * pow2(e) >= 0) by (nonlinear_arith)
            requires
                pow2(e) > 0,
        ;
    }
}

/// Two tokens are the same exactly when they carry the same attempt number.
pub proof fn lemma_token_identity(first: AttemptToken, second: AttemptToken)
    ensures
        (first == second) <==> (first.id() == second.id()),
{
}

/// What `begin_attempt` returns in each phase: a fresh token carrying the next
/// attempt number when idle, and otherwise `Busy` while an attempt or its feedback
/// is active, `CoolingDown` during a cooldown and `AlreadyAuthenticated` once
/// unlocking is authorized, with the state unchanged.
pub proof fn lemma_begin_results(s: AuthenticationModel)
    ensures
        s.phase is Idle ==> (begin_transition(s).1 matches Ok(token) && token.id()
            == s.next_attempt_id && begin_transition(s).0 == (AuthenticationModel {
            phase: PhaseState::Authenticating { token },
            next_attempt_id: next_id(s.next_attempt_id),
            ..s
        })),
        (s.phase is Authenticating || s.phase is Denied || s.phase is Error) ==> begin_transition(s)
            == (s, Err::<AttemptToken, BeginAttemptError>(BeginAttemptError::Busy)),
        s.phase is Cooldown ==> begin_transition(s) == (
            s,
            Err::<AttemptToken, BeginAttemptError>(BeginAttemptError::CoolingDown),
        ),
        s.phase is Authenticated ==> begin_transition(s) == (
            s,
            Err::<AttemptToken, BeginAttemptError>(BeginAttemptError::AlreadyAuthenticated),
        ),
{
}

/// What `complete_attempt` does: a result for another than the active attempt
/// changes nothing; success authorizes unlocking and enters the authenticated
/// phase; any failure keeps the lock, counts the failure, and starts feedback
/// until `now` plus the feedback duration, then a cooldown of the policy's length
/// for the new failure count.
pub proof fn lemma_complete_results(
    s: AuthenticationModel,
    token: AttemptToken,
    outcome: AuthenticationOutcome,
    now: u64,
)
    ensures
        s.phase != (PhaseState::Authenticating { token }) ==> complete_transition(
            s,
            token,
            outcome,
            now,
        ) == (s, CompletionAction::Ignored),
        s.phase == (PhaseState::Authenticating { token }) && outcome
            == AuthenticationOutcome::Authenticated ==> complete_transition(s, token, outcome, now)
            == (AuthenticationModel {
            phase: PhaseState::Authenticated,
            consecutive_failures: 0,
            ..s
        }, CompletionAction::UnlockAuthorized),
        s.phase == (PhaseState::Authenticating { token }) && outcome
            != AuthenticationOutcome::Authenticated ==> ({
            let failures: u32 = if s.consecutive_failures == u32::MAX {
                u32::MAX
            } else {
                (s.consecutive_failures + 1) as u32
            };
            let feedback_until = later(now, s.policy.feedback_duration);
            let cooldown_until = later(feedback_until, cooldown_for(s.policy, failures));
            let (next, action) = complete_transition(s, token, outcome, now);
            &&& action == CompletionAction::KeepLocked
            &&& next.consecutive_failures == failures
            &&& next.policy == s.policy
            &&& next.next_attempt_id == s.next_attempt_id
            &&& outcome == AuthenticationOutcome::Denied ==> next.phase == (PhaseState::Denied {
                feedback_until,
                cooldown_until,
            })
            &&& outcome == AuthenticationOutcome::InfrastructureError ==> next.phase == (
            PhaseState::Error { feedback_until, cooldown_until })
        }),
        complete_transition(s, token, outcome, now).1 == CompletionAction::UnlockAuthorized
            ==> complete_transition(s, token, outcome, now).0.phase is Authenticated,
        complete_transition(s, token, outcome, now).0.next_attempt_id == s.next_attempt_id,
        complete_transition(s, token, outcome, now).0.policy == s.policy,
{
}

/// `cancel_attempt` succeeds exactly for the active attempt, which returns the
/// machine to idle; otherwise nothing changes.
pub proof fn lemma_cancel_results(s: AuthenticationModel, token: AttemptToken)
    ensures
        cancel_transition(s, token).1 <==> s.phase == (PhaseState::Authenticating { token }),
        cancel_transition(s, token).1 ==> cancel_transition(s, token).0 == (AuthenticationModel {
            phase: PhaseState::Idle,
            ..s
        }),
        !cancel_transition(s, token).1 ==> cancel_transition(s, token).0 == s,
{
}

/// `advance` leaves idle, running and authenticated machines alone; feedback
/// ends at its deadline, into a cooldown until the cooldown deadline or straight
/// to idle once that has passed, and a cooldown ends in idle at its deadline.
/// Only the phase ever changes, and never into or out of the authenticated phase.
pub proof fn lemma_advance_results(s: AuthenticationModel, now: u64)
    ensures
        (s.phase is Idle || s.phase is Authenticating || s.phase is Authenticated)
            ==> advance_transition(s, now) == s,
        s.phase matches PhaseState::Denied { feedback_until, cooldown_until } ==> (
        advance_transition(s, now) == if now < feedback_until {
            s
        } else {
            AuthenticationModel { phase: after_feedback(now, cooldown_until), ..s }
        }),
        s.phase matches PhaseState::Error { feedback_until, cooldown_until } ==> (
        advance_transition(s, now) == if now < feedback_until {
            s
        } else {
            AuthenticationModel { phase: after_feedback(now, cooldown_until), ..s }
        }),
        s.phase matches PhaseState::Cooldown { until } ==> (advance_transition(s, now) == if now
            < until {
            s
        } else {
            AuthenticationModel { phase: PhaseState::Idle, ..s }
        }),
        advance_transition(s, now) == (AuthenticationModel {
            phase: advance_transition(s, now).phase,
            ..s
        }),
        ({
            let before = phase_of(s.phase);
            let after = phase_of(advance_transition(s, now).phase);
            after == before || after == AuthenticationPhase::Cooldown || after
                == AuthenticationPhase::Idle
        }),
        (advance_transition(s, now).phase is Authenticated) == (s.phase is Authenticated),
{
}

/// Advancing at an earlier and then a later time is the same as advancing at the
/// later time alone.
pub proof fn lemma_advance_in_order(s: AuthenticationModel, earlier: u64, later_time: u64)
    requires
        earlier <= later_time,
    ensures
        advance_transition(advance_transition(s, earlier), later_time) == advance_transition(
            s,
            later_time,
        ),
{
}

/// One call on the machine.
pub enum Operation {
    Begin,
    Complete(AttemptToken, AuthenticationOutcome, u64),
    Cancel(AttemptToken),
    Advance(u64),
}

/// The state after one call.
pub open spec fn step(s: AuthenticationModel, operation: Operation) -> AuthenticationModel {
    match operation {
        Operation::Begin => begin_transition(s).0,
        Operation::Complete(token, outcome, now) => complete_transition(s, token, outcome, now).0,
        Operation::Cancel(token) => cancel_transition(s, token).0,
        Operation::Advance(now) => advance_transition(s, now),
    }
}

/// Whether the call is a completion that authorizes unlocking.
pub open spec fn step_unlocks(s: AuthenticationModel, operation: Operation) -> bool {
    match operation {
        Operation::Complete(token, outcome, now) => complete_transition(s, token, outcome, now).1
            == CompletionAction::UnlockAuthorized,
        _ => false,
    }
}

/// The token that the call hands out, if it is a successful `begin_attempt`.
pub open spec fn issued(s: AuthenticationModel, operation: Operation) -> Option<AttemptToken> {
    match operation {
        Operation::Begin => match begin_transition(s).1 {
            Ok(token) => Some(token),
            Err(_) => None,
        },
        _ => None,
    }
}

/// The state after a sequence of calls, in order.
pub open spec fn run(s: AuthenticationModel, operations: Seq<Operation>) -> AuthenticationModel
    decreases operations.len(),
{
    if operations.len() == 0 {
        s
    } else {
        step(run(s, operations.drop_last()), operations.last())
    }
}

proof fn lemma_run_prefix_step(s: AuthenticationModel, operations: Seq<Operation>, i: int)
    requires
        0 <= i < operations.len(),
    ensures
        run(s, operations.take(i + 1)) == step(run(s, operations.take(i)), operations[i]),
{
    assert(operations.take(i + 1).drop_last() =~= operations.take(i));
    assert(operations.take(i + 1).last() == operations[i]);
}

proof fn lemma_step_next_id(s: AuthenticationModel, operation: Operation)
    ensures
        issued(s, operation) matches Some(token) ==> (token.id() == s.next_attempt_id
            && step(s, operation).next_attempt_id == next_id(s.next_attempt_id)
            && step(s, operation).phase == (PhaseState::Authenticating { token })),
        issued(s, operation) is None ==> step(s, operation).next_attempt_id == s.next_attempt_id,
        issued(s, operation) is None && step(s, operation).phase is Authenticating
            ==> step(s, operation).phase == s.phase,
{
}

/// How many tokens a sequence of calls hands out.
pub open spec fn issued_count(s: AuthenticationModel, operations: Seq<Operation>) -> nat
    decreases operations.len(),
{
    if operations.len() == 0 {
        0
    } else {
        issued_count(s, operations.drop_last()) + if issued(
            run(s, operations.drop_last()),
            operations.last(),
        ) is Some {
            1nat
        } else {
            0nat
        }
    }
}

proof fn lemma_count_step(s: AuthenticationModel, operations: Seq<Operation>, i: int)
    requires
        0 <= i < operations.len(),
    ensures
        issued_count(s, operations.take(i + 1)) == issued_count(s, operations.take(i)) + if issued(
            run(s, operations.take(i)),
            operations[i],
        ) is Some {
            1nat
        } else {
            0nat
        },
{
    assert(operations.take(i + 1).drop_last() =~= operations.take(i));
    assert(operations.take(i + 1).last() == operations[i]);
}

proof fn lemma_count_monotone(s: AuthenticationModel, operations: Seq<Operation>, a: int, b: int)
    requires
        0 <= a <= b <= operations.len(),
    ensures
        issued_count(s, operations.take(a)) <= issued_count(s, operations.take(b)),
    decreases b - a,
{
    if a < b {
        lemma_count_monotone(s, operations, a, b - 1);
        lemma_count_step(s, operations, b - 1);
    }
}

/// Without wrapping, the next attempt number is the first one plus the number of
/// tokens handed out so far.
proof fn lemma_run_next_counts(s: AuthenticationModel, operations: Seq<Operation>, i: int)
    requires
        0 <= i <= operations.len(),
        s.next_attempt_id + issued_count(s, operations.take(i)) <= u64::MAX,
    ensures
        run(s, operations.take(i)).next_attempt_id == s.next_attempt_id + issued_count(
            s,
            operations.take(i),
        ),
    decreases i,
{
    if i == 0 {
        assert(operations.take(0) =~= Seq::<Operation>::empty());
    } else {
        lemma_count_step(s, operations, i - 1);
        lemma_run_next_counts(s, operations, i - 1);
        lemma_run_prefix_step(s, operations, i - 1);
        lemma_step_next_id(run(s, operations.take(i - 1)), operations[i - 1]);
    }
}

proof fn lemma_run_unlock_prefix(s: AuthenticationModel, operations: Seq<Operation>, i: int)
    requires
        0 <= i <= operations.len(),
    ensures
        (run(s, operations.take(i)).phase is Authenticated) <==> (s.phase is Authenticated
            || exists|k: int|
            0 <= k < i && #[trigger] step_unlocks(run(s, operations.take(k)), operations[k])),
    decreases i,
{
    if i == 0 {
        assert(operations.take(0) =~= Seq::<Operation>::empty());
    } else {
        lemma_run_unlock_prefix(s, operations, i - 1);
        lemma_run_prefix_step(s, operations, i - 1);
        let before = run(s, operations.take(i - 1));
        let operation = operations[i - 1];
        lemma_authenticated_is_terminal(before, AttemptToken(0), AuthenticationOutcome::Denied, 0);
        match operation {
            Operation::Begin => {
                lemma_authenticated_is_terminal(before, AttemptToken(0), AuthenticationOutcome::Denied, 0);
            },
            Operation::Complete(token, outcome, now) => {
                lemma_only_active_success_unlocks(before, token, outcome, now);
                lemma_complete_results(before, token, outcome, now);
            },
            Operation::Cancel(token) => {
                lemma_authenticated_is_terminal(before, token, AuthenticationOutcome::Denied, 0);
            },
            Operation::Advance(now) => {
                lemma_authenticated_is_terminal(before, AttemptToken(0), AuthenticationOutcome::Denied, now);
            },
        }
        if step_unlocks(before, operation) {
            assert(step_unlocks(run(s, operations.take(i - 1)), operations[i - 1]));
        }
        if exists|k: int|
            0 <= k < i && #[trigger] step_unlocks(run(s, operations.take(k)), operations[k]) {
            let k = choose|k: int|
                0 <= k < i && #[trigger] step_unlocks(run(s, operations.take(k)), operations[k]);
            if k < i - 1 {
                assert(exists|k: int|
                    0 <= k < i - 1 && #[trigger] step_unlocks(run(s, operations.take(k)), operations[k]));
            }
        }
    }
}

/// Unlocking is authorized only through a completion that authorizes it: after
/// any sequence of calls the machine is authenticated exactly when it started so
/// or one of the calls was such a completion, and once authenticated it stays so
/// after every later call.
pub proof fn lemma_unlock_only_by_completion(s: AuthenticationModel, operations: Seq<Operation>)
    ensures
        (run(s, operations).phase is Authenticated) <==> (s.phase is Authenticated || exists|k: int|
            0 <= k < operations.len() && #[trigger] step_unlocks(
                run(s, operations.take(k)),
                operations[k],
            )),
        forall|i: int|
            0 <= i <= operations.len() && (#[trigger] run(s, operations.take(i))).phase is Authenticated
                ==> run(s, operations).phase is Authenticated,
{
    lemma_run_unlock_prefix(s, operations, operations.len() as int);
    assert(operations.take(operations.len() as int) =~= operations);
    assert forall|i: int|
        0 <= i <= operations.len() && (#[trigger] run(s, operations.take(i))).phase is Authenticated
            implies run(s, operations).phase is Authenticated by {
        lemma_run_unlock_prefix(s, operations, i);
        if !(s.phase is Authenticated) {
            let k = choose|k: int|
                0 <= k < i && #[trigger] step_unlocks(run(s, operations.take(k)), operations[k]);
            assert(step_unlocks(run(s, operations.take(k)), operations[k]));
        }
    }
}

/// Every attempt gets a fresh token: on a machine created by `new`, while fewer
/// than 2^64 tokens have been handed out before a successful `begin_attempt`, the
/// token it returns carries a larger attempt number than every earlier token, so
/// it differs from all of them.
pub proof fn lemma_tokens_are_fresh(
    policy: AuthenticationPolicy,
    operations: Seq<Operation>,
    i: int,
    j: int,
)
    requires
        0 <= i < j < operations.len(),
        issued_count(initial_model(policy), operations.take(j)) <= u64::MAX,
        issued(run(initial_model(policy), operations.take(i)), operations[i]) is Some,
        issued(run(initial_model(policy), operations.take(j)), operations[j]) is Some,
    ensures
        issued(run(initial_model(policy), operations.take(i)), operations[i])->Some_0.id()
            < issued(run(initial_model(policy), operations.take(j)), operations[j])->Some_0.id(),
        issued(run(initial_model(policy), operations.take(i)), operations[i])->Some_0 != issued(
            run(initial_model(policy), operations.take(j)),
            operations[j],
        )->Some_0,
{
    let s = initial_model(policy);
    lemma_count_step(s, operations, i);
    lemma_count_monotone(s, operations, i + 1, j);
    lemma_count_monotone(s, operations, i, j);
    lemma_run_next_counts(s, operations, i);
    lemma_run_next_counts(s, operations, j);
    lemma_step_next_id(run(s, operations.take(i)), operations[i]);
    lemma_step_next_id(run(s, operations.take(j)), operations[j]);
    lemma_token_identity(
        issued(run(s, operations.take(i)), operations[i])->Some_0,
        issued(run(s, operations.take(j)), operations[j])->Some_0,
    );
}

proof fn lemma_active_tokens_after(
    s: AuthenticationModel,
    operations: Seq<Operation>,
    i: int,
    j: int,
)
    requires
        0 <= i <= j <= operations.len(),
        s.next_attempt_id + issued_count(s, operations.take(j)) <= u64::MAX,
        run(s, operations.take(i)).phase is Idle,
    ensures
        run(s, operations.take(i)).next_attempt_id <= run(s, operations.take(j)).next_attempt_id,
        run(s, operations.take(j)).phase matches PhaseState::Authenticating { token } ==> run(
            s,
            operations.take(i),
        ).next_attempt_id <= token.id() < run(s, operations.take(j)).next_attempt_id,
    decreases j - i,
{
    lemma_count_monotone(s, operations, i, j);
    lemma_run_next_counts(s, operations, i);
    lemma_run_next_counts(s, operations, j);
    if i < j {
        lemma_count_monotone(s, operations, j - 1, j);
        lemma_active_tokens_after(s, operations, i, j - 1);
        lemma_run_next_counts(s, operations, j - 1);
        lemma_count_step(s, operations, j - 1);
        lemma_run_prefix_step(s, operations, j - 1);
        lemma_step_next_id(run(s, operations.take(j - 1)), operations[j - 1]);
    }
}

/// A cancelled attempt stays cancelled: on a machine created by `new`, once
/// `cancel_attempt` has invalidated an attempt, a later result for it changes
/// nothing, whatever happened in between, while fewer than 2^64 tokens have been
/// handed out before that result.
pub proof fn lemma_cancelled_token_stays_ignored(
    policy: AuthenticationPolicy,
    operations: Seq<Operation>,
    i: int,
    j: int,
    token: AttemptToken,
    outcome: AuthenticationOutcome,
    now: u64,
)
    requires
        0 <= i < j < operations.len(),
        issued_count(initial_model(policy), operations.take(j)) <= u64::MAX,
        operations[i] == Operation::Cancel(token),
        cancel_transition(run(initial_model(policy), operations.take(i)), token).1,
        operations[j] == Operation::Complete(token, outcome, now),
    ensures
        complete_transition(run(initial_model(policy), operations.take(j)), token, outcome, now)
            == (run(initial_model(policy), operations.take(j)), CompletionAction::Ignored),
{
    let s = initial_model(policy);
    assert(operations.take(0) =~= Seq::<Operation>::empty());
    lemma_count_monotone(s, operations, i, j);
    lemma_count_monotone(s, operations, i + 1, j);
    lemma_active_tokens_after(s, operations, 0, i);
    lemma_run_prefix_step(s, operations, i);
    lemma_step_next_id(run(s, operations.take(i)), operations[i]);
    lemma_active_tokens_after(s, operations, i + 1, j);
    let current = run(s, operations.take(j));
    match current.phase {
        PhaseState::Authenticating { token: active } => {
            assert(active.id() != token.id());
            lemma_token_identity(active, token);
        },
        _ => {},
    }
}

} // verus!
