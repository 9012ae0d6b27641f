//! Presence supervision: turning "is the remote nearby" into keep-awake and
//! auto-unlock decisions.
//!
//! The supervisor ticks every [`SUPERVISE_TICK_MS`]; on each tick it decides
//! whether to hold the keep-awake assertion and whether to type the unlock
//! password. Unlocking is tried at most [`MAX_UNLOCK_ATTEMPTS`] times per lock,
//! at least [`UNLOCK_RETRY_DELAY_MS`] apart: a wrong password must not turn the
//! login window into a brute-force target.

use vstd::prelude::*;

verus! {

/// The supervision tick, in milliseconds.
pub const SUPERVISE_TICK_MS: u64 = 2_000;

/// Unlock attempts allowed per lock.
pub const MAX_UNLOCK_ATTEMPTS: u32 = 3;

/// Minimum gap between two unlock attempts, in milliseconds.
pub const UNLOCK_RETRY_DELAY_MS: u64 = 5_000;

/// The supervision settings in effect (a snapshot of the configuration).
#[derive(Debug, Clone)]
pub struct Settings {
    pub bound_id: Option<String>,
    pub keep_awake: bool,
    pub auto_unlock: bool,
}

/// What the user interface is told.
#[derive(Debug, Clone, Copy, PartialEq, Eq, Structural)]
pub struct PresenceDto {
    pub present: bool,
    /// Whether the keep-awake assertion is actually held right now.
    pub keeping_awake: bool,
}

/// Whether the keep-awake assertion should be held.
pub fn keep_awake_wanted(settings: &Settings, here: bool) -> (r: bool)
    ensures
        r == (settings.keep_awake && here),
{
    settings.keep_awake && here
}

pub struct SupervisorView {
    pub attempts: u32,
    pub last_attempt_ms: Option<u64>,
    pub last_reported: Option<PresenceDto>,
}

/// Whether the retry delay has passed since the last attempt.
pub open spec fn cooled(last_attempt_ms: Option<u64>, now_ms: u64) -> bool {
    match last_attempt_ms {
        Some(t) => (now_ms as int) - (t as int) >= UNLOCK_RETRY_DELAY_MS as int,
        None => true,
    }
}

/// Whether this tick should try to unlock.
pub open spec fn unlock_due_spec(s: SupervisorView, auto_unlock: bool, here: bool, locked: bool, now_ms: u64) -> bool {
    locked && auto_unlock && here && s.attempts < MAX_UNLOCK_ATTEMPTS && cooled(
        s.last_attempt_ms,
        now_ms,
    )
}

/// The lock state observed on a tick: an unlocked screen starts a fresh round.
pub open spec fn observe_lock_spec(s: SupervisorView, locked: bool) -> SupervisorView {
    if locked {
        s
    } else {
        SupervisorView { attempts: 0, last_attempt_ms: None, ..s }
    }
}

/// The outcome of an unlock attempt: typed counts as an attempt; not typed
/// (missing permission or password) ends the attempts for this lock.
pub open spec fn outcome_spec(s: SupervisorView, typed: bool, now_ms: u64) -> SupervisorView {
    if typed {
        SupervisorView {
            attempts: if s.attempts < MAX_UNLOCK_ATTEMPTS {
                (s.attempts + 1) as u32
            } else {
                s.attempts
            },
            last_attempt_ms: Some(now_ms),
            ..s
        }
    } else {
        SupervisorView { attempts: MAX_UNLOCK_ATTEMPTS, ..s }
    }
}

/// The supervision state carried from tick to tick.
pub struct Supervisor {
    attempts: u32,
    last_attempt_ms: Option<u64>,
    last_reported: Option<PresenceDto>,
}

impl View for Supervisor {
    type V = SupervisorView;

    closed spec fn view(&self) -> SupervisorView {
        SupervisorView {
            attempts: self.attempts,
            last_attempt_ms: self.last_attempt_ms,
            last_reported: self.last_reported,
        }
    }
}

impl Supervisor {
    pub fn new() -> (r: Supervisor)
        ensures
            r@ == (SupervisorView { attempts: 0, last_attempt_ms: None, last_reported: None }),
    {
        Supervisor { attempts: 0, last_attempt_ms: None, last_reported: None }
    }

    /// Records whether the screen is locked on this tick.
    pub fn observe_lock(&mut self, locked: bool)
        ensures
            final(self)@ == observe_lock_spec(old(self)@, locked),
    {
        if !locked {
            self.attempts = 0;
            self.last_attempt_ms = None;
        }
    }

    /// Whether to try unlocking now.
    pub fn unlock_due(&self, settings: &Settings, here: bool, locked: bool, now_ms: u64) -> (r: bool)
        ensures
            r == unlock_due_spec(self@, settings.auto_unlock, here, locked, now_ms),
    {
        let cooled = match self.last_attempt_ms {
            Some(t) => now_ms >= t && now_ms - t >= UNLOCK_RETRY_DELAY_MS,
            None => true,
        };
        locked && settings.auto_unlock && here && self.attempts < MAX_UNLOCK_ATTEMPTS && cooled
    }

    /// Records the outcome of an unlock attempt at `now_ms`.
    pub fn unlock_outcome(&mut self, typed: bool, now_ms: u64)
        ensures
            final(self)@ == outcome_spec(old(self)@, typed, now_ms),
    {
        if typed {
            if self.attempts < MAX_UNLOCK_ATTEMPTS {
                self.attempts = self.attempts + 1;
            }
            self.last_attempt_ms = Some(now_ms);
        } else {
            self.attempts = MAX_UNLOCK_ATTEMPTS;
        }
    }

    /// Whether `dto` differs from what was last reported (then it is
    /// remembered and should be sent).
    pub fn report(&mut self, dto: PresenceDto) -> (r: bool)
        ensures
            r == (old(self)@.last_reported != Some(dto)),
            final(self)@ == (SupervisorView { last_reported: Some(dto), ..old(self)@ }),
    {
        let changed = match self.last_reported {
            Some(p) => p.present != dto.present || p.keeping_awake != dto.keeping_awake,
            None => true,
        };
        self.last_reported = Some(dto);
        changed
    }
}

/// A lock round never sees more than [`MAX_UNLOCK_ATTEMPTS`] attempts: once
/// they are used up no further attempt is due until the screen is unlocked.
pub proof fn law_unlock_attempts_are_bounded(
    s: SupervisorView,
    typed: bool,
    auto_unlock: bool,
    here: bool,
    now_ms: u64,
    later_ms: u64,
)
    requires
        s.attempts <= MAX_UNLOCK_ATTEMPTS,
    ensures
        outcome_spec(s, typed, now_ms).attempts <= MAX_UNLOCK_ATTEMPTS,
        s.attempts == MAX_UNLOCK_ATTEMPTS ==> !unlock_due_spec(s, auto_unlock, here, true, later_ms),
        !typed ==> !unlock_due_spec(outcome_spec(s, typed, now_ms), auto_unlock, here, true, later_ms),
{
}

/// Two attempts are at least [`UNLOCK_RETRY_DELAY_MS`] apart.
pub proof fn law_unlock_attempts_are_spaced(s: SupervisorView, now_ms: u64, later_ms: u64, auto_unlock: bool, here: bool)
    requires
        unlock_due_spec(outcome_spec(s, true, now_ms), auto_unlock, here, true, later_ms),
    ensures
        later_ms >= now_ms + UNLOCK_RETRY_DELAY_MS,
{
}

/// An unlocked screen starts a fresh round of attempts.
pub proof fn law_unlock_resets_round(s: SupervisorView)
    ensures
        observe_lock_spec(s, false).attempts == 0,
        observe_lock_spec(s, false).last_attempt_ms is None,
{
}

/// Nothing is typed unless auto-unlock is on, the remote is here and the
/// screen is locked.
pub proof fn law_unlock_needs_presence_and_lock(
    s: SupervisorView,
    auto_unlock: bool,
    here: bool,
    locked: bool,
    now_ms: u64,
)
    ensures
        unlock_due_spec(s, auto_unlock, here, locked, now_ms) ==> auto_unlock && here && locked,
{
}

/// One supervision tick with the screen `locked` or not: the lock state is
/// observed, an unlock is tried when due (and `typed` tells how it went).
/// Returns the state afterwards and whether an unlock was tried.
pub open spec fn tick_spec(
    s: SupervisorView,
    auto_unlock: bool,
    here: bool,
    locked: bool,
    now_ms: u64,
    typed: bool,
) -> (SupervisorView, bool) {
    let s1 = observe_lock_spec(s, locked);
    if unlock_due_spec(s1, auto_unlock, here, locked, now_ms) {
        (outcome_spec(s1, typed, now_ms), true)
    } else {
        (s1, false)
    }
}

/// A run of ticks `(here, locked, now_ms, typed)`: the state afterwards, and
/// how many unlocks were tried since the screen was last seen unlocked.
pub open spec fn run_ticks(s: SupervisorView, auto_unlock: bool, ticks: Seq<(bool, bool, u64, bool)>) -> (
    SupervisorView,
    nat,
)
    decreases ticks.len(),
{
    if ticks.len() == 0 {
        (s, 0)
    } else {
        let (t, n) = run_ticks(s, auto_unlock, ticks.drop_last());
        let (h, l, now, typed) = ticks.last();
        let (t2, tried) = tick_spec(t, auto_unlock, h, l, now, typed);
        (t2, if !l {
            0
        } else if tried {
            n + 1
        } else {
            n
        })
    }
}

/// Over any run of ticks from a fresh round, at most
/// [`MAX_UNLOCK_ATTEMPTS`] unlocks are tried while the screen stays locked,
/// and none after a try that could not type.
pub proof fn law_unlock_tries_bounded_over_ticks(s: SupervisorView, auto_unlock: bool, ticks: Seq<(bool, bool, u64, bool)>)
    requires
        s.attempts == 0,
    ensures
        run_ticks(s, auto_unlock, ticks).1 <= run_ticks(s, auto_unlock, ticks).0.attempts,
        run_ticks(s, auto_unlock, ticks).0.attempts <= MAX_UNLOCK_ATTEMPTS,
    decreases ticks.len(),
{
    if ticks.len() > 0 {
        law_unlock_tries_bounded_over_ticks(s, auto_unlock, ticks.drop_last());
    }
}

} // verus!
