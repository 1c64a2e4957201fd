//! The lock guard: a password credential and an optional lock window that
//! expires on its own. Every transition is a function of the state, its
//! arguments and the current time; persisting the state is the caller's part.

use vstd::prelude::*;

verus! {

/// Passwords shorter than this many characters are refused.
pub const MIN_PASSWORD_LEN: usize = 4;

/// The persisted lock record.
pub struct LockState {
    pub password_hash: Option<String>,
    pub is_locked: bool,
    /// Seconds since the Unix epoch at which the lock lapses.
    pub lock_end_time: Option<u64>,
}

/// The lock record with its hash seen as characters.
pub ghost struct LockView {
    pub hash: Option<Seq<char>>,
    pub locked: bool,
    pub end: Option<u64>,
}

impl View for LockState {
    type V = LockView;

    open spec fn view(&self) -> LockView {
        LockView {
            hash: match self.password_hash {
                Some(h) => Some(h@),
                None => None,
            },
            locked: self.is_locked,
            end: self.lock_end_time,
        }
    }
}

#[derive(Clone, Copy, Debug, PartialEq, Eq, Structural)]
pub enum LockError {
    /// The password is shorter than the minimum length, or the lock
    /// window would end past the largest representable time.
    ValidationFailure,
    NoPasswordSet,
    WrongPassword,
    /// The block list may not change while the lock is in force.
    LockedFailure,
}

/// How a successful unlock came about.
#[derive(Clone, Copy, Debug, PartialEq, Eq, Structural)]
pub enum UnlockOutcome {
    /// No lock was set.
    NotLocked,
    /// The lock window had run out; it was cleared without a password.
    Expired,
    /// The password matched and the lock was lifted.
    Unlocked,
}

/// What the lock looks like from outside at one moment.
pub struct LockStateInfo {
    pub is_locked: bool,
    pub remaining_seconds: Option<u64>,
    pub has_password: bool,
}

/// The outcome of a lock command, with a message for the user.
pub struct LockResult {
    pub success: bool,
    pub message: String,
}

impl LockResult {
    pub fn success(msg: &str) -> (r: LockResult)
        ensures
            r.success,
            r.message@ == msg@,
    {
        LockResult { success: true, message: String::from_str(msg) }
    }

    pub fn error(msg: &str) -> (r: LockResult)
        ensures
            !r.success,
            r.message@ == msg@,
    {
        LockResult { success: false, message: String::from_str(msg) }
    }
}

// ---------------------------------------------------------------- digest

/// What std's `DefaultHasher` (built by `new`, so with fixed keys) yields
/// after hashing the string `s`.
pub uninterp spec fn default_hash(s: Seq<char>) -> u64;

/// Relies on `DefaultHasher::new`, `<str as Hash>::hash` and `Hasher::finish`:
/// the hash of `s`, which depends on its characters alone.
#[verifier::external_body]
fn std_hash(s: &str) -> (r: u64)
    ensures
        r == default_hash(s@),
{
    let mut h = std::collections::hash_map::DefaultHasher::new();
    std::hash::Hash::hash(s, &mut h);
    std::hash::Hasher::finish(&h)
}

pub open spec fn hex_digit(n: nat) -> char {
    seq!['0', '1', '2', '3', '4', '5', '6', '7', '8', '9', 'a', 'b', 'c', 'd', 'e', 'f'][n as int]
}

/// `n` in lower-case hexadecimal, without leading zeros.
pub open spec fn hex_of(n: nat) -> Seq<char>
    decreases n,
{
    if n < 16 {
        seq![hex_digit(n)]
    } else {
        hex_of(n / 16).push(hex_digit(n % 16))
    }
}

/// Relies on the `{:x}` format of `u64`: lower-case hexadecimal digits
/// without leading zeros.
#[verifier::external_body]
fn lower_hex(n: u64) -> (r: String)
    ensures
        r@ == hex_of(n as nat),
{
    format!("{:x}", n)
}

/// The fixed salt put before each password before it is hashed.
pub open spec fn salt() -> Seq<char> {
    "focus_keeper_salt_2024"@
}

/// The stored digest of the password `p`.
pub open spec fn digest_of(p: Seq<char>) -> Seq<char> {
    hex_of(default_hash(salt() + p) as nat)
}

/// The digest stored for the password `password`: the hexadecimal hash of
/// the salt followed by the password.
pub fn hash_password(password: &str) -> (r: String)
    ensures
        r@ == digest_of(password@),
{
    let mut salted = String::from_str("focus_keeper_salt_2024");
    salted.append(password);
    lower_hex(std_hash(salted.as_str()))
}

// ---------------------------------------------------------------- clock

/// Relies on `SystemTime::now` and `duration_since(UNIX_EPOCH)`: whole
/// seconds since the epoch, or `None` for a clock set before it.
#[verifier::external_body]
fn unix_now() -> (r: Option<u64>) {
    match std::time::SystemTime::now().duration_since(std::time::UNIX_EPOCH) {
        Ok(d) => Some(d.as_secs()),
        Err(_) => None,
    }
}

/// The current time in seconds since the epoch; a clock set before the
/// epoch reads as the epoch itself, which keeps any set lock in force.
pub fn current_time() -> u64 {
    match unix_now() {
        Some(t) => t,
        None => 0,
    }
}

// ---------------------------------------------------------------- transitions

/// Whether the lock is in force at `now`: set, with an end time still ahead.
pub open spec fn locked_at(v: LockView, now: u64) -> bool {
    v.locked && v.end is Some && now < v.end->0
}

/// `v` with the lock cleared.
pub open spec fn cleared_lock(v: LockView) -> LockView {
    LockView { locked: false, end: None, ..v }
}

/// `v` with the lock cleared if it has lapsed at `now`.
pub open spec fn healed(v: LockView, now: u64) -> LockView {
    if v.locked && !locked_at(v, now) {
        cleared_lock(v)
    } else {
        v
    }
}

pub open spec fn set_password_step(v: LockView, p: Seq<char>) -> (Result<(), LockError>, LockView) {
    if p.len() < MIN_PASSWORD_LEN {
        (Err(LockError::ValidationFailure), v)
    } else {
        (Ok(()), LockView { hash: Some(digest_of(p)), ..v })
    }
}

pub open spec fn verify_result(v: LockView, candidate: Seq<char>) -> Result<(), LockError> {
    match v.hash {
        None => Err(LockError::NoPasswordSet),
        Some(h) => if digest_of(candidate) == h {
            Ok(())
        } else {
            Err(LockError::WrongPassword)
        },
    }
}

pub open spec fn change_password_step(v: LockView, old_p: Seq<char>, new_p: Seq<char>) -> (
    Result<(), LockError>,
    LockView,
) {
    if new_p.len() < MIN_PASSWORD_LEN {
        (Err(LockError::ValidationFailure), v)
    } else {
        match verify_result(v, old_p) {
            Err(e) => (Err(e), v),
            Ok(()) => (Ok(()), LockView { hash: Some(digest_of(new_p)), ..v }),
        }
    }
}

pub open spec fn lock_step(v: LockView, minutes: u64, now: u64) -> (Result<(), LockError>, LockView) {
    if v.hash is None {
        (Err(LockError::NoPasswordSet), v)
    } else if now + minutes * 60 > u64::MAX {
        (Err(LockError::ValidationFailure), v)
    } else {
        (Ok(()), LockView { locked: true, end: Some((now + minutes * 60) as u64), ..v })
    }
}

pub open spec fn unlock_step(v: LockView, candidate: Seq<char>, now: u64) -> (
    Result<UnlockOutcome, LockError>,
    LockView,
) {
    if !v.locked {
        (Ok(UnlockOutcome::NotLocked), v)
    } else if !locked_at(v, now) {
        (Ok(UnlockOutcome::Expired), cleared_lock(v))
    } else {
        match verify_result(v, candidate) {
            Err(e) => (Err(e), v),
            Ok(()) => (Ok(UnlockOutcome::Unlocked), cleared_lock(v)),
        }
    }
}

/// The lock as seen at `now`: in force with the seconds left, or not in force.
pub open spec fn info_at(v: LockView, now: u64) -> LockStateInfo {
    LockStateInfo {
        is_locked: locked_at(v, now),
        remaining_seconds: if locked_at(v, now) {
            Some((v.end->0 - now) as u64)
        } else {
            None
        },
        has_password: v.hash is Some,
    }
}

impl LockState {
    /// The record of a fresh installation: no password, no lock.
    pub fn new() -> (r: LockState)
        ensures
            r@ == (LockView { hash: None, locked: false, end: None }),
    {
        LockState { password_hash: None, is_locked: false, lock_end_time: None }
    }

    /// Whether `is_locked` implies an end time, as every transition keeps.
    pub open spec fn wf(&self) -> bool {
        self.is_locked ==> self.lock_end_time is Some
    }

    pub fn has_password(&self) -> (r: bool)
        ensures
            r == (self@.hash is Some),
    {
        self.password_hash.is_some()
    }

    /// Stores the digest of `password`, refused when it is too short.
    pub fn set_password(&mut self, password: &str) -> (r: Result<(), LockError>)
        ensures
            (r, final(self)@) == set_password_step(old(self)@, password@),
    {
        if password.unicode_len() < MIN_PASSWORD_LEN {
            return Err(LockError::ValidationFailure);
        }
        self.password_hash = Some(hash_password(password));
        Ok(())
    }

    /// Checks `candidate` against the stored digest.
    pub fn verify_password(&self, candidate: &str) -> (r: Result<(), LockError>)
        ensures
            r == verify_result(self@, candidate@),
    {
        match &self.password_hash {
            None => Err(LockError::NoPasswordSet),
            Some(h) => {
                if hash_password(candidate) == *h {
                    Ok(())
                } else {
                    Err(LockError::WrongPassword)
                }
            },
        }
    }

    /// Replaces the password, given the current one and a new one long enough.
    pub fn change_password(&mut self, old_password: &str, new_password: &str) -> (r: Result<
        (),
        LockError,
    >)
        ensures
            (r, final(self)@) == change_password_step(old(self)@, old_password@, new_password@),
    {
        if new_password.unicode_len() < MIN_PASSWORD_LEN {
            return Err(LockError::ValidationFailure);
        }
        match self.verify_password(old_password) {
            Err(e) => Err(e),
            Ok(()) => {
                self.password_hash = Some(hash_password(new_password));
                Ok(())
            },
        }
    }

    /// Locks for `minutes` from `now`; a password must be set.
    pub fn lock_focus_at(&mut self, minutes: u64, now: u64) -> (r: Result<(), LockError>)
        ensures
            (r, final(self)@) == lock_step(old(self)@, minutes, now),
    {
        if self.password_hash.is_none() {
            return Err(LockError::NoPasswordSet);
        }
        match minutes.checked_mul(60) {
            None => Err(LockError::ValidationFailure),
            Some(secs) => match now.checked_add(secs) {
                None => Err(LockError::ValidationFailure),
                Some(end) => {
                    self.is_locked = true;
                    self.lock_end_time = Some(end);
                    Ok(())
                },
            },
        }
    }

    /// Locks for `minutes` from the current time.
    pub fn lock_focus(&mut self, minutes: u64) -> (r: Result<(), LockError>)
        ensures
            exists|now: u64| (r, final(self)@) == lock_step(old(self)@, minutes, now),
    {
        let now = current_time();
        self.lock_focus_at(minutes, now)
    }

    /// Lifts the lock at `now`: at once where it is not set or has lapsed,
    /// else only with the right password.
    pub fn unlock_at(&mut self, candidate: &str, now: u64) -> (r: Result<UnlockOutcome, LockError>)
        ensures
            (r, final(self)@) == unlock_step(old(self)@, candidate@, now),
    {
        if !self.is_locked {
            return Ok(UnlockOutcome::NotLocked);
        }
        if !self.is_locked_at(now) {
            self.is_locked = false;
            self.lock_end_time = None;
            return Ok(UnlockOutcome::Expired);
        }
        match self.verify_password(candidate) {
            Err(e) => Err(e),
            Ok(()) => {
                self.is_locked = false;
                self.lock_end_time = None;
                Ok(UnlockOutcome::Unlocked)
            },
        }
    }

    /// Lifts the lock at the current time.
    pub fn unlock(&mut self, candidate: &str) -> (r: Result<UnlockOutcome, LockError>)
        ensures
            exists|now: u64| (r, final(self)@) == unlock_step(old(self)@, candidate@, now),
    {
        let now = current_time();
        self.unlock_at(candidate, now)
    }

    /// Whether the lock is in force at `now`.
    pub fn is_locked_at(&self, now: u64) -> (r: bool)
        ensures
            r == locked_at(self@, now),
    {
        match self.lock_end_time {
            Some(end) => self.is_locked && now < end,
            None => false,
        }
    }

    /// The lock as seen at `now`; a lapsed lock is cleared on the way.
    pub fn get_lock_state_at(&mut self, now: u64) -> (r: LockStateInfo)
        ensures
            r == info_at(old(self)@, now),
            final(self)@ == healed(old(self)@, now),
    {
        let locked = self.is_locked_at(now);
        if self.is_locked && !locked {
            self.is_locked = false;
            self.lock_end_time = None;
        }
        let remaining_seconds = match self.lock_end_time {
            Some(end) => if locked {
                Some(end - now)
            } else {
                None
            },
            None => None,
        };
        LockStateInfo {
            is_locked: locked,
            remaining_seconds,
            has_password: self.password_hash.is_some(),
        }
    }

    /// The lock as seen at the current time.
    pub fn get_lock_state(&mut self) -> (r: LockStateInfo)
        ensures
            exists|now: u64|
                r == info_at(old(self)@, now) && final(self)@ == healed(old(self)@, now),
    {
        let now = current_time();
        self.get_lock_state_at(now)
    }
}

/// Whether the lock is in force now: the check every block-list change
/// must pass first. A lock found lapsed is cleared on the way.
pub fn is_currently_locked(state: &mut LockState) -> (r: bool)
    ensures
        exists|now: u64|
            r == locked_at(old(state)@, now) && final(state)@ == healed(old(state)@, now),
        r ==> old(state).is_locked,
        !(old(state).is_locked && old(state).lock_end_time is Some) ==> !r,
{
    let now = current_time();
    let r = state.is_locked_at(now);
    if state.is_locked && !r {
        state.is_locked = false;
        state.lock_end_time = None;
    }
    r
}

/// Locking for one minute puts the lock in force at once, with more than
/// zero and at most sixty seconds left; once the end time has passed, the
/// lock reads as lifted and unlocking succeeds, with any candidate, as an
/// expiry.
pub proof fn lemma_lock_timer(v: LockView, now: u64, later: u64, candidate: Seq<char>)
    requires
        v.hash is Some,
        now + 60 <= u64::MAX,
    ensures
        lock_step(v, 1, now).0 is Ok,
        info_at(lock_step(v, 1, now).1, now).is_locked,
        info_at(lock_step(v, 1, now).1, now).remaining_seconds is Some,
        0 < info_at(lock_step(v, 1, now).1, now).remaining_seconds->0 <= 60,
        later >= lock_step(v, 1, now).1.end->0 ==> {
            let w = lock_step(v, 1, now).1;
            &&& !info_at(w, later).is_locked
            &&& info_at(w, later).remaining_seconds is None
            &&& unlock_step(w, candidate, later).0 == Ok::<UnlockOutcome, LockError>(
                UnlockOutcome::Expired,
            )
            &&& !unlock_step(w, candidate, later).1.locked
        },
{
}

/// A password shorter than the minimum is refused and changes nothing; a
/// long enough one is stored and then verifies; after a change from it to
/// another long enough password, the new one verifies.
pub proof fn lemma_password_flow(v: LockView, p: Seq<char>, q: Seq<char>)
    ensures
        p.len() < MIN_PASSWORD_LEN ==> set_password_step(v, p) == (
        Err::<(), LockError>(LockError::ValidationFailure),
        v,
        ),
        p.len() >= MIN_PASSWORD_LEN ==> set_password_step(v, p).0 is Ok && verify_result(
            set_password_step(v, p).1,
            p,
        ) is Ok,
        p.len() >= MIN_PASSWORD_LEN && q.len() >= MIN_PASSWORD_LEN ==> {
            let w = set_password_step(v, p).1;
            &&& change_password_step(w, p, q).0 is Ok
            &&& verify_result(change_password_step(w, p, q).1, q) is Ok
        },
{
}

} // verus!
