//! Block-list changes behind the lock: each change is refused with
//! `LockedFailure` while the lock is in force, and then hands back no text,
//! so the hosts file is not touched.

use vstd::prelude::*;
use crate::hosts::{
    add_blocked_website, add_blocked_websites, added, added_many, clear_all_blocks, cleared,
    opt_view, remove_blocked_website, removed,
};
use crate::lock::{current_time, locked_at, LockError, LockState};
use crate::text::str_views;

verus! {

/// Refused with `LockedFailure` exactly while locked; done otherwise.
pub open spec fn gated<T>(locked: bool, r: Result<T, LockError>) -> bool {
    if locked {
        r == Err::<T, LockError>(LockError::LockedFailure)
    } else {
        r is Ok
    }
}

/// Whether some end time is set with the lock, so that the clock decides.
pub open spec fn lock_pending(lock: LockState) -> bool {
    lock.is_locked && lock.lock_end_time is Some
}

/// Blocks `domain` unless the lock is in force at `now`.
pub fn add_website_at(lock: &LockState, now: u64, content: &str, domain: &str) -> (r: Result<
    Option<String>,
    LockError,
>)
    ensures
        gated(locked_at(lock@, now), r),
        r is Ok ==> opt_view(r->Ok_0) == added(content@, domain@),
{
    if lock.is_locked_at(now) {
        return Err(LockError::LockedFailure);
    }
    Ok(add_blocked_website(content, domain))
}

/// Unblocks `domain` unless the lock is in force at `now`.
pub fn remove_website_at(lock: &LockState, now: u64, content: &str, domain: &str) -> (r: Result<
    String,
    LockError,
>)
    ensures
        gated(locked_at(lock@, now), r),
        r is Ok ==> r->Ok_0@ == removed(content@, domain@),
{
    if lock.is_locked_at(now) {
        return Err(LockError::LockedFailure);
    }
    Ok(remove_blocked_website(content, domain))
}

/// Blocks each of `domains` unless the lock is in force at `now`.
pub fn block_websites_at(
    lock: &LockState,
    now: u64,
    content: &str,
    domains: &Vec<String>,
) -> (r: Result<Option<String>, LockError>)
    ensures
        gated(locked_at(lock@, now), r),
        r is Ok ==> opt_view(r->Ok_0) == added_many(content@, str_views(domains@)),
{
    if lock.is_locked_at(now) {
        return Err(LockError::LockedFailure);
    }
    Ok(add_blocked_websites(content, domains))
}

/// Unblocks everything unless the lock is in force at `now`.
pub fn unblock_all_at(lock: &LockState, now: u64, content: &str) -> (r: Result<String, LockError>)
    ensures
        gated(locked_at(lock@, now), r),
        r is Ok ==> r->Ok_0@ == cleared(content@),
{
    if lock.is_locked_at(now) {
        return Err(LockError::LockedFailure);
    }
    Ok(clear_all_blocks(content))
}

/// Blocks `domain` unless the lock is in force now.
pub fn add_website(lock: &LockState, content: &str, domain: &str) -> (r: Result<
    Option<String>,
    LockError,
>)
    ensures
        exists|now: u64| gated(locked_at(lock@, now), r),
        r is Ok || r->Err_0 == LockError::LockedFailure,
        !lock_pending(*lock) ==> r is Ok,
        r is Ok ==> opt_view(r->Ok_0) == added(content@, domain@),
{
    add_website_at(lock, current_time(), content, domain)
}

/// Unblocks `domain` unless the lock is in force now.
pub fn remove_website(lock: &LockState, content: &str, domain: &str) -> (r: Result<
    String,
    LockError,
>)
    ensures
        exists|now: u64| gated(locked_at(lock@, now), r),
        r is Ok || r->Err_0 == LockError::LockedFailure,
        !lock_pending(*lock) ==> r is Ok,
        r is Ok ==> r->Ok_0@ == removed(content@, domain@),
{
    remove_website_at(lock, current_time(), content, domain)
}

/// Blocks each of `domains` unless the lock is in force now.
pub fn block_websites(lock: &LockState, content: &str, domains: &Vec<String>) -> (r: Result<
    Option<String>,
    LockError,
>)
    ensures
        exists|now: u64| gated(locked_at(lock@, now), r),
        r is Ok || r->Err_0 == LockError::LockedFailure,
        !lock_pending(*lock) ==> r is Ok,
        r is Ok ==> opt_view(r->Ok_0) == added_many(content@, str_views(domains@)),
{
    block_websites_at(lock, current_time(), content, domains)
}

/// Unblocks everything unless the lock is in force now.
pub fn unblock_all(lock: &LockState, content: &str) -> (r: Result<String, LockError>)
    ensures
        exists|now: u64| gated(locked_at(lock@, now), r),
        r is Ok || r->Err_0 == LockError::LockedFailure,
        !lock_pending(*lock) ==> r is Ok,
        r is Ok ==> r->Ok_0@ == cleared(content@),
{
    unblock_all_at(lock, current_time(), content)
}

} // verus!
