//! The remote lock that keeps two sessions from changing one zone at the
//! same time.
//!
//! The lock is an object in the zone. While it exists a session is under
//! way, or one has ended without cleaning up. Its content is the time at
//! which it was written, for the eyes of whoever finds it.
//!
//! A session takes the lock only when it knows that none is held: the read
//! of the sentinel has to say that the object does not exist. A read that
//! fails for any other reason fails the session.

use crate::api::{is_success, Method, Request, StorageZoneClient};
use crate::error::SyncError;
use vstd::prelude::*;
use vstd::string::*;
use vstd::utf8::{encode_utf8, is_ascii_chars, is_ascii_chars_encode_utf8};

verus! {

/// The content type of the lock sentinel.
pub open spec fn sentinel_content_type() -> Seq<char> {
    "text/plain"@
}

/// Whether a status tells that the object asked for does not exist.
pub open spec fn is_missing(status: u16) -> bool {
    status == 404
}

/// Whether a text may be a time stamp of the local clock: a date, a time of
/// day and an offset, which take 25 characters at least, all of them ASCII.
pub open spec fn is_time_stamp(text: Seq<char>) -> bool {
    text.len() >= 25 && is_ascii_chars(text)
}

/// What the store holds as the lock sentinel, judged by the answer to
/// reading it. A read that succeeds found the sentinel, with `content` as
/// its content. The sentinel is absent only where the store says that the
/// object does not exist. Any other answer, and no answer at all, leaves
/// open whether a lock is held, and is a failure.
pub open spec fn sentinel_read(status: Option<u16>, content: String) -> Result<
    Option<String>,
    SyncError,
> {
    match status {
        None => Err(SyncError::Unreachable),
        Some(code) => if is_success(code) {
            Ok(Some(content))
        } else if is_missing(code) {
            Ok(None)
        } else {
            Err(SyncError::Network { status: code })
        },
    }
}

/// Judges the answer to reading the lock sentinel. `None` stands for a
/// read that got no answer.
pub fn sentinel_of(status: Option<u16>, content: String) -> (outcome: Result<
    Option<String>,
    SyncError,
>)
    ensures
        outcome == sentinel_read(status, content),
{
    match status {
        Some(code) => {
            if 200 <= code && code < 300 {
                Ok(Some(content))
            } else if code == 404 {
                Ok(None)
            } else {
                Err(SyncError::Network { status: code })
            }
        },
        None => Err(SyncError::Unreachable),
    }
}

/// A lock that may be taken.
#[derive(Debug)]
pub struct LockClaim {
    /// The call that writes the sentinel.
    pub request: Request,
    /// The time stamp that the call writes.
    pub stamp: String,
    /// The content of the sentinel that this claim overrides, if there was
    /// one. It deserves a warning.
    pub overridden: Option<String>,
}

/// `Local::now` and `DateTime::to_rfc3339` of chrono: the local time of the
/// moment of the call, as year, month and day, the letter T, hour, minute
/// and second, a fraction of the second where there is one, and the offset
/// from universal time in hours and minutes. Which time it is depends on
/// the clock; whatever it is, these parts take 25 characters at least, and
/// all are ASCII digits, signs and separators.
#[verifier::external_body]
fn local_time_stamp() -> (stamp: String)
    ensures
        is_time_stamp(stamp@),
{
    chrono::Local::now().to_rfc3339()
}

/// The call that writes the lock sentinel with `stamp` as its content.
pub fn lock_request(client: &StorageZoneClient, lockfile: &str, stamp: &str) -> (request: Request)
    ensures
        request.carries(
            Method::Put,
            client.url(lockfile@),
            client.access_key(),
            Some(sentinel_content_type()),
            stamp.spec_bytes(),
        ),
{
    client.put_file(lockfile, stamp.as_bytes_vec(), Some("text/plain"))
}

/// Decides whether the lock may be taken, given what reading the sentinel
/// found and the time stamp to write. A sentinel that exists stops the
/// session, unless the session was told to override it. Where the lock may
/// be taken, the claim holds the call that writes the sentinel with the
/// stamp as its content.
pub fn claim_lock(
    client: &StorageZoneClient,
    lockfile: &str,
    force: bool,
    sentinel: Option<String>,
    stamp: String,
) -> (outcome: Result<LockClaim, SyncError>)
    ensures
        outcome is Err <==> sentinel is Some && !force,
        outcome matches Err(fault) ==> fault == SyncError::LockHeld,
        outcome matches Ok(claim) ==> {
            &&& claim.overridden == sentinel
            &&& claim.stamp == stamp
            &&& claim.request.carries(
                Method::Put,
                client.url(lockfile@),
                client.access_key(),
                Some(sentinel_content_type()),
                encode_utf8(stamp@),
            )
        },
{
    if sentinel.is_some() && !force {
        return Err(SyncError::LockHeld);
    }
    let request = lock_request(client, lockfile, stamp.as_str());
    Ok(LockClaim { request, stamp, overridden: sentinel })
}

/// Decides whether the lock may be taken, given what reading the sentinel
/// found. A sentinel that exists stops the session, unless the session was
/// told to override it. Where the lock may be taken, the claim holds the
/// call that writes the sentinel, with the current time as its content:
/// the bytes of a time stamp, one for each of its characters.
pub fn take_lock(
    client: &StorageZoneClient,
    lockfile: &str,
    force: bool,
    sentinel: Option<String>,
) -> (outcome: Result<LockClaim, SyncError>)
    ensures
        outcome is Err <==> sentinel is Some && !force,
        outcome matches Err(fault) ==> fault == SyncError::LockHeld,
        outcome matches Ok(claim) ==> {
            &&& claim.overridden == sentinel
            &&& is_time_stamp(claim.stamp@)
            &&& claim.request.carries(
                Method::Put,
                client.url(lockfile@),
                client.access_key(),
                Some(sentinel_content_type()),
                encode_utf8(claim.stamp@),
            )
            &&& claim.request.body@.len() == claim.stamp@.len()
        },
{
    let stamp = local_time_stamp();
    proof {
        is_ascii_chars_encode_utf8(stamp@);
    }
    claim_lock(client, lockfile, force, sentinel, stamp)
}

/// Judges the answer to reading the lock sentinel and, where the answer
/// allows it, takes the lock. A read that failed takes no lock, forced or
/// not: nothing is claimed while it is open whether a lock is held.
pub fn acquire(
    client: &StorageZoneClient,
    lockfile: &str,
    force: bool,
    status: Option<u16>,
    content: String,
) -> (outcome: Result<LockClaim, SyncError>)
    ensures
        outcome is Ok <==> (sentinel_read(status, content) matches Ok(sentinel) && (sentinel
            is None || force)),
        outcome matches Err(fault) ==> fault == (match sentinel_read(status, content) {
            Err(failed) => failed,
            Ok(_) => SyncError::LockHeld,
        }),
        outcome matches Ok(claim) ==> {
            &&& sentinel_read(status, content) == Ok::<Option<String>, SyncError>(
                claim.overridden,
            )
            &&& is_time_stamp(claim.stamp@)
            &&& claim.request.carries(
                Method::Put,
                client.url(lockfile@),
                client.access_key(),
                Some(sentinel_content_type()),
                encode_utf8(claim.stamp@),
            )
            &&& claim.request.body@.len() == claim.stamp@.len()
        },
{
    match sentinel_of(status, content) {
        Ok(sentinel) => take_lock(client, lockfile, force, sentinel),
        Err(fault) => Err(fault),
    }
}

/// The call that releases the lock: it deletes the sentinel.
pub fn remove_lock(client: &StorageZoneClient, lockfile: &str) -> (request: Request)
    ensures
        request.carries(
            Method::Delete,
            client.url(lockfile@),
            client.access_key(),
            None,
            Seq::empty(),
        ),
{
    client.delete_file(lockfile)
}

} // verus!
