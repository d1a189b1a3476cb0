//! Map pins: when a cached pin still serves, when the Places API is being
//! backed off, and how long a rate-limit reply asks us to wait. Reading and
//! writing the cache and calling the API happen around these decisions.
use vstd::prelude::*;
use crate::nav::{parse_i64, parsed_i64};
use crate::text::same_text;

verus! {

/// A cached pin is refreshed once it is this old (thirty days, in seconds).
pub const CACHE_TTL_SECS: i64 = 2592000;

/// The back-off assumed when a rate-limit reply names no usable wait.
pub const DEFAULT_RETRY_AFTER_SECS: i64 = 60;

/// What the pin cache records besides the coordinates: the place the pin was
/// resolved for, and when (Unix seconds).
#[derive(Debug)]
pub struct CachedPin {
    pub place_id: String,
    pub fetched_at: i64,
}

/// The next step in resolving a building's pin.
#[derive(Clone, Copy, Debug, PartialEq, Eq, Structural)]
pub enum PinPlan {
    /// The cached pin serves.
    Cached,
    /// The Places API asked us to back off: no pin for now, no request.
    Skip,
    /// Ask the Places API.
    Fetch,
}

/// A cached pin serves while it was resolved for this very place and is
/// younger than the refresh age.
pub open spec fn cache_fresh(cached: Option<(Seq<char>, i64)>, place_id: Seq<char>, now: i64) -> bool {
    match cached {
        Some((p, at)) => p == place_id && now - at < CACHE_TTL_SECS,
        None => false,
    }
}

/// What a cached pin records, as plain values.
pub open spec fn pin_model(cached: Option<&CachedPin>) -> Option<(Seq<char>, i64)> {
    match cached {
        Some(c) => Some((c.place_id@, c.fetched_at)),
        None => None,
    }
}

/// The pin step the cache and the back-off window call for at `now`.
pub open spec fn spec_plan_pin(cached: Option<(Seq<char>, i64)>, place_id: Seq<char>, now: i64, blocked_until: i64) -> PinPlan {
    if cache_fresh(cached, place_id, now) {
        PinPlan::Cached
    } else if now < blocked_until {
        PinPlan::Skip
    } else {
        PinPlan::Fetch
    }
}

/// Decides how to resolve a pin: from a fresh cache entry for the same
/// place, not at all while a back-off is outstanding, else by asking.
pub fn plan_pin(cached: Option<&CachedPin>, place_id: &str, now: i64, blocked_until: i64) -> (r: PinPlan)
    ensures
        r == spec_plan_pin(pin_model(cached), place_id@, now, blocked_until),
{
    let fresh = match cached {
        Some(c) => same_text(c.place_id.as_str(), place_id) && (now as i128) - (c.fetched_at as i128)
            < CACHE_TTL_SECS as i128,
        None => false,
    };
    if fresh {
        PinPlan::Cached
    } else if now < blocked_until {
        PinPlan::Skip
    } else {
        PinPlan::Fetch
    }
}

/// The wait a rate-limit reply asks for: its `Retry-After` seconds when
/// they read as a signed 64-bit number, sixty otherwise.
pub open spec fn spec_retry_after(header: Option<Seq<char>>) -> i64 {
    match header {
        Some(h) => match parsed_i64(h) {
            Some(v) => v,
            None => DEFAULT_RETRY_AFTER_SECS,
        },
        None => DEFAULT_RETRY_AFTER_SECS,
    }
}

/// Reads a rate-limit reply's `Retry-After` value (absent when the header is
/// missing or not text).
pub fn retry_after(header: Option<&str>) -> (r: i64)
    ensures
        r == spec_retry_after(match header {
            Some(h) => Some(h@),
            None => None,
        }),
{
    match header {
        Some(h) => match parse_i64(h) {
            Some(v) => v,
            None => DEFAULT_RETRY_AFTER_SECS,
        },
        None => DEFAULT_RETRY_AFTER_SECS,
    }
}

/// How a request to the Places API ended.
#[derive(Clone, Copy, Debug, PartialEq, Eq, Structural)]
pub enum PlaceOutcome {
    /// The place resolved to a pin.
    Found,
    /// Rate limited; back off this many seconds.
    RateLimited(i64),
    /// Any other failure: this pin is dropped, nothing else changes.
    Failed,
}

/// The back-off deadline after a request that ended in `outcome` at `now`:
/// a rate limit pushes it to `now` plus the wait, anything else leaves it.
pub fn blocked_after(outcome: PlaceOutcome, now: i64, blocked_until: i64) -> (r: i64)
    requires
        outcome matches PlaceOutcome::RateLimited(s) ==> i64::MIN <= now + s <= i64::MAX,
    ensures
        r == match outcome {
            PlaceOutcome::RateLimited(s) => (now + s) as i64,
            _ => blocked_until,
        },
{
    match outcome {
        PlaceOutcome::RateLimited(s) => now + s,
        _ => blocked_until,
    }
}

/// A rate limit is honoured: once a request at `now` was told to wait
/// `wait` seconds, every later pin without a fresh cache entry is skipped,
/// not requested, until the wait has passed.
pub proof fn lemma_backoff_holds(
    now: i64,
    wait: i64,
    blocked_until: i64,
    later: i64,
    cached: Option<(Seq<char>, i64)>,
    place_id: Seq<char>,
)
    requires
        i64::MIN <= now + wait <= i64::MAX,
        now <= later < now + wait,
        !cache_fresh(cached, place_id, later),
    ensures
        spec_plan_pin(cached, place_id, later, (now + wait) as i64) == PinPlan::Skip,
{
}

/// A fresh cache entry for the same place always serves, whatever the
/// back-off: the cache never costs a request.
pub proof fn lemma_fresh_cache_serves(place_id: Seq<char>, fetched_at: i64, now: i64, blocked_until: i64)
    requires
        now - fetched_at < CACHE_TTL_SECS,
    ensures
        spec_plan_pin(Some((place_id, fetched_at)), place_id, now, blocked_until) == PinPlan::Cached,
{
}

} // verus!
