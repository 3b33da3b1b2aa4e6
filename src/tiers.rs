//! How a log listing composes the hot tier with the cold tier: the cold
//! tier is read only to fill up what the hot tier leaves short of the
//! limit, and its records always follow the hot ones.
use vstd::prelude::*;

use crate::model::Log;

verus! {

/// The limit of a listing that names none.
pub const DEFAULT_LOG_LIMIT: usize = 100;

/// How far back a cold-tier scan reaches when no start is given:
/// fifteen minutes, in microseconds.
pub const DEFAULT_WINDOW_MICROS: i64 = 900_000_000;

/// The first `limit` records of `s` (all of them if there are fewer).
pub open spec fn take_at_most(s: Seq<Log>, limit: nat) -> Seq<Log> {
    if s.len() <= limit { s } else { s.take(limit as int) }
}

/// Whether a listing must consult the cold tier.
pub open spec fn cold_needed(memory_mode: bool, hot_count: nat, limit: nat) -> bool {
    !memory_mode && hot_count < limit
}

/// The result of a listing, given the hot-tier matches and what the cold
/// tier returns for the window.
pub open spec fn listing(hot: Seq<Log>, cold: Seq<Log>, memory_mode: bool, limit: nat) -> Seq<Log> {
    if cold_needed(memory_mode, hot.len(), limit) {
        take_at_most(hot + cold, limit)
    } else {
        take_at_most(hot, limit)
    }
}

/// The limit asked for, or the default one.
pub fn limit_or_default(limit: Option<usize>) -> (r: usize)
    ensures
        r == match limit {
            Some(l) => l,
            None => DEFAULT_LOG_LIMIT,
        },
{
    match limit {
        Some(l) => l,
        None => DEFAULT_LOG_LIMIT,
    }
}

/// Whether the cold tier must be read: not in memory mode, and only when
/// the hot tier has fewer matches than the limit.
pub fn needs_cold_tier(memory_mode: bool, hot_count: usize, limit: usize) -> (r: bool)
    ensures
        r == cold_needed(memory_mode, hot_count as nat, limit as nat),
{
    !memory_mode && hot_count < limit
}

/// The window of a cold-tier scan: the bounds asked for, else the last
/// fifteen minutes before `now` (saturating at the earliest time) and `now`.
pub fn scan_window(start: Option<i64>, end: Option<i64>, now: i64) -> (r: (i64, i64))
    ensures
        r.0 == match start {
            Some(s) => s as int,
            None => if now - DEFAULT_WINDOW_MICROS >= i64::MIN {
                now - DEFAULT_WINDOW_MICROS
            } else {
                i64::MIN as int
            },
        },
        r.1 == match end {
            Some(e) => e,
            None => now,
        },
{
    let from = match start {
        Some(s) => s,
        None => if now >= i64::MIN + DEFAULT_WINDOW_MICROS {
            now - DEFAULT_WINDOW_MICROS
        } else {
            i64::MIN
        },
    };
    let to = match end {
        Some(e) => e,
        None => now,
    };
    (from, to)
}

/// Composes a listing from the hot-tier matches and, where the cold tier
/// was read, its matches (`None` where it was not read or the read
/// failed, which counts as no historical data).
pub fn combine_tiers(hot: Vec<Log>, cold: Option<Vec<Log>>, memory_mode: bool, limit: usize) -> (r: Vec<Log>)
    ensures
        r@ == listing(
            hot@,
            match cold {
                Some(c) => c@,
                None => Seq::empty(),
            },
            memory_mode,
            limit as nat,
        ),
{
    let mut r = hot;
    let ghost h = r@;
    if needs_cold_tier(memory_mode, r.len(), limit) {
        match cold {
            Some(c) => {
                let mut c = c;
                r.append(&mut c);
            },
            None => {
                assert(h + Seq::<Log>::empty() =~= h);
            },
        }
    }
    r.truncate(limit);
    r
}

/// When the hot tier alone has at least `limit` matches, the listing is
/// exactly its first `limit` matches, whatever the cold tier holds and in
/// either mode; otherwise, outside memory mode, the cold matches follow the
/// hot ones and the listing holds `min(limit, hot + cold)` records.
pub proof fn law_tiered_merge(hot: Seq<Log>, cold: Seq<Log>, memory_mode: bool, limit: nat)
    ensures
        limit <= hot.len() ==> !cold_needed(memory_mode, hot.len(), limit)
            && listing(hot, cold, memory_mode, limit) == hot.take(limit as int),
        hot.len() < limit && !memory_mode ==> {
            let r = listing(hot, cold, memory_mode, limit);
            &&& cold_needed(memory_mode, hot.len(), limit)
            &&& r.len() == if limit < hot.len() + cold.len() { limit as int } else { (hot.len() + cold.len()) as int }
            &&& r == (hot + cold).take(r.len() as int)
            &&& r.take(hot.len() as int) == hot
        },
{
    if limit <= hot.len() && hot.len() <= limit {
        assert(hot.take(limit as int) =~= hot);
    }
    if hot.len() < limit && !memory_mode {
        let r = listing(hot, cold, memory_mode, limit);
        assert((hot + cold).take((hot + cold).len() as int) =~= hot + cold);
        assert(r.take(hot.len() as int) =~= hot);
    }
}

/// In memory mode the listing does not depend on the cold tier.
pub proof fn law_memory_mode_isolation(hot: Seq<Log>, cold1: Seq<Log>, cold2: Seq<Log>, limit: nat)
    ensures
        listing(hot, cold1, true, limit) == listing(hot, cold2, true, limit),
        listing(hot, cold1, true, limit) == take_at_most(hot, limit),
{
}

} // verus!
