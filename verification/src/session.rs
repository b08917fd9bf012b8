//! Session change fingerprints: the text that tells a client whether the
//! session file it already holds is still current.

use vstd::prelude::*;

use crate::clock::unix_time_ms;
use crate::decimal::{dec_int, dec_nat, push_decimal_i64, push_decimal_u64};
use crate::text::{push_char, str_eq};

verus! {

/// A session file untouched for this many milliseconds (five minutes)
/// counts as stale.
pub const STALE_SESSION_THRESHOLD_MS: i64 = 300_000;

/// `v2:{mtime or 0}:{size or 0}:{0 or 1}`.
pub open spec fn fingerprint_text(mtime_ms: Option<i64>, size: Option<u64>, is_stale: bool) -> Seq<char> {
    seq!['v', '2', ':'] + dec_int(
        match mtime_ms {
            Some(m) => m as int,
            None => 0,
        },
    ) + seq![':'] + dec_nat(
        match size {
            Some(n) => n as nat,
            None => 0,
        },
    ) + seq![':', if is_stale { '1' } else { '0' }]
}

/// The fingerprint of a session file with the given modification time,
/// size and staleness; an absent value is written as 0.
pub fn make_session_ipc_fingerprint(mtime_ms: Option<i64>, size: Option<u64>, is_stale: bool) -> (r: String)
    ensures
        r@ == fingerprint_text(mtime_ms, size, is_stale),
{
    let mut s = String::new();
    push_char(&mut s, 'v');
    push_char(&mut s, '2');
    push_char(&mut s, ':');
    let m: i64 = match mtime_ms {
        Some(m) => m,
        None => 0,
    };
    push_decimal_i64(&mut s, m);
    push_char(&mut s, ':');
    let n: u64 = match size {
        Some(n) => n,
        None => 0,
    };
    push_decimal_u64(&mut s, n);
    push_char(&mut s, ':');
    push_char(&mut s, if is_stale { '1' } else { '0' });
    assert(s@ =~= fingerprint_text(mtime_ms, size, is_stale));
    s
}

/// A file modified at `mtime_ms` is stale at `now_ms` when at least the
/// threshold has passed since; a file without a known time never is.
pub open spec fn stale_at(mtime_ms: Option<i64>, now_ms: i64) -> bool {
    match mtime_ms {
        Some(ms) => now_ms - ms >= STALE_SESSION_THRESHOLD_MS,
        None => false,
    }
}

/// Whether a session file modified at `mtime_ms` is stale at `now_ms`
/// (the difference saturating as `i64::saturating_sub` does).
pub fn session_is_stale(mtime_ms: Option<i64>, now_ms: i64) -> (r: bool)
    ensures
        r == stale_at(mtime_ms, now_ms),
{
    match mtime_ms {
        None => false,
        Some(ms) => {
            let diff: i128 = now_ms as i128 - ms as i128;
            let saturated: i64 = if diff > i64::MAX as i128 {
                i64::MAX
            } else if diff < i64::MIN as i128 {
                i64::MIN
            } else {
                diff as i64
            };
            saturated >= STALE_SESSION_THRESHOLD_MS
        },
    }
}

/// The fingerprint of a session file as of now: its staleness is that at
/// the wall-clock reading (milliseconds since the Unix epoch, never
/// negative) taken by the call, so either value of the stale bit may come
/// out, but never `1` for a file without a modification time.
pub fn current_session_fingerprint(mtime_ms: Option<i64>, size: Option<u64>) -> (r: String)
    ensures
        exists|now: i64| now >= 0 && r@ == fingerprint_text(mtime_ms, size, #[trigger] stale_at(mtime_ms, now)),
        r@ == fingerprint_text(mtime_ms, size, false) || r@ == fingerprint_text(mtime_ms, size, true),
        mtime_ms is None ==> r@ == fingerprint_text(mtime_ms, size, false),
{
    let now = unix_time_ms();
    let stale = session_is_stale(mtime_ms, now);
    let r = make_session_ipc_fingerprint(mtime_ms, size, stale);
    assert(now >= 0 && r@ == fingerprint_text(mtime_ms, size, stale_at(mtime_ms, now)));
    r
}

/// A client's known fingerprint lets the session be reported unchanged
/// only when the file's time and size are both known and the fingerprint
/// matches exactly.
pub fn session_unchanged(mtime_ms: Option<i64>, size: Option<u64>, fingerprint: &str, known: Option<&str>) -> (r: bool)
    ensures
        r == (mtime_ms is Some && size is Some && (match known {
            Some(k) => k@ == fingerprint@,
            None => false,
        })),
{
    if mtime_ms.is_some() && size.is_some() {
        match known {
            Some(k) => str_eq(k, fingerprint),
            None => false,
        }
    } else {
        false
    }
}

} // verus!
