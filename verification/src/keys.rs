//! The Valkey keyspace, in one place.
//!
//! Every shared key is built here, so that the bus, the windows and the resume pointer can
//! never drift between the three services that share them.

use vstd::prelude::*;
use crate::text;

verus! {

/// Bus stream: every interesting raw event, appended by ingest.
pub const BUS_EDITS: &'static str = "pulse:bus:edits";

/// Bus stream: confirmed bursts, appended by the detector, fanned out by the api.
pub const BUS_CONFIRMED: &'static str = "pulse:bus:confirmed";

/// Consumer group that the detector reads `BUS_EDITS` with.
pub const GROUP_DETECTOR: &'static str = "grpdetector";

/// The gapless-ingest pointer: the last SSE event id that was durably appended.
pub const INGEST_LAST_EVENT_ID: &'static str = "pulse:ingest:last_event_id";

/// Per-article EWMA baseline hash.
pub const EWMA: &'static str = "pulse:ewma";

/// Vandal Patrol settlement queue, scored by deadline.
pub const SETTLE_QUEUE: &'static str = "pulse:settle";

/// Milliseconds in the slots of the global rate and of the baselines.
pub const MINUTE_MS: i64 = 60_000;

/// Milliseconds in the slots of the editor tallies.
pub const TEN_MINUTES_MS: i64 = 600_000;

/// The key of an article's sliding window.
pub open spec fn window_key(article: Seq<char>) -> Seq<char> {
    "pulse:win:"@ + article
}

/// The key of an article's editor tally in a ten-minute slot.
pub open spec fn editors_key(article: Seq<char>, slot: int) -> Seq<char> {
    "pulse:eds:"@ + article + ":"@ + text::decimal(slot)
}

/// The key of the global rate in a one-minute slot.
pub open spec fn global_rate_key(slot: int) -> Seq<char> {
    "pulse:global:rate:"@ + text::decimal(slot)
}

/// Per-article sliding window of recent edit timestamps.
pub fn window(article: &str) -> (r: String)
    ensures
        r@ == window_key(article@),
        r@ == "pulse:win:"@ + article@,
{
    text::join2("pulse:win:", article)
}

/// Per-editor counts for an article within a ten-minute slot.
pub fn editors(article: &str, bucket10m: i64) -> (r: String)
    ensures
        r@ == editors_key(article@, bucket10m as int),
        r@ == "pulse:eds:"@ + article@ + ":"@ + text::decimal(bucket10m as int),
{
    let head: String = text::join3("pulse:eds:", article, ":");
    let slot: String = text::format_i64(bucket10m);
    text::join2(head.as_str(), slot.as_str())
}

/// Global stream rate counter for a one-minute slot: the bot-flood normalizer.
pub fn global_rate(bucket1m: i64) -> (r: String)
    ensures
        r@ == global_rate_key(bucket1m as int),
        r@ == "pulse:global:rate:"@ + text::decimal(bucket1m as int),
{
    let slot: String = text::format_i64(bucket1m);
    text::join2("pulse:global:rate:", slot.as_str())
}

/// The quotient rounded toward zero.
pub open spec fn quotient(a: int, b: int) -> int {
    if a >= 0 {
        a / b
    } else {
        -((-a) / b)
    }
}

/// Buckets a unix-millisecond timestamp into ten-minute slots.
pub fn bucket_10m(ts_ms: i64) -> (r: i64)
    ensures
        r == quotient(ts_ms as int, TEN_MINUTES_MS as int),
        ts_ms >= 0 ==> r * 600_000 <= ts_ms < (r + 1) * 600_000,
        ts_ms < 0 ==> (r - 1) * 600_000 < ts_ms <= r * 600_000,
{
    ts_ms / TEN_MINUTES_MS
}

/// Buckets a unix-millisecond timestamp into one-minute slots.
pub fn bucket_1m(ts_ms: i64) -> (r: i64)
    ensures
        r == quotient(ts_ms as int, MINUTE_MS as int),
        ts_ms >= 0 ==> r * 60_000 <= ts_ms < (r + 1) * 60_000,
        ts_ms < 0 ==> (r - 1) * 60_000 < ts_ms <= r * 60_000,
{
    ts_ms / MINUTE_MS
}

/// For a timestamp at or after the epoch, the slot is the one whose milliseconds hold it.
pub proof fn law_bucket_holds_its_timestamp(ts_ms: int, slot_ms: int)
    requires
        0 <= ts_ms,
        0 < slot_ms,
    ensures
        quotient(ts_ms, slot_ms) * slot_ms <= ts_ms < (quotient(ts_ms, slot_ms) + 1) * slot_ms,
{
    vstd::arithmetic::div_mod::lemma_fundamental_div_mod(ts_ms, slot_ms);
    vstd::arithmetic::div_mod::lemma_mod_bound(ts_ms, slot_ms);
    assert((ts_ms / slot_ms) * slot_ms == slot_ms * (ts_ms / slot_ms)) by (nonlinear_arith);
    assert((ts_ms / slot_ms + 1) * slot_ms == slot_ms * (ts_ms / slot_ms) + slot_ms)
        by (nonlinear_arith);
}

/// Two articles never share a window, two slots never share a global rate, and neither two
/// articles nor two slots share an editor tally.
pub proof fn law_keys_do_not_collide(a: Seq<char>, b: Seq<char>, m: i64, n: i64)
    ensures
        window_key(a) == window_key(b) ==> a == b,
        editors_key(a, m as int) == editors_key(b, n as int) ==> a == b && m == n,
        global_rate_key(m as int) == global_rate_key(n as int) ==> m == n,
{
    let w = "pulse:win:"@;
    assert(window_key(a).skip(w.len() as int) =~= a);
    assert(window_key(b).skip(w.len() as int) =~= b);
    let g = "pulse:global:rate:"@;
    assert(global_rate_key(m as int).skip(g.len() as int) =~= text::decimal(m as int));
    assert(global_rate_key(n as int).skip(g.len() as int) =~= text::decimal(n as int));
    text::law_decimal_round_trip(m);
    text::law_decimal_round_trip(n);
    if editors_key(a, m as int) == editors_key(b, n as int) {
        let e = "pulse:eds:"@;
        let dm = text::decimal(m as int);
        let dn = text::decimal(n as int);
        reveal_strlit(":");
        let left = editors_key(a, m as int).skip(e.len() as int);
        let right = editors_key(b, n as int).skip(e.len() as int);
        assert(left =~= a.push(':') + dm);
        assert(right =~= b.push(':') + dn);
        text::lemma_decimal_chars(m as int, ':');
        text::lemma_decimal_chars(n as int, ':');
        if a.len() < b.len() {
            assert(left[b.len() as int] == dm[b.len() - a.len() - 1]);
            assert(right[b.len() as int] == ':');
            assert(dm.contains(':'));
        } else if b.len() < a.len() {
            assert(right[a.len() as int] == dn[a.len() - b.len() - 1]);
            assert(left[a.len() as int] == ':');
            assert(dn.contains(':'));
        }
        assert(left.take(a.len() as int) =~= a);
        assert(right.take(b.len() as int) =~= b);
        assert(left.skip(a.len() as int + 1) =~= dm);
        assert(right.skip(b.len() as int + 1) =~= dn);
    }
}

/// Slots mirror around the epoch: a moment before it is counted back as the moment as far
/// after it is counted forward.
pub proof fn law_buckets_mirror_around_the_epoch(ts_ms: int, slot_ms: int)
    requires
        0 < slot_ms,
    ensures
        quotient(-ts_ms, slot_ms) == -quotient(ts_ms, slot_ms),
{
    if ts_ms == 0 {
        assert(0int / slot_ms == 0) by (nonlinear_arith)
            requires
                0 < slot_ms,
        ;
    }
}

} // verus!
