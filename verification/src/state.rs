//! Hot state in Valkey: what the detector writes for each edit and reads back for the gates.
//!
//! The editor key is a hash of per-editor counts rather than a set: Gate 2 needs the share
//! of the busiest editor, which a set cannot give, and the number of distinct editors still
//! comes from the hash.
//!
//! Memory discipline: only articles with at least two edits in the window get a window key.
//! A first edit is merely remembered, for as long as the window is, and enters the window
//! together with the second. Windows, tallies, comments, categories and markers all expire.
//!
//! The averages themselves are floating point: the caller computes them, and passes their
//! text. When an average takes in a sample, over which minute, and how it is stored is
//! decided here.

use vstd::prelude::*;
use crate::command::{expire, Command};
use crate::gates::Tunables;
use crate::{command, keys, stamp, text};

verus! {

/// Which one-minute slot each article's stored average last took in.
pub const EWMA_BUCKET_HASH: &'static str = "pulse:ewma:bucket";

/// The global baseline, smoothed over about an hour of one-minute slots.
pub const GLOBAL_EWMA_KEY: &'static str = "pulse:global:ewma";

/// How long a minute's global count is kept, in seconds.
pub const GLOBAL_RATE_SECS: i64 = 600;

/// How long an editor tally is kept, in seconds.
pub const EDITORS_SECS: i64 = 1_800;

// ---------------------------------------------------------------------------
// Keys
// ---------------------------------------------------------------------------

/// The key of an article's category evidence.
pub open spec fn cats_key_text(article: Seq<char>) -> Seq<char> {
    "pulse:cats:"@ + article
}

/// The key of an article's sample comments.
pub open spec fn comments_key_text(article: Seq<char>) -> Seq<char> {
    "pulse:cmts:"@ + article
}

/// The key of an article's cooldown marker.
pub open spec fn cooldown_key_text(article: Seq<char>) -> Seq<char> {
    "pulse:confirmed:"@ + article
}

/// The key of an article's latest edit.
pub open spec fn latest_key_text(article: Seq<char>) -> Seq<char> {
    "pulse:last:"@ + article
}

/// Key for the latest edit, remembered for the length of the window.
pub fn latest_key(article: &str) -> (r: String)
    ensures
        r@ == latest_key_text(article@),
        r@ == "pulse:last:"@ + article@,
{
    text::join2("pulse:last:", article)
}

/// Key for the category evidence, held until the article's burst confirms.
pub fn cats_key(article: &str) -> (r: String)
    ensures
        r@ == cats_key_text(article@),
        r@ == "pulse:cats:"@ + article@,
{
    text::join2("pulse:cats:", article)
}

/// Key for the sample edit comments, kept for the receipt's evidence bundle.
pub fn comments_key(article: &str) -> (r: String)
    ensures
        r@ == comments_key_text(article@),
        r@ == "pulse:cmts:"@ + article@,
{
    text::join2("pulse:cmts:", article)
}

/// Key for the cooldown marker, so that one long-running burst yields one receipt.
pub fn cooldown_key(article: &str) -> (r: String)
    ensures
        r@ == cooldown_key_text(article@),
        r@ == "pulse:confirmed:"@ + article@,
{
    text::join2("pulse:confirmed:", article)
}

// ---------------------------------------------------------------------------
// The global rate
// ---------------------------------------------------------------------------

/// Counts one event toward the global stream rate.
pub fn bump_global_rate(now_ms: i64) -> (r: Vec<Command>)
    ensures
        ({
            let key = keys::global_rate_key(keys::quotient(now_ms as int, keys::MINUTE_MS as int));
            command::pipeline(r@) == seq![
                seq!["INCR"@, key],
                command::expire_words(key, GLOBAL_RATE_SECS as int),
            ]
        }),
        command::pipeline(r@)[1][2] == text::decimal(600),
{
    let key: String = keys::global_rate(keys::bucket_1m(now_ms));
    let mut out: Vec<Command> = Vec::new();
    out.push(Command::new("INCR").arg(key.as_str()));
    out.push(expire(key.as_str(), GLOBAL_RATE_SECS));
    assert(out@[0]@ =~= seq!["INCR"@, key@]);
    assert(command::pipeline(out@) =~= seq![
        seq!["INCR"@, key@],
        command::expire_words(key@, GLOBAL_RATE_SECS as int),
    ]);
    out
}

/// The minute whose global count is read: the previous one, because the current minute is
/// still filling and would always read low.
pub open spec fn full_minute(now_ms: int) -> int {
    keys::quotient(now_ms, keys::MINUTE_MS as int) - 1
}

/// The minute whose global count is read.
pub fn last_full_minute(now_ms: i64) -> (r: i64)
    ensures
        r == full_minute(now_ms as int),
{
    keys::bucket_1m(now_ms) - 1
}

/// Asks for the global count of the previous minute, and for the stored baseline.
pub fn global_queries(now_ms: i64) -> (r: Vec<Command>)
    ensures
        command::pipeline(r@) == seq![
            seq!["GET"@, keys::global_rate_key(full_minute(now_ms as int))],
            seq!["GET"@, GLOBAL_EWMA_KEY@],
        ],
{
    let key: String = keys::global_rate(last_full_minute(now_ms));
    let mut out: Vec<Command> = Vec::new();
    out.push(Command::new("GET").arg(key.as_str()));
    out.push(Command::new("GET").arg(GLOBAL_EWMA_KEY));
    assert(out@[0]@ =~= seq!["GET"@, key@]);
    assert(out@[1]@ =~= seq!["GET"@, GLOBAL_EWMA_KEY@]);
    assert(command::pipeline(out@) =~= seq![
        seq!["GET"@, key@],
        seq!["GET"@, GLOBAL_EWMA_KEY@],
    ]);
    out
}

/// The minute that a stored baseline last took in; `i64::MIN` where there is none yet.
pub open spec fn baseline_minute(stored: Option<i64>) -> int {
    match stored {
        Some(minute) => minute as int,
        None => i64::MIN as int,
    }
}

/// Whether the baseline takes in the previous minute: there was something to count, and the
/// minute comes after the one that it last took in. `rate_seen` says whether the count is
/// above zero, and `stored` is the minute beside the stored baseline.
pub fn baseline_is_due(now_ms: i64, rate_seen: bool, stored: Option<i64>) -> (r: bool)
    ensures
        r == (rate_seen && full_minute(now_ms as int) > baseline_minute(stored)),
        stored is None ==> r == rate_seen,
        stored matches Some(minute) ==> r == (rate_seen && full_minute(now_ms as int) > minute),
{
    let last: i64 = match stored {
        Some(minute) => minute,
        None => i64::MIN,
    };
    rate_seen && last_full_minute(now_ms) > last
}

/// Stores the baseline beside the minute it took in, so that it takes in each minute once.
pub fn store_baseline(now_ms: i64, baseline: &str) -> (r: Command)
    ensures
        r@ == seq![
            "SET"@,
            GLOBAL_EWMA_KEY@,
            stamp::stamped(baseline@, full_minute(now_ms as int)),
        ],
{
    let stored: String = stamp::stamp(baseline, last_full_minute(now_ms));
    let c: Command = Command::new("SET").arg(GLOBAL_EWMA_KEY).arg(stored.as_str());
    assert(c@ =~= seq![
        "SET"@,
        GLOBAL_EWMA_KEY@,
        stamp::stamped(baseline@, full_minute(now_ms as int)),
    ]);
    c
}

// ---------------------------------------------------------------------------
// Recording
// ---------------------------------------------------------------------------

/// The moment `secs` seconds before `now_ms` is one that an `i64` can hold.
pub open spec fn cutoff_fits(now_ms: int, secs: int) -> bool {
    &&& i64::MIN <= secs * 1000 <= i64::MAX
    &&& i64::MIN <= now_ms - secs * 1000 <= i64::MAX
}

/// An edit as it is remembered: its moment, a colon, and its event id.
pub open spec fn remembered(at_ms: int, member: Seq<char>) -> Seq<char> {
    text::decimal(at_ms).push(':') + member
}

/// The moment and the event id of a remembered edit.
pub open spec fn remembered_parts(stored: Seq<char>) -> Option<(i64, Seq<char>)> {
    match text::split_once_text(stored, ':') {
        Some((at, member)) => match text::i64_value(at) {
            Some(at_ms) => Some((at_ms, member)),
            None => None,
        },
        None => None,
    }
}

/// The earlier edit of the window that what is remembered tells of: one after the cutoff,
/// and not the same event delivered again.
pub open spec fn earlier_edit(
    stored: Option<Seq<char>>,
    member: Seq<char>,
    cutoff_ms: int,
) -> Option<(i64, Seq<char>)> {
    match stored {
        Some(s) => match remembered_parts(s) {
            Some((at_ms, id)) => if at_ms > cutoff_ms && id != member {
                Some((at_ms, id))
            } else {
                None
            },
            None => None,
        },
        None => None,
    }
}

/// The later of an edit and an earlier-delivered one.
pub open spec fn later_edit(
    earlier: Option<(i64, Seq<char>)>,
    now_ms: int,
    member: Seq<char>,
) -> (int, Seq<char>) {
    match earlier {
        Some((at_ms, id)) => if at_ms > now_ms {
            (at_ms as int, id)
        } else {
            (now_ms, member)
        },
        None => (now_ms, member),
    }
}

/// What is written to the window. One that already holds edits takes in one more, or moves
/// an event that was delivered again to its new moment. Otherwise a second edit enters
/// together with the first, and a first one not at all. The window is trimmed to its length.
pub open spec fn window_words(
    article: Seq<char>,
    held: bool,
    earlier: Option<(i64, Seq<char>)>,
    member: Seq<char>,
    now_ms: int,
    window_secs: int,
) -> Seq<Seq<Seq<char>>> {
    let win = keys::window_key(article);
    let entry = seq!["ZADD"@, win, text::decimal(now_ms), member];
    let trim = seq![
        "ZREMRANGEBYSCORE"@,
        win,
        "-inf"@,
        text::decimal(now_ms - window_secs * 1000),
    ];
    let renewal = command::expire_words(win, window_secs);
    if held {
        seq![entry, trim, renewal]
    } else {
        match earlier {
            None => Seq::empty(),
            Some((at_ms, id)) => seq![
                seq!["ZADD"@, win, text::decimal(at_ms as int), id],
                entry,
                trim,
                renewal,
            ],
        }
    }
}

/// What is written for every edit: the latest edit is remembered, and its editor has one
/// more.
pub open spec fn edit_words(
    article: Seq<char>,
    user: Seq<char>,
    latest: (int, Seq<char>),
    now_ms: int,
    window_secs: int,
) -> Seq<Seq<Seq<char>>> {
    let last = latest_key_text(article);
    let eds = keys::editors_key(article, keys::quotient(now_ms, keys::TEN_MINUTES_MS as int));
    seq![
        seq!["SET"@, last, remembered(latest.0, latest.1)],
        command::expire_words(last, window_secs),
        seq!["HINCRBY"@, eds, user, text::decimal(1)],
        command::expire_words(eds, EDITORS_SECS as int),
    ]
}

/// What is written for an edit's comment: the last ten are kept.
pub open spec fn comment_words(
    article: Seq<char>,
    comment: Seq<char>,
    window_secs: int,
) -> Seq<Seq<Seq<char>>> {
    let cmts = comments_key_text(article);
    seq![
        seq!["LPUSH"@, cmts, comment],
        seq!["LTRIM"@, cmts, text::decimal(0), text::decimal(9)],
        command::expire_words(cmts, window_secs),
    ]
}

/// Everything that is written for an edit. `held` says whether the window holds any edit
/// after the cutoff, and `stored` is the remembered edit.
pub open spec fn record_words(
    article: Seq<char>,
    user: Seq<char>,
    member: Seq<char>,
    comment: Seq<char>,
    held: bool,
    stored: Option<Seq<char>>,
    now_ms: int,
    window_secs: int,
) -> Seq<Seq<Seq<char>>> {
    let earlier = earlier_edit(stored, member, now_ms - window_secs * 1000);
    window_words(article, held, earlier, member, now_ms, window_secs) + edit_words(
        article,
        user,
        later_edit(earlier, now_ms, member),
        now_ms,
        window_secs,
    ) + (if comment.len() == 0 {
        Seq::<Seq<Seq<char>>>::empty()
    } else {
        comment_words(article, comment, window_secs)
    })
}

/// Asks, before an edit is recorded, how many edits after the cutoff the article's window
/// holds, and which edit is remembered.
pub fn edit_queries(article: &str, now_ms: i64, t: &Tunables) -> (r: Vec<Command>)
    requires
        cutoff_fits(now_ms as int, t.window_secs as int),
    ensures
        command::pipeline(r@) == seq![
            seq![
                "ZCOUNT"@,
                keys::window_key(article@),
                "("@ + text::decimal(now_ms - t.window_secs * 1000),
                "+inf"@,
            ],
            seq!["GET"@, latest_key_text(article@)],
        ],
{
    let win: String = keys::window(article);
    let key: String = latest_key(article);
    let cutoff: String = text::format_i64(now_ms - t.window_secs * 1000);
    let after: String = text::join2("(", cutoff.as_str());
    let mut out: Vec<Command> = Vec::new();
    out.push(Command::new("ZCOUNT").arg(win.as_str()).arg(after.as_str()).arg("+inf"));
    out.push(Command::new("GET").arg(key.as_str()));
    assert(out@[0]@ =~= seq!["ZCOUNT"@, win@, after@, "+inf"@]);
    assert(out@[1]@ =~= seq!["GET"@, key@]);
    assert(command::pipeline(out@) =~= seq![
        seq!["ZCOUNT"@, win@, after@, "+inf"@],
        seq!["GET"@, key@],
    ]);
    out
}

/// The stored form of an edit that is to be remembered.
pub fn remember(at_ms: i64, member: &str) -> (r: String)
    ensures
        r@ == remembered(at_ms as int, member@),
        r@ == text::decimal(at_ms as int) + ":"@ + member@,
{
    let at: String = text::format_i64(at_ms);
    let r: String = text::join3(at.as_str(), ":", member);
    proof {
        reveal_strlit(":");
        assert(r@ =~= remembered(at_ms as int, member@));
    }
    r
}

/// The earlier edit of the window that what is remembered tells of.
pub fn recall(stored: Option<&str>, member: &str, cutoff_ms: i64) -> (r: Option<(i64, String)>)
    ensures
        ({
            let known = match stored {
                Some(s) => Some(s@),
                None => None,
            };
            match r {
                Some((at_ms, id)) => earlier_edit(known, member@, cutoff_ms as int) == Some(
                    (at_ms, id@),
                ),
                None => earlier_edit(known, member@, cutoff_ms as int) is None,
            }
        }),
{
    match stored {
        Some(s) => match text::split_once(s, ':') {
            Some((at, id)) => match text::parse_i64(at.as_str()) {
                Some(at_ms) => if at_ms > cutoff_ms && !text::text_eq(id.as_str(), member) {
                    Some((at_ms, id))
                } else {
                    None
                },
                None => None,
            },
            None => None,
        },
        None => None,
    }
}

/// Records one non-bot article edit. `held` and `stored` are what [`edit_queries`] read: the
/// window gets its key only where another edit inside the window is remembered, and then
/// both edits enter it.
pub fn record_edit(
    article: &str,
    user: &str,
    member: &str,
    comment: &str,
    held: i64,
    stored: Option<&str>,
    now_ms: i64,
    t: &Tunables,
) -> (r: Vec<Command>)
    requires
        cutoff_fits(now_ms as int, t.window_secs as int),
    ensures
        command::pipeline(r@) == record_words(
            article@,
            user@,
            member@,
            comment@,
            held > 0,
            match stored {
                Some(s) => Some(s@),
                None => None,
            },
            now_ms as int,
            t.window_secs as int,
        ),
{
    let cutoff: i64 = now_ms - t.window_secs * 1000;
    let earlier: Option<(i64, String)> = recall(stored, member, cutoff);
    let ghost known: Option<Seq<char>> = match stored {
        Some(s) => Some(s@),
        None => None,
    };
    let ghost found = earlier_edit(known, member@, cutoff as int);
    let win: String = keys::window(article);
    let mut out: Vec<Command> = Vec::new();
    if held <= 0 {
        if let Some((at_ms, id)) = &earlier {
            out.push(Command::new("ZADD").arg(win.as_str()).arg_i64(*at_ms).arg(id.as_str()));
            assert(out@[0]@ =~= seq!["ZADD"@, win@, text::decimal(*at_ms as int), id@]);
        }
    }
    if held > 0 || earlier.is_some() {
        let ghost n = out@.len() as int;
        out.push(Command::new("ZADD").arg(win.as_str()).arg_i64(now_ms).arg(member));
        out.push(Command::new("ZREMRANGEBYSCORE").arg(win.as_str()).arg("-inf").arg_i64(cutoff));
        out.push(expire(win.as_str(), t.window_secs));
        assert(out@[n]@ =~= seq!["ZADD"@, win@, text::decimal(now_ms as int), member@]);
        assert(out@[n + 1]@ =~= seq![
            "ZREMRANGEBYSCORE"@,
            win@,
            "-inf"@,
            text::decimal(cutoff as int),
        ]);
    }
    let last: String = match &earlier {
        Some((at_ms, id)) => if *at_ms > now_ms {
            remember(*at_ms, id.as_str())
        } else {
            remember(now_ms, member)
        },
        None => remember(now_ms, member),
    };
    let ghost opened = window_words(
        article@,
        held > 0,
        found,
        member@,
        now_ms as int,
        t.window_secs as int,
    );
    assert(command::pipeline(out@) =~= opened);
    let ghost latest = later_edit(found, now_ms as int, member@);
    assert(last@ == remembered(latest.0, latest.1));

    let ghost first = out@;
    let key: String = latest_key(article);
    let eds: String = keys::editors(article, keys::bucket_10m(now_ms));
    out.push(Command::new("SET").arg(key.as_str()).arg(last.as_str()));
    out.push(expire(key.as_str(), t.window_secs));
    out.push(Command::new("HINCRBY").arg(eds.as_str()).arg(user).arg_i64(1));
    out.push(expire(eds.as_str(), EDITORS_SECS));
    let ghost edit = edit_words(article@, user@, latest, now_ms as int, t.window_secs as int);
    proof {
        let n = first.len() as int;
        assert(out@[n]@ =~= seq!["SET"@, key@, last@]);
        assert(out@[n + 2]@ =~= seq!["HINCRBY"@, eds@, user@, text::decimal(1)]);
        lemma_appended(first, out@, edit);
    }
    if comment.is_empty() {
        assert(opened + edit + Seq::<Seq<Seq<char>>>::empty() =~= opened + edit);
        return out;
    }
    let ghost second = out@;
    let cmts: String = comments_key(article);
    out.push(Command::new("LPUSH").arg(cmts.as_str()).arg(comment));
    out.push(Command::new("LTRIM").arg(cmts.as_str()).arg_i64(0).arg_i64(9));
    out.push(expire(cmts.as_str(), t.window_secs));
    proof {
        let n = second.len() as int;
        let words = comment_words(article@, comment@, t.window_secs as int);
        assert(out@[n]@ =~= seq!["LPUSH"@, cmts@, comment@]);
        assert(out@[n + 1]@ =~= seq!["LTRIM"@, cmts@, text::decimal(0), text::decimal(9)]);
        lemma_appended(second, out@, words);
    }
    out
}

/// Commands at the end of a pipeline add their words to it.
proof fn lemma_appended(before: Seq<Command>, after: Seq<Command>, words: Seq<Seq<Seq<char>>>)
    requires
        after.len() == before.len() + words.len(),
        forall|i: int| 0 <= i < before.len() ==> #[trigger] after[i] == before[i],
        forall|i: int| 0 <= i < words.len() ==> after[before.len() + i]@ == #[trigger] words[i],
    ensures
        command::pipeline(after) == command::pipeline(before) + words,
{
    let joined = command::pipeline(before) + words;
    assert forall|i: int| 0 <= i < after.len() implies command::pipeline(after)[i]
        == #[trigger] joined[i] by {
        if i >= before.len() {
            assert(words[i - before.len()] == after[i]@);
        }
    }
    assert(command::pipeline(after) =~= joined);
}

/// Notes that an article was added to a category.
pub fn record_category(article: &str, category: &str, t: &Tunables) -> (r: Vec<Command>)
    ensures
        command::pipeline(r@) == seq![
            seq!["SADD"@, cats_key_text(article@), category@],
            command::expire_words(cats_key_text(article@), t.window_secs as int),
        ],
{
    let key: String = cats_key(article);
    let mut out: Vec<Command> = Vec::new();
    out.push(Command::new("SADD").arg(key.as_str()).arg(category));
    out.push(expire(key.as_str(), t.window_secs));
    assert(out@[0]@ =~= seq!["SADD"@, key@, category@]);
    assert(command::pipeline(out@) =~= seq![
        seq!["SADD"@, key@, category@],
        command::expire_words(key@, t.window_secs as int),
    ]);
    out
}

// ---------------------------------------------------------------------------
// Reading for the gates
// ---------------------------------------------------------------------------

/// Asks how many edits the article has inside the rate window.
pub fn window_query(article: &str, now_ms: i64, t: &Tunables) -> (r: Command)
    requires
        cutoff_fits(now_ms as int, t.rate_window_secs as int),
    ensures
        r@ == seq![
            "ZCOUNT"@,
            keys::window_key(article@),
            text::decimal(now_ms - t.rate_window_secs * 1000),
            "+inf"@,
        ],
{
    let win: String = keys::window(article);
    let cutoff: i64 = now_ms - t.rate_window_secs * 1000;
    let c: Command = Command::new("ZCOUNT").arg(win.as_str()).arg_i64(cutoff).arg("+inf");
    assert(c@ =~= seq!["ZCOUNT"@, win@, text::decimal(cutoff as int), "+inf"@]);
    c
}

/// Asks for the article's editor tallies of the previous and of the current slot, to be
/// merged.
pub fn tally_queries(article: &str, now_ms: i64) -> (r: Vec<Command>)
    ensures
        ({
            let slot = keys::quotient(now_ms as int, keys::TEN_MINUTES_MS as int);
            command::pipeline(r@) == seq![
                seq!["HGETALL"@, keys::editors_key(article@, slot - 1)],
                seq!["HGETALL"@, keys::editors_key(article@, slot)],
            ]
        }),
{
    let slot: i64 = keys::bucket_10m(now_ms);
    let earlier: String = keys::editors(article, slot - 1);
    let later: String = keys::editors(article, slot);
    let mut out: Vec<Command> = Vec::new();
    out.push(Command::new("HGETALL").arg(earlier.as_str()));
    out.push(Command::new("HGETALL").arg(later.as_str()));
    assert(out@[0]@ =~= seq!["HGETALL"@, earlier@]);
    assert(out@[1]@ =~= seq!["HGETALL"@, later@]);
    assert(command::pipeline(out@) =~= seq![
        seq!["HGETALL"@, earlier@],
        seq!["HGETALL"@, later@],
    ]);
    out
}

/// The minute that an article's average samples. It lies past the rate window: an average
/// that took in the minute just gone would absorb the very burst it is measured against,
/// and no burst would ever stand out.
pub open spec fn sampled_minute(now_ms: int, rate_window_secs: int) -> int {
    keys::quotient(now_ms, keys::MINUTE_MS as int) - (keys::quotient(rate_window_secs, 60) + 1)
}

/// The minute that an article's average samples.
pub fn sample_minute(now_ms: i64, t: &Tunables) -> (r: i64)
    ensures
        r == sampled_minute(now_ms as int, t.rate_window_secs as int),
{
    let lag: i64 = t.rate_window_secs / 60 + 1;
    keys::bucket_1m(now_ms) - lag
}

/// Asks for an article's stored average, and for the minute it last took in.
pub fn ewma_queries(article: &str) -> (r: Vec<Command>)
    ensures
        command::pipeline(r@) == seq![
            seq!["HGET"@, keys::EWMA@, article@],
            seq!["HGET"@, EWMA_BUCKET_HASH@, article@],
        ],
{
    let mut out: Vec<Command> = Vec::new();
    out.push(Command::new("HGET").arg(keys::EWMA).arg(article));
    out.push(Command::new("HGET").arg(EWMA_BUCKET_HASH).arg(article));
    assert(out@[0]@ =~= seq!["HGET"@, keys::EWMA@, article@]);
    assert(out@[1]@ =~= seq!["HGET"@, EWMA_BUCKET_HASH@, article@]);
    assert(command::pipeline(out@) =~= seq![
        seq!["HGET"@, keys::EWMA@, article@],
        seq!["HGET"@, EWMA_BUCKET_HASH@, article@],
    ]);
    out
}

/// The average is due: it has not taken in the sampled minute, or a later one, yet.
pub open spec fn ewma_due(now_ms: int, rate_window_secs: int, last: Option<i64>) -> bool {
    match last {
        Some(minute) => sampled_minute(now_ms, rate_window_secs) > minute,
        None => true,
    }
}

/// The milliseconds of a minute are numbers that an `i64` can hold.
pub open spec fn minute_fits(minute: int) -> bool {
    &&& i64::MIN <= minute * 60_000
    &&& (minute + 1) * 60_000 <= i64::MAX
}

/// The query for the sample that an article's average takes in now, where one is due: the
/// edits of the sampled minute, from its first millisecond to its last.
pub fn sample_query(article: &str, now_ms: i64, t: &Tunables, last: Option<i64>) -> (r: Option<
    Command,
>)
    requires
        ewma_due(now_ms as int, t.rate_window_secs as int, last) ==> minute_fits(
            sampled_minute(now_ms as int, t.rate_window_secs as int),
        ),
    ensures
        match r {
            Some(c) => {
                let minute = sampled_minute(now_ms as int, t.rate_window_secs as int);
                &&& ewma_due(now_ms as int, t.rate_window_secs as int, last)
                &&& c@ == seq![
                    "ZCOUNT"@,
                    keys::window_key(article@),
                    text::decimal(minute * 60_000),
                    text::decimal((minute + 1) * 60_000 - 1),
                ]
            },
            None => !ewma_due(now_ms as int, t.rate_window_secs as int, last),
        },
{
    let minute: i64 = sample_minute(now_ms, t);
    let due: bool = match last {
        Some(taken) => minute > taken,
        None => true,
    };
    if !due {
        return None;
    }
    let win: String = keys::window(article);
    let from: i64 = minute * 60_000;
    let to: i64 = (minute + 1) * 60_000 - 1;
    let c: Command = Command::new("ZCOUNT").arg(win.as_str()).arg_i64(from).arg_i64(to);
    assert(c@ =~= seq!["ZCOUNT"@, win@, text::decimal(from as int), text::decimal(to as int)]);
    Some(c)
}

/// Stores an article's average and the minute that it took in.
pub fn store_ewma(article: &str, value: &str, now_ms: i64, t: &Tunables) -> (r: Vec<Command>)
    ensures
        command::pipeline(r@) == seq![
            seq!["HSET"@, keys::EWMA@, article@, value@],
            seq![
                "HSET"@,
                EWMA_BUCKET_HASH@,
                article@,
                text::decimal(sampled_minute(now_ms as int, t.rate_window_secs as int)),
            ],
        ],
{
    let minute: i64 = sample_minute(now_ms, t);
    let mut out: Vec<Command> = Vec::new();
    out.push(Command::new("HSET").arg(keys::EWMA).arg(article).arg(value));
    out.push(Command::new("HSET").arg(EWMA_BUCKET_HASH).arg(article).arg_i64(minute));
    assert(out@[0]@ =~= seq!["HSET"@, keys::EWMA@, article@, value@]);
    assert(out@[1]@ =~= seq![
        "HSET"@,
        EWMA_BUCKET_HASH@,
        article@,
        text::decimal(minute as int),
    ]);
    assert(command::pipeline(out@) =~= seq![
        seq!["HSET"@, keys::EWMA@, article@, value@],
        seq!["HSET"@, EWMA_BUCKET_HASH@, article@, text::decimal(minute as int)],
    ]);
    out
}

// ---------------------------------------------------------------------------
// Evidence and confirmation
// ---------------------------------------------------------------------------

/// Evidence bundle attached to a receipt.
#[derive(Debug, Clone)]
pub struct Evidence {
    pub categories: Vec<String>,
    pub comments: Vec<String>,
}

/// Asks for an article's categories and sample comments.
pub fn load_evidence(article: &str) -> (r: Vec<Command>)
    ensures
        command::pipeline(r@) == seq![
            seq!["SMEMBERS"@, cats_key_text(article@)],
            seq!["LRANGE"@, comments_key_text(article@), text::decimal(0), text::decimal(9)],
        ],
{
    let cats: String = cats_key(article);
    let cmts: String = comments_key(article);
    let mut out: Vec<Command> = Vec::new();
    out.push(Command::new("SMEMBERS").arg(cats.as_str()));
    out.push(Command::new("LRANGE").arg(cmts.as_str()).arg_i64(0).arg_i64(9));
    assert(out@[0]@ =~= seq!["SMEMBERS"@, cats@]);
    assert(out@[1]@ =~= seq!["LRANGE"@, cmts@, text::decimal(0), text::decimal(9)]);
    assert(command::pipeline(out@) =~= seq![
        seq!["SMEMBERS"@, cats@],
        seq!["LRANGE"@, cmts@, text::decimal(0), text::decimal(9)],
    ]);
    out
}

/// Claims the right to confirm an article, for the length of the cooldown. Setting the
/// marker only where there is none makes the claim atomic, so that two detectors cannot
/// write the same receipt.
pub fn claim_confirmation(article: &str, t: &Tunables) -> (r: Command)
    ensures
        r@ == seq![
            "SET"@,
            cooldown_key_text(article@),
            text::decimal(1),
            "NX"@,
            "EX"@,
            text::decimal(t.cooldown_secs as int),
        ],
{
    let key: String = cooldown_key(article);
    let c: Command = Command::new("SET").arg(key.as_str()).arg_i64(1).arg("NX").arg("EX").arg_i64(
        t.cooldown_secs,
    );
    assert(c@ =~= seq![
        "SET"@,
        key@,
        text::decimal(1),
        "NX"@,
        "EX"@,
        text::decimal(t.cooldown_secs as int),
    ]);
    c
}

/// Whether a claim was granted: Valkey answers a `SET NX` that found a marker with nothing.
pub fn claim_granted(reply: &Option<String>) -> (r: bool)
    ensures
        r == (reply is Some),
{
    match reply {
        Some(_) => true,
        None => false,
    }
}

// ---------------------------------------------------------------------------
// Laws
// ---------------------------------------------------------------------------

/// Some command of a pipeline is on this key.
pub open spec fn touches(commands: Seq<Seq<Seq<char>>>, key: Seq<char>) -> bool {
    exists|i: int|
        0 <= i < commands.len() && (#[trigger] commands[i]).len() > 1 && commands[i][1] == key
}

/// The keys that an edit is written to are four different ones.
proof fn lemma_keys_differ(article: Seq<char>, slot: int)
    ensures
        latest_key_text(article) != keys::window_key(article),
        keys::editors_key(article, slot) != keys::window_key(article),
        comments_key_text(article) != keys::window_key(article),
        keys::editors_key(article, slot) != latest_key_text(article),
        comments_key_text(article) != latest_key_text(article),
        keys::editors_key(article, slot) != comments_key_text(article),
{
    reveal_strlit("pulse:win:");
    reveal_strlit("pulse:last:");
    reveal_strlit("pulse:eds:");
    reveal_strlit("pulse:cmts:");
    assert(keys::window_key(article)[6] == 'w');
    assert(latest_key_text(article)[6] == 'l');
    assert(keys::editors_key(article, slot)[6] == 'e');
    assert(comments_key_text(article)[6] == 'c');
}

/// Only an article with at least two edits in the window gets a window key: where the window
/// holds no edit and no other edit of it is remembered, no command is on its key.
pub proof fn law_a_first_edit_opens_no_window(
    article: Seq<char>,
    user: Seq<char>,
    member: Seq<char>,
    comment: Seq<char>,
    stored: Option<Seq<char>>,
    now_ms: int,
    window_secs: int,
)
    requires
        earlier_edit(stored, member, now_ms - window_secs * 1000) is None,
    ensures
        !touches(
            record_words(article, user, member, comment, false, stored, now_ms, window_secs),
            keys::window_key(article),
        ),
{
    let commands = record_words(
        article,
        user,
        member,
        comment,
        false,
        stored,
        now_ms,
        window_secs,
    );
    let win = keys::window_key(article);
    let slot = keys::quotient(now_ms, keys::TEN_MINUTES_MS as int);
    let last = latest_key_text(article);
    let eds = keys::editors_key(article, slot);
    let cmts = comments_key_text(article);
    lemma_keys_differ(article, slot);
    assert forall|i: int| 0 <= i < commands.len() implies (#[trigger] commands[i])[1] != win by {
        let edit = edit_words(article, user, (now_ms, member), now_ms, window_secs);
        if i < 4 {
            assert(commands[i] == edit[i]);
            assert(commands[i][1] == last || commands[i][1] == eds);
        } else {
            assert(commands[i] == comment_words(article, comment, window_secs)[i - 4]);
            assert(commands[i][1] == cmts);
        }
    }
}

/// What is remembered of an edit is read back as it was, whatever its event id holds.
pub proof fn law_remembered_edits_read_back(at_ms: i64, member: Seq<char>)
    ensures
        remembered_parts(remembered(at_ms as int, member)) == Some((at_ms, member)),
{
    text::lemma_decimal_chars(at_ms as int, ':');
    text::lemma_split_first(text::decimal(at_ms as int), ':', member);
    text::law_decimal_round_trip(at_ms);
}

/// What Valkey holds for an article's window: the moment of each event in it, none where
/// there is no such key, and the remembered edit.
#[verifier::ext_equal]
pub struct WindowStore {
    pub window: Map<Seq<char>, i64>,
    pub latest: Option<Seq<char>>,
}

/// The store after one command: what `ZADD`, `ZREMRANGEBYSCORE` from the lowest score on, and
/// `SET` do. Any other command leaves it as it is; nothing expires meanwhile.
pub open spec fn after_command(
    article: Seq<char>,
    s: WindowStore,
    words: Seq<Seq<char>>,
) -> WindowStore {
    let win = keys::window_key(article);
    if words.len() == 4 && words[0] == "ZADD"@ && words[1] == win {
        match text::i64_value(words[2]) {
            Some(at_ms) => WindowStore { window: s.window.insert(words[3], at_ms), ..s },
            None => s,
        }
    } else if words.len() == 4 && words[0] == "ZREMRANGEBYSCORE"@ && words[1] == win && words[2]
        == "-inf"@ {
        match text::i64_value(words[3]) {
            Some(cutoff_ms) => WindowStore {
                window: Map::new(
                    |m: Seq<char>| s.window.dom().contains(m) && s.window[m] > cutoff_ms,
                    |m: Seq<char>| s.window[m],
                ),
                ..s
            },
            None => s,
        }
    } else if words.len() == 3 && words[0] == "SET"@ && words[1] == latest_key_text(article) {
        WindowStore { latest: Some(words[2]), ..s }
    } else {
        s
    }
}

/// The store after a pipeline.
pub open spec fn after_commands(
    article: Seq<char>,
    s: WindowStore,
    commands: Seq<Seq<Seq<char>>>,
) -> WindowStore
    decreases commands.len(),
{
    if commands.len() == 0 {
        s
    } else {
        after_command(
            article,
            after_commands(article, s, commands.drop_last()),
            commands.last(),
        )
    }
}

/// The window holds an edit after the cutoff: what its count says.
pub open spec fn holds(s: WindowStore, cutoff_ms: int) -> bool {
    exists|m: Seq<char>| #[trigger] s.window.dom().contains(m) && s.window[m] > cutoff_ms
}

/// One edit of an article.
pub struct EditView {
    pub user: Seq<char>,
    pub member: Seq<char>,
    pub comment: Seq<char>,
    pub at_ms: i64,
}

/// The store after a run of edits, each recorded by what the store answers before it.
pub open spec fn after_edits(
    article: Seq<char>,
    edits: Seq<EditView>,
    window_secs: int,
) -> WindowStore
    decreases edits.len(),
{
    if edits.len() == 0 {
        WindowStore { window: Map::empty(), latest: None }
    } else {
        let s = after_edits(article, edits.drop_last(), window_secs);
        let e = edits.last();
        after_commands(
            article,
            s,
            record_words(
                article,
                e.user,
                e.member,
                e.comment,
                holds(s, e.at_ms - window_secs * 1000),
                s.latest,
                e.at_ms as int,
                window_secs,
            ),
        )
    }
}

/// The moment of each event, the last one where it was delivered again.
pub open spec fn moments(edits: Seq<EditView>) -> Map<Seq<char>, i64>
    decreases edits.len(),
{
    if edits.len() == 0 {
        Map::empty()
    } else {
        moments(edits.drop_last()).insert(edits.last().member, edits.last().at_ms)
    }
}

/// There is no second event among the edits.
pub open spec fn at_most_one_event(edits: Seq<EditView>) -> bool {
    forall|i: int, j: int|
        0 <= i < edits.len() && 0 <= j < edits.len() ==> (#[trigger] edits[i]).member == (
        #[trigger] edits[j]).member
}

/// All edits lie within one window of each other.
pub open spec fn within_one_window(edits: Seq<EditView>, window_secs: int) -> bool {
    &&& forall|i: int|
        0 <= i < edits.len() ==> cutoff_fits((#[trigger] edits[i]).at_ms as int, window_secs)
    &&& forall|i: int, j: int|
        0 <= i < edits.len() && 0 <= j < edits.len() ==> (#[trigger] edits[i]).at_ms > (
        #[trigger] edits[j]).at_ms - window_secs * 1000
}

/// A pipeline does what its commands do, one after the other.
proof fn lemma_one_more_command(
    article: Seq<char>,
    s: WindowStore,
    commands: Seq<Seq<Seq<char>>>,
    words: Seq<Seq<char>>,
)
    ensures
        after_commands(article, s, commands.push(words)) == after_command(
            article,
            after_commands(article, s, commands),
            words,
        ),
{
    assert(commands.push(words).drop_last() =~= commands);
}

/// Two pipelines in a row do what one after the other does.
proof fn lemma_commands_concat(
    article: Seq<char>,
    s: WindowStore,
    a: Seq<Seq<Seq<char>>>,
    b: Seq<Seq<Seq<char>>>,
)
    ensures
        after_commands(article, s, a + b) == after_commands(
            article,
            after_commands(article, s, a),
            b,
        ),
    decreases b.len(),
{
    if b.len() == 0 {
        assert(a + b =~= a);
    } else {
        lemma_commands_concat(article, s, a, b.drop_last());
        assert((a + b).drop_last() =~= a + b.drop_last());
        assert((a + b).last() == b.last());
    }
}

/// The names of the commands differ.
proof fn lemma_command_names()
    ensures
        "ZADD"@ != "ZREMRANGEBYSCORE"@,
        "ZADD"@ != "LTRIM"@,
        "ZADD"@ != "HINCRBY"@,
        "ZREMRANGEBYSCORE"@ != "LTRIM"@,
        "ZREMRANGEBYSCORE"@ != "HINCRBY"@,
        "SET"@ != "EXPIRE"@,
        "SET"@ != "LPUSH"@,
{
    reveal_strlit("ZADD");
    reveal_strlit("ZREMRANGEBYSCORE");
    reveal_strlit("LTRIM");
    reveal_strlit("HINCRBY");
    reveal_strlit("SET");
    reveal_strlit("EXPIRE");
    reveal_strlit("LPUSH");
    assert("ZADD"@.len() == 4);
    assert("ZREMRANGEBYSCORE"@.len() == 16);
    assert("LTRIM"@.len() == 5);
    assert("HINCRBY"@.len() == 7);
    assert("SET"@.len() == 3);
    assert("EXPIRE"@.len() == 6);
    assert("LPUSH"@.len() == 5);
}

/// What is written for every edit remembers the latest one, and leaves the window alone.
proof fn lemma_edit_words(
    article: Seq<char>,
    s: WindowStore,
    user: Seq<char>,
    latest: (int, Seq<char>),
    now_ms: int,
    window_secs: int,
)
    ensures
        after_commands(article, s, edit_words(article, user, latest, now_ms, window_secs)) == (
        WindowStore { window: s.window, latest: Some(remembered(latest.0, latest.1)) }),
{
    let slot = keys::quotient(now_ms, keys::TEN_MINUTES_MS as int);
    lemma_keys_differ(article, slot);
    lemma_command_names();
    let words = edit_words(article, user, latest, now_ms, window_secs);
    let none = Seq::<Seq<Seq<char>>>::empty();
    let one = none.push(words[0]);
    let two = one.push(words[1]);
    let three = two.push(words[2]);
    lemma_one_more_command(article, s, none, words[0]);
    lemma_one_more_command(article, s, one, words[1]);
    lemma_one_more_command(article, s, two, words[2]);
    lemma_one_more_command(article, s, three, words[3]);
    assert(words =~= three.push(words[3]));
}

/// What is written for a comment leaves the window and the remembered edit alone.
proof fn lemma_comment_words(
    article: Seq<char>,
    s: WindowStore,
    comment: Seq<char>,
    window_secs: int,
)
    ensures
        after_commands(article, s, comment_words(article, comment, window_secs)) == s,
{
    lemma_keys_differ(article, 0);
    lemma_command_names();
    let words = comment_words(article, comment, window_secs);
    let none = Seq::<Seq<Seq<char>>>::empty();
    let one = none.push(words[0]);
    let two = one.push(words[1]);
    lemma_one_more_command(article, s, none, words[0]);
    lemma_one_more_command(article, s, one, words[1]);
    lemma_one_more_command(article, s, two, words[2]);
    assert(words =~= two.push(words[2]));
}

/// What is written to the window puts the edit into it, the first one with it where the
/// window held none, and takes out nothing that lies after the cutoff.
proof fn lemma_window_words(
    article: Seq<char>,
    s: WindowStore,
    held: bool,
    earlier: Option<(i64, Seq<char>)>,
    member: Seq<char>,
    now_ms: i64,
    window_secs: int,
)
    requires
        cutoff_fits(now_ms as int, window_secs),
        window_secs * 1000 > 0,
        forall|m: Seq<char>| #[trigger]
            s.window.dom().contains(m) ==> s.window[m] > now_ms - window_secs * 1000,
        earlier matches Some((at_ms, _)) ==> at_ms > now_ms - window_secs * 1000,
    ensures
        after_commands(
            article,
            s,
            window_words(article, held, earlier, member, now_ms as int, window_secs),
        ) == (WindowStore {
            window: if held {
                s.window.insert(member, now_ms)
            } else {
                match earlier {
                    None => s.window,
                    Some((at_ms, id)) => s.window.insert(id, at_ms).insert(member, now_ms),
                }
            },
            ..s
        }),
{
    lemma_command_names();
    let cutoff = (now_ms - window_secs * 1000) as i64;
    text::law_decimal_round_trip(now_ms);
    text::law_decimal_round_trip(cutoff);
    let words = window_words(article, held, earlier, member, now_ms as int, window_secs);
    let none = Seq::<Seq<Seq<char>>>::empty();
    if held {
        let one = none.push(words[0]);
        let two = one.push(words[1]);
        lemma_one_more_command(article, s, none, words[0]);
        lemma_one_more_command(article, s, one, words[1]);
        lemma_one_more_command(article, s, two, words[2]);
        assert(words =~= two.push(words[2]));
        let full = s.window.insert(member, now_ms);
        assert(after_commands(article, s, two).window =~= full);
    } else if let Some((at_ms, id)) = earlier {
        text::law_decimal_round_trip(at_ms);
        let one = none.push(words[0]);
        let two = one.push(words[1]);
        let three = two.push(words[2]);
        lemma_one_more_command(article, s, none, words[0]);
        lemma_one_more_command(article, s, one, words[1]);
        lemma_one_more_command(article, s, two, words[2]);
        lemma_one_more_command(article, s, three, words[3]);
        assert(words =~= three.push(words[3]));
        let full = s.window.insert(id, at_ms).insert(member, now_ms);
        assert(after_commands(article, s, three).window =~= full);
    } else {
        assert(words =~= none);
    }
}

/// Every event has the moment of one of its edits, and every edit's event has one.
proof fn lemma_moments(edits: Seq<EditView>)
    ensures
        forall|m: Seq<char>| #[trigger]
            moments(edits).dom().contains(m) ==> exists|i: int|
                0 <= i < edits.len() && (#[trigger] edits[i]).member == m && edits[i].at_ms
                    == moments(edits)[m],
        forall|i: int|
            0 <= i < edits.len() ==> moments(edits).dom().contains((#[trigger] edits[i]).member),
    decreases edits.len(),
{
    if edits.len() > 0 {
        let front = edits.drop_last();
        lemma_moments(front);
        assert forall|m: Seq<char>| #[trigger] moments(edits).dom().contains(m) implies exists|
            i: int,
        |
            0 <= i < edits.len() && (#[trigger] edits[i]).member == m && edits[i].at_ms == moments(
                edits,
            )[m] by {
            if m == edits.last().member {
                assert(edits[edits.len() - 1].member == m);
            } else {
                assert(moments(front).dom().contains(m));
                let i = choose|i: int|
                    0 <= i < front.len() && (#[trigger] front[i]).member == m && front[i].at_ms
                        == moments(front)[m];
                assert(edits[i] == front[i]);
            }
        }
        assert forall|i: int| 0 <= i < edits.len() implies moments(edits).dom().contains(
            (#[trigger] edits[i]).member,
        ) by {
            if i < front.len() {
                assert(front[i] == edits[i]);
            }
        }
    }
}

/// An article has a window exactly where it has two or more edits in it, and then the window
/// holds every one of them: for any run of edits within one window of each other, in any
/// order and delivered any number of times, there is no window key as long as they are all
/// the same event, and from the second event on the window holds each event at its moment,
/// and nothing else.
pub proof fn law_windows_hold_two_or_more_edits(
    article: Seq<char>,
    edits: Seq<EditView>,
    window_secs: int,
)
    requires
        within_one_window(edits, window_secs),
    ensures
        after_edits(article, edits, window_secs).window == if at_most_one_event(edits) {
            Map::<Seq<char>, i64>::empty()
        } else {
            moments(edits)
        },
{
    lemma_run(article, edits, window_secs);
}

/// The window law, with what is remembered while there is one event.
proof fn lemma_run(article: Seq<char>, edits: Seq<EditView>, window_secs: int)
    requires
        within_one_window(edits, window_secs),
    ensures
        after_edits(article, edits, window_secs).window == if at_most_one_event(edits) {
            Map::<Seq<char>, i64>::empty()
        } else {
            moments(edits)
        },
        edits.len() > 0 && at_most_one_event(edits) ==> after_edits(
            article,
            edits,
            window_secs,
        ).latest == Some(remembered(edits.last().at_ms as int, edits.last().member)),
    decreases edits.len(),
{
    if edits.len() > 0 {
        let front = edits.drop_last();
        let e = edits.last();
        let n = edits.len() - 1;
        let cutoff = e.at_ms - window_secs * 1000;
        assert forall|i: int| 0 <= i < front.len() implies #[trigger] front[i] == edits[i] by {}
        assert(edits[n] == e);
        assert(edits[n].at_ms > edits[n].at_ms - window_secs * 1000);
        lemma_run(article, front, window_secs);
        lemma_moments(front);
        let s = after_edits(article, front, window_secs);
        assert forall|m: Seq<char>| #[trigger] s.window.dom().contains(m) implies s.window[m]
            > cutoff by {
            let i = choose|i: int|
                0 <= i < front.len() && (#[trigger] front[i]).member == m && front[i].at_ms
                    == moments(front)[m];
            assert(edits[i].at_ms > edits[n].at_ms - window_secs * 1000);
        }
        let held = holds(s, cutoff);
        let earlier = earlier_edit(s.latest, e.member, cutoff);
        if !at_most_one_event(front) {
            assert(s.window.dom().contains(front[0].member));
            assert(held);
            let (i, j) = choose|i: int, j: int|
                0 <= i < front.len() && 0 <= j < front.len() && (#[trigger] front[i]).member != (
                #[trigger] front[j]).member;
            assert(edits[i].member != edits[j].member);
        } else {
            assert(!held);
            if front.len() > 0 {
                let before = front.last();
                assert(edits[n - 1] == before);
                law_remembered_edits_read_back(before.at_ms, before.member);
                assert(edits[n - 1].at_ms > edits[n].at_ms - window_secs * 1000);
                assert forall|i: int| 0 <= i < front.len() implies (#[trigger] front[i]).member
                    == before.member by {
                    assert(front[i].member == front[front.len() - 1].member);
                }
                lemma_same_event(front, before.member, before.at_ms);
                if before.member == e.member {
                    assert(earlier is None);
                    assert(at_most_one_event(edits)) by {
                        assert forall|i: int, j: int|
                            0 <= i < edits.len() && 0 <= j < edits.len() implies (
                        #[trigger] edits[i]).member == (#[trigger] edits[j]).member by {
                            assert(i < n ==> front[i].member == before.member);
                            assert(j < n ==> front[j].member == before.member);
                        }
                    }
                } else {
                    assert(earlier == Some((before.at_ms, before.member)));
                    assert(edits[n - 1].member != edits[n].member);
                    assert(!at_most_one_event(edits));
                }
            } else {
                assert(earlier is None);
            }
        }
        let opened = window_words(article, held, earlier, e.member, e.at_ms as int, window_secs);
        let latest = later_edit(earlier, e.at_ms as int, e.member);
        let edit = edit_words(article, e.user, latest, e.at_ms as int, window_secs);
        lemma_window_words(article, s, held, earlier, e.member, e.at_ms, window_secs);
        let s1 = after_commands(article, s, opened);
        lemma_edit_words(article, s1, e.user, latest, e.at_ms as int, window_secs);
        lemma_commands_concat(article, s, opened, edit);
        let s2 = after_commands(article, s, opened + edit);
        lemma_comment_words(article, s2, e.comment, window_secs);
        let rest = if e.comment.len() == 0 {
            Seq::<Seq<Seq<char>>>::empty()
        } else {
            comment_words(article, e.comment, window_secs)
        };
        lemma_commands_concat(article, s, opened + edit, rest);
        assert(after_edits(article, edits, window_secs) == s2);
        assert(s2.window == s1.window);
    }
}

/// Of edits that are all the same event, the last moment is the event's.
proof fn lemma_same_event(edits: Seq<EditView>, member: Seq<char>, at_ms: i64)
    requires
        edits.len() > 0,
        forall|i: int| 0 <= i < edits.len() ==> (#[trigger] edits[i]).member == member,
        edits.last().at_ms == at_ms,
    ensures
        moments(edits) == Map::<Seq<char>, i64>::empty().insert(member, at_ms),
    decreases edits.len(),
{
    let front = edits.drop_last();
    assert(edits[edits.len() - 1].member == member);
    if front.len() > 0 {
        assert forall|i: int| 0 <= i < front.len() implies (#[trigger] front[i]).member
            == member by {
            assert(front[i] == edits[i]);
        }
        lemma_same_event(front, member, front.last().at_ms);
    } else {
        assert(moments(front) == Map::<Seq<char>, i64>::empty());
    }
    assert(moments(edits) =~= Map::<Seq<char>, i64>::empty().insert(member, at_ms));
}

/// The global baseline takes in each minute at most once: once a minute is stored beside
/// it, it is not due again in that minute or before.
pub proof fn law_baseline_takes_each_minute_once(now_ms: int, again_ms: int, rate_seen: bool)
    requires
        keys::quotient(again_ms, keys::MINUTE_MS as int) <= keys::quotient(
            now_ms,
            keys::MINUTE_MS as int,
        ),
        i64::MIN <= full_minute(now_ms) <= i64::MAX,
    ensures
        !(rate_seen && full_minute(again_ms) > baseline_minute(
            Some(full_minute(now_ms) as i64),
        )),
{
}

/// An article's average takes in each minute at most once: once the sampled minute is
/// stored, none is due in that minute or before.
pub proof fn law_average_takes_each_minute_once(
    now_ms: int,
    again_ms: int,
    rate_window_secs: int,
)
    requires
        keys::quotient(again_ms, keys::MINUTE_MS as int) <= keys::quotient(
            now_ms,
            keys::MINUTE_MS as int,
        ),
        i64::MIN <= sampled_minute(now_ms, rate_window_secs) <= i64::MAX,
    ensures
        !ewma_due(
            again_ms,
            rate_window_secs,
            Some(sampled_minute(now_ms, rate_window_secs) as i64),
        ),
{
}

/// The sample is lagged past the rate window, as far as that is whole minutes long: every
/// millisecond of the sampled minute comes before the window that the burst is measured over.
pub proof fn law_sample_precedes_the_rate_window(now_ms: int, rate_window_secs: int)
    requires
        0 <= now_ms,
        0 <= rate_window_secs,
    ensures
        (sampled_minute(now_ms, rate_window_secs) + 1) * 60_000 - 1 < now_ms - (rate_window_secs
            - rate_window_secs % 60) * 1000,
{
    keys::law_bucket_holds_its_timestamp(now_ms, keys::MINUTE_MS as int);
    assert(rate_window_secs == 60 * (rate_window_secs / 60) + rate_window_secs % 60);
}

/// The sample is no older than it must be: less than a whole minute lies between the sampled
/// minute and the rate window, as far as that is whole minutes long.
pub proof fn law_the_sample_is_no_older_than_it_must_be(now_ms: int, rate_window_secs: int)
    requires
        0 <= now_ms,
        0 <= rate_window_secs,
    ensures
        (sampled_minute(now_ms, rate_window_secs) + 1) * 60_000 > now_ms - (rate_window_secs
            - rate_window_secs % 60) * 1000 - 60_000,
{
    keys::law_bucket_holds_its_timestamp(now_ms, keys::MINUTE_MS as int);
    assert(rate_window_secs == 60 * (rate_window_secs / 60) + rate_window_secs % 60);
}

/// The global count is that of the minute before the current one: from the epoch on, it ended
/// at or before now, and less than a minute ago; before the epoch, where minutes are counted
/// back, it is the one that holds the moment or begins at it.
pub proof fn law_the_last_full_minute_just_ended(now_ms: int)
    ensures
        0 <= now_ms ==> (full_minute(now_ms) + 1) * 60_000 <= now_ms < (full_minute(now_ms) + 2)
            * 60_000,
        now_ms < 0 ==> full_minute(now_ms) * 60_000 < now_ms <= (full_minute(now_ms) + 1) * 60_000,
{
    if 0 <= now_ms {
        keys::law_bucket_holds_its_timestamp(now_ms, keys::MINUTE_MS as int);
    } else {
        keys::law_bucket_holds_its_timestamp(-now_ms, keys::MINUTE_MS as int);
    }
}

/// Every later minute is taken in again: once a minute is stored beside an average, the
/// average is due as soon as the next minute begins, and one without a minute is due at once.
pub proof fn law_averages_are_due_from_the_next_minute_on(
    now_ms: int,
    later_ms: int,
    rate_window_secs: int,
)
    requires
        keys::quotient(later_ms, keys::MINUTE_MS as int) > keys::quotient(
            now_ms,
            keys::MINUTE_MS as int,
        ),
        i64::MIN <= sampled_minute(now_ms, rate_window_secs) <= i64::MAX,
        i64::MIN <= full_minute(now_ms) <= i64::MAX,
    ensures
        ewma_due(
            later_ms,
            rate_window_secs,
            Some(sampled_minute(now_ms, rate_window_secs) as i64),
        ),
        ewma_due(later_ms, rate_window_secs, None),
        full_minute(later_ms) > baseline_minute(Some(full_minute(now_ms) as i64)),
{
}

/// What is remembered is an edit exactly where it is a moment in decimal, a colon, and the
/// event id, which may hold anything.
pub proof fn law_remembered_edits_are_parted_by_the_first_colon(
    stored: Seq<char>,
    at_ms: i64,
    member: Seq<char>,
)
    ensures
        remembered_parts(stored) == Some((at_ms, member)) <==> exists|at: Seq<char>|
            stored == #[trigger] (at.push(':') + member) && !at.contains(':') && text::i64_value(at)
                == Some(at_ms),
{
    text::law_the_first_separator_parts(stored, ':');
    if remembered_parts(stored) == Some((at_ms, member)) {
        let (at, _) = text::split_once_text(stored, ':')->0;
        assert(stored == at.push(':') + member);
    }
    if exists|at: Seq<char>|
        stored == #[trigger] (at.push(':') + member) && !at.contains(':') && text::i64_value(at)
            == Some(at_ms) {
        let at = choose|at: Seq<char>|
            stored == #[trigger] (at.push(':') + member) && !at.contains(':') && text::i64_value(at)
                == Some(at_ms);
        text::lemma_split_first(at, ':', member);
    }
}

/// A remembered edit counts as an earlier one of the window exactly where it lies after the
/// cutoff and is another event; nothing remembered is no earlier edit.
pub proof fn law_other_recent_edits_are_earlier_ones(
    at_ms: i64,
    id: Seq<char>,
    member: Seq<char>,
    cutoff_ms: int,
)
    ensures
        at_ms > cutoff_ms && id != member ==> earlier_edit(
            Some(remembered(at_ms as int, id)),
            member,
            cutoff_ms,
        ) == Some((at_ms, id)),
        at_ms <= cutoff_ms || id == member ==> earlier_edit(
            Some(remembered(at_ms as int, id)),
            member,
            cutoff_ms,
        ) is None,
        earlier_edit(None, member, cutoff_ms) is None,
        forall|stored: Seq<char>| #[trigger]
            earlier_edit(Some(stored), member, cutoff_ms) == Some((at_ms, id)) <==> remembered_parts(
                stored,
            ) == Some((at_ms, id)) && at_ms > cutoff_ms && id != member,
{
    law_remembered_edits_read_back(at_ms, id);
}

/// What is remembered next is the later of the two edits, and this one where they are as late
/// as each other or there is no other.
pub proof fn law_the_later_edit_is_remembered(
    at_ms: i64,
    id: Seq<char>,
    now_ms: int,
    member: Seq<char>,
)
    ensures
        later_edit(None, now_ms, member) == (now_ms, member),
        at_ms <= now_ms ==> later_edit(Some((at_ms, id)), now_ms, member) == (now_ms, member),
        at_ms > now_ms ==> later_edit(Some((at_ms, id)), now_ms, member) == (at_ms as int, id),
{
}

/// The commands of a pipeline that have this name, in order.
pub open spec fn named(commands: Seq<Seq<Seq<char>>>, name: Seq<char>) -> Seq<Seq<Seq<char>>> {
    commands.filter(|c: Seq<Seq<char>>| c.len() > 0 && c[0] == name)
}

/// Of two pipelines in a row, those with a name are those of the first and then of the second.
proof fn lemma_named_concat(a: Seq<Seq<Seq<char>>>, b: Seq<Seq<Seq<char>>>, name: Seq<char>)
    ensures
        named(a + b, name) == named(a, name) + named(b, name),
{
    Seq::filter_distributes_over_add(a, b, |c: Seq<Seq<char>>| c.len() > 0 && c[0] == name);
}

/// A pipeline without a command of this name has none.
proof fn lemma_none_named(commands: Seq<Seq<Seq<char>>>, name: Seq<char>)
    requires
        forall|i: int|
            0 <= i < commands.len() ==> (#[trigger] commands[i]).len() > 0 && commands[i][0] != name,
    ensures
        named(commands, name) == Seq::<Seq<Seq<char>>>::empty(),
    decreases commands.len(),
{
    reveal(Seq::filter);
    if commands.len() > 0 {
        let front = commands.drop_last();
        assert forall|i: int| 0 <= i < front.len() implies (#[trigger] front[i]).len() > 0
            && front[i][0] != name by {
            assert(front[i] == commands[i]);
        }
        lemma_none_named(front, name);
        assert(commands[commands.len() - 1][0] != name);
    }
    assert(named(commands, name) =~= Seq::<Seq<Seq<char>>>::empty());
}

/// The commands that an edit is written with have different names.
proof fn lemma_more_command_names()
    ensures
        "HINCRBY"@ != "ZADD"@,
        "HINCRBY"@ != "ZREMRANGEBYSCORE"@,
        "HINCRBY"@ != "EXPIRE"@,
        "HINCRBY"@ != "SET"@,
        "HINCRBY"@ != "LPUSH"@,
        "HINCRBY"@ != "LTRIM"@,
        "LPUSH"@ != "ZADD"@,
        "LPUSH"@ != "ZREMRANGEBYSCORE"@,
        "LPUSH"@ != "EXPIRE"@,
        "LPUSH"@ != "SET"@,
        "LPUSH"@ != "LTRIM"@,
{
    reveal_strlit("ZADD");
    reveal_strlit("ZREMRANGEBYSCORE");
    reveal_strlit("LTRIM");
    reveal_strlit("HINCRBY");
    reveal_strlit("SET");
    reveal_strlit("EXPIRE");
    reveal_strlit("LPUSH");
    assert("ZADD"@.len() == 4);
    assert("ZREMRANGEBYSCORE"@.len() == 16);
    assert("LTRIM"@.len() == 5);
    assert("HINCRBY"@.len() == 7);
    assert("SET"@.len() == 3);
    assert("EXPIRE"@.len() == 6);
    assert("LPUSH"@.len() == 5);
    assert("LPUSH"@[1] == 'P');
    assert("LTRIM"@[1] == 'T');
}

/// Every edit counts once for its editor, in the ten minutes that it falls into; and its
/// comment, where it has one, is kept once.
pub proof fn law_an_edit_counts_once(
    article: Seq<char>,
    user: Seq<char>,
    member: Seq<char>,
    comment: Seq<char>,
    held: bool,
    stored: Option<Seq<char>>,
    now_ms: int,
    window_secs: int,
)
    ensures
        ({
            let commands = record_words(
                article,
                user,
                member,
                comment,
                held,
                stored,
                now_ms,
                window_secs,
            );
            &&& named(commands, "HINCRBY"@) == seq![
                seq![
                    "HINCRBY"@,
                    "pulse:eds:"@ + article + ":"@ + text::decimal(keys::quotient(now_ms, 600_000)),
                    user,
                    text::decimal(1),
                ],
            ]
            &&& comment.len() > 0 ==> named(commands, "LPUSH"@) == seq![
                seq!["LPUSH"@, "pulse:cmts:"@ + article, comment],
            ]
            &&& comment.len() == 0 ==> named(commands, "LPUSH"@) == Seq::<Seq<Seq<char>>>::empty()
        }),
{
    let tally = "HINCRBY"@;
    let keep = "LPUSH"@;
    let earlier = earlier_edit(stored, member, now_ms - window_secs * 1000);
    let latest = later_edit(earlier, now_ms, member);
    let opened = window_words(article, held, earlier, member, now_ms, window_secs);
    let edit = edit_words(article, user, latest, now_ms, window_secs);
    let rest = if comment.len() == 0 {
        Seq::<Seq<Seq<char>>>::empty()
    } else {
        comment_words(article, comment, window_secs)
    };
    lemma_named_concat(opened, edit, tally);
    lemma_named_concat(opened + edit, rest, tally);
    lemma_named_concat(opened, edit, keep);
    lemma_named_concat(opened + edit, rest, keep);
    lemma_window_counts_nothing(article, held, earlier, member, now_ms, window_secs);
    lemma_edit_counts_its_editor(article, user, latest, now_ms, window_secs);
    lemma_comment_is_kept(article, comment, window_secs);
    lemma_none_named(Seq::<Seq<Seq<char>>>::empty(), tally);
    lemma_none_named(Seq::<Seq<Seq<char>>>::empty(), keep);
    let none = Seq::<Seq<Seq<char>>>::empty();
    assert(none + named(edit, tally) + none =~= named(edit, tally));
    assert(none + none + named(rest, keep) =~= named(rest, keep));
}

/// What is written to the window counts for no editor and keeps no comment.
proof fn lemma_window_counts_nothing(
    article: Seq<char>,
    held: bool,
    earlier: Option<(i64, Seq<char>)>,
    member: Seq<char>,
    now_ms: int,
    window_secs: int,
)
    ensures
        named(
            window_words(article, held, earlier, member, now_ms, window_secs),
            "HINCRBY"@,
        ) == Seq::<Seq<Seq<char>>>::empty(),
        named(
            window_words(article, held, earlier, member, now_ms, window_secs),
            "LPUSH"@,
        ) == Seq::<Seq<Seq<char>>>::empty(),
{
    lemma_more_command_names();
    let words = window_words(article, held, earlier, member, now_ms, window_secs);
    assert forall|i: int| 0 <= i < words.len() implies (#[trigger] words[i]).len() > 0
        && words[i][0] != "HINCRBY"@ && words[i][0] != "LPUSH"@ by {
        assert(words[i][0] == "ZADD"@ || words[i][0] == "ZREMRANGEBYSCORE"@ || words[i][0]
            == "EXPIRE"@);
    }
    lemma_none_named(words, "HINCRBY"@);
    lemma_none_named(words, "LPUSH"@);
}

/// What is written for every edit counts once for its editor and keeps no comment.
proof fn lemma_edit_counts_its_editor(
    article: Seq<char>,
    user: Seq<char>,
    latest: (int, Seq<char>),
    now_ms: int,
    window_secs: int,
)
    ensures
        named(edit_words(article, user, latest, now_ms, window_secs), "HINCRBY"@) == seq![
            seq![
                "HINCRBY"@,
                keys::editors_key(article, keys::quotient(now_ms, keys::TEN_MINUTES_MS as int)),
                user,
                text::decimal(1),
            ],
        ],
        named(edit_words(article, user, latest, now_ms, window_secs), "LPUSH"@) == Seq::<
            Seq<Seq<char>>,
        >::empty(),
{
    lemma_more_command_names();
    let words = edit_words(article, user, latest, now_ms, window_secs);
    let tally = "HINCRBY"@;
    assert(words[0][0] == "SET"@ && words[1][0] == "EXPIRE"@ && words[2][0] == tally && words[3][0]
        == "EXPIRE"@);
    lemma_none_named(words, "LPUSH"@);
    lemma_third_named(words, tally);
    assert(words[2] == seq![
        tally,
        keys::editors_key(article, keys::quotient(now_ms, keys::TEN_MINUTES_MS as int)),
        user,
        text::decimal(1),
    ]);
}

/// The third of four commands is the only one with its name.
proof fn lemma_third_named(words: Seq<Seq<Seq<char>>>, name: Seq<char>)
    requires
        words.len() == 4,
        forall|i: int| 0 <= i < 4 ==> (#[trigger] words[i]).len() > 0,
        words[0][0] != name,
        words[1][0] != name,
        words[2][0] == name,
        words[3][0] != name,
    ensures
        named(words, name) == seq![words[2]],
{
    let head = words.take(2);
    let one = seq![words[2]];
    let tail = words.skip(3);
    assert(words =~= head + one + tail);
    assert forall|i: int| 0 <= i < head.len() implies (#[trigger] head[i]).len() > 0 && head[i][0]
        != name by {
        assert(head[i] == words[i]);
    }
    assert forall|i: int| 0 <= i < tail.len() implies (#[trigger] tail[i]).len() > 0 && tail[i][0]
        != name by {
        assert(tail[i] == words[i + 3]);
    }
    lemma_named_concat(head, one, name);
    lemma_named_concat(head + one, tail, name);
    lemma_none_named(head, name);
    lemma_none_named(tail, name);
    lemma_one_named(words[2], name);
    let none = Seq::<Seq<Seq<char>>>::empty();
    assert(none + one + none =~= one);
}

/// What is written for a comment keeps it once and counts for no editor.
proof fn lemma_comment_is_kept(article: Seq<char>, comment: Seq<char>, window_secs: int)
    ensures
        named(comment_words(article, comment, window_secs), "LPUSH"@) == seq![
            seq!["LPUSH"@, comments_key_text(article), comment],
        ],
        named(comment_words(article, comment, window_secs), "HINCRBY"@) == Seq::<
            Seq<Seq<char>>,
        >::empty(),
{
    lemma_more_command_names();
    let words = comment_words(article, comment, window_secs);
    let keep = "LPUSH"@;
    assert(words[0][0] == keep && words[1][0] == "LTRIM"@ && words[2][0] == "EXPIRE"@);
    lemma_none_named(words, "HINCRBY"@);
    let one = seq![words[0]];
    let tail = words.skip(1);
    assert(words =~= one + tail);
    lemma_named_concat(one, tail, keep);
    lemma_none_named(tail, keep);
    lemma_one_named(words[0], keep);
    assert(one + Seq::<Seq<Seq<char>>>::empty() =~= one);
}

/// One command with this name is the one that has it.
proof fn lemma_one_named(words: Seq<Seq<char>>, name: Seq<char>)
    requires
        words.len() > 0,
        words[0] == name,
    ensures
        named(seq![words], name) == seq![words],
{
    reveal(Seq::filter);
    let f = |c: Seq<Seq<char>>| c.len() > 0 && c[0] == name;
    let one = seq![words];
    assert(one.drop_last() =~= Seq::<Seq<Seq<char>>>::empty());
    assert(one.drop_last().filter(f) =~= Seq::<Seq<Seq<char>>>::empty());
    assert(one.filter(f) =~= one);
}

/// Memory discipline: whatever key an edit is written to, the same pipeline lets it expire, an
/// editor tally after half an hour and anything else after the length of the window.
pub proof fn law_whatever_is_written_expires(
    article: Seq<char>,
    user: Seq<char>,
    member: Seq<char>,
    comment: Seq<char>,
    held: bool,
    stored: Option<Seq<char>>,
    now_ms: int,
    window_secs: int,
    i: int,
)
    requires
        0 <= i < record_words(
            article,
            user,
            member,
            comment,
            held,
            stored,
            now_ms,
            window_secs,
        ).len(),
    ensures
        ({
            let commands = record_words(
                article,
                user,
                member,
                comment,
                held,
                stored,
                now_ms,
                window_secs,
            );
            &&& commands[i].len() > 1
            &&& exists|j: int|
                i <= j < commands.len() && (#[trigger] commands[j]).len() == 3 && commands[j][0]
                    == "EXPIRE"@ && commands[j][1] == commands[i][1] && commands[j][2]
                    == text::decimal(
                    if commands[i][1] == "pulse:eds:"@ + article + ":"@ + text::decimal(
                        keys::quotient(now_ms, 600_000),
                    ) {
                        1800int
                    } else {
                        window_secs
                    },
                )
        }),
{
    let slot = keys::quotient(now_ms, 600_000);
    lemma_keys_differ(article, slot);
    let earlier = earlier_edit(stored, member, now_ms - window_secs * 1000);
    let latest = later_edit(earlier, now_ms, member);
    let opened = window_words(article, held, earlier, member, now_ms, window_secs);
    let edit = edit_words(article, user, latest, now_ms, window_secs);
    let commands = record_words(article, user, member, comment, held, stored, now_ms, window_secs);
    let n = opened.len() as int;
    if i < n {
        assert(commands[i] == opened[i]);
        assert(commands[n - 1] == opened[n - 1]);
    } else if i < n + 4 {
        assert(commands[i] == edit[i - n]);
        assert(commands[n + 1] == edit[1]);
        assert(commands[n + 3] == edit[3]);
    } else {
        let rest = comment_words(article, comment, window_secs);
        assert(commands[i] == rest[i - n - 4]);
        assert(commands[n + 6] == rest[2]);
    }
}

/// What is written to the window, whatever it held: the edit enters, with the earlier one where
/// the window was not held open, and what lies at or before the cutoff leaves.
proof fn lemma_window_is_trimmed(
    article: Seq<char>,
    s: WindowStore,
    held: bool,
    earlier: Option<(i64, Seq<char>)>,
    member: Seq<char>,
    now_ms: i64,
    window_secs: int,
)
    requires
        cutoff_fits(now_ms as int, window_secs),
        held || earlier is Some,
    ensures
        ({
            let after = after_commands(
                article,
                s,
                window_words(article, held, earlier, member, now_ms as int, window_secs),
            );
            let cutoff = now_ms - window_secs * 1000;
            let full = if held {
                s.window.insert(member, now_ms)
            } else {
                match earlier {
                    None => s.window,
                    Some((at_ms, id)) => s.window.insert(id, at_ms).insert(member, now_ms),
                }
            };
            &&& after.latest == s.latest
            &&& after.window == Map::new(
                |m: Seq<char>| full.dom().contains(m) && full[m] > cutoff,
                |m: Seq<char>| full[m],
            )
        }),
{
    lemma_command_names();
    let cutoff = (now_ms - window_secs * 1000) as i64;
    text::law_decimal_round_trip(now_ms);
    text::law_decimal_round_trip(cutoff);
    let words = window_words(article, held, earlier, member, now_ms as int, window_secs);
    let none = Seq::<Seq<Seq<char>>>::empty();
    if held {
        let one = none.push(words[0]);
        let two = one.push(words[1]);
        lemma_one_more_command(article, s, none, words[0]);
        lemma_one_more_command(article, s, one, words[1]);
        lemma_one_more_command(article, s, two, words[2]);
        assert(words =~= two.push(words[2]));
        let full = s.window.insert(member, now_ms);
        assert(after_commands(article, s, one).window =~= full);
        assert(after_commands(article, s, two).window =~= Map::new(
            |m: Seq<char>| full.dom().contains(m) && full[m] > cutoff,
            |m: Seq<char>| full[m],
        ));
    } else if let Some((at_ms, id)) = earlier {
        text::law_decimal_round_trip(at_ms);
        let one = none.push(words[0]);
        let two = one.push(words[1]);
        let three = two.push(words[2]);
        lemma_one_more_command(article, s, none, words[0]);
        lemma_one_more_command(article, s, one, words[1]);
        lemma_one_more_command(article, s, two, words[2]);
        lemma_one_more_command(article, s, three, words[3]);
        assert(words =~= three.push(words[3]));
        let full = s.window.insert(id, at_ms).insert(member, now_ms);
        assert(after_commands(article, s, two).window =~= full);
        assert(after_commands(article, s, three).window =~= Map::new(
            |m: Seq<char>| full.dom().contains(m) && full[m] > cutoff,
            |m: Seq<char>| full[m],
        ));
    }
}

/// A window keeps its length: whatever it held, once an edit is recorded in it, it holds that
/// edit at its moment, every other event of the last `window_secs` seconds at its own, and
/// nothing older.
pub proof fn law_a_recorded_edit_trims_the_window(
    article: Seq<char>,
    s: WindowStore,
    user: Seq<char>,
    member: Seq<char>,
    comment: Seq<char>,
    stored: Option<Seq<char>>,
    now_ms: i64,
    window_secs: int,
)
    requires
        cutoff_fits(now_ms as int, window_secs),
        window_secs > 0,
    ensures
        ({
            let after = after_commands(
                article,
                s,
                record_words(
                    article,
                    user,
                    member,
                    comment,
                    true,
                    stored,
                    now_ms as int,
                    window_secs,
                ),
            ).window;
            &&& after.dom().contains(member) && after[member] == now_ms
            &&& forall|m: Seq<char>|
                m != member ==> (#[trigger] after.dom().contains(m) <==> s.window.dom().contains(m)
                    && s.window[m] > now_ms - window_secs * 1000)
            &&& forall|m: Seq<char>|
                m != member && #[trigger] after.dom().contains(m) ==> after[m] == s.window[m]
        }),
{
    let earlier = earlier_edit(stored, member, now_ms - window_secs * 1000);
    lemma_recorded(article, s, user, member, comment, true, stored, now_ms, window_secs);
    lemma_window_is_trimmed(article, s, true, earlier, member, now_ms, window_secs);
}

/// Where an edit opens its article's window, both edits are in it at their moments, and of what
/// was there before only what lies within the window.
pub proof fn law_an_opened_window_holds_both_edits(
    article: Seq<char>,
    s: WindowStore,
    user: Seq<char>,
    member: Seq<char>,
    comment: Seq<char>,
    at_ms: i64,
    id: Seq<char>,
    now_ms: i64,
    window_secs: int,
)
    requires
        cutoff_fits(now_ms as int, window_secs),
        window_secs > 0,
        id != member,
        at_ms > now_ms - window_secs * 1000,
    ensures
        ({
            let after = after_commands(
                article,
                s,
                record_words(
                    article,
                    user,
                    member,
                    comment,
                    false,
                    Some(remembered(at_ms as int, id)),
                    now_ms as int,
                    window_secs,
                ),
            ).window;
            &&& after.dom().contains(member) && after[member] == now_ms
            &&& after.dom().contains(id) && after[id] == at_ms
            &&& forall|m: Seq<char>|
                m != member && m != id ==> (#[trigger] after.dom().contains(m)
                    <==> s.window.dom().contains(m) && s.window[m] > now_ms - window_secs * 1000)
        }),
{
    let stored = Some(remembered(at_ms as int, id));
    let earlier = earlier_edit(stored, member, now_ms - window_secs * 1000);
    law_other_recent_edits_are_earlier_ones(at_ms, id, member, now_ms - window_secs * 1000);
    lemma_recorded(article, s, user, member, comment, false, stored, now_ms, window_secs);
    lemma_window_is_trimmed(article, s, false, earlier, member, now_ms, window_secs);
}

/// Of what is written for an edit, only what is written to the window changes it.
proof fn lemma_recorded(
    article: Seq<char>,
    s: WindowStore,
    user: Seq<char>,
    member: Seq<char>,
    comment: Seq<char>,
    held: bool,
    stored: Option<Seq<char>>,
    now_ms: i64,
    window_secs: int,
)
    ensures
        ({
            let earlier = earlier_edit(stored, member, now_ms - window_secs * 1000);
            after_commands(
                article,
                s,
                record_words(
                    article,
                    user,
                    member,
                    comment,
                    held,
                    stored,
                    now_ms as int,
                    window_secs,
                ),
            ).window == after_commands(
                article,
                s,
                window_words(article, held, earlier, member, now_ms as int, window_secs),
            ).window
        }),
{
    let earlier = earlier_edit(stored, member, now_ms - window_secs * 1000);
    let opened = window_words(article, held, earlier, member, now_ms as int, window_secs);
    let latest = later_edit(earlier, now_ms as int, member);
    let edit = edit_words(article, user, latest, now_ms as int, window_secs);
    let s1 = after_commands(article, s, opened);
    lemma_edit_words(article, s1, user, latest, now_ms as int, window_secs);
    lemma_commands_concat(article, s, opened, edit);
    let s2 = after_commands(article, s, opened + edit);
    lemma_comment_words(article, s2, comment, window_secs);
    let rest = if comment.len() == 0 {
        Seq::<Seq<Seq<char>>>::empty()
    } else {
        comment_words(article, comment, window_secs)
    };
    lemma_commands_concat(article, s, opened + edit, rest);
}

/// The sampled minute lies as many minutes before the last full one as the rate window has
/// whole minutes.
pub proof fn law_the_sample_lags_by_the_rate_window(now_ms: int, minutes: int, secs: int)
    requires
        0 <= secs < 60,
        0 <= minutes,
    ensures
        sampled_minute(now_ms, 60 * minutes + secs) == full_minute(now_ms) - minutes,
{
    assert((60 * minutes + secs) / 60 == minutes);
}

/// The last ten comments are kept: a comment that is written is followed by a cut to ten.
pub proof fn law_ten_comments_are_kept(
    article: Seq<char>,
    user: Seq<char>,
    member: Seq<char>,
    comment: Seq<char>,
    held: bool,
    stored: Option<Seq<char>>,
    now_ms: int,
    window_secs: int,
)
    requires
        comment.len() > 0,
    ensures
        ({
            let commands = record_words(
                article,
                user,
                member,
                comment,
                held,
                stored,
                now_ms,
                window_secs,
            );
            exists|j: int|
                0 <= j < commands.len() - 1 && (#[trigger] commands[j]) == seq![
                    "LPUSH"@,
                    "pulse:cmts:"@ + article,
                    comment,
                ] && commands[j + 1] == seq![
                    "LTRIM"@,
                    "pulse:cmts:"@ + article,
                    text::decimal(0),
                    text::decimal(9),
                ]
        }),
{
    let commands = record_words(article, user, member, comment, held, stored, now_ms, window_secs);
    let rest = comment_words(article, comment, window_secs);
    let j = commands.len() - 3;
    assert(commands[j] == rest[0]);
    assert(commands[j + 1] == rest[1]);
}

/// Every edit leaves the latest one remembered: the earlier edit where that came at a later
/// moment, and otherwise this one.
pub proof fn law_every_edit_leaves_the_latest_remembered(
    article: Seq<char>,
    s: WindowStore,
    user: Seq<char>,
    member: Seq<char>,
    comment: Seq<char>,
    held: bool,
    stored: Option<Seq<char>>,
    now_ms: int,
    window_secs: int,
)
    ensures
        ({
            let latest = after_commands(
                article,
                s,
                record_words(article, user, member, comment, held, stored, now_ms, window_secs),
            ).latest;
            match earlier_edit(stored, member, now_ms - window_secs * 1000) {
                Some((at_ms, id)) => latest == Some(
                    if at_ms > now_ms {
                        text::decimal(at_ms as int).push(':') + id
                    } else {
                        text::decimal(now_ms).push(':') + member
                    },
                ),
                None => latest == Some(text::decimal(now_ms).push(':') + member),
            }
        }),
{
    let earlier = earlier_edit(stored, member, now_ms - window_secs * 1000);
    let opened = window_words(article, held, earlier, member, now_ms, window_secs);
    let latest = later_edit(earlier, now_ms, member);
    let edit = edit_words(article, user, latest, now_ms, window_secs);
    let s1 = after_commands(article, s, opened);
    lemma_edit_words(article, s1, user, latest, now_ms, window_secs);
    lemma_commands_concat(article, s, opened, edit);
    let s2 = after_commands(article, s, opened + edit);
    lemma_comment_words(article, s2, comment, window_secs);
    let rest = if comment.len() == 0 {
        Seq::<Seq<Seq<char>>>::empty()
    } else {
        comment_words(article, comment, window_secs)
    };
    lemma_commands_concat(article, s, opened + edit, rest);
}

} // verus!
