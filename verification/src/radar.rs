//! Conflict radar.
//!
//! Two derived products from the same revert stream:
//!
//! * **Controversy index** `C_a = decayed(reverts) / decayed(edits)` with a ten-minute
//!   half-life, kept as exponentially decayed counters so that the "most fought-over pages
//!   right now" board reflects now, not all-time. The decay itself is floating point and is
//!   computed by the caller; what is stored, and when it was, is read and written here.
//! * **Edit-war cycles**: the last twenty revert edges per article, scanned for an A↔B (or
//!   A→B→C→A) cycle between two or three editors, with at least three edges in thirty minutes.

use vstd::prelude::*;
use crate::command::{expire, Command};
use crate::{command, stamp, text};

verus! {

/// Half-life of the decayed counters, in seconds.
pub const HALF_LIFE_SECS: i64 = 600;

/// Counters and edges live an hour past their last touch.
pub const TTL_SECS: i64 = 3_600;

/// How long an article stays flagged as being at war, in seconds.
pub const WAR_SECS: i64 = 1_800;

/// How many revert edges are kept per article.
pub const MAX_EDGES: i64 = 20;

/// A cycle counts edges of the last thirty minutes, in milliseconds.
pub const CYCLE_WINDOW_MS: i64 = 1_800_000;

/// How many edges a cycle needs.
pub const CYCLE_MIN_EDGES: usize = 3;

/// Leaderboard of the controversy index.
pub const CONTROVERSY_BOARD: &'static str = "pulse:controversy";

// ---------------------------------------------------------------------------
// Keys
// ---------------------------------------------------------------------------

/// The key of an article's decayed edit counter.
pub fn edits_key(a: &str) -> (r: String)
    ensures
        r@ == "pulse:ctrl:edits:"@ + a@,
{
    text::join2("pulse:ctrl:edits:", a)
}

/// The key of an article's decayed revert counter.
pub fn reverts_key(a: &str) -> (r: String)
    ensures
        r@ == "pulse:ctrl:reverts:"@ + a@,
{
    text::join2("pulse:ctrl:reverts:", a)
}

/// The key of an article's revert edges.
pub fn edges_key(a: &str) -> (r: String)
    ensures
        r@ == "pulse:edges:"@ + a@,
{
    text::join2("pulse:edges:", a)
}

/// The key of an article's war flag.
pub fn war_key(a: &str) -> (r: String)
    ensures
        r@ == "pulse:war:"@ + a@,
{
    text::join2("pulse:war:", a)
}

// ---------------------------------------------------------------------------
// Decayed counters
// ---------------------------------------------------------------------------

/// How many milliseconds a counter decays by; a stamp from the future does not decay.
pub fn elapsed_ms(now_ms: i64, then_ms: i64) -> (r: i64)
    requires
        i64::MIN <= now_ms - then_ms <= i64::MAX,
    ensures
        r == if now_ms >= then_ms {
            now_ms - then_ms
        } else {
            0
        },
{
    let d: i64 = now_ms - then_ms;
    if d > 0 {
        d
    } else {
        0
    }
}

/// Stores a counter with the moment it was taken at, so that decay is computed on touch
/// rather than by a sweep.
pub fn bump_decayed(key: &str, value: &str, now_ms: i64) -> (r: Vec<Command>)
    ensures
        command::pipeline(r@) == seq![
            seq!["SET"@, key@, stamp::stamped(value@, now_ms as int)],
            command::expire_words(key@, TTL_SECS as int),
        ],
        command::pipeline(r@)[1] == seq!["EXPIRE"@, key@, text::decimal(3600)],
{
    let stored: String = stamp::stamp(value, now_ms);
    let mut out: Vec<Command> = Vec::new();
    out.push(Command::new("SET").arg(key).arg(stored.as_str()));
    out.push(expire(key, TTL_SECS));
    assert(out@[0]@ =~= seq!["SET"@, key@, stamp::stamped(value@, now_ms as int)]);
    assert(command::pipeline(out@) =~= seq![
        seq!["SET"@, key@, stamp::stamped(value@, now_ms as int)],
        command::expire_words(key@, TTL_SECS as int),
    ]);
    out
}

/// Reads a counter without touching it.
pub fn read_decayed(key: &str) -> (r: Command)
    ensures
        r@ == seq!["GET"@, key@],
{
    let c: Command = Command::new("GET").arg(key);
    assert(c@ =~= seq!["GET"@, key@]);
    c
}

/// Refreshes an article's place on the board, which keeps its two hundred highest entries.
pub fn record_revert(article: &str, score: &str) -> (r: Vec<Command>)
    ensures
        command::pipeline(r@) == seq![
            seq!["ZADD"@, CONTROVERSY_BOARD@, score@, article@],
            seq!["ZREMRANGEBYRANK"@, CONTROVERSY_BOARD@, text::decimal(0), text::decimal(-201)],
        ],
{
    let mut out: Vec<Command> = Vec::new();
    out.push(Command::new("ZADD").arg(CONTROVERSY_BOARD).arg(score).arg(article));
    out.push(Command::new("ZREMRANGEBYRANK").arg(CONTROVERSY_BOARD).arg_i64(0).arg_i64(-201));
    assert(out@[0]@ =~= seq!["ZADD"@, CONTROVERSY_BOARD@, score@, article@]);
    assert(out@[1]@ =~= seq![
        "ZREMRANGEBYRANK"@,
        CONTROVERSY_BOARD@,
        text::decimal(0),
        text::decimal(-201),
    ]);
    assert(command::pipeline(out@) =~= seq![
        seq!["ZADD"@, CONTROVERSY_BOARD@, score@, article@],
        seq!["ZREMRANGEBYRANK"@, CONTROVERSY_BOARD@, text::decimal(0), text::decimal(-201)],
    ]);
    out
}

// ---------------------------------------------------------------------------
// Revert edges
// ---------------------------------------------------------------------------

/// One directed revert edge: `reverter` undid `reverted`.
#[derive(Debug, Clone, PartialEq, Eq)]
pub struct Edge {
    pub reverter: String,
    pub reverted: String,
    pub at_ms: i64,
}

/// What an edge says.
pub struct EdgeView {
    pub reverter: Seq<char>,
    pub reverted: Seq<char>,
    pub at_ms: i64,
}

impl View for Edge {
    type V = EdgeView;

    open spec fn view(&self) -> EdgeView {
        EdgeView { reverter: self.reverter@, reverted: self.reverted@, at_ms: self.at_ms }
    }
}

/// What the edges of a sequence say.
pub open spec fn edges_view(edges: Seq<Edge>) -> Seq<EdgeView> {
    Seq::new(edges.len(), |i: int| edges[i]@)
}

/// An edge as it is stored: its fields separated by tabs.
pub open spec fn packed(e: EdgeView) -> Seq<char> {
    e.reverter.push('\t') + (e.reverted.push('\t') + text::decimal(e.at_ms as int))
}

/// The edge that a stored text describes: two names and a decimal moment; anything after a
/// third tab is ignored.
pub open spec fn unpacked(s: Seq<char>) -> Option<EdgeView> {
    let parts = text::split_text(s, '\t');
    if parts.len() < 3 {
        None
    } else {
        match text::i64_value(parts[2]) {
            Some(at_ms) => Some(EdgeView { reverter: parts[0], reverted: parts[1], at_ms }),
            None => None,
        }
    }
}

/// The edges that the well-formed ones among some stored texts describe, in order.
pub open spec fn unpacked_all(raw: Seq<Seq<char>>) -> Seq<EdgeView>
    decreases raw.len(),
{
    if raw.len() == 0 {
        Seq::empty()
    } else {
        match unpacked(raw.last()) {
            Some(e) => unpacked_all(raw.drop_last()).push(e),
            None => unpacked_all(raw.drop_last()),
        }
    }
}

/// The stored form of an edge.
pub fn pack(edge: &Edge) -> (r: String)
    ensures
        r@ == packed(edge@),
        r@ == edge.reverter@ + "\t"@ + edge.reverted@ + "\t"@ + text::decimal(edge.at_ms as int),
{
    let at: String = text::format_i64(edge.at_ms);
    let head: String = text::join3(edge.reverter.as_str(), "\t", edge.reverted.as_str());
    let r: String = text::join3(head.as_str(), "\t", at.as_str());
    proof {
        reveal_strlit("\t");
        assert(r@ =~= packed(edge@));
    }
    r
}

/// Reads a stored edge.
pub fn unpack(s: &str) -> (r: Option<Edge>)
    ensures
        match r {
            Some(e) => unpacked(s@) == Some(e@),
            None => unpacked(s@) is None,
        },
{
    let parts: Vec<String> = text::split(s, '\t');
    let ghost view = text::split_text(s@, '\t');
    assert(view.len() == parts@.len());
    if parts.len() < 3 {
        return None;
    }
    assert(view[0] == parts@[0]@ && view[1] == parts@[1]@ && view[2] == parts@[2]@);
    match text::parse_i64(parts[2].as_str()) {
        Some(at_ms) => Some(
            Edge { reverter: parts[0].clone(), reverted: parts[1].clone(), at_ms },
        ),
        None => None,
    }
}

/// Reads stored edges, skipping malformed ones.
pub fn unpack_all(raw: &Vec<String>) -> (r: Vec<Edge>)
    ensures
        edges_view(r@) == unpacked_all(text::texts(raw@)),
{
    let ghost view = text::texts(raw@);
    let mut out: Vec<Edge> = Vec::new();
    let mut i: usize = 0;
    assert(view.take(0) =~= Seq::<Seq<char>>::empty());
    assert(edges_view(out@) =~= Seq::<EdgeView>::empty());
    while i < raw.len()
        invariant
            i <= raw@.len(),
            view == text::texts(raw@),
            edges_view(out@) == unpacked_all(view.take(i as int)),
        decreases raw@.len() - i,
    {
        let ghost before = out@;
        assert(view.take(i + 1).drop_last() =~= view.take(i as int));
        assert(view.take(i + 1).last() == raw@[i as int]@);
        if let Some(edge) = unpack(raw[i].as_str()) {
            out.push(edge);
            assert(edges_view(out@) =~= edges_view(before).push(edge@));
        }
        i = i + 1;
    }
    assert(view.take(i as int) =~= view);
    out
}

/// A stored edge is read back as it was written, as long as neither name holds a tab.
pub proof fn law_edges_round_trip(e: EdgeView)
    requires
        !e.reverter.contains('\t'),
        !e.reverted.contains('\t'),
    ensures
        unpacked(packed(e)) == Some(e),
{
    let at = text::decimal(e.at_ms as int);
    text::lemma_split_first(e.reverter, '\t', e.reverted.push('\t') + at);
    text::lemma_split_first(e.reverted, '\t', at);
    text::lemma_decimal_chars(e.at_ms as int, '\t');
    text::lemma_split_whole(at, '\t');
    text::law_decimal_round_trip(e.at_ms);
    let parts = text::split_text(packed(e), '\t');
    assert(parts =~= seq![e.reverter, e.reverted, at]);
}

/// Appends an edge to an article's list, which keeps the last twenty.
pub fn record_edge(article: &str, edge: &Edge) -> (r: Vec<Command>)
    ensures
        command::pipeline(r@) == seq![
            seq!["LPUSH"@, "pulse:edges:"@ + article@, packed(edge@)],
            seq!["LTRIM"@, "pulse:edges:"@ + article@, text::decimal(0), text::decimal(19)],
            command::expire_words("pulse:edges:"@ + article@, TTL_SECS as int),
        ],
        command::pipeline(r@)[2] == seq![
            "EXPIRE"@,
            "pulse:edges:"@ + article@,
            text::decimal(3600),
        ],
{
    let key: String = edges_key(article);
    let stored: String = pack(edge);
    let mut out: Vec<Command> = Vec::new();
    out.push(Command::new("LPUSH").arg(key.as_str()).arg(stored.as_str()));
    out.push(Command::new("LTRIM").arg(key.as_str()).arg_i64(0).arg_i64(MAX_EDGES - 1));
    out.push(expire(key.as_str(), TTL_SECS));
    assert(out@[0]@ =~= seq!["LPUSH"@, key@, packed(edge@)]);
    assert(out@[1]@ =~= seq!["LTRIM"@, key@, text::decimal(0), text::decimal(19)]);
    assert(command::pipeline(out@) =~= seq![
        seq!["LPUSH"@, key@, packed(edge@)],
        seq!["LTRIM"@, key@, text::decimal(0), text::decimal(19)],
        command::expire_words(key@, TTL_SECS as int),
    ]);
    out
}

/// Asks for an article's edges.
pub fn edges_query(article: &str) -> (r: Command)
    ensures
        r@ == seq!["LRANGE"@, "pulse:edges:"@ + article@, text::decimal(0), text::decimal(19)],
{
    let key: String = edges_key(article);
    let c: Command = Command::new("LRANGE").arg(key.as_str()).arg_i64(0).arg_i64(MAX_EDGES - 1);
    assert(c@ =~= seq!["LRANGE"@, key@, text::decimal(0), text::decimal(19)]);
    c
}

/// Flags an article as being at war.
pub fn flag_war(article: &str) -> (r: Vec<Command>)
    ensures
        command::pipeline(r@) == seq![
            seq!["SET"@, "pulse:war:"@ + article@, text::decimal(1)],
            command::expire_words("pulse:war:"@ + article@, WAR_SECS as int),
        ],
        command::pipeline(r@)[1] == seq!["EXPIRE"@, "pulse:war:"@ + article@, text::decimal(1800)],
{
    let key: String = war_key(article);
    let mut out: Vec<Command> = Vec::new();
    out.push(Command::new("SET").arg(key.as_str()).arg_i64(1));
    out.push(expire(key.as_str(), WAR_SECS));
    assert(out@[0]@ =~= seq!["SET"@, key@, text::decimal(1)]);
    assert(command::pipeline(out@) =~= seq![
        seq!["SET"@, key@, text::decimal(1)],
        command::expire_words(key@, WAR_SECS as int),
    ]);
    out
}

// ---------------------------------------------------------------------------
// Edit wars
// ---------------------------------------------------------------------------

/// The edges of the last thirty minutes, in order.
pub open spec fn recent(edges: Seq<EdgeView>, now_ms: int) -> Seq<EdgeView>
    decreases edges.len(),
{
    if edges.len() == 0 {
        Seq::empty()
    } else if now_ms - edges.last().at_ms <= CYCLE_WINDOW_MS {
        recent(edges.drop_last(), now_ms).push(edges.last())
    } else {
        recent(edges.drop_last(), now_ms)
    }
}

/// An edge between two editors; an editor who undoes themselves fights nobody.
pub open spec fn is_conflict(e: EdgeView) -> bool {
    e.reverter != e.reverted
}

/// Two editors undo each other: A→B and B→A.
pub open spec fn ping_pong(a: EdgeView, b: EdgeView) -> bool {
    &&& is_conflict(a)
    &&& is_conflict(b)
    &&& a.reverter == b.reverted
    &&& a.reverted == b.reverter
}

/// Three edges close on themselves: A→B→C→A.
pub open spec fn closes(a: EdgeView, b: EdgeView, c: EdgeView) -> bool {
    &&& is_conflict(a)
    &&& is_conflict(b)
    &&& is_conflict(c)
    &&& a.reverted == b.reverter
    &&& b.reverted == c.reverter
    &&& c.reverted == a.reverter
}

/// Some two edges undo each other, or some three close on themselves.
pub open spec fn has_cycle(r: Seq<EdgeView>) -> bool {
    ||| exists|i: int, j: int| 0 <= i < j < r.len() && ping_pong(#[trigger] r[i], #[trigger] r[j])
    ||| exists|i: int, j: int, k: int|
        0 <= i < r.len() && 0 <= j < r.len() && 0 <= k < r.len() && closes(
            #[trigger] r[i],
            #[trigger] r[j],
            #[trigger] r[k],
        )
}

/// An article is at war: at least three recent edges, and a cycle among them.
pub open spec fn at_war(edges: Seq<EdgeView>, now_ms: int) -> bool {
    let r = recent(edges, now_ms);
    r.len() >= CYCLE_MIN_EDGES && has_cycle(r)
}

/// The age of every edge is a number that an `i64` can hold.
pub open spec fn ages_fit(edges: Seq<EdgeView>, now_ms: int) -> bool {
    forall|i: int|
        0 <= i < edges.len() ==> i64::MIN <= now_ms - (#[trigger] edges[i]).at_ms <= i64::MAX
}

/// The positions of the recent edges.
fn recent_indices(edges: &[Edge], now_ms: i64) -> (r: Vec<usize>)
    requires
        ages_fit(edges_view(edges@), now_ms as int),
    ensures
        r@.len() == recent(edges_view(edges@), now_ms as int).len(),
        forall|k: int|
            0 <= k < r@.len() ==> (#[trigger] r@[k]) < edges@.len() && edges@[r@[k] as int]@
                == recent(edges_view(edges@), now_ms as int)[k],
{
    let ghost view = edges_view(edges@);
    let mut out: Vec<usize> = Vec::new();
    let mut i: usize = 0;
    assert(view.take(0) =~= Seq::<EdgeView>::empty());
    while i < edges.len()
        invariant
            i <= edges@.len(),
            view == edges_view(edges@),
            ages_fit(view, now_ms as int),
            out@.len() == recent(view.take(i as int), now_ms as int).len(),
            forall|k: int|
                0 <= k < out@.len() ==> (#[trigger] out@[k]) < edges@.len() && edges@[out@[k] as int]@
                    == recent(view.take(i as int), now_ms as int)[k],
        decreases edges@.len() - i,
    {
        assert(view.take(i + 1).drop_last() =~= view.take(i as int));
        assert(view.take(i + 1).last() == view[i as int]);
        assert(view[i as int] == edges@[i as int]@);
        if now_ms - edges[i].at_ms <= CYCLE_WINDOW_MS {
            out.push(i);
        }
        i = i + 1;
    }
    assert(view.take(i as int) =~= view);
    out
}

/// Whether an edge is between two editors.
fn conflict(e: &Edge) -> (r: bool)
    ensures
        r == is_conflict(e@),
{
    !text::text_eq(e.reverter.as_str(), e.reverted.as_str())
}

/// Whether two edges undo each other.
fn undo_each_other(a: &Edge, b: &Edge) -> (r: bool)
    ensures
        r == ping_pong(a@, b@),
{
    conflict(a) && conflict(b) && text::text_eq(
        a.reverter.as_str(),
        b.reverted.as_str(),
    ) && text::text_eq(
        a.reverted.as_str(),
        b.reverter.as_str(),
    )
}

/// Whether three edges close on themselves.
fn close_on_themselves(a: &Edge, b: &Edge, c: &Edge) -> (r: bool)
    ensures
        r == closes(a@, b@, c@),
{
    conflict(a) && conflict(b) && conflict(c) && text::text_eq(
        a.reverted.as_str(),
        b.reverter.as_str(),
    ) && text::text_eq(
        b.reverted.as_str(),
        c.reverter.as_str(),
    ) && text::text_eq(c.reverted.as_str(), a.reverter.as_str())
}

/// Whether some two of the chosen edges undo each other.
fn any_ping_pong(edges: &[Edge], chosen: &Vec<usize>, Ghost(r): Ghost<Seq<EdgeView>>) -> (found:
    bool)
    requires
        chosen@.len() == r.len(),
        forall|k: int|
            0 <= k < chosen@.len() ==> (#[trigger] chosen@[k]) < edges@.len()
                && edges@[chosen@[k] as int]@ == r[k],
    ensures
        found == (exists|i: int, j: int|
            0 <= i < j < r.len() && ping_pong(#[trigger] r[i], #[trigger] r[j])),
{
    let mut i: usize = 0;
    while i < chosen.len()
        invariant
            i <= chosen@.len(),
            chosen@.len() == r.len(),
            forall|k: int|
                0 <= k < chosen@.len() ==> (#[trigger] chosen@[k]) < edges@.len()
                    && edges@[chosen@[k] as int]@ == r[k],
            forall|a: int, b: int|
                0 <= a < i && a < b < r.len() ==> !ping_pong(#[trigger] r[a], #[trigger] r[b]),
        decreases chosen@.len() - i,
    {
        let mut j: usize = i + 1;
        while j < chosen.len()
            invariant
                i < chosen@.len(),
                i < j <= chosen@.len(),
                chosen@.len() == r.len(),
                forall|k: int|
                    0 <= k < chosen@.len() ==> (#[trigger] chosen@[k]) < edges@.len()
                        && edges@[chosen@[k] as int]@ == r[k],
                forall|b: int| i < b < j ==> !ping_pong(r[i as int], #[trigger] r[b]),
            decreases chosen@.len() - j,
        {
            let p: usize = chosen[i];
            let q: usize = chosen[j];
            if undo_each_other(&edges[p], &edges[q]) {
                assert(ping_pong(r[i as int], r[j as int]));
                return true;
            }
            j = j + 1;
        }
        i = i + 1;
    }
    false
}

/// Whether some three of the chosen edges close on themselves.
fn any_triangle(edges: &[Edge], chosen: &Vec<usize>, Ghost(r): Ghost<Seq<EdgeView>>) -> (found:
    bool)
    requires
        chosen@.len() == r.len(),
        forall|k: int|
            0 <= k < chosen@.len() ==> (#[trigger] chosen@[k]) < edges@.len()
                && edges@[chosen@[k] as int]@ == r[k],
    ensures
        found == (exists|i: int, j: int, k: int|
            0 <= i < r.len() && 0 <= j < r.len() && 0 <= k < r.len() && closes(
                #[trigger] r[i],
                #[trigger] r[j],
                #[trigger] r[k],
            )),
{
    let n: usize = chosen.len();
    let mut i: usize = 0;
    while i < n
        invariant
            n == chosen@.len(),
            i <= n,
            n == r.len(),
            forall|k: int|
                0 <= k < chosen@.len() ==> (#[trigger] chosen@[k]) < edges@.len()
                    && edges@[chosen@[k] as int]@ == r[k],
            forall|a: int, b: int, c: int|
                0 <= a < i && 0 <= b < n && 0 <= c < n ==> !closes(
                    #[trigger] r[a],
                    #[trigger] r[b],
                    #[trigger] r[c],
                ),
        decreases n - i,
    {
        let mut j: usize = 0;
        while j < n
            invariant
                n == chosen@.len(),
                i < n,
                j <= n,
                n == r.len(),
                forall|k: int|
                    0 <= k < chosen@.len() ==> (#[trigger] chosen@[k]) < edges@.len()
                        && edges@[chosen@[k] as int]@ == r[k],
                forall|b: int, c: int|
                    0 <= b < j && 0 <= c < n ==> !closes(
                        r[i as int],
                        #[trigger] r[b],
                        #[trigger] r[c],
                    ),
            decreases n - j,
        {
            let mut k: usize = 0;
            while k < n
                invariant
                    n == chosen@.len(),
                    i < n,
                    j < n,
                    k <= n,
                    n == r.len(),
                    forall|m: int|
                        0 <= m < chosen@.len() ==> (#[trigger] chosen@[m]) < edges@.len()
                            && edges@[chosen@[m] as int]@ == r[m],
                    forall|c: int|
                        0 <= c < k ==> !closes(r[i as int], r[j as int], #[trigger] r[c]),
                decreases n - k,
            {
                let p: usize = chosen[i];
                let q: usize = chosen[j];
                let s: usize = chosen[k];
                if close_on_themselves(&edges[p], &edges[q], &edges[s]) {
                    assert(closes(r[i as int], r[j as int], r[k as int]));
                    return true;
                }
                k = k + 1;
            }
            j = j + 1;
        }
        i = i + 1;
    }
    false
}

/// Is this article in a revert cycle: at least three edges inside thirty minutes, and an A↔B
/// (or A→B→C→A) cycle among them?
pub fn detect_cycle(edges: &[Edge], now_ms: i64) -> (r: bool)
    requires
        ages_fit(edges_view(edges@), now_ms as int),
    ensures
        r == at_war(edges_view(edges@), now_ms as int),
{
    let ghost chosen_edges = recent(edges_view(edges@), now_ms as int);
    let chosen: Vec<usize> = recent_indices(edges, now_ms);
    if chosen.len() < CYCLE_MIN_EDGES {
        return false;
    }
    any_ping_pong(edges, &chosen, Ghost(chosen_edges)) || any_triangle(
        edges,
        &chosen,
        Ghost(chosen_edges),
    )
}

/// What an edge list, as it is read back after an edge was appended, leads to: the article
/// is flagged where it is now at war.
pub fn after_edge(article: &str, raw: &Vec<String>, now_ms: i64) -> (r: Option<Vec<Command>>)
    requires
        ages_fit(unpacked_all(text::texts(raw@)), now_ms as int),
    ensures
        match r {
            Some(commands) => at_war(unpacked_all(text::texts(raw@)), now_ms as int)
                && command::pipeline(commands@) == seq![
                seq!["SET"@, "pulse:war:"@ + article@, text::decimal(1)],
                command::expire_words("pulse:war:"@ + article@, WAR_SECS as int),
            ],
            None => !at_war(unpacked_all(text::texts(raw@)), now_ms as int),
        },
{
    let edges: Vec<Edge> = unpack_all(raw);
    if detect_cycle(edges.as_slice(), now_ms) {
        Some(flag_war(article))
    } else {
        None
    }
}

// ---------------------------------------------------------------------------
// Laws
// ---------------------------------------------------------------------------

/// Every recent edge is one of the edges, and is recent.
proof fn lemma_recent_from(edges: Seq<EdgeView>, now_ms: int)
    ensures
        recent(edges, now_ms).len() <= edges.len(),
        forall|k: int|
            0 <= k < recent(edges, now_ms).len() ==> edges.contains(
                #[trigger] recent(edges, now_ms)[k],
            ) && now_ms - recent(edges, now_ms)[k].at_ms <= CYCLE_WINDOW_MS,
    decreases edges.len(),
{
    if edges.len() > 0 {
        let front = edges.drop_last();
        lemma_recent_from(front, now_ms);
        assert forall|k: int| 0 <= k < recent(edges, now_ms).len() implies edges.contains(
            #[trigger] recent(edges, now_ms)[k],
        ) && now_ms - recent(edges, now_ms)[k].at_ms <= CYCLE_WINDOW_MS by {
            if k < recent(front, now_ms).len() {
                assert(recent(edges, now_ms)[k] == recent(front, now_ms)[k]);
                let i = choose|i: int| 0 <= i < front.len() && front[i] == recent(front, now_ms)[k];
                assert(edges[i] == front[i]);
            } else {
                assert(edges[edges.len() - 1] == edges.last());
            }
        }
    }
}

/// Fewer than three edges are never a war.
pub proof fn law_too_few_edges_are_no_war(edges: Seq<EdgeView>, now_ms: int)
    requires
        edges.len() < 3,
    ensures
        !at_war(edges, now_ms),
{
    lemma_recent_from(edges, now_ms);
}

/// Edges older than thirty minutes are never a war.
pub proof fn law_stale_edges_are_no_war(edges: Seq<EdgeView>, now_ms: int)
    requires
        forall|i: int|
            0 <= i < edges.len() ==> now_ms - (#[trigger] edges[i]).at_ms > CYCLE_WINDOW_MS,
    ensures
        !at_war(edges, now_ms),
{
    lemma_recent_from(edges, now_ms);
    if recent(edges, now_ms).len() > 0 {
        let e = recent(edges, now_ms)[0];
        let i = choose|i: int| 0 <= i < edges.len() && edges[i] == e;
        assert(now_ms - edges[i].at_ms > CYCLE_WINDOW_MS);
    }
}

/// Reverts in one direction only are never a war: where nobody who reverts is ever reverted,
/// there is no cycle.
pub proof fn law_one_sided_reverts_are_no_war(edges: Seq<EdgeView>, now_ms: int)
    requires
        forall|i: int, j: int|
            0 <= i < edges.len() && 0 <= j < edges.len() ==> (#[trigger] edges[i]).reverter
                != (#[trigger] edges[j]).reverted,
    ensures
        !at_war(edges, now_ms),
{
    let r = recent(edges, now_ms);
    lemma_recent_from(edges, now_ms);
    assert forall|i: int, j: int| 0 <= i < r.len() && 0 <= j < r.len() implies (
    #[trigger] r[i]).reverter != (#[trigger] r[j]).reverted by {
        assert(edges.contains(r[i]) && edges.contains(r[j]));
        let a = choose|a: int| 0 <= a < edges.len() && edges[a] == r[i];
        let b = choose|b: int| 0 <= b < edges.len() && edges[b] == r[j];
        assert(edges[a].reverter != edges[b].reverted);
    }
}

/// A war is between two or three editors: a cycle never rests on an editor who undid
/// themselves. Where at most one edge is between two editors, there is none.
pub proof fn law_self_reverts_are_no_war(edges: Seq<EdgeView>, now_ms: int)
    requires
        forall|i: int, j: int|
            0 <= i < edges.len() && 0 <= j < edges.len() && is_conflict(#[trigger] edges[i])
                && is_conflict(#[trigger] edges[j]) ==> edges[i] == edges[j],
    ensures
        !at_war(edges, now_ms),
{
    let r = recent(edges, now_ms);
    lemma_recent_from(edges, now_ms);
    assert forall|i: int, j: int|
        0 <= i < r.len() && 0 <= j < r.len() && is_conflict(#[trigger] r[i]) && is_conflict(
            #[trigger] r[j],
        ) implies r[i] == r[j] by {
        assert(edges.contains(r[i]) && edges.contains(r[j]));
        let a = choose|a: int| 0 <= a < edges.len() && edges[a] == r[i];
        let b = choose|b: int| 0 <= b < edges.len() && edges[b] == r[j];
        assert(edges[a] == edges[b]);
    }
}

/// A closed chain of three is between three different editors.
pub proof fn law_three_way_cycles_have_three_editors(a: EdgeView, b: EdgeView, c: EdgeView)
    requires
        closes(a, b, c),
    ensures
        a.reverter != b.reverter,
        b.reverter != c.reverter,
        c.reverter != a.reverter,
{
}

/// Where all of at least three edges are recent, two that undo each other are a war.
pub proof fn law_ping_pong_is_a_war(edges: Seq<EdgeView>, now_ms: int, i: int, j: int)
    requires
        edges.len() >= 3,
        forall|k: int|
            0 <= k < edges.len() ==> now_ms - (#[trigger] edges[k]).at_ms <= CYCLE_WINDOW_MS,
        0 <= i < j < edges.len(),
        ping_pong(edges[i], edges[j]),
    ensures
        at_war(edges, now_ms),
{
    lemma_all_recent(edges, now_ms);
}

/// Where all of at least three edges are recent, three that close on themselves are a war.
pub proof fn law_three_way_cycle_is_a_war(
    edges: Seq<EdgeView>,
    now_ms: int,
    i: int,
    j: int,
    k: int,
)
    requires
        edges.len() >= 3,
        forall|m: int|
            0 <= m < edges.len() ==> now_ms - (#[trigger] edges[m]).at_ms <= CYCLE_WINDOW_MS,
        0 <= i < edges.len(),
        0 <= j < edges.len(),
        0 <= k < edges.len(),
        closes(edges[i], edges[j], edges[k]),
    ensures
        at_war(edges, now_ms),
{
    lemma_all_recent(edges, now_ms);
}

/// Where every edge is recent, the recent edges are all the edges.
proof fn lemma_all_recent(edges: Seq<EdgeView>, now_ms: int)
    requires
        forall|k: int|
            0 <= k < edges.len() ==> now_ms - (#[trigger] edges[k]).at_ms <= CYCLE_WINDOW_MS,
    ensures
        recent(edges, now_ms) == edges,
    decreases edges.len(),
{
    if edges.len() > 0 {
        let front = edges.drop_last();
        assert forall|k: int| 0 <= k < front.len() implies now_ms - (#[trigger] front[k]).at_ms
            <= CYCLE_WINDOW_MS by {
            assert(front[k] == edges[k]);
        }
        lemma_all_recent(front, now_ms);
        assert(now_ms - edges[edges.len() - 1].at_ms <= CYCLE_WINDOW_MS);
        assert(front.push(edges.last()) =~= edges);
    } else {
        assert(recent(edges, now_ms) =~= edges);
    }
}

/// Whether an edge is looked at does not depend on the edges around it: the recent ones of two
/// lists one behind the other are the recent ones of the first and those of the second.
pub proof fn law_recent_edges_are_picked_one_by_one(
    a: Seq<EdgeView>,
    b: Seq<EdgeView>,
    now_ms: int,
)
    ensures
        recent(a + b, now_ms) == recent(a, now_ms) + recent(b, now_ms),
    decreases b.len(),
{
    if b.len() == 0 {
        assert(a + b =~= a);
        assert(recent(a, now_ms) + recent(b, now_ms) =~= recent(a, now_ms));
    } else {
        law_recent_edges_are_picked_one_by_one(a, b.drop_last(), now_ms);
        assert((a + b).drop_last() =~= a + b.drop_last());
        assert((a + b).last() == b.last());
        assert(recent(a + b, now_ms) =~= recent(a, now_ms) + recent(b, now_ms));
    }
}

/// An edge of the last thirty minutes is looked at, and an older one is not.
pub proof fn law_thirty_minutes_are_recent(e: EdgeView, now_ms: int)
    ensures
        now_ms - e.at_ms <= 30 * 60 * 1000 ==> recent(seq![e], now_ms) == seq![e],
        now_ms - e.at_ms > 30 * 60 * 1000 ==> recent(seq![e], now_ms) == Seq::<EdgeView>::empty(),
{
    assert(seq![e].drop_last() =~= Seq::<EdgeView>::empty());
    assert(recent(seq![e].drop_last(), now_ms) =~= Seq::<EdgeView>::empty());
    assert(Seq::<EdgeView>::empty().push(e) =~= seq![e]);
}

/// An edge older than thirty minutes makes no difference, wherever in the list it stands.
pub proof fn law_stale_edges_make_no_difference(
    before: Seq<EdgeView>,
    stale: EdgeView,
    after: Seq<EdgeView>,
    now_ms: int,
)
    requires
        now_ms - stale.at_ms > 30 * 60 * 1000,
    ensures
        recent(before + seq![stale] + after, now_ms) == recent(before + after, now_ms),
        at_war(before + seq![stale] + after, now_ms) == at_war(before + after, now_ms),
{
    law_recent_edges_are_picked_one_by_one(before + seq![stale], after, now_ms);
    law_recent_edges_are_picked_one_by_one(before, seq![stale], now_ms);
    law_recent_edges_are_picked_one_by_one(before, after, now_ms);
    law_thirty_minutes_are_recent(stale, now_ms);
    assert(recent(before, now_ms) + Seq::<EdgeView>::empty() =~= recent(before, now_ms));
}

/// Every edge of the last thirty minutes is looked at, and those are the only ones.
pub proof fn law_every_recent_edge_counts(edges: Seq<EdgeView>, now_ms: int)
    ensures
        forall|e: EdgeView| #[trigger]
            recent(edges, now_ms).contains(e) <==> edges.contains(e) && now_ms - e.at_ms <= 30 * 60
                * 1000,
    decreases edges.len(),
{
    let r = recent(edges, now_ms);
    lemma_recent_from(edges, now_ms);
    assert forall|e: EdgeView| #[trigger] r.contains(e) <==> edges.contains(e) && now_ms - e.at_ms
        <= 30 * 60 * 1000 by {
        if r.contains(e) {
            let k = choose|k: int| 0 <= k < r.len() && r[k] == e;
            assert(edges.contains(r[k]));
        }
        if edges.contains(e) && now_ms - e.at_ms <= 30 * 60 * 1000 {
            let i = choose|i: int| 0 <= i < edges.len() && edges[i] == e;
            let head = edges.take(i);
            let tail = edges.skip(i + 1);
            assert(edges =~= head + seq![e] + tail);
            law_recent_edges_are_picked_one_by_one(head + seq![e], tail, now_ms);
            law_recent_edges_are_picked_one_by_one(head, seq![e], now_ms);
            law_thirty_minutes_are_recent(e, now_ms);
            assert(r[recent(head, now_ms).len() as int] == e);
        }
    }
}

/// How many edges are recent, told by their places.
proof fn lemma_recent_places(edges: Seq<EdgeView>, now_ms: int)
    ensures
        recent(edges, now_ms).len() >= 1 <==> exists|i: int|
            0 <= i < edges.len() && now_ms - (#[trigger] edges[i]).at_ms <= 30 * 60 * 1000,
        recent(edges, now_ms).len() >= 2 <==> exists|i: int, j: int|
            0 <= i < j < edges.len() && now_ms - (#[trigger] edges[i]).at_ms <= 30 * 60 * 1000
                && now_ms - (#[trigger] edges[j]).at_ms <= 30 * 60 * 1000,
        recent(edges, now_ms).len() >= 3 <==> exists|i: int, j: int, k: int|
            0 <= i < j < k < edges.len() && now_ms - (#[trigger] edges[i]).at_ms <= 30 * 60 * 1000
                && now_ms - (#[trigger] edges[j]).at_ms <= 30 * 60 * 1000 && now_ms - (
            #[trigger] edges[k]).at_ms <= 30 * 60 * 1000,
    decreases edges.len(),
{
    if edges.len() > 0 {
        let front = edges.drop_last();
        let last = edges.len() - 1;
        lemma_recent_places(front, now_ms);
        assert(edges[last] == edges.last());
        assert forall|i: int| 0 <= i < front.len() implies #[trigger] front[i] == edges[i] by {}
        assert forall|i: int| 0 <= i < front.len() implies front[i] == #[trigger] edges[i] by {}
    }
}

/// An article is at war exactly where three edges of the last thirty minutes are in its list,
/// and of those some two say that two editors undid each other, or some three that three
/// editors undid one another in a ring.
pub proof fn law_wars_are_fought_by_two_or_three(edges: Seq<EdgeView>, now_ms: int)
    ensures
        at_war(edges, now_ms) <==> (exists|i: int, j: int, k: int|
            0 <= i < j < k < edges.len() && now_ms - (#[trigger] edges[i]).at_ms <= 30 * 60 * 1000
                && now_ms - (#[trigger] edges[j]).at_ms <= 30 * 60 * 1000 && now_ms - (
            #[trigger] edges[k]).at_ms <= 30 * 60 * 1000) && ((exists|a: EdgeView, b: EdgeView|
            #[trigger] edges.contains(a) && #[trigger] edges.contains(b) && now_ms - a.at_ms <= 30
                * 60 * 1000 && now_ms - b.at_ms <= 30 * 60 * 1000 && a.reverter == b.reverted
                && b.reverter == a.reverted && a.reverter != a.reverted) || (exists|
            a: EdgeView,
            b: EdgeView,
            c: EdgeView,
        |
            #[trigger] edges.contains(a) && #[trigger] edges.contains(b)
                && #[trigger] edges.contains(c) && now_ms - a.at_ms <= 30 * 60 * 1000 && now_ms
                - b.at_ms <= 30 * 60 * 1000 && now_ms - c.at_ms <= 30 * 60 * 1000 && a.reverted
                == b.reverter && b.reverted == c.reverter && c.reverted == a.reverter
                && a.reverter != b.reverter && b.reverter != c.reverter && c.reverter
                != a.reverter)),
{
    let r = recent(edges, now_ms);
    lemma_recent_places(edges, now_ms);
    law_every_recent_edge_counts(edges, now_ms);
    if has_cycle(r) {
        if exists|i: int, j: int|
            0 <= i < j < r.len() && ping_pong(#[trigger] r[i], #[trigger] r[j]) {
            let (i, j) = choose|i: int, j: int|
                0 <= i < j < r.len() && ping_pong(#[trigger] r[i], #[trigger] r[j]);
            assert(r.contains(r[i]) && r.contains(r[j]));
            assert(edges.contains(r[i]) && edges.contains(r[j]));
        } else {
            let (i, j, k) = choose|i: int, j: int, k: int|
                0 <= i < r.len() && 0 <= j < r.len() && 0 <= k < r.len() && closes(
                    #[trigger] r[i],
                    #[trigger] r[j],
                    #[trigger] r[k],
                );
            assert(r.contains(r[i]) && r.contains(r[j]) && r.contains(r[k]));
            assert(edges.contains(r[i]) && edges.contains(r[j]) && edges.contains(r[k]));
        }
    }
    if exists|a: EdgeView, b: EdgeView| #[trigger]
        edges.contains(a) && #[trigger] edges.contains(b) && now_ms - a.at_ms <= 30 * 60 * 1000
            && now_ms - b.at_ms <= 30 * 60 * 1000 && a.reverter == b.reverted && b.reverter
            == a.reverted && a.reverter != a.reverted {
        let (a, b) = choose|a: EdgeView, b: EdgeView| #[trigger]
            edges.contains(a) && #[trigger] edges.contains(b) && now_ms - a.at_ms <= 30 * 60 * 1000
                && now_ms - b.at_ms <= 30 * 60 * 1000 && a.reverter == b.reverted && b.reverter
                == a.reverted && a.reverter != a.reverted;
        assert(r.contains(a) && r.contains(b));
        let i = choose|i: int| 0 <= i < r.len() && r[i] == a;
        let j = choose|j: int| 0 <= j < r.len() && r[j] == b;
        assert(i != j);
        assert(ping_pong(r[i], r[j]) && ping_pong(r[j], r[i]));
        assert(has_cycle(r));
    }
    if exists|a: EdgeView, b: EdgeView, c: EdgeView| #[trigger]
        edges.contains(a) && #[trigger] edges.contains(b) && #[trigger] edges.contains(c) && now_ms
            - a.at_ms <= 30 * 60 * 1000 && now_ms - b.at_ms <= 30 * 60 * 1000 && now_ms - c.at_ms
            <= 30 * 60 * 1000 && a.reverted == b.reverter && b.reverted == c.reverter && c.reverted
            == a.reverter && a.reverter != b.reverter && b.reverter != c.reverter && c.reverter
            != a.reverter {
        let (a, b, c) = choose|a: EdgeView, b: EdgeView, c: EdgeView| #[trigger]
            edges.contains(a) && #[trigger] edges.contains(b) && #[trigger] edges.contains(c)
                && now_ms - a.at_ms <= 30 * 60 * 1000 && now_ms - b.at_ms <= 30 * 60 * 1000
                && now_ms - c.at_ms <= 30 * 60 * 1000 && a.reverted == b.reverter && b.reverted
                == c.reverter && c.reverted == a.reverter && a.reverter != b.reverter && b.reverter
                != c.reverter && c.reverter != a.reverter;
        assert(r.contains(a) && r.contains(b) && r.contains(c));
        let i = choose|i: int| 0 <= i < r.len() && r[i] == a;
        let j = choose|j: int| 0 <= j < r.len() && r[j] == b;
        let k = choose|k: int| 0 <= k < r.len() && r[k] == c;
        assert(closes(r[i], r[j], r[k]));
        assert(has_cycle(r));
    }
}

/// Whether a stored text is read does not depend on the texts around it: of two lists one
/// behind the other, those of the first are read, and those of the second after them; a
/// malformed text is skipped.
pub proof fn law_stored_edges_are_read_one_by_one(
    a: Seq<Seq<char>>,
    b: Seq<Seq<char>>,
    s: Seq<char>,
)
    ensures
        unpacked_all(a + b) == unpacked_all(a) + unpacked_all(b),
        unpacked_all(seq![s]) == match unpacked(s) {
            Some(e) => seq![e],
            None => Seq::<EdgeView>::empty(),
        },
    decreases b.len(),
{
    assert(seq![s].drop_last() =~= Seq::<Seq<char>>::empty());
    assert(unpacked_all(seq![s].drop_last()) =~= Seq::<EdgeView>::empty());
    if let Some(e) = unpacked(s) {
        assert(Seq::<EdgeView>::empty().push(e) =~= seq![e]);
    }
    if b.len() == 0 {
        assert(a + b =~= a);
        assert(unpacked_all(a) + unpacked_all(b) =~= unpacked_all(a));
    } else {
        law_stored_edges_are_read_one_by_one(a, b.drop_last(), s);
        assert((a + b).drop_last() =~= a + b.drop_last());
        assert((a + b).last() == b.last());
        assert(unpacked_all(a + b) =~= unpacked_all(a) + unpacked_all(b));
    }
}

/// A stored text is an edge exactly where it begins with a name, a tab, a name, a tab and a
/// decimal moment up to the next tab or the end; neither name holds a tab.
pub proof fn law_stored_edges_have_three_fields(
    reverter: Seq<char>,
    reverted: Seq<char>,
    moment: Seq<char>,
    ignored: Seq<char>,
)
    requires
        !reverter.contains('\t'),
        !reverted.contains('\t'),
        !moment.contains('\t'),
    ensures
        unpacked(reverter.push('\t') + (reverted.push('\t') + moment)) == match text::i64_value(
            moment,
        ) {
            Some(at_ms) => Some(EdgeView { reverter, reverted, at_ms }),
            None => None,
        },
        unpacked(reverter.push('\t') + (reverted.push('\t') + (moment.push('\t') + ignored)))
            == unpacked(reverter.push('\t') + (reverted.push('\t') + moment)),
        unpacked(reverter) is None,
        unpacked(reverter.push('\t') + reverted) is None,
{
    lemma_three_fields(reverter, reverted, moment);
    lemma_a_fourth_field(reverter, reverted, moment, ignored);
    assert(unpacked(reverter) is None) by {
        text::lemma_split_whole(reverter, '\t');
    }
    assert(unpacked(reverter.push('\t') + reverted) is None) by {
        text::lemma_split_first(reverter, '\t', reverted);
        text::lemma_split_whole(reverted, '\t');
        assert((seq![reverter] + seq![reverted]).len() == 2);
    }
}

/// Three fields are an edge where the third is a moment.
proof fn lemma_three_fields(reverter: Seq<char>, reverted: Seq<char>, moment: Seq<char>)
    requires
        !reverter.contains('\t'),
        !reverted.contains('\t'),
        !moment.contains('\t'),
    ensures
        unpacked(reverter.push('\t') + (reverted.push('\t') + moment)) == match text::i64_value(
            moment,
        ) {
            Some(at_ms) => Some(EdgeView { reverter, reverted, at_ms }),
            None => None,
        },
{
    let s = reverter.push('\t') + (reverted.push('\t') + moment);
    assert(text::split_text(s, '\t') =~= seq![reverter, reverted, moment]) by {
        text::lemma_split_first(reverter, '\t', reverted.push('\t') + moment);
        text::lemma_split_first(reverted, '\t', moment);
        text::lemma_split_whole(moment, '\t');
    }
}

/// What follows a third tab is ignored.
proof fn lemma_a_fourth_field(
    reverter: Seq<char>,
    reverted: Seq<char>,
    moment: Seq<char>,
    ignored: Seq<char>,
)
    requires
        !reverter.contains('\t'),
        !reverted.contains('\t'),
        !moment.contains('\t'),
    ensures
        unpacked(reverter.push('\t') + (reverted.push('\t') + (moment.push('\t') + ignored)))
            == match text::i64_value(moment) {
            Some(at_ms) => Some(EdgeView { reverter, reverted, at_ms }),
            None => None,
        },
{
    let rest = moment.push('\t') + ignored;
    let s = reverter.push('\t') + (reverted.push('\t') + rest);
    let more = text::split_text(ignored, '\t');
    let parts = text::split_text(s, '\t');
    assert(parts == seq![reverter] + (seq![reverted] + (seq![moment] + more))) by {
        text::lemma_split_first(reverter, '\t', reverted.push('\t') + rest);
        text::lemma_split_first(reverted, '\t', rest);
        text::lemma_split_first(moment, '\t', ignored);
    }
    assert(parts.len() >= 3);
    assert(parts[0] == reverter && parts[1] == reverted && parts[2] == moment);
}

} // verus!
