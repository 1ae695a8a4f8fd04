//! The game surface: who may do what, and what is asked of the stores for it.
//!
//! Each function takes a request as plain data, with whether the store it needs is there,
//! and either refuses it or says what to do. The order in which a request is looked at is
//! part of the contract: a refusal names the first thing that is wrong.

use vstd::prelude::*;
use crate::command::Command;
use crate::{keys, patrol, radar, session, settle, text};

verus! {

/// How long reality has to grade a Vandal Patrol call, in minutes.
pub const CALL_DEADLINE_MINS: i64 = 10;

/// How long a Surge bet runs, in minutes.
pub const SURGE_WINDOW_MINS: i64 = 60;

/// The smallest stake.
pub const STAKE_MIN: i32 = 1;

/// The largest stake: a ledger, not a casino.
pub const STAKE_MAX: i32 = 100;

/// Handles are display strings; they are kept short.
pub const HANDLE_MAX: usize = 24;

/// How long a First Responder flag stands, in seconds.
pub const FLAG_SECS: i64 = 1_800;

/// Candidates that passed the first gate only: the public leading indicators that a Surge
/// bet is made on.
pub const WATCHLIST: &'static str = "pulse:watchlist";

// ---------------------------------------------------------------------------
// Refusals
// ---------------------------------------------------------------------------

/// Why a request is refused.
#[derive(Debug, Clone, Copy, PartialEq, Eq, Structural)]
pub enum Refusal {
    BadRequest,
    Unauthorized,
    PaymentRequired,
    NotFound,
    Internal,
    ServiceUnavailable,
}

impl Refusal {
    /// The HTTP status of a refusal.
    pub open spec fn status_code(self) -> u16 {
        match self {
            Refusal::BadRequest => 400,
            Refusal::Unauthorized => 401,
            Refusal::PaymentRequired => 402,
            Refusal::NotFound => 404,
            Refusal::Internal => 500,
            Refusal::ServiceUnavailable => 503,
        }
    }

    /// The HTTP status of a refusal.
    pub fn status(&self) -> (r: u16)
        ensures
            r == self.status_code(),
            *self is BadRequest ==> r == 400,
            *self is Unauthorized ==> r == 401,
            *self is PaymentRequired ==> r == 402,
            *self is NotFound ==> r == 404,
            *self is Internal ==> r == 500,
            *self is ServiceUnavailable ==> r == 503,
    {
        match self {
            Refusal::BadRequest => 400,
            Refusal::Unauthorized => 401,
            Refusal::PaymentRequired => 402,
            Refusal::NotFound => 404,
            Refusal::Internal => 500,
            Refusal::ServiceUnavailable => 503,
        }
    }
}

// ---------------------------------------------------------------------------
// Requests
// ---------------------------------------------------------------------------

/// A player to create, or to re-attach to.
#[derive(Debug)]
pub struct NewPlayer {
    pub handle: String,
}

/// How many entries are asked for.
#[derive(Debug)]
pub struct LimitQuery {
    pub limit: Option<i64>,
}

/// A Vandal Patrol call.
#[derive(Debug)]
pub struct NewCall {
    pub article: String,
    pub rev_id: i64,
    /// `true` is vandalism.
    pub verdict: bool,
}

/// A Surge bet.
#[derive(Debug)]
pub struct NewBet {
    pub article: String,
    pub stake: i32,
}

/// A First Responder flag.
#[derive(Debug)]
pub struct NewFlag {
    pub article: String,
}

/// Which leaderboard is asked for.
#[derive(Debug)]
pub struct BoardQuery {
    /// `patrol` (rating) or `surge` (points). Defaults to patrol.
    pub mode: Option<String>,
    pub limit: Option<i64>,
}

/// Which article's revert incidents are asked for.
#[derive(Debug)]
pub struct IncidentQuery {
    pub article: String,
    pub limit: Option<i64>,
}

// ---------------------------------------------------------------------------
// Players
// ---------------------------------------------------------------------------

/// The player that a request proves to be from.
pub open spec fn session_player(secret: Seq<u8>, cookies: Option<&str>) -> Option<i64> {
    match cookies {
        Some(raw) => session::player_of(secret, raw@),
        None => None,
    }
}

/// The player that a request is from; a request without a valid session is refused.
pub fn require_player(secret: &[u8], cookies: Option<&str>) -> (r: Result<i64, Refusal>)
    ensures
        r == match session_player(secret@, cookies) {
            Some(id) => Ok::<i64, Refusal>(id),
            None => Err(Refusal::Unauthorized),
        },
        cookies is None ==> r == Err::<i64, Refusal>(Refusal::Unauthorized),
        cookies matches Some(raw) ==> r == match session::player_of(secret@, raw@) {
            Some(id) => Ok::<i64, Refusal>(id),
            None => Err(Refusal::Unauthorized),
        },
{
    match session::player_from_cookies(secret, cookies) {
        Some(id) => Ok(id),
        None => Err(Refusal::Unauthorized),
    }
}

/// A handle that a player may have: not empty, and not too long.
pub open spec fn handle_ok(handle: Seq<char>) -> bool {
    0 < handle.len() <= HANDLE_MAX
}

/// Creates a handle, or re-attaches to it: the handle to store, without white space around
/// it.
///
/// Re-attaching rather than rejecting a taken handle is deliberate: there are no passwords,
/// so the handle is the identity, and a returning player just gets their cookie back.
pub fn create_player(database: bool, body: &NewPlayer) -> (r: Result<String, Refusal>)
    ensures
        match r {
            Ok(handle) => database && handle@ == text::trim_text(body.handle@) && handle_ok(
                handle@,
            ) && 1 <= handle@.len() <= 24,
            Err(why) => if !database {
                why == Refusal::ServiceUnavailable
            } else {
                why == Refusal::BadRequest && !handle_ok(text::trim_text(body.handle@))
            },
        },
{
    if !database {
        return Err(Refusal::ServiceUnavailable);
    }
    let handle: String = text::trim(body.handle.as_str());
    let length: usize = text::chars_of(handle.as_str()).len();
    if length == 0 || length > HANDLE_MAX {
        return Err(Refusal::BadRequest);
    }
    Ok(handle)
}

/// Who the cookie says the caller is.
pub fn me(database: bool, secret: &[u8], cookies: Option<&str>) -> (r: Result<i64, Refusal>)
    ensures
        r == if !database {
            Err::<i64, Refusal>(Refusal::ServiceUnavailable)
        } else {
            match session_player(secret@, cookies) {
                Some(id) => Ok(id),
                None => Err(Refusal::Unauthorized),
            }
        },
{
    if !database {
        return Err(Refusal::ServiceUnavailable);
    }
    require_player(secret, cookies)
}

/// What a lookup found; what is not there is refused as such.
pub fn found<T>(row: Option<T>) -> (r: Result<T, Refusal>)
    ensures
        r == match row {
            Some(v) => Ok::<T, Refusal>(v),
            None => Err(Refusal::NotFound),
        },
{
    match row {
        Some(v) => Ok(v),
        None => Err(Refusal::NotFound),
    }
}

// ---------------------------------------------------------------------------
// Limits
// ---------------------------------------------------------------------------

/// How many entries are shown: what was asked for, or the default, but at least one and at
/// most `most`.
pub open spec fn limit_of(asked: Option<i64>, default: int, most: int) -> int {
    let n = match asked {
        Some(n) => n as int,
        None => default,
    };
    if n < 1 {
        1
    } else if n > most {
        most
    } else {
        n
    }
}

/// How many entries are shown.
pub fn clamp_limit(asked: Option<i64>, default: i64, most: i64) -> (r: i64)
    requires
        1 <= most,
    ensures
        r == limit_of(asked, default as int, most as int),
        1 <= r <= most,
{
    let n: i64 = match asked {
        Some(n) => n,
        None => default,
    };
    if n < 1 {
        1
    } else if n > most {
        most
    } else {
        n
    }
}

// ---------------------------------------------------------------------------
// Vandal Patrol
// ---------------------------------------------------------------------------

/// The candidates for Vandal Patrol, newest first: twenty unless asked otherwise, and at
/// most sixty.
pub fn patrol_queue(cache: bool, q: &LimitQuery) -> (r: Result<Command, Refusal>)
    ensures
        match r {
            Ok(c) => cache && c@ == seq![
                "LRANGE"@,
                patrol::QUEUE@,
                text::decimal(0),
                text::decimal(limit_of(q.limit, 20, 60) - 1),
            ],
            Err(why) => !cache && why == Refusal::ServiceUnavailable,
        },
{
    if !cache {
        return Err(Refusal::ServiceUnavailable);
    }
    let limit: i64 = clamp_limit(q.limit, 20, 60);
    let c: Command = Command::new("LRANGE").arg(patrol::QUEUE).arg_i64(0).arg_i64(limit - 1);
    assert(c@ =~= seq![
        "LRANGE"@,
        patrol::QUEUE@,
        text::decimal(0),
        text::decimal(limit_of(q.limit, 20, 60) - 1),
    ]);
    Ok(c)
}

/// A call names an article and a revision.
pub open spec fn call_ok(article: Seq<char>, rev_id: int) -> bool {
    article.len() > 0 && rev_id > 0
}

/// Records a Vandal Patrol call: the player whose call it is.
pub fn create_call(
    database: bool,
    secret: &[u8],
    cookies: Option<&str>,
    body: &NewCall,
) -> (r: Result<i64, Refusal>)
    ensures
        r == if !database {
            Err::<i64, Refusal>(Refusal::ServiceUnavailable)
        } else {
            match session_player(secret@, cookies) {
                None => Err(Refusal::Unauthorized),
                Some(id) => if call_ok(body.article@, body.rev_id as int) {
                    Ok(id)
                } else {
                    Err(Refusal::BadRequest)
                },
            }
        },
{
    let player_id: i64 = match me(database, secret, cookies) {
        Ok(id) => id,
        Err(why) => {
            return Err(why);
        },
    };
    if body.article.as_str().is_empty() || body.rev_id <= 0 {
        return Err(Refusal::BadRequest);
    }
    Ok(player_id)
}

/// The moment, in microseconds, at which a call is due.
pub fn call_deadline(called_at_us: i64) -> (r: i64)
    requires
        called_at_us + CALL_DEADLINE_MINS * 60_000_000 <= i64::MAX,
    ensures
        r == called_at_us + CALL_DEADLINE_MINS * 60_000_000,
        r - called_at_us == 10 * 60 * 1_000_000,
{
    called_at_us + CALL_DEADLINE_MINS * 60_000_000
}

/// How long a call takes to settle, in seconds.
pub fn settles_in_secs() -> (r: i64)
    ensures
        r == CALL_DEADLINE_MINS * 60,
        r == 600,
{
    CALL_DEADLINE_MINS * 60
}

/// Queues a call for settlement, scored by its deadline in milliseconds.
pub fn queue_call(call_id: i64, deadline_ms: i64) -> (r: Command)
    ensures
        r@ == seq![
            "ZADD"@,
            keys::SETTLE_QUEUE@,
            text::decimal(deadline_ms as int),
            text::decimal(call_id as int),
        ],
{
    let c: Command = Command::new("ZADD").arg(keys::SETTLE_QUEUE).arg_i64(deadline_ms).arg_i64(
        call_id,
    );
    assert(c@ =~= seq![
        "ZADD"@,
        keys::SETTLE_QUEUE@,
        text::decimal(deadline_ms as int),
        text::decimal(call_id as int),
    ]);
    c
}

/// How a call stands.
#[derive(Debug, Clone, Copy, PartialEq, Eq, Structural)]
pub struct CallReport {
    /// Whether the player was right, once that is known.
    pub correct: Option<bool>,
    pub settled: bool,
}

/// How a call stands, given its verdict and its outcome so far.
pub fn get_call(verdict: bool, outcome: Option<bool>) -> (r: CallReport)
    ensures
        r.settled == (outcome is Some),
        r.correct == match outcome {
            Some(was_reverted) => Some(verdict == was_reverted),
            None => None,
        },
{
    match outcome {
        Some(was_reverted) => CallReport {
            correct: Some(settle::call_is_correct(verdict, was_reverted)),
            settled: true,
        },
        None => CallReport { correct: None, settled: false },
    }
}

// ---------------------------------------------------------------------------
// Call the Surge
// ---------------------------------------------------------------------------

/// A bet names an article and an allowed stake.
pub open spec fn bet_ok(article: Seq<char>, stake: int) -> bool {
    article.len() > 0 && STAKE_MIN <= stake <= STAKE_MAX
}

/// Stakes points that an article confirms within the hour: the player whose bet it is.
pub fn create_bet(
    database: bool,
    secret: &[u8],
    cookies: Option<&str>,
    body: &NewBet,
) -> (r: Result<i64, Refusal>)
    ensures
        r == if !database {
            Err::<i64, Refusal>(Refusal::ServiceUnavailable)
        } else {
            match session_player(secret@, cookies) {
                None => Err(Refusal::Unauthorized),
                Some(id) => if bet_ok(body.article@, body.stake as int) {
                    Ok(id)
                } else {
                    Err(Refusal::BadRequest)
                },
            }
        },
{
    let player_id: i64 = match me(database, secret, cookies) {
        Ok(id) => id,
        Err(why) => {
            return Err(why);
        },
    };
    if body.article.as_str().is_empty() || body.stake < STAKE_MIN || body.stake > STAKE_MAX {
        return Err(Refusal::BadRequest);
    }
    Ok(player_id)
}

/// The moment, in microseconds, at which a bet expires.
pub fn bet_expiry(placed_at_us: i64) -> (r: i64)
    requires
        placed_at_us + SURGE_WINDOW_MINS * 60_000_000 <= i64::MAX,
    ensures
        r == placed_at_us + SURGE_WINDOW_MINS * 60_000_000,
        r - placed_at_us == 60 * 60 * 1_000_000,
{
    placed_at_us + SURGE_WINDOW_MINS * 60_000_000
}

/// Whether a bet stands: the stake was deducted from a player who had it. The deduction is
/// guarded, so that nobody goes negative by racing two requests, and changes no row where
/// the points are missing.
pub fn stake_deducted(rows: u64) -> (r: Result<(), Refusal>)
    ensures
        r == if rows == 0 {
            Err::<(), Refusal>(Refusal::PaymentRequired)
        } else {
            Ok(())
        },
{
    if rows == 0 {
        Err(Refusal::PaymentRequired)
    } else {
        Ok(())
    }
}

// ---------------------------------------------------------------------------
// First Responder
// ---------------------------------------------------------------------------

/// Flags an article before it is confirmed. The flag is set only where there is none, so
/// that the first flagger wins, not the last.
pub fn create_flag(
    cache: bool,
    secret: &[u8],
    cookies: Option<&str>,
    body: &NewFlag,
) -> (r: Result<Command, Refusal>)
    ensures
        match r {
            Ok(c) => cache && body.article@.len() > 0 && (session_player(
                secret@,
                cookies,
            ) matches Some(id) && c@ == seq![
                "SET"@,
                settle::flag_key_text(body.article@),
                text::decimal(id as int),
                "NX"@,
                "EX"@,
                text::decimal(FLAG_SECS as int),
            ]),
            Err(why) => if session_player(secret@, cookies) is None {
                why == Refusal::Unauthorized
            } else if body.article@.len() == 0 {
                why == Refusal::BadRequest
            } else {
                !cache && why == Refusal::ServiceUnavailable
            },
        },
        r matches Ok(c) ==> c@.len() == 6 && c@[1] == "pulse:flag:"@ + body.article@ && c@[5]
            == text::decimal(1800),
{
    let player_id: i64 = match require_player(secret, cookies) {
        Ok(id) => id,
        Err(why) => {
            return Err(why);
        },
    };
    if body.article.as_str().is_empty() {
        return Err(Refusal::BadRequest);
    }
    if !cache {
        return Err(Refusal::ServiceUnavailable);
    }
    let key: String = settle::flag_key(body.article.as_str());
    let c: Command = Command::new("SET").arg(key.as_str()).arg_i64(player_id).arg("NX").arg(
        "EX",
    ).arg_i64(FLAG_SECS);
    assert(c@ =~= seq![
        "SET"@,
        key@,
        text::decimal(player_id as int),
        "NX"@,
        "EX"@,
        text::decimal(FLAG_SECS as int),
    ]);
    Ok(c)
}

// ---------------------------------------------------------------------------
// Boards
// ---------------------------------------------------------------------------

/// What a leaderboard ranks players by.
#[derive(Debug, Clone, Copy, PartialEq, Eq, Structural)]
pub enum Ranking {
    /// Vandal Patrol: by rating.
    Rating,
    /// Call the Surge: by points.
    Points,
}

/// What a player is sorted by.
#[derive(Debug, Clone, Copy, PartialEq, Eq, Structural)]
pub enum Column {
    Rating,
    Points,
    Handle,
}

/// One key of a sort order.
#[derive(Debug, Clone, Copy, PartialEq, Eq, Structural)]
pub struct SortKey {
    pub column: Column,
    pub descending: bool,
}

impl Ranking {
    /// The sort order of a ranking: the highest first, and ties by handle, ascending.
    pub fn order(&self) -> (r: Vec<SortKey>)
        ensures
            r@ == seq![
                SortKey {
                    column: match self {
                        Ranking::Rating => Column::Rating,
                        Ranking::Points => Column::Points,
                    },
                    descending: true,
                },
                SortKey { column: Column::Handle, descending: false },
            ],
    {
        let column: Column = match self {
            Ranking::Rating => Column::Rating,
            Ranking::Points => Column::Points,
        };
        let mut out: Vec<SortKey> = Vec::new();
        out.push(SortKey { column, descending: true });
        out.push(SortKey { column: Column::Handle, descending: false });
        out
    }
}

/// A leaderboard to show.
#[derive(Debug)]
pub struct Board {
    /// The mode as it was asked for.
    pub mode: String,
    pub ranking: Ranking,
    pub limit: i64,
}

/// The leaderboard's mode: what was asked for, or `patrol`.
pub open spec fn mode_of(asked: Option<String>) -> Seq<char> {
    match asked {
        Some(mode) => mode@,
        None => "patrol"@,
    }
}

/// The leaderboard: twenty players unless asked otherwise, and at most a hundred. Any mode
/// but `surge` ranks by rating.
pub fn leaderboard(database: bool, q: &BoardQuery) -> (r: Result<Board, Refusal>)
    ensures
        match r {
            Ok(board) => {
                &&& database
                &&& board.mode@ == mode_of(q.mode)
                &&& board.mode@ == match q.mode {
                    Some(mode) => mode@,
                    None => "patrol"@,
                }
                &&& board.ranking == if mode_of(q.mode) == "surge"@ {
                    Ranking::Points
                } else {
                    Ranking::Rating
                }
                &&& board.limit == limit_of(q.limit, 20, 100)
            },
            Err(why) => !database && why == Refusal::ServiceUnavailable,
        },
{
    if !database {
        return Err(Refusal::ServiceUnavailable);
    }
    let limit: i64 = clamp_limit(q.limit, 20, 100);
    let mode: String = match &q.mode {
        Some(asked) => asked.clone(),
        None => "patrol".to_owned(),
    };
    let ranking: Ranking = if text::text_eq(mode.as_str(), "surge") {
        Ranking::Points
    } else {
        Ranking::Rating
    };
    Ok(Board { mode, ranking, limit })
}

/// The highest entries of a scored board.
pub open spec fn board_words(board: Seq<char>, limit: int) -> Seq<Seq<char>> {
    seq!["ZREVRANGE"@, board, text::decimal(0), text::decimal(limit - 1), "WITHSCORES"@]
}

/// The query for a scored board: twenty entries unless asked otherwise, and at most a
/// hundred.
fn scored_board(cache: bool, board: &str, q: &LimitQuery) -> (r: Result<Command, Refusal>)
    ensures
        match r {
            Ok(c) => cache && c@ == board_words(board@, limit_of(q.limit, 20, 100)),
            Err(why) => !cache && why == Refusal::ServiceUnavailable,
        },
{
    if !cache {
        return Err(Refusal::ServiceUnavailable);
    }
    let limit: i64 = clamp_limit(q.limit, 20, 100);
    let c: Command = Command::new("ZREVRANGE").arg(board).arg_i64(0).arg_i64(limit - 1).arg(
        "WITHSCORES",
    );
    assert(c@ =~= board_words(board@, limit_of(q.limit, 20, 100)));
    Ok(c)
}

/// The most fought-over articles right now.
pub fn controversy(cache: bool, q: &LimitQuery) -> (r: Result<Command, Refusal>)
    ensures
        match r {
            Ok(c) => cache && c@ == board_words(
                radar::CONTROVERSY_BOARD@,
                limit_of(q.limit, 20, 100),
            ),
            Err(why) => !cache && why == Refusal::ServiceUnavailable,
        },
        r matches Ok(c) ==> c@ == seq![
            "ZREVRANGE"@,
            "pulse:controversy"@,
            text::decimal(0),
            text::decimal(limit_of(q.limit, 20, 100) - 1),
            "WITHSCORES"@,
        ],
{
    scored_board(cache, radar::CONTROVERSY_BOARD, q)
}

/// Asks whether an article is at war; it is where anything answers.
pub fn war_query(article: &str) -> (r: Command)
    ensures
        r@ == seq!["GET"@, "pulse:war:"@ + article@],
{
    let key: String = radar::war_key(article);
    let c: Command = Command::new("GET").arg(key.as_str());
    assert(c@ =~= seq!["GET"@, key@]);
    c
}

/// The candidates that a Surge bet is made on.
pub fn watchlist(cache: bool, q: &LimitQuery) -> (r: Result<Command, Refusal>)
    ensures
        match r {
            Ok(c) => cache && c@ == board_words(WATCHLIST@, limit_of(q.limit, 20, 100)),
            Err(why) => !cache && why == Refusal::ServiceUnavailable,
        },
        r matches Ok(c) ==> c@ == seq![
            "ZREVRANGE"@,
            "pulse:watchlist"@,
            text::decimal(0),
            text::decimal(limit_of(q.limit, 20, 100) - 1),
            "WITHSCORES"@,
        ],
{
    scored_board(cache, WATCHLIST, q)
}

/// The revert incidents behind a radar row: how many are shown, fifty unless asked
/// otherwise, and at most two hundred.
pub fn incidents(database: bool, q: &IncidentQuery) -> (r: Result<i64, Refusal>)
    ensures
        match r {
            Ok(limit) => database && limit == limit_of(q.limit, 50, 200),
            Err(why) => !database && why == Refusal::ServiceUnavailable,
        },
{
    if !database {
        return Err(Refusal::ServiceUnavailable);
    }
    Ok(clamp_limit(q.limit, 50, 200))
}

// ---------------------------------------------------------------------------
// Laws
// ---------------------------------------------------------------------------

/// Distinct refusals have distinct statuses, all of them errors.
pub proof fn law_refusals_are_told_apart(a: Refusal, b: Refusal)
    ensures
        a.status_code() == b.status_code() ==> a == b,
        400 <= a.status_code() < 600,
{
}

/// However many entries are asked for, between one and the most are shown, and a request
/// within bounds is granted as it is.
pub proof fn law_limits_are_bounded(asked: Option<i64>, default: int, most: int)
    requires
        1 <= most,
    ensures
        1 <= limit_of(asked, default, most) <= most,
        asked matches Some(n) && 1 <= n <= most ==> limit_of(asked, default, most) == asked->0,
{
}

/// A bet runs for an hour: it wins exactly where its article is detected after it was placed
/// and less than sixty minutes later.
pub proof fn law_bets_run_for_an_hour(bet: settle::OpenBet, detected_at_us: int)
    requires
        bet.expires_at_us == bet.placed_at_us + SURGE_WINDOW_MINS * 60_000_000,
    ensures
        settle::bet_wins(bet, detected_at_us) == (0 < detected_at_us - bet.placed_at_us
            < 60 * 60_000_000),
{
}

/// A queued call is loaded when it falls due: its queue member is read as its id.
pub proof fn law_queued_calls_are_loaded_when_due(
    call_id: i64,
    due: Seq<Seq<char>>,
    at: int,
    settled: nat,
)
    requires
        0 <= at < due.len(),
        due[at] == text::decimal(call_id as int),
    ensures
        settle::turned_to(due, at, settled).1 == settle::StepView::LoadCall(call_id),
{
    text::law_decimal_round_trip(call_id);
}

/// Whoever sends back the session cookie that they were given is taken for that player.
pub proof fn law_sessions_are_recognised(secret: Seq<u8>, player_id: i64, cookies: &str)
    requires
        cookies@ == session::cookie_pair(secret, player_id as int),
    ensures
        session_player(secret, Some(cookies)) == Some(player_id),
{
    session::law_session_round_trip(secret, player_id);
}

/// What is asked for beyond the bounds is moved to the nearest one, and who asks for nothing
/// is shown what asking for the default would show.
pub proof fn law_limits_are_moved_into_bounds(asked: i64, default: i64, most: int)
    requires
        1 <= most,
    ensures
        asked <= 1 ==> limit_of(Some(asked), default as int, most) == 1,
        asked >= most ==> limit_of(Some(asked), default as int, most) == most,
        limit_of(None, default as int, most) == limit_of(Some(default), asked as int, most),
{
}

/// A handle has one to twenty-four characters, a call names an article and a revision, and a
/// stake is of one to a hundred points on a named article.
pub proof fn law_what_a_player_may_send(name: Seq<char>, n: int)
    ensures
        handle_ok(name) <==> 1 <= name.len() <= 24,
        call_ok(name, n) <==> name.len() >= 1 && n >= 1,
        bet_ok(name, n) <==> name.len() >= 1 && 1 <= n <= 100,
{
}

} // verus!
