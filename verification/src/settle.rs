//! Settlement of Vandal Patrol calls and of Surge bets.
//!
//! Reality grades the player: a call is settled by whether a real revert landed on that
//! article inside the deadline, and a bet by whether the detector's own gates confirmed the
//! article. Both outcomes arrive on the same stream that the player was looking at. The
//! ratings are floating point and are computed by the caller from what is decided here.

use vstd::prelude::*;
use crate::command::{expire, Command};
use crate::{command, keys, text};

verus! {

/// An hour of reverts is kept per article, in milliseconds. A patrol deadline is ten
/// minutes, so that is ample.
pub const REVERT_HISTORY_MS: i64 = 3_600_000;

/// The same hour, in seconds.
pub const REVERT_HISTORY_SECS: i64 = 3_600;

/// What begins the member of a revert that named a revision.
pub const NAMED: &'static str = "rev:";

/// What begins the member of a revert that named none.
pub const UNNAMED: &'static str = "any:";

// ---------------------------------------------------------------------------
// Reverts
// ---------------------------------------------------------------------------

/// The key of an article's strong reverts.
pub open spec fn reverts_key_text(article: Seq<char>) -> Seq<char> {
    "pulse:reverts:"@ + article
}

/// Strong reverts per article, scored by their event time, so that settlement can ask
/// whether an edit was reverted without scanning the database.
pub fn reverts_key(article: &str) -> (r: String)
    ensures
        r@ == reverts_key_text(article@),
        r@ == "pulse:reverts:"@ + article@,
{
    text::join2("pulse:reverts:", article)
}

/// What stands for a revert: the revision that it named, or else the moment it came at, so
/// that two reverts that named none do not collapse into one.
pub open spec fn revert_member(rev_id: Option<i64>, now_ms: int) -> Seq<char> {
    match rev_id {
        Some(id) => NAMED@ + text::decimal(id as int),
        None => UNNAMED@ + text::decimal(now_ms),
    }
}

/// Records a strong revert for settlement.
pub fn record_revert_for_settlement(article: &str, rev_id: Option<i64>, now_ms: i64) -> (r: Vec<
    Command,
>)
    requires
        now_ms - REVERT_HISTORY_MS >= i64::MIN,
    ensures
        command::pipeline(r@) == seq![
            seq![
                "ZADD"@,
                reverts_key_text(article@),
                text::decimal(now_ms as int),
                revert_member(rev_id, now_ms as int),
            ],
            seq![
                "ZREMRANGEBYSCORE"@,
                reverts_key_text(article@),
                "-inf"@,
                text::decimal(now_ms - REVERT_HISTORY_MS),
            ],
            command::expire_words(reverts_key_text(article@), REVERT_HISTORY_SECS as int),
        ],
        command::pipeline(r@)[0] == seq![
            "ZADD"@,
            "pulse:reverts:"@ + article@,
            text::decimal(now_ms as int),
            match rev_id {
                Some(id) => "rev:"@ + text::decimal(id as int),
                None => "any:"@ + text::decimal(now_ms as int),
            },
        ],
        command::pipeline(r@)[1] == seq![
            "ZREMRANGEBYSCORE"@,
            "pulse:reverts:"@ + article@,
            "-inf"@,
            text::decimal(now_ms - 60 * 60 * 1000),
        ],
        command::pipeline(r@)[2] == seq![
            "EXPIRE"@,
            "pulse:reverts:"@ + article@,
            text::decimal(3600),
        ],
{
    let key: String = reverts_key(article);
    let member: String = match rev_id {
        Some(id) => {
            let named: String = text::format_i64(id);
            text::join2(NAMED, named.as_str())
        },
        None => {
            let moment: String = text::format_i64(now_ms);
            text::join2(UNNAMED, moment.as_str())
        },
    };
    let mut out: Vec<Command> = Vec::new();
    out.push(Command::new("ZADD").arg(key.as_str()).arg_i64(now_ms).arg(member.as_str()));
    out.push(
        Command::new("ZREMRANGEBYSCORE").arg(key.as_str()).arg("-inf").arg_i64(
            now_ms - REVERT_HISTORY_MS,
        ),
    );
    out.push(expire(key.as_str(), REVERT_HISTORY_SECS));
    assert(out@[0]@ =~= seq![
        "ZADD"@,
        key@,
        text::decimal(now_ms as int),
        revert_member(rev_id, now_ms as int),
    ]);
    assert(out@[1]@ =~= seq![
        "ZREMRANGEBYSCORE"@,
        key@,
        "-inf"@,
        text::decimal(now_ms - REVERT_HISTORY_MS),
    ]);
    assert(command::pipeline(out@) =~= seq![
        seq![
            "ZADD"@,
            key@,
            text::decimal(now_ms as int),
            revert_member(rev_id, now_ms as int),
        ],
        seq!["ZREMRANGEBYSCORE"@, key@, "-inf"@, text::decimal(now_ms - REVERT_HISTORY_MS)],
        command::expire_words(key@, REVERT_HISTORY_SECS as int),
    ]);
    out
}

/// A member stands for a strong revert, whether or not it named a revision.
pub open spec fn is_revert(member: Seq<char>) -> bool {
    text::begins_with(member, NAMED@) || text::begins_with(member, UNNAMED@)
}

/// A strong revert landed in a call's window. Any one on the article counts, whatever
/// revision it named: plenty of real revert comments name the editor but not the revision.
pub open spec fn landed(members: Seq<Seq<char>>) -> bool {
    exists|i: int| 0 <= i < members.len() && is_revert(#[trigger] members[i])
}

/// Did a strong revert land on this article inside the call's window?
pub fn revert_landed(members: &Vec<String>) -> (r: bool)
    ensures
        r == landed(text::texts(members@)),
        r == holds_a_revert(text::texts(members@)),
{
    proof {
        lemma_landed(text::texts(members@));
    }
    let ghost view = text::texts(members@);
    let mut i: usize = 0;
    while i < members.len()
        invariant
            i <= members@.len(),
            view == text::texts(members@),
            forall|j: int| 0 <= j < i ==> !is_revert(#[trigger] view[j]),
        decreases members@.len() - i,
    {
        assert(view[i as int] == members@[i as int]@);
        if text::starts_with(members[i].as_str(), NAMED) || text::starts_with(
            members[i].as_str(),
            UNNAMED,
        ) {
            proof {
                lemma_landed(view);
            }
            return true;
        }
        i = i + 1;
    }
    false
}

/// Was the player right? Verdict `true` means vandalism, which reality confirms by
/// reverting the edit.
pub fn call_is_correct(verdict: bool, was_reverted: bool) -> (r: bool)
    ensures
        r == (verdict == was_reverted),
{
    verdict == was_reverted
}

// ---------------------------------------------------------------------------
// The settlement of due calls
// ---------------------------------------------------------------------------

/// A call that awaits settlement, as the database holds it.
#[derive(Debug, Clone)]
pub struct OpenCall {
    pub player_id: Option<i64>,
    pub article: String,
    pub rev_id: i64,
    /// `true` is vandalism.
    pub verdict: bool,
    pub called_at_ms: i64,
    pub deadline_ms: i64,
}

/// What an open call says.
pub struct OpenCallView {
    pub player_id: Option<i64>,
    pub article: Seq<char>,
    pub rev_id: i64,
    pub verdict: bool,
    pub called_at_ms: i64,
    pub deadline_ms: i64,
}

impl View for OpenCall {
    type V = OpenCallView;

    open spec fn view(&self) -> OpenCallView {
        OpenCallView {
            player_id: self.player_id,
            article: self.article@,
            rev_id: self.rev_id,
            verdict: self.verdict,
            called_at_ms: self.called_at_ms,
            deadline_ms: self.deadline_ms,
        }
    }
}

/// How a call ends.
#[derive(Debug, Clone, Copy, PartialEq, Eq, Structural)]
pub struct Outcome {
    pub call_id: i64,
    pub player_id: Option<i64>,
    pub was_reverted: bool,
    pub correct: bool,
}

/// What the settlement asks for next.
#[derive(Debug)]
pub enum Step {
    /// Send the command that reads the due members of the queue.
    ReadDue(Command),
    /// Load the call with this id, if it is not settled yet.
    LoadCall(i64),
    /// Send the command that reads the reverts of a call's window.
    ReadReverts(Command),
    /// Store how a call ended, with the player's new rating, in one transaction.
    Store(Outcome),
    /// Send the command that drops a member from the queue, whatever its reply.
    Forget(Command),
    /// All due calls are dealt with; so many were settled.
    Done(usize),
}

/// What a step asks for.
pub enum StepView {
    ReadDue(Seq<Seq<char>>),
    LoadCall(i64),
    ReadReverts(Seq<Seq<char>>),
    Store(Outcome),
    Forget(Seq<Seq<char>>),
    Done(nat),
}

impl View for Step {
    type V = StepView;

    open spec fn view(&self) -> StepView {
        match self {
            Step::ReadDue(c) => StepView::ReadDue(c@),
            Step::LoadCall(id) => StepView::LoadCall(*id),
            Step::ReadReverts(c) => StepView::ReadReverts(c@),
            Step::Store(o) => StepView::Store(*o),
            Step::Forget(c) => StepView::Forget(c@),
            Step::Done(n) => StepView::Done(*n as nat),
        }
    }
}

/// What came of a step.
#[derive(Debug)]
pub enum Reply {
    /// The due members; none where they could not be read.
    DueRead(Vec<String>),
    /// The call, or `None` where it is settled already or gone.
    CallLoaded(Option<OpenCall>),
    /// The members of the window; none where they could not be read.
    RevertsRead(Vec<String>),
    /// The outcome is stored.
    Stored,
    /// The member was to be dropped.
    Forgotten,
}

/// What a reply says.
pub enum ReplyView {
    DueRead(Seq<Seq<char>>),
    CallLoaded(Option<OpenCallView>),
    RevertsRead(Seq<Seq<char>>),
    Stored,
    Forgotten,
}

impl View for Reply {
    type V = ReplyView;

    open spec fn view(&self) -> ReplyView {
        match self {
            Reply::DueRead(members) => ReplyView::DueRead(text::texts(members@)),
            Reply::CallLoaded(Some(call)) => ReplyView::CallLoaded(Some(call@)),
            Reply::CallLoaded(None) => ReplyView::CallLoaded(None),
            Reply::RevertsRead(members) => ReplyView::RevertsRead(text::texts(members@)),
            Reply::Stored => ReplyView::Stored,
            Reply::Forgotten => ReplyView::Forgotten,
        }
    }
}

/// What the settlement waits for.
#[derive(Debug)]
pub enum Phase {
    Fetching,
    Loading(i64),
    Judging(i64, OpenCall),
    Storing,
    Forgetting,
    Finished,
}

/// What a phase says.
pub enum PhaseView {
    Fetching,
    Loading(i64),
    Judging(i64, OpenCallView),
    Storing,
    Forgetting,
    Finished,
}

impl View for Phase {
    type V = PhaseView;

    open spec fn view(&self) -> PhaseView {
        match self {
            Phase::Fetching => PhaseView::Fetching,
            Phase::Loading(id) => PhaseView::Loading(*id),
            Phase::Judging(id, call) => PhaseView::Judging(*id, call@),
            Phase::Storing => PhaseView::Storing,
            Phase::Forgetting => PhaseView::Forgetting,
            Phase::Finished => PhaseView::Finished,
        }
    }
}

/// The settlement of every call whose deadline has passed, one step at a time: each step
/// is carried out by the caller, who hands back what came of it.
#[derive(Debug)]
pub struct Settlement {
    /// The due members of the queue.
    pub due: Vec<String>,
    /// The member that is being dealt with.
    pub at: usize,
    /// How many calls were settled.
    pub settled: usize,
    pub phase: Phase,
}

/// What a settlement is at.
pub struct SettlementView {
    pub due: Seq<Seq<char>>,
    pub at: int,
    pub settled: nat,
    pub phase: PhaseView,
}

impl View for Settlement {
    type V = SettlementView;

    open spec fn view(&self) -> SettlementView {
        SettlementView {
            due: text::texts(self.due@),
            at: self.at as int,
            settled: self.settled as nat,
            phase: self.phase@,
        }
    }
}

/// `ZRANGEBYSCORE pulse:settle -inf now`: every member that is due.
pub open spec fn due_words(now_ms: int) -> Seq<Seq<char>> {
    seq!["ZRANGEBYSCORE"@, keys::SETTLE_QUEUE@, "-inf"@, text::decimal(now_ms)]
}

/// `ZREM pulse:settle member`: a member leaves the queue.
pub open spec fn forget_words(member: Seq<char>) -> Seq<Seq<char>> {
    seq!["ZREM"@, keys::SETTLE_QUEUE@, member]
}

/// `ZRANGEBYSCORE pulse:reverts:article from to`: the reverts of a call's window.
pub open spec fn window_words(call: OpenCallView) -> Seq<Seq<char>> {
    seq![
        "ZRANGEBYSCORE"@,
        reverts_key_text(call.article),
        text::decimal(call.called_at_ms as int),
        text::decimal(call.deadline_ms as int),
    ]
}

/// How a call ends, given the reverts of its window.
pub open spec fn judged(id: i64, call: OpenCallView, members: Seq<Seq<char>>) -> Outcome {
    let was_reverted = landed(members);
    Outcome {
        call_id: id,
        player_id: call.player_id,
        was_reverted,
        correct: call.verdict == was_reverted,
    }
}

/// Turning to the member at `at`: its call is loaded where the member is a call id, and
/// anything else is dropped rather than retried forever.
pub open spec fn turned_to(due: Seq<Seq<char>>, at: int, settled: nat) -> (
    SettlementView,
    StepView,
) {
    if at >= due.len() {
        (
            SettlementView { due, at, settled, phase: PhaseView::Finished },
            StepView::Done(settled),
        )
    } else {
        match text::i64_value(due[at]) {
            Some(id) => (
                SettlementView { due, at, settled, phase: PhaseView::Loading(id) },
                StepView::LoadCall(id),
            ),
            None => (
                SettlementView { due, at, settled, phase: PhaseView::Forgetting },
                StepView::Forget(forget_words(due[at])),
            ),
        }
    }
}

/// The reply is one to the step that was asked for.
pub open spec fn expects(phase: PhaseView, reply: ReplyView) -> bool {
    match phase {
        PhaseView::Fetching => reply is DueRead,
        PhaseView::Loading(_) => reply is CallLoaded,
        PhaseView::Judging(_, _) => reply is RevertsRead,
        PhaseView::Storing => reply is Stored,
        PhaseView::Forgetting => reply is Forgotten,
        PhaseView::Finished => false,
    }
}

/// The settlement and the next step after a reply.
pub open spec fn after(s: SettlementView, reply: ReplyView) -> (SettlementView, StepView) {
    match (s.phase, reply) {
        (PhaseView::Fetching, ReplyView::DueRead(due)) => turned_to(due, 0, 0),
        (PhaseView::Loading(_), ReplyView::CallLoaded(None)) => (
            SettlementView { phase: PhaseView::Forgetting, ..s },
            StepView::Forget(forget_words(s.due[s.at])),
        ),
        (PhaseView::Loading(id), ReplyView::CallLoaded(Some(call))) => (
            SettlementView { phase: PhaseView::Judging(id, call), ..s },
            StepView::ReadReverts(window_words(call)),
        ),
        (PhaseView::Judging(id, call), ReplyView::RevertsRead(members)) => (
            SettlementView { phase: PhaseView::Storing, ..s },
            StepView::Store(judged(id, call, members)),
        ),
        (PhaseView::Storing, ReplyView::Stored) => (
            SettlementView { phase: PhaseView::Forgetting, settled: s.settled + 1, ..s },
            StepView::Forget(forget_words(s.due[s.at])),
        ),
        (PhaseView::Forgetting, ReplyView::Forgotten) => turned_to(s.due, s.at + 1, s.settled),
        _ => (s, StepView::Done(s.settled)),
    }
}

impl Settlement {
    /// The member that is dealt with is one of the due ones, and no more calls are settled
    /// than members were dealt with.
    pub open spec fn wf(&self) -> bool {
        &&& self.at <= self.due@.len()
        &&& self.phase is Finished || self.phase is Fetching || self.at < self.due@.len()
        &&& self.settled <= self.at + (if self.phase is Forgetting {
            1int
        } else {
            0int
        })
    }

    /// Begins to settle what is due at `now_ms`.
    pub fn start(now_ms: i64) -> (r: (Settlement, Step))
        ensures
            r.0.wf(),
            r.0@.phase is Fetching,
            r.1@ == StepView::ReadDue(due_words(now_ms as int)),
            r.1@ == StepView::ReadDue(
                seq!["ZRANGEBYSCORE"@, "pulse:settle"@, "-inf"@, text::decimal(now_ms as int)],
            ),
    {
        let c: Command = Command::new("ZRANGEBYSCORE").arg(keys::SETTLE_QUEUE).arg("-inf").arg_i64(
            now_ms,
        );
        assert(c@ =~= due_words(now_ms as int));
        (
            Settlement { due: Vec::new(), at: 0, settled: 0, phase: Phase::Fetching },
            Step::ReadDue(c),
        )
    }

    /// Turns to the member at `at`.
    fn turn_to(due: Vec<String>, at: usize, settled: usize) -> (r: (Settlement, Step))
        requires
            at <= due@.len(),
            settled <= at,
        ensures
            r.0.wf(),
            (r.0@, r.1@) == turned_to(text::texts(due@), at as int, settled as nat),
    {
        if at >= due.len() {
            return (
                Settlement { due, at, settled, phase: Phase::Finished },
                Step::Done(settled),
            );
        }
        match text::parse_i64(due[at].as_str()) {
            Some(id) => (
                Settlement { due, at, settled, phase: Phase::Loading(id) },
                Step::LoadCall(id),
            ),
            None => {
                let step: Step = Step::Forget(forget(due[at].as_str()));
                (Settlement { due, at, settled, phase: Phase::Forgetting }, step)
            },
        }
    }

    /// Goes on after a reply: the settlement as it then is, and the next step.
    pub fn resume(self, reply: Reply) -> (r: (Settlement, Step))
        requires
            self.wf(),
            expects(self@.phase, reply@),
        ensures
            r.0.wf(),
            (r.0@, r.1@) == after(self@, reply@),
    {
        let Settlement { due, at, settled, phase } = self;
        assert(due.len() == due@.len());
        match (phase, reply) {
            (Phase::Fetching, Reply::DueRead(members)) => Settlement::turn_to(members, 0, 0),
            (Phase::Loading(_), Reply::CallLoaded(None)) => {
                let step: Step = Step::Forget(forget(due[at].as_str()));
                (Settlement { due, at, settled, phase: Phase::Forgetting }, step)
            },
            (Phase::Loading(id), Reply::CallLoaded(Some(call))) => {
                let key: String = reverts_key(call.article.as_str());
                let c: Command = Command::new("ZRANGEBYSCORE").arg(key.as_str()).arg_i64(
                    call.called_at_ms,
                ).arg_i64(call.deadline_ms);
                assert(c@ =~= window_words(call@));
                (
                    Settlement { due, at, settled, phase: Phase::Judging(id, call) },
                    Step::ReadReverts(c),
                )
            },
            (Phase::Judging(id, call), Reply::RevertsRead(members)) => {
                let was_reverted: bool = revert_landed(&members);
                let outcome: Outcome = Outcome {
                    call_id: id,
                    player_id: call.player_id,
                    was_reverted,
                    correct: call_is_correct(call.verdict, was_reverted),
                };
                (Settlement { due, at, settled, phase: Phase::Storing }, Step::Store(outcome))
            },
            (Phase::Storing, Reply::Stored) => {
                let step: Step = Step::Forget(forget(due[at].as_str()));
                (Settlement { due, at, settled: settled + 1, phase: Phase::Forgetting }, step)
            },
            (Phase::Forgetting, Reply::Forgotten) => Settlement::turn_to(due, at + 1, settled),
            (phase, _) => (Settlement { due, at, settled, phase }, Step::Done(settled)),
        }
    }
}

/// The command that drops a member from the queue.
fn forget(member: &str) -> (r: Command)
    ensures
        r@ == forget_words(member@),
{
    let c: Command = Command::new("ZREM").arg(keys::SETTLE_QUEUE).arg(member);
    assert(c@ =~= forget_words(member@));
    c
}

// ---------------------------------------------------------------------------
// Bets and flags
// ---------------------------------------------------------------------------

/// What a won bet pays. The stake was deducted at placement; a win returns it doubled.
pub fn surge_payout(stake: i32) -> (r: i64)
    ensures
        r == 2 * stake,
{
    stake as i64 * 2
}

/// A Surge bet that is not settled yet. Moments are in microseconds.
#[derive(Debug, Clone, Copy, PartialEq, Eq, Structural)]
pub struct OpenBet {
    pub id: i64,
    pub player_id: Option<i64>,
    pub stake: i32,
    pub placed_at_us: i64,
    pub expires_at_us: i64,
}

/// A bet that was won: who is paid, and how much.
#[derive(Debug, Clone, Copy, PartialEq, Eq, Structural)]
pub struct Win {
    pub bet_id: i64,
    pub player_id: Option<i64>,
    pub points: i64,
}

/// A bet wins where its article was detected after it was placed and before it expired:
/// paid only if you called it before confirmation.
pub open spec fn bet_wins(bet: OpenBet, detected_at_us: int) -> bool {
    bet.placed_at_us < detected_at_us < bet.expires_at_us
}

/// What a winning bet is paid.
pub open spec fn win_of(bet: OpenBet) -> Win {
    Win { bet_id: bet.id, player_id: bet.player_id, points: (2 * bet.stake) as i64 }
}

/// What the winning ones among some bets are paid, in order.
pub open spec fn wins_of(bets: Seq<OpenBet>, detected_at_us: int) -> Seq<Win>
    decreases bets.len(),
{
    if bets.len() == 0 {
        Seq::empty()
    } else if bet_wins(bets.last(), detected_at_us) {
        wins_of(bets.drop_last(), detected_at_us).push(win_of(bets.last()))
    } else {
        wins_of(bets.drop_last(), detected_at_us)
    }
}

/// Settles the open Surge bets on an article when it confirms: which of them win, and what
/// they are paid. The others stay open until they expire.
pub fn settle_surge_on_confirmation(bets: &Vec<OpenBet>, detected_at_us: i64) -> (r: Vec<Win>)
    ensures
        r@ == wins_of(bets@, detected_at_us as int),
{
    let mut out: Vec<Win> = Vec::new();
    let mut i: usize = 0;
    assert(bets@.take(0) =~= Seq::<OpenBet>::empty());
    while i < bets.len()
        invariant
            i <= bets@.len(),
            out@ == wins_of(bets@.take(i as int), detected_at_us as int),
        decreases bets@.len() - i,
    {
        assert(bets@.take(i + 1).drop_last() =~= bets@.take(i as int));
        assert(bets@.take(i + 1).last() == bets@[i as int]);
        let bet: OpenBet = bets[i];
        if bet.placed_at_us < detected_at_us && detected_at_us < bet.expires_at_us {
            out.push(
                Win {
                    bet_id: bet.id,
                    player_id: bet.player_id,
                    points: surge_payout(bet.stake),
                },
            );
        }
        i = i + 1;
    }
    assert(bets@.take(i as int) =~= bets@);
    out
}

/// The key of the flag that the first responder to an article set.
pub open spec fn flag_key_text(article: Seq<char>) -> Seq<char> {
    "pulse:flag:"@ + article
}

/// The key of the flag that the first responder to an article set.
pub fn flag_key(article: &str) -> (r: String)
    ensures
        r@ == flag_key_text(article@),
        r@ == "pulse:flag:"@ + article@,
{
    text::join2("pulse:flag:", article)
}

/// Asks who flagged an article first.
pub fn first_flagger(article: &str) -> (r: Command)
    ensures
        r@ == seq!["GET"@, flag_key_text(article@)],
{
    let key: String = flag_key(article);
    let c: Command = Command::new("GET").arg(key.as_str());
    assert(c@ =~= seq!["GET"@, key@]);
    c
}

/// Takes an article's flag down, once it is credited.
pub fn drop_flag(article: &str) -> (r: Command)
    ensures
        r@ == seq!["DEL"@, flag_key_text(article@)],
{
    let key: String = flag_key(article);
    let c: Command = Command::new("DEL").arg(key.as_str());
    assert(c@ =~= seq!["DEL"@, key@]);
    c
}

// ---------------------------------------------------------------------------
// Laws
// ---------------------------------------------------------------------------

/// What is recorded of a revert stands for a revert.
proof fn lemma_recorded(named: Option<i64>, at_ms: int)
    ensures
        is_revert(revert_member(named, at_ms)),
{
    let m = revert_member(named, at_ms);
    assert(named is Some ==> m.subrange(0, NAMED@.len() as int) =~= NAMED@);
    assert(named is None ==> m.subrange(0, UNNAMED@.len() as int) =~= UNNAMED@);
}

/// Reality is any strong revert on the article: where a window holds recorded reverts,
/// whatever revisions they named, a call counts as reverted exactly where there is one.
pub proof fn law_any_recorded_revert_settles(
    members: Seq<Seq<char>>,
    named: Seq<Option<i64>>,
    at_ms: Seq<int>,
)
    requires
        members.len() == named.len(),
        members.len() == at_ms.len(),
        forall|i: int|
            0 <= i < members.len() ==> #[trigger] members[i] == revert_member(named[i], at_ms[i]),
    ensures
        landed(members) == (members.len() > 0),
{
    if members.len() > 0 {
        lemma_recorded(named[0], at_ms[0]);
        assert(is_revert(members[0]));
    }
}

/// What the stores hold while a settlement runs: the open calls by id, and what a window
/// query reads.
pub struct World {
    pub calls: spec_fn(i64) -> Option<OpenCallView>,
    pub reverts: spec_fn(Seq<Seq<char>>) -> Seq<Seq<char>>,
}

/// What comes of a step.
pub open spec fn answer(world: World, due: Seq<Seq<char>>, step: StepView) -> ReplyView {
    match step {
        StepView::ReadDue(_) => ReplyView::DueRead(due),
        StepView::LoadCall(id) => ReplyView::CallLoaded((world.calls)(id)),
        StepView::ReadReverts(words) => ReplyView::RevertsRead((world.reverts)(words)),
        StepView::Store(_) => ReplyView::Stored,
        StepView::Forget(_) => ReplyView::Forgotten,
        StepView::Done(_) => ReplyView::Forgotten,
    }
}

/// The steps that a settlement asks for, the first `fuel` of them, where each is answered
/// by the world.
pub open spec fn steps(
    world: World,
    due: Seq<Seq<char>>,
    s: SettlementView,
    step: StepView,
    fuel: nat,
) -> Seq<StepView>
    decreases fuel,
{
    if fuel == 0 {
        Seq::empty()
    } else if step is Done {
        seq![step]
    } else {
        let (next, next_step) = after(s, answer(world, due, step));
        seq![step] + steps(world, due, next, next_step, (fuel - 1) as nat)
    }
}

/// Whether a due member is a call that can be settled.
pub open spec fn settles(world: World, member: Seq<char>) -> bool {
    match text::i64_value(member) {
        Some(id) => (world.calls)(id) is Some,
        None => false,
    }
}

/// What is owed to one due member: a call that is still open is loaded, judged by the
/// reverts of its window and stored; and whatever it was, it is then forgotten.
pub open spec fn member_steps(world: World, member: Seq<char>) -> Seq<StepView> {
    match text::i64_value(member) {
        None => seq![StepView::Forget(forget_words(member))],
        Some(id) => match (world.calls)(id) {
            None => seq![StepView::LoadCall(id), StepView::Forget(forget_words(member))],
            Some(call) => seq![
                StepView::LoadCall(id),
                StepView::ReadReverts(window_words(call)),
                StepView::Store(judged(id, call, (world.reverts)(window_words(call)))),
                StepView::Forget(forget_words(member)),
            ],
        },
    }
}

/// What is owed to every due member, in order.
pub open spec fn all_steps(world: World, due: Seq<Seq<char>>) -> Seq<StepView>
    decreases due.len(),
{
    if due.len() == 0 {
        Seq::empty()
    } else {
        member_steps(world, due[0]) + all_steps(world, due.skip(1))
    }
}

/// How many of the due members are calls that can be settled.
pub open spec fn settled_count(world: World, due: Seq<Seq<char>>) -> nat
    decreases due.len(),
{
    if due.len() == 0 {
        0
    } else {
        (if settles(world, due[0]) {
            1nat
        } else {
            0nat
        }) + settled_count(world, due.skip(1))
    }
}

/// One step is asked for, and then those that come after its answer.
proof fn lemma_next_step(
    world: World,
    due: Seq<Seq<char>>,
    s: SettlementView,
    step: StepView,
    fuel: nat,
) -> (next: (SettlementView, StepView))
    requires
        fuel > 0,
        !(step is Done),
    ensures
        next == after(s, answer(world, due, step)),
        steps(world, due, s, step, fuel) == seq![step] + steps(
            world,
            due,
            next.0,
            next.1,
            (fuel - 1) as nat,
        ),
{
    after(s, answer(world, due, step))
}

/// From any member on, the settlement does what is owed to it and to those after it.
proof fn lemma_steps_from(
    world: World,
    due: Seq<Seq<char>>,
    at: int,
    settled: nat,
    fuel: nat,
)
    requires
        0 <= at <= due.len(),
        fuel >= 4 * (due.len() - at) + 1,
    ensures
        steps(
            world,
            due,
            turned_to(due, at, settled).0,
            turned_to(due, at, settled).1,
            fuel,
        ) == all_steps(world, due.skip(at)).push(
            StepView::Done(settled + settled_count(world, due.skip(at))),
        ),
    decreases due.len() - at,
{
    let (s, step) = turned_to(due, at, settled);
    let got = steps(world, due, s, step, fuel);
    if at == due.len() {
        assert(due.skip(at) =~= Seq::<Seq<char>>::empty());
        assert(got =~= seq![StepView::Done(settled)]);
        assert(all_steps(world, due.skip(at)).push(StepView::Done(settled)) =~= seq![
            StepView::Done(settled),
        ]);
    } else {
        let member = due[at];
        let rest = due.skip(at + 1);
        assert(due.skip(at)[0] == member);
        assert(due.skip(at).skip(1) =~= rest);
        let owed = member_steps(world, member);
        let (s1, step1) = lemma_next_step(world, due, s, step, fuel);
        match text::i64_value(member) {
            None => {
                lemma_steps_from(world, due, at + 1, settled, (fuel - 1) as nat);
                let tail = all_steps(world, rest).push(
                    StepView::Done(settled + settled_count(world, rest)),
                );
                assert((owed + all_steps(world, rest)).push(tail.last()) =~= owed + tail);
            },
            Some(id) => match (world.calls)(id) {
                None => {
                    let (s2, step2) = lemma_next_step(world, due, s1, step1, (fuel - 1) as nat);
                    lemma_steps_from(world, due, at + 1, settled, (fuel - 2) as nat);
                    let tail = all_steps(world, rest).push(
                        StepView::Done(settled + settled_count(world, rest)),
                    );
                    assert(seq![step] + (seq![step1] + tail) =~= seq![step, step1] + tail);
                    assert((owed + all_steps(world, rest)).push(tail.last()) =~= owed + tail);
                },
                Some(call) => {
                    let (s2, step2) = lemma_next_step(world, due, s1, step1, (fuel - 1) as nat);
                    let (s3, step3) = lemma_next_step(world, due, s2, step2, (fuel - 2) as nat);
                    let (s4, step4) = lemma_next_step(world, due, s3, step3, (fuel - 3) as nat);
                    lemma_steps_from(world, due, at + 1, settled + 1, (fuel - 4) as nat);
                    let tail = all_steps(world, rest).push(
                        StepView::Done(settled + 1 + settled_count(world, rest)),
                    );
                    assert(seq![step] + (seq![step1] + (seq![step2] + (seq![step3] + tail)))
                        =~= seq![step, step1, step2, step3] + tail);
                    assert((owed + all_steps(world, rest)).push(tail.last()) =~= owed + tail);
                },
            },
        }
    }
}

/// A settlement comes to an end, and on the way does exactly what is owed to each due
/// member, in order: every open call is graded by the reverts of its own window, every
/// member is forgotten once, nothing that is not a due and open call is stored, and the
/// count at the end is that of the calls that were settled.
pub proof fn law_settlement_does_what_is_owed(
    world: World,
    due: Seq<Seq<char>>,
    s: SettlementView,
    now_ms: int,
    fuel: nat,
)
    requires
        s.phase is Fetching,
        fuel >= 4 * due.len() + 2,
    ensures
        steps(world, due, s, StepView::ReadDue(due_words(now_ms)), fuel) == seq![
            StepView::ReadDue(due_words(now_ms)),
        ] + all_steps(world, due).push(StepView::Done(settled_count(world, due))),
{
    lemma_steps_from(world, due, 0, 0, (fuel - 1) as nat);
    assert(due.skip(0) =~= due);
}

/// Bets are paid exactly where they were called in time: every payment is that of a bet that
/// won, and every bet that won is paid, twice its stake.
pub proof fn law_bets_called_in_time_are_paid(bets: Seq<OpenBet>, detected_at_us: int)
    ensures
        forall|i: int|
            0 <= i < bets.len() && bet_wins(#[trigger] bets[i], detected_at_us) ==> wins_of(
                bets,
                detected_at_us,
            ).contains(win_of(bets[i])),
        forall|k: int|
            0 <= k < wins_of(bets, detected_at_us).len() ==> exists|i: int|
                0 <= i < bets.len() && bet_wins(#[trigger] bets[i], detected_at_us) && win_of(
                    bets[i],
                ) == #[trigger] wins_of(bets, detected_at_us)[k],
    decreases bets.len(),
{
    if bets.len() > 0 {
        let front = bets.drop_last();
        let wins = wins_of(bets, detected_at_us);
        let before = wins_of(front, detected_at_us);
        law_bets_called_in_time_are_paid(front, detected_at_us);
        assert forall|i: int|
            0 <= i < bets.len() && bet_wins(#[trigger] bets[i], detected_at_us) implies wins.contains(
            win_of(bets[i]),
        ) by {
            if i < front.len() {
                assert(front[i] == bets[i]);
                let k = choose|k: int| 0 <= k < before.len() && before[k] == win_of(bets[i]);
                assert(wins[k] == before[k]);
            } else {
                assert(wins[wins.len() - 1] == win_of(bets[i]));
            }
        }
        assert forall|k: int| 0 <= k < wins.len() implies exists|i: int|
            0 <= i < bets.len() && bet_wins(#[trigger] bets[i], detected_at_us) && win_of(bets[i])
                == #[trigger] wins[k] by {
            if k < before.len() {
                assert(wins[k] == before[k]);
                let i = choose|i: int|
                    0 <= i < front.len() && bet_wins(#[trigger] front[i], detected_at_us)
                        && win_of(front[i]) == before[k];
                assert(bets[i] == front[i]);
            } else {
                assert(bet_wins(bets[bets.len() - 1], detected_at_us));
            }
        }
    }
}

/// Nobody is paid for a bet that was placed at or after the detection, or that had expired.
pub proof fn law_late_bets_are_not_paid(bets: Seq<OpenBet>, detected_at_us: int)
    requires
        forall|i: int|
            0 <= i < bets.len() ==> (#[trigger] bets[i]).placed_at_us >= detected_at_us
                || bets[i].expires_at_us <= detected_at_us,
    ensures
        wins_of(bets, detected_at_us) == Seq::<Win>::empty(),
{
    law_bets_called_in_time_are_paid(bets, detected_at_us);
    let wins = wins_of(bets, detected_at_us);
    if wins.len() > 0 {
        let first = wins[0];
        assert(exists|i: int|
            0 <= i < bets.len() && bet_wins(#[trigger] bets[i], detected_at_us) && win_of(bets[i])
                == first);
    }
    assert(wins =~= Seq::<Win>::empty());
}

/// A call settled on a verdict of vandalism is correct exactly where its edit was reverted,
/// and one on a verdict of no vandalism exactly where it was not.
pub proof fn law_reality_grades_the_player(id: i64, call: OpenCallView, members: Seq<Seq<char>>)
    ensures
        call.verdict ==> judged(id, call, members).correct == landed(members),
        !call.verdict ==> judged(id, call, members).correct == !landed(members),
{
}

/// Some member begins as a recorded revert does, with `rev:` or with `any:`.
pub open spec fn holds_a_revert(members: Seq<Seq<char>>) -> bool {
    exists|i: int|
        0 <= i < members.len() && (#[trigger] members[i]).len() >= 4 && (members[i].take(4)
            == "rev:"@ || members[i].take(4) == "any:"@)
}

/// Whether a revert landed, told by the members alone.
proof fn lemma_landed(members: Seq<Seq<char>>)
    ensures
        landed(members) == holds_a_revert(members),
{
    reveal_strlit("rev:");
    reveal_strlit("any:");
    assert forall|i: int| 0 <= i < members.len() implies is_revert(#[trigger] members[i]) == (
    members[i].len() >= 4 && (members[i].take(4) == "rev:"@ || members[i].take(4)
        == "any:"@)) by {
        let m = members[i];
        assert(m.len() >= 4 ==> m.take(4) =~= m.subrange(0, 4));
    }
    if landed(members) {
        let i = choose|i: int| 0 <= i < members.len() && is_revert(#[trigger] members[i]);
        assert(is_revert(members[i]));
    }
    if holds_a_revert(members) {
        let i = choose|i: int|
            0 <= i < members.len() && (#[trigger] members[i]).len() >= 4 && (members[i].take(4)
                == "rev:"@ || members[i].take(4) == "any:"@);
        assert(is_revert(members[i]));
    }
}

/// The outcome that is stored is what the stream says: it is that of the call and of its
/// player; the edit counts as reverted exactly where a recorded revert is among the members of
/// the window, whatever the verdict; and the player was right exactly where the verdict says
/// the same.
pub proof fn law_stored_outcomes_are_reality(
    s: SettlementView,
    id: i64,
    call: OpenCallView,
    members: Seq<Seq<char>>,
)
    requires
        s.phase == PhaseView::Judging(id, call),
    ensures
        match after(s, ReplyView::RevertsRead(members)).1 {
            StepView::Store(o) => {
                &&& o.call_id == id
                &&& o.player_id == call.player_id
                &&& o.was_reverted <==> exists|i: int|
                    0 <= i < members.len() && (#[trigger] members[i]).len() >= 4 && (
                    members[i].take(4) == "rev:"@ || members[i].take(4) == "any:"@)
                &&& o.correct == (call.verdict == o.was_reverted)
            },
            _ => false,
        },
{
    lemma_landed(members);
}

/// What the player said does not change what happened: of two calls that differ in their
/// verdict only, both are reverted or neither is, and exactly one is correct.
pub proof fn law_verdicts_do_not_change_reality(
    id: i64,
    call: OpenCallView,
    other: OpenCallView,
    members: Seq<Seq<char>>,
)
    requires
        other == (OpenCallView { verdict: !call.verdict, ..call }),
    ensures
        judged(id, call, members).was_reverted == judged(id, other, members).was_reverted,
        judged(id, call, members).correct != judged(id, other, members).correct,
        judged(id, call, members).player_id == judged(id, other, members).player_id,
{
}

/// One more member in the window adds a revert where it is one, and takes none away.
pub proof fn law_reverts_only_add_up(a: Seq<Seq<char>>, b: Seq<Seq<char>>)
    ensures
        landed(a + b) == (landed(a) || landed(b)),
{
    if landed(a + b) {
        let i = choose|i: int| 0 <= i < (a + b).len() && is_revert(#[trigger] (a + b)[i]);
        if i < a.len() {
            assert(is_revert(a[i]));
        } else {
            assert(is_revert(b[i - a.len()]));
        }
    }
    if landed(a) {
        let i = choose|i: int| 0 <= i < a.len() && is_revert(#[trigger] a[i]);
        assert((a + b)[i] == a[i]);
    }
    if landed(b) {
        let i = choose|i: int| 0 <= i < b.len() && is_revert(#[trigger] b[i]);
        assert((a + b)[i + a.len()] == b[i]);
    }
}

/// Recorded reverts do not collapse into one another: two of them are the same member only
/// where they named the same revision, or named none at the same moment.
pub proof fn law_recorded_reverts_stay_apart(
    named: Option<i64>,
    at_ms: i64,
    other: Option<i64>,
    other_ms: i64,
)
    requires
        revert_member(named, at_ms as int) == revert_member(other, other_ms as int),
    ensures
        named == other,
        named is None ==> at_ms == other_ms,
{
    reveal_strlit("rev:");
    reveal_strlit("any:");
    let a = revert_member(named, at_ms as int);
    let b = revert_member(other, other_ms as int);
    assert(named is Some ==> a[0] == 'r');
    assert(named is None ==> a[0] == 'a');
    assert(other is Some ==> b[0] == 'r');
    assert(other is None ==> b[0] == 'a');
    let x = match named {
        Some(id) => id,
        None => at_ms,
    };
    let y = match other {
        Some(id) => id,
        None => other_ms,
    };
    assert(a.skip(4) =~= text::decimal(x as int));
    assert(b.skip(4) =~= text::decimal(y as int));
    text::law_decimal_round_trip(x);
    text::law_decimal_round_trip(y);
}

/// The steps that drop the due members, one for each, in order.
pub open spec fn forgotten(due: Seq<Seq<char>>) -> Seq<StepView> {
    Seq::new(due.len(), |i: int| StepView::Forget(seq!["ZREM"@, "pulse:settle"@, due[i]]))
}

/// Of what is owed, the drops are one for each due member, and as many outcomes are stored as
/// there are calls that can be settled.
proof fn lemma_owed(world: World, due: Seq<Seq<char>>)
    ensures
        all_steps(world, due).filter(|x: StepView| x is Forget) == forgotten(due),
        all_steps(world, due).filter(|x: StepView| x is Store).len() == settled_count(world, due),
    decreases due.len(),
{
    let f = |x: StepView| x is Forget;
    let g = |x: StepView| x is Store;
    reveal(Seq::filter);
    if due.len() == 0 {
        assert(all_steps(world, due).filter(f) =~= forgotten(due));
    } else {
        let rest = due.skip(1);
        let owed = member_steps(world, due[0]);
        lemma_owed(world, rest);
        Seq::filter_distributes_over_add(owed, all_steps(world, rest), f);
        Seq::filter_distributes_over_add(owed, all_steps(world, rest), g);
        lemma_owed_to_one(world, due[0]);
        assert(seq![StepView::Forget(forget_words(due[0]))] + forgotten(rest) =~= forgotten(due));
    }
}

/// Of what is owed to one member, the last step drops it, and at most one stores an outcome.
proof fn lemma_owed_to_one(world: World, member: Seq<char>)
    ensures
        member_steps(world, member).filter(|x: StepView| x is Forget) == seq![
            StepView::Forget(forget_words(member)),
        ],
        member_steps(world, member).filter(|x: StepView| x is Store).len() == if settles(
            world,
            member,
        ) {
            1nat
        } else {
            0nat
        },
{
    let f = |x: StepView| x is Forget;
    let g = |x: StepView| x is Store;
    let owed = member_steps(world, member);
    reveal(Seq::filter);
    let n = owed.len() as int;
    let drop = StepView::Forget(forget_words(member));
    let head = owed.drop_last();
    assert(owed.last() == drop);
    lemma_none_pass(head, f);
    assert(owed.filter(f) =~= seq![drop]);
    if settles(world, member) {
        let upto = head.drop_last();
        assert(head.last() is Store);
        lemma_none_pass(upto, g);
        assert(head.filter(g) =~= seq![head.last()]);
    } else {
        lemma_none_pass(head, g);
    }
    assert(owed.filter(g) =~= head.filter(g));
}

/// Where nothing passes, nothing is left.
proof fn lemma_none_pass(s: Seq<StepView>, f: spec_fn(StepView) -> bool)
    requires
        forall|i: int| 0 <= i < s.len() ==> !f(#[trigger] s[i]),
    ensures
        s.filter(f) == Seq::<StepView>::empty(),
    decreases s.len(),
{
    reveal(Seq::filter);
    if s.len() > 0 {
        let front = s.drop_last();
        assert forall|i: int| 0 <= i < front.len() implies !f(#[trigger] front[i]) by {
            assert(front[i] == s[i]);
        }
        lemma_none_pass(front, f);
        assert(!f(s[s.len() - 1]));
    }
    assert(s.filter(f) =~= Seq::<StepView>::empty());
}

/// Every due member is dropped from the queue once, in order, whatever it was; and the count
/// that a settlement ends with is that of the outcomes that it stored.
pub proof fn law_due_members_are_forgotten_once(
    world: World,
    due: Seq<Seq<char>>,
    s: SettlementView,
    now_ms: int,
    fuel: nat,
)
    requires
        s.phase is Fetching,
        fuel >= 4 * due.len() + 2,
    ensures
        ({
            let run = steps(world, due, s, StepView::ReadDue(due_words(now_ms)), fuel);
            &&& run.filter(|x: StepView| x is Forget) == forgotten(due)
            &&& run.len() > 0
            &&& run.last() == StepView::Done(run.filter(|x: StepView| x is Store).len())
        }),
{
    let f = |x: StepView| x is Forget;
    let g = |x: StepView| x is Store;
    let ask = StepView::ReadDue(due_words(now_ms));
    let owed = all_steps(world, due);
    let done = StepView::Done(settled_count(world, due));
    let run = steps(world, due, s, ask, fuel);
    law_settlement_does_what_is_owed(world, due, s, now_ms, fuel);
    lemma_owed(world, due);
    assert(run =~= (seq![ask] + owed) + seq![done]);
    lemma_none_pass(seq![ask], f);
    lemma_none_pass(seq![ask], g);
    lemma_none_pass(seq![done], f);
    lemma_none_pass(seq![done], g);
    Seq::filter_distributes_over_add(seq![ask], owed, f);
    Seq::filter_distributes_over_add(seq![ask], owed, g);
    Seq::filter_distributes_over_add(seq![ask] + owed, seq![done], f);
    Seq::filter_distributes_over_add(seq![ask] + owed, seq![done], g);
    assert(run.filter(f) =~= owed.filter(f));
    assert(run.filter(g) =~= owed.filter(g));
}

/// An outcome is that of a due and open call, graded by the reverts on its article between the
/// moment of the call and its deadline.
pub open spec fn grades(world: World, due: Seq<Seq<char>>, o: Outcome) -> bool {
    &&& exists|i: int|
        0 <= i < due.len() && text::i64_value(#[trigger] due[i]) == Some(o.call_id)
    &&& match (world.calls)(o.call_id) {
        Some(call) => {
            let members = (world.reverts)(
                seq![
                    "ZRANGEBYSCORE"@,
                    "pulse:reverts:"@ + call.article,
                    text::decimal(call.called_at_ms as int),
                    text::decimal(call.deadline_ms as int),
                ],
            );
            &&& o.player_id == call.player_id
            &&& o.was_reverted == holds_a_revert(members)
            &&& o.correct == (call.verdict == holds_a_revert(members))
        },
        None => false,
    }
}

/// A due member is the id of a call that is still open.
pub open spec fn is_open(world: World, member: Seq<char>) -> bool {
    text::i64_value(member) matches Some(id) && (world.calls)(id) is Some
}

/// One step stores the outcome of a member's call, and the next drops the member.
pub open spec fn ends(step: StepView, next: StepView, member: Seq<char>) -> bool {
    &&& step matches StepView::Store(o) && text::i64_value(member) == Some(o.call_id)
    &&& next == StepView::Forget(seq!["ZREM"@, "pulse:settle"@, member])
}

/// What is owed grades the open calls, and only those.
proof fn lemma_owed_grades(world: World, due: Seq<Seq<char>>)
    ensures
        forall|k: int|
            0 <= k < all_steps(world, due).len() ==> match #[trigger] all_steps(world, due)[k] {
                StepView::Store(o) => grades(world, due, o),
                _ => true,
            },
        forall|i: int|
            0 <= i < due.len() && is_open(world, #[trigger] due[i]) ==> exists|k: int|
                0 <= k < all_steps(world, due).len() - 1 && ends(
                    #[trigger] all_steps(world, due)[k],
                    all_steps(world, due)[k + 1],
                    due[i],
                ),
    decreases due.len(),
{
    let run = all_steps(world, due);
    if due.len() > 0 {
        let rest = due.skip(1);
        let owed = member_steps(world, due[0]);
        let tail = all_steps(world, rest);
        lemma_owed_grades(world, rest);
        assert(run =~= owed + tail);
        assert forall|k: int| 0 <= k < run.len() implies match #[trigger] run[k] {
            StepView::Store(o) => grades(world, due, o),
            _ => true,
        } by {
            if k < owed.len() {
                assert(run[k] == owed[k]);
                if let StepView::Store(o) = run[k] {
                    let call = (world.calls)(o.call_id)->0;
                    lemma_landed((world.reverts)(window_words(call)));
                    assert(text::i64_value(due[0]) == Some(o.call_id));
                }
            } else {
                assert(run[k] == tail[k - owed.len()]);
                if let StepView::Store(o) = run[k] {
                    let i = choose|i: int|
                        0 <= i < rest.len() && text::i64_value(#[trigger] rest[i]) == Some(
                            o.call_id,
                        );
                    assert(due[i + 1] == rest[i]);
                }
            }
        }
        assert forall|i: int| 0 <= i < due.len() && is_open(world, #[trigger] due[i]) implies exists|
            k: int,
        |
            0 <= k < run.len() - 1 && ends(#[trigger] run[k], run[k + 1], due[i]) by {
            if i == 0 {
                let k: int = 2;
                assert(run[k] == owed[2]);
                assert(run[k + 1] == owed[3]);
                assert(ends(run[k], run[k + 1], due[0]));
            } else {
                assert(rest[i - 1] == due[i]);
                let k = choose|k: int|
                    0 <= k < tail.len() - 1 && ends(#[trigger] tail[k], tail[k + 1], rest[i - 1]);
                let n = k + owed.len();
                assert(run[n] == tail[k]);
                assert(run[n + 1] == tail[k + 1]);
                assert(ends(run[n], run[n + 1], due[i]));
            }
        }
    }
}

/// Every due call that is still open is graded, and only then dropped, and nothing else is
/// graded: each outcome that a settlement stores is that of a due and open call, by the reverts
/// of that call's window.
pub proof fn law_every_open_call_is_graded(
    world: World,
    due: Seq<Seq<char>>,
    s: SettlementView,
    now_ms: int,
    fuel: nat,
)
    requires
        s.phase is Fetching,
        fuel >= 4 * due.len() + 2,
    ensures
        ({
            let run = steps(world, due, s, StepView::ReadDue(due_words(now_ms)), fuel);
            &&& forall|k: int|
                0 <= k < run.len() ==> match #[trigger] run[k] {
                    StepView::Store(o) => grades(world, due, o),
                    _ => true,
                }
            &&& forall|i: int|
                0 <= i < due.len() && is_open(world, #[trigger] due[i]) ==> exists|k: int|
                    0 <= k < run.len() - 1 && ends(#[trigger] run[k], run[k + 1], due[i])
        }),
{
    let owed = all_steps(world, due);
    let run = steps(world, due, s, StepView::ReadDue(due_words(now_ms)), fuel);
    law_settlement_does_what_is_owed(world, due, s, now_ms, fuel);
    lemma_owed_grades(world, due);
    assert forall|k: int| 0 <= k < run.len() implies match #[trigger] run[k] {
        StepView::Store(o) => grades(world, due, o),
        _ => true,
    } by {
        if 1 <= k < run.len() - 1 {
            assert(run[k] == owed[k - 1]);
        }
    }
    assert forall|i: int| 0 <= i < due.len() && is_open(world, #[trigger] due[i]) implies exists|
        k: int,
    |
        0 <= k < run.len() - 1 && ends(#[trigger] run[k], run[k + 1], due[i]) by {
        let k = choose|k: int|
            0 <= k < owed.len() - 1 && ends(#[trigger] owed[k], owed[k + 1], due[i]);
        assert(run[k + 1] == owed[k]);
        assert(run[k + 2] == owed[k + 1]);
        assert(ends(run[k + 1], run[k + 1 + 1], due[i]));
    }
}

/// Each bet is decided on its own: what two lists of bets are paid one behind the other is
/// what the first is paid and then what the second is; and one bet alone is paid, with twice
/// its stake, exactly where the detection came after it was placed and before it expired.
pub proof fn law_each_bet_is_decided_on_its_own(
    a: Seq<OpenBet>,
    b: Seq<OpenBet>,
    bet: OpenBet,
    detected_at_us: int,
)
    ensures
        wins_of(a + b, detected_at_us) == wins_of(a, detected_at_us) + wins_of(b, detected_at_us),
        bet.placed_at_us < detected_at_us && detected_at_us < bet.expires_at_us ==> wins_of(
            seq![bet],
            detected_at_us,
        ) == seq![
            Win { bet_id: bet.id, player_id: bet.player_id, points: (bet.stake + bet.stake) as i64 },
        ],
        bet.placed_at_us >= detected_at_us || detected_at_us >= bet.expires_at_us ==> wins_of(
            seq![bet],
            detected_at_us,
        ) == Seq::<Win>::empty(),
    decreases b.len(),
{
    assert(seq![bet].drop_last() =~= Seq::<OpenBet>::empty());
    assert(wins_of(seq![bet].drop_last(), detected_at_us) =~= Seq::<Win>::empty());
    assert(Seq::<Win>::empty().push(win_of(bet)) =~= seq![win_of(bet)]);
    if b.len() == 0 {
        assert(a + b =~= a);
        assert(wins_of(a, detected_at_us) + wins_of(b, detected_at_us) =~= wins_of(
            a,
            detected_at_us,
        ));
    } else {
        law_each_bet_is_decided_on_its_own(a, b.drop_last(), bet, detected_at_us);
        assert((a + b).drop_last() =~= a + b.drop_last());
        assert((a + b).last() == b.last());
        assert(wins_of(a + b, detected_at_us) =~= wins_of(a, detected_at_us) + wins_of(
            b,
            detected_at_us,
        ));
    }
}

} // verus!
