//! Vandal Patrol eligibility.
//!
//! Enough to keep the queue interesting: non-bot main-namespace edits that are either a
//! suspiciously-sized change or an anonymous deletion. The queue is a capped Valkey list
//! that the api serves from, so that the browser never touches the bus.
//!
//! Deliberately not a vandalism classifier: the player is the classifier, and the revert
//! stream is the ground truth. This filter only has to avoid boring the player.

use vstd::prelude::*;
use crate::command::Command;
use crate::event::{RcEvent, Revision};
use crate::{command, event, ip, text};

verus! {

/// The queue that the api reads. Capped: a stale candidate is worse than none.
pub const QUEUE: &'static str = "pulse:patrol:queue";

/// How many candidates the queue keeps.
pub const QUEUE_MAX: i64 = 120;

/// The smallest change that is big enough to judge from the comment and size alone.
pub const SUSPICIOUS_MIN: i64 = 40;

/// The largest change that is not a rewrite.
pub const SUSPICIOUS_MAX: i64 = 4_000;

/// A non-bot edit of an article that produced a revision: one to link a diff to, and to
/// settle against.
pub open spec fn is_candidate(ev: &RcEvent) -> bool {
    &&& !ev.bot
    &&& ev.namespace == Some(0i64)
    &&& event::new_revision(ev.revision) matches Some(rev) && rev > 0
}

/// A byte delta that is worth a player's time: any anonymous removal, or a change of
/// suspicious size.
pub open spec fn is_suspicious(anon: bool, delta: int) -> bool {
    ||| anon && delta < 0
    ||| SUSPICIOUS_MIN <= delta <= SUSPICIOUS_MAX
    ||| SUSPICIOUS_MIN <= -delta <= SUSPICIOUS_MAX
}

/// An edit that is worth putting in front of a player.
pub open spec fn eligible(ev: &RcEvent) -> bool {
    &&& is_candidate(ev)
    &&& event::length_delta(ev.length) matches Some(delta) && is_suspicious(
        ip::is_ip_address(ev.user@),
        delta,
    )
}

/// Is this edit worth putting in front of a player?
pub fn is_eligible(ev: &RcEvent) -> (r: bool)
    requires
        is_candidate(ev) ==> event::delta_fits(ev.length),
    ensures
        r == eligible(ev),
{
    if ev.bot || !ev.is_main_namespace() {
        return false;
    }
    let rev: i64 = match ev.new_rev_id() {
        Some(rev) => rev,
        None => {
            return false;
        },
    };
    if rev <= 0 {
        return false;
    }
    match ev.delta() {
        None => false,
        Some(delta) => {
            // Anonymous removals are the classic vandalism shape.
            if delta < 0 && ev.is_anon() {
                return true;
            }
            // Otherwise: a change big enough to judge from the comment and size alone.
            if delta >= 0 {
                SUSPICIOUS_MIN <= delta && delta <= SUSPICIOUS_MAX
            } else {
                -SUSPICIOUS_MAX <= delta && delta <= -SUSPICIOUS_MIN
            }
        },
    }
}

/// The diff that a revision links to.
pub open spec fn diff_url_text(
    server: Option<Seq<char>>,
    revision: Option<Revision>,
) -> Option<Seq<char>> {
    match (server, event::new_revision(revision)) {
        (Some(url), Some(rev)) => Some(url + "/w/index.php?diff="@ + text::decimal(rev as int)),
        _ => None,
    }
}

/// Wikipedia's own diff URL for this revision.
pub fn diff_url(ev: &RcEvent) -> (r: Option<String>)
    ensures
        text::opt_text(r) == diff_url_text(text::opt_text(ev.server_url), ev.revision),
        match r {
            Some(url) => ev.server_url matches Some(server) && ev.revision matches Some(revision)
                && revision.new matches Some(rev) && url@ == server@ + "/w/index.php?diff="@
                + text::decimal(rev as int),
            None => ev.server_url is None || ev.revision is None || ev.revision->0.new is None,
        },
{
    match (&ev.server_url, ev.new_rev_id()) {
        (Some(server), Some(rev)) => {
            let id: String = text::format_i64(rev);
            Some(text::join3(server.as_str(), "/w/index.php?diff=", id.as_str()))
        },
        _ => None,
    }
}

/// What a player is shown of an edit.
#[derive(Debug, Clone)]
pub struct Candidate {
    pub article: String,
    pub wiki: String,
    pub title: String,
    pub title_url: Option<String>,
    pub user: String,
    pub anon: bool,
    pub comment: String,
    pub delta: Option<i64>,
    pub rev_id: Option<i64>,
    pub old_rev_id: Option<i64>,
    pub at: Option<String>,
    pub diff_url: Option<String>,
}

/// A copy of an optional string.
fn copied(s: &Option<String>) -> (r: Option<String>)
    ensures
        text::opt_text(r) == text::opt_text(*s),
{
    match s {
        Some(v) => Some(v.clone()),
        None => None,
    }
}

/// What a player is shown of this edit. It links out to Wikipedia's own diff.
pub fn candidate(ev: &RcEvent) -> (r: Candidate)
    requires
        event::delta_fits(ev.length),
    ensures
        r.article@ == event::article_text(ev.wiki@, ev.title@),
        r.article@ == ev.wiki@ + ":"@ + ev.title@,
        r.wiki@ == ev.wiki@,
        r.title@ == ev.title@,
        text::opt_text(r.title_url) == text::opt_text(ev.title_url),
        r.user@ == ev.user@,
        r.anon == ip::is_ip_address(ev.user@),
        r.comment@ == ev.comment@,
        match r.delta {
            Some(d) => event::length_delta(ev.length) == Some(d as int),
            None => event::length_delta(ev.length) is None,
        },
        r.rev_id == event::new_revision(ev.revision),
        r.old_rev_id == match ev.revision {
            Some(revision) => revision.old,
            None => None,
        },
        text::opt_text(r.at) == text::opt_text(ev.meta.dt),
        text::opt_text(r.diff_url) == diff_url_text(text::opt_text(ev.server_url), ev.revision),
{
    Candidate {
        article: ev.article_key(),
        wiki: ev.wiki.clone(),
        title: ev.title.clone(),
        title_url: copied(&ev.title_url),
        user: ev.user.clone(),
        anon: ev.is_anon(),
        comment: ev.comment.clone(),
        delta: ev.delta(),
        rev_id: ev.new_rev_id(),
        old_rev_id: match ev.revision {
            Some(revision) => revision.old,
            None => None,
        },
        at: copied(&ev.meta.dt),
        diff_url: diff_url(ev),
    }
}

/// Pushes a candidate, serialised, onto the patrol queue, which keeps the newest ones.
pub fn enqueue(payload: &str) -> (r: Vec<Command>)
    ensures
        command::pipeline(r@) == seq![
            seq!["LPUSH"@, QUEUE@, payload@],
            seq!["LTRIM"@, QUEUE@, text::decimal(0), text::decimal(QUEUE_MAX - 1)],
        ],
        command::pipeline(r@)[0] == seq!["LPUSH"@, "pulse:patrol:queue"@, payload@],
        command::pipeline(r@)[1] == seq![
            "LTRIM"@,
            "pulse:patrol:queue"@,
            text::decimal(0),
            text::decimal(119),
        ],
{
    let mut out: Vec<Command> = Vec::new();
    out.push(Command::new("LPUSH").arg(QUEUE).arg(payload));
    out.push(Command::new("LTRIM").arg(QUEUE).arg_i64(0).arg_i64(QUEUE_MAX - 1));
    assert(out@[0]@ =~= seq!["LPUSH"@, QUEUE@, payload@]);
    assert(out@[1]@ =~= seq!["LTRIM"@, QUEUE@, text::decimal(0), text::decimal(QUEUE_MAX - 1)]);
    assert(command::pipeline(out@) =~= seq![
        seq!["LPUSH"@, QUEUE@, payload@],
        seq!["LTRIM"@, QUEUE@, text::decimal(0), text::decimal(QUEUE_MAX - 1)],
    ]);
    out
}

// ---------------------------------------------------------------------------
// Laws
// ---------------------------------------------------------------------------

/// Bots and pages that are not articles never reach a player.
pub proof fn law_bots_and_non_articles_are_skipped(ev: &RcEvent)
    requires
        ev.bot || ev.namespace != Some(0i64),
    ensures
        !eligible(ev),
{
}

/// Whatever reaches a player can be shown and settled: it has a revision, and a diff
/// wherever the event says which server it came from.
pub proof fn law_eligible_edits_can_be_settled(ev: &RcEvent)
    requires
        eligible(ev),
    ensures
        event::new_revision(ev.revision) matches Some(rev) && rev > 0,
        event::length_delta(ev.length) is Some,
        ev.server_url is Some ==> diff_url_text(text::opt_text(ev.server_url), ev.revision) is Some,
{
}

/// An anonymous removal is eligible however small it is, and for a registered editor an
/// addition and a removal of the same size are judged alike.
pub proof fn law_anonymity_only_adds_removals(delta: int)
    ensures
        delta < 0 ==> is_suspicious(true, delta),
        delta >= 0 ==> is_suspicious(true, delta) == is_suspicious(false, delta),
        is_suspicious(false, delta) == is_suspicious(false, -delta),
{
}

/// What reaches a player, in full: an edit of an article, not by a bot, that produced a
/// revision and whose size is known before and after; and whose change is of forty to four
/// thousand bytes either way, or takes anything away where the editor is anonymous.
pub proof fn law_eligibility(ev: &RcEvent)
    ensures
        eligible(ev) <==> {
            &&& !ev.bot
            &&& ev.namespace == Some(0i64)
            &&& ev.revision matches Some(revision) && revision.new matches Some(rev) && rev > 0
            &&& ev.length matches Some(l) && l.old matches Some(before) && l.new matches Some(now)
                && ((ip::is_ip_address(ev.user@) && now < before) || 40 <= now - before <= 4000 || 40
                <= before - now <= 4000)
        },
{
}

} // verus!
