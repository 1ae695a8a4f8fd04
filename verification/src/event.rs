//! The events of the `recentchange` stream, and the typed events derived from them.

use vstd::prelude::*;
use crate::{ip, text};

verus! {

/// One event off the `recentchange` stream: the fields that are computed on. The raw JSON
/// line is kept separately.
#[derive(Debug, Clone)]
pub struct RcEvent {
    /// Stream envelope: carries the resume id and the event timestamp.
    pub meta: Meta,
    /// MediaWiki's own recentchange id. Absent on some `log` events.
    pub id: Option<i64>,
    /// `edit` | `new` | `categorize` | `log` | ...
    pub kind: String,
    /// 0 = main/article namespace. Absent on a few event types.
    pub namespace: Option<i64>,
    pub title: String,
    pub title_url: Option<String>,
    pub comment: String,
    pub parsedcomment: Option<String>,
    /// Unix seconds, as MediaWiki reports it.
    pub timestamp: Option<i64>,
    pub user: String,
    pub bot: bool,
    pub minor: bool,
    pub patrolled: Option<bool>,
    /// Byte counts before and after. Either side can be null on page creation.
    pub length: Option<Length>,
    /// Revision ids before and after; `Undid revision N` refers to these.
    pub revision: Option<Revision>,
    /// `enwiki`, `hiwiki`, `commonswiki`, ...
    pub wiki: String,
    pub server_name: Option<String>,
    pub server_url: Option<String>,
}

/// The stream envelope.
#[derive(Debug, Clone)]
pub struct Meta {
    /// The SSE event id: what `Last-Event-ID` resumes from.
    pub id: Option<String>,
    /// ISO-8601 event time assigned by the event platform.
    pub dt: Option<String>,
    pub domain: Option<String>,
    pub stream: Option<String>,
    pub uri: Option<String>,
}

/// Byte counts before and after an edit.
#[derive(Debug, Clone, Copy)]
pub struct Length {
    pub old: Option<i64>,
    pub new: Option<i64>,
}

/// Revision ids before and after an edit.
#[derive(Debug, Clone, Copy)]
pub struct Revision {
    pub old: Option<i64>,
    pub new: Option<i64>,
}

/// The canonical key of an article.
pub open spec fn article_text(wiki: Seq<char>, title: Seq<char>) -> Seq<char> {
    wiki + ":"@ + title
}

/// The byte delta of an edit, where both sides are reported.
pub open spec fn length_delta(length: Option<Length>) -> Option<int> {
    match length {
        Some(l) => match (l.old, l.new) {
            (Some(old_bytes), Some(new_bytes)) => Some(new_bytes - old_bytes),
            _ => None,
        },
        None => None,
    }
}

/// The byte delta, where there is one, is a number that an `i64` can hold.
pub open spec fn delta_fits(length: Option<Length>) -> bool {
    match length_delta(length) {
        Some(d) => i64::MIN <= d <= i64::MAX,
        None => true,
    }
}

/// The kinds of event that carry article activity.
pub open spec fn is_interesting_kind(kind: Seq<char>) -> bool {
    kind == "edit"@ || kind == "new"@ || kind == "categorize"@
}

/// The revision that an event produced.
pub open spec fn new_revision(revision: Option<Revision>) -> Option<i64> {
    match revision {
        Some(r) => r.new,
        None => None,
    }
}

impl RcEvent {
    /// Canonical article key used for every window, counter and receipt: `"{wiki}:{title}"`.
    pub fn article_key(&self) -> (r: String)
        ensures
            r@ == article_text(self.wiki@, self.title@),
            r@ == self.wiki@ + ":"@ + self.title@,
    {
        text::join3(self.wiki.as_str(), ":", self.title.as_str())
    }

    /// Byte delta of this edit. `None` when the stream did not report both sides.
    pub fn delta(&self) -> (r: Option<i64>)
        requires
            delta_fits(self.length),
        ensures
            match r {
                Some(d) => length_delta(self.length) == Some(d as int),
                None => length_delta(self.length) is None,
            },
            match r {
                Some(d) => self.length matches Some(l) && l.old matches Some(before)
                    && l.new matches Some(now) && before + d == now,
                None => self.length is None || self.length->0.old is None
                    || self.length->0.new is None,
            },
    {
        match self.length {
            Some(l) => match (l.old, l.new) {
                (Some(old_bytes), Some(new_bytes)) => Some(new_bytes - old_bytes),
                _ => None,
            },
            None => None,
        }
    }

    /// True for the event types that carry article activity. `log` events (blocks, moves,
    /// uploads) are dropped at the ingest edge.
    pub fn is_interesting(&self) -> (r: bool)
        ensures
            r == is_interesting_kind(self.kind@),
            r == (self.kind@ == "edit"@ || self.kind@ == "new"@ || self.kind@ == "categorize"@),
    {
        text::text_eq(self.kind.as_str(), "edit") || text::text_eq(self.kind.as_str(), "new")
            || text::text_eq(self.kind.as_str(), "categorize")
    }

    /// Main/article namespace. Talk pages and project pages burst for reasons that are not
    /// news.
    pub fn is_main_namespace(&self) -> (r: bool)
        ensures
            r == (self.namespace == Some(0i64)),
    {
        match self.namespace {
            Some(n) => n == 0,
            None => false,
        }
    }

    /// Anonymous edits self-identify: MediaWiki puts the IP in `user`.
    pub fn is_anon(&self) -> (r: bool)
        ensures
            r == ip::is_ip_address(self.user@),
    {
        is_anon_user(self.user.as_str())
    }

    /// The revision that this event produced.
    pub fn new_rev_id(&self) -> (r: Option<i64>)
        ensures
            r == new_revision(self.revision),
            self.revision is None ==> r is None,
            self.revision matches Some(revision) ==> r == revision.new,
    {
        match self.revision {
            Some(revision) => revision.new,
            None => None,
        }
    }
}

/// True when a username is really an IP address, MediaWiki's marker for an anonymous editor.
pub fn is_anon_user(user: &str) -> (r: bool)
    ensures
        r == ip::is_ip_address(user@),
{
    ip::ip_address(user)
}

/// Typed events that the detector emits. `Unclassified` is the honest default: a wrong
/// `Death` label is worse than no label.
#[derive(Debug, Clone, Copy, PartialEq, Eq, Structural)]
pub enum EventKind {
    Death,
    Disaster,
    Sports,
    Political,
    Unclassified,
}

/// The label of a kind.
pub open spec fn kind_text(kind: EventKind) -> Seq<char> {
    match kind {
        EventKind::Death => "death"@,
        EventKind::Disaster => "disaster"@,
        EventKind::Sports => "sports"@,
        EventKind::Political => "political"@,
        EventKind::Unclassified => "unclassified"@,
    }
}

impl EventKind {
    /// The label that receipts carry.
    pub fn as_str(&self) -> (r: &'static str)
        ensures
            r@ == kind_text(*self),
            *self is Death ==> r@ == "death"@,
            *self is Disaster ==> r@ == "disaster"@,
            *self is Sports ==> r@ == "sports"@,
            *self is Political ==> r@ == "political"@,
            *self is Unclassified ==> r@ == "unclassified"@,
    {
        match self {
            EventKind::Death => "death",
            EventKind::Disaster => "disaster",
            EventKind::Sports => "sports",
            EventKind::Political => "political",
            EventKind::Unclassified => "unclassified",
        }
    }
}

/// Distinct kinds have distinct labels.
pub proof fn law_labels_are_distinct(a: EventKind, b: EventKind)
    ensures
        kind_text(a) == kind_text(b) ==> a == b,
{
    reveal_strlit("death");
    reveal_strlit("disaster");
    reveal_strlit("sports");
    reveal_strlit("political");
    reveal_strlit("unclassified");
    assert("death"@.len() == 5);
    assert("disaster"@.len() == 8);
    assert("sports"@.len() == 6);
    assert("political"@.len() == 9);
    assert("unclassified"@.len() == 12);
}

/// The delta of an edit is what leads from the size before to the size after, and there is one
/// exactly where both are reported.
pub proof fn law_the_delta_leads_from_old_to_new(length: Option<Length>)
    ensures
        match length_delta(length) {
            Some(d) => length matches Some(l) && l.old matches Some(before) && l.new matches Some(
                now,
            ) && before + d == now,
            None => length is None || length->0.old is None || length->0.new is None,
        },
{
}

/// Articles do not share a key: as no wiki's name holds a colon, the key tells wiki and title.
pub proof fn law_article_keys_are_distinct(
    wiki: Seq<char>,
    title: Seq<char>,
    other_wiki: Seq<char>,
    other_title: Seq<char>,
)
    requires
        !wiki.contains(':'),
        !other_wiki.contains(':'),
        article_text(wiki, title) == article_text(other_wiki, other_title),
    ensures
        wiki == other_wiki,
        title == other_title,
{
    reveal_strlit(":");
    assert(article_text(wiki, title) =~= wiki.push(':') + title);
    assert(article_text(other_wiki, other_title) =~= other_wiki.push(':') + other_title);
    text::lemma_split_first(wiki, ':', title);
    text::lemma_split_first(other_wiki, ':', other_title);
}

} // verus!
