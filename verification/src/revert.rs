//! Revert parsing, with every pattern in one place.
//!
//! The stream emits
//!
//! ```text
//! Undid revision [[Special:Diff/1368430003|1368430003]] by [[Special:Contributions/Barçaforlife|Barçaforlife]] (...)
//! ```
//!
//! with the revision id wrapped in a `Special:Diff` link; a bare id is the rare form.
//! Likewise `Special:Contributions/` dominates and `Special:Contribs/` is rare.
//!
//! Semantics that matter for the radar: in "Reverted edits by A ... to last revision by B",
//! A is the reverted party and B is merely who was restored to. In "Restored revision N by
//! X", X is the *restored-to* party, and the reverted editor is not named at all. Treating X
//! as reverted would invert the edge and corrupt the conflict graph, so that form yields a
//! revert with no named party.

use vstd::prelude::*;
use crate::text;

verus! {

// ---------------------------------------------------------------------------
// Patterns
// ---------------------------------------------------------------------------

/// `Undid revision [[Special:Diff/N|N]] by [[Special:Contributions/USER|...`
pub const UNDID_WRAPPED: &'static str = r"(?i)undid revision \[\[Special:Diff/(\d+)\|[^\]]*\]\] by \[\[Special:Contrib(?:ution)?s/([^|\]]+)";

/// The form with a bare id, which some wikis and tools still emit.
pub const UNDID_BARE: &'static str = r"(?i)undid revision (\d+) by \[\[Special:Contrib(?:ution)?s/([^|\]]+)";

/// `Reverted [3 ]edits? by [[Special:Contributions/USER|...`, tolerating an interposed
/// wiki-link such as `[[WP:AGF|good faith]]` or `[[Commons:Rollback|Reverted]]`.
pub const REVERTED_BY: &'static str = r"(?i)revert(?:ed|ing)\b[^\[]{0,40}(?:\[\[[^\]]+\]\][^\[]{0,20})?edits?\s+(?:added\s+)?by\s+\[\[Special:Contrib(?:ution)?s/([^|\]]+)";

/// `Reverting possible vandalism by [[Special:Contribs/USER` and
/// `Reverting unsourced content added by [[Special:Contributions/USER`.
pub const REVERTING_PROSE: &'static str = r"(?i)revert(?:ing|ed)\b[^\[]{0,60}by\s+\[\[Special:Contrib(?:ution)?s/([^|\]]+)";

/// Spanish rollback: `Revertida una edición de [[Special:Contributions/USER`.
pub const REVERTIDA: &'static str = r"(?i)revertid[ao][^\[]{0,40}de \[\[Special:Contrib(?:ution)?s/([^|\]]+)";

/// Japanese undo and rollback: `[[Special:Contributions/USER|…]] … による … 取り消し|巻き戻し`.
pub const JA_REVERT: &'static str = r"\[\[Special:Contrib(?:ution)?s/([^|\]]+)\|[^\]]*\]\].*(?:取り消し|巻き戻し|差し戻)";

/// `Restored revision N by [[Special:Contributions/X`: X is who was restored to, not who was
/// reverted. A revert happened; the party is unnamed.
pub const RESTORED: &'static str = r"(?i)restored revision (\d+)\b";

/// The weak signal: for the radar only, never for settlement.
pub const WEAK: &'static str = r"(?i)\brvv?\b|revert|vandal|巻き戻し|取り消し";

/// The patterns of this module.
pub open spec fn is_pattern(p: Seq<char>) -> bool {
    ||| p == UNDID_WRAPPED@
    ||| p == UNDID_BARE@
    ||| p == REVERTED_BY@
    ||| p == REVERTING_PROSE@
    ||| p == REVERTIDA@
    ||| p == JA_REVERT@
    ||| p == RESTORED@
    ||| p == WEAK@
}

// ---------------------------------------------------------------------------
// Matching
// ---------------------------------------------------------------------------

/// The groups of the leftmost match of a regular expression in a text, group 0 being the
/// whole match: what `regex::Regex::captures` finds.
pub uninterp spec fn regex_captures(pattern: Seq<char>, haystack: Seq<char>) -> Option<
    Seq<Option<Seq<char>>>,
>;

/// The texts of a match's groups.
pub open spec fn groups_view(groups: Option<Vec<Option<String>>>) -> Option<
    Seq<Option<Seq<char>>>,
> {
    match groups {
        Some(g) => Some(Seq::new(g@.len(), |i: int| text::opt_text(g@[i]))),
        None => None,
    }
}

/// Searches with `regex::Regex::captures`, and hands out the text of each group. The
/// contract names the result. That the patterns of this module compile, as they do, is not
/// stated: a pattern that did not would match nothing.
#[verifier::external_body]
fn search(pattern: &str, comment: &str) -> (r: Option<Vec<Option<String>>>)
    requires
        is_pattern(pattern@),
    ensures
        groups_view(r) == regex_captures(pattern@, comment@),
{
    let found = regex::Regex::new(pattern).ok()?.captures(comment)?;
    Some(found.iter().map(|group| group.map(|m| m.as_str().to_string())).collect())
}

/// Searches with `regex::Regex::is_match`, which holds exactly where `captures` finds a
/// match.
#[verifier::external_body]
fn found(pattern: &str, comment: &str) -> (r: bool)
    requires
        is_pattern(pattern@),
    ensures
        r == (regex_captures(pattern@, comment@) is Some),
{
    match regex::Regex::new(pattern) {
        Ok(re) => re.is_match(comment),
        Err(_) => false,
    }
}

/// What each pattern found in a comment.
pub struct Matches {
    pub restored: Option<Vec<Option<String>>>,
    pub undid_wrapped: Option<Vec<Option<String>>>,
    pub undid_bare: Option<Vec<Option<String>>>,
    pub reverted_by: Option<Vec<Option<String>>>,
    pub revertida: Option<Vec<Option<String>>>,
    pub ja_revert: Option<Vec<Option<String>>>,
    pub reverting_prose: Option<Vec<Option<String>>>,
    pub weak: bool,
}

/// The texts that each pattern found in a comment.
pub struct MatchesView {
    pub restored: Option<Seq<Option<Seq<char>>>>,
    pub undid_wrapped: Option<Seq<Option<Seq<char>>>>,
    pub undid_bare: Option<Seq<Option<Seq<char>>>>,
    pub reverted_by: Option<Seq<Option<Seq<char>>>>,
    pub revertida: Option<Seq<Option<Seq<char>>>>,
    pub ja_revert: Option<Seq<Option<Seq<char>>>>,
    pub reverting_prose: Option<Seq<Option<Seq<char>>>>,
    pub weak: bool,
}

impl View for Matches {
    type V = MatchesView;

    open spec fn view(&self) -> MatchesView {
        MatchesView {
            restored: groups_view(self.restored),
            undid_wrapped: groups_view(self.undid_wrapped),
            undid_bare: groups_view(self.undid_bare),
            reverted_by: groups_view(self.reverted_by),
            revertida: groups_view(self.revertida),
            ja_revert: groups_view(self.ja_revert),
            reverting_prose: groups_view(self.reverting_prose),
            weak: self.weak,
        }
    }
}

/// What each pattern finds in a comment.
pub open spec fn matches_in(comment: Seq<char>) -> MatchesView {
    MatchesView {
        restored: regex_captures(RESTORED@, comment),
        undid_wrapped: regex_captures(UNDID_WRAPPED@, comment),
        undid_bare: regex_captures(UNDID_BARE@, comment),
        reverted_by: regex_captures(REVERTED_BY@, comment),
        revertida: regex_captures(REVERTIDA@, comment),
        ja_revert: regex_captures(JA_REVERT@, comment),
        reverting_prose: regex_captures(REVERTING_PROSE@, comment),
        weak: regex_captures(WEAK@, comment) is Some,
    }
}

impl Matches {
    /// Holds every pattern against a comment.
    pub fn find(comment: &str) -> (r: Matches)
        ensures
            r@ == matches_in(comment@),
            r@.restored == regex_captures(
                r"(?i)restored revision (\d+)\b"@,
                comment@,
            ),
            r@.undid_wrapped == regex_captures(
                r"(?i)undid revision \[\[Special:Diff/(\d+)\|[^\]]*\]\] by \[\[Special:Contrib(?:ution)?s/([^|\]]+)"@,
                comment@,
            ),
            r@.undid_bare == regex_captures(
                r"(?i)undid revision (\d+) by \[\[Special:Contrib(?:ution)?s/([^|\]]+)"@,
                comment@,
            ),
            r@.reverted_by == regex_captures(
                r"(?i)revert(?:ed|ing)\b[^\[]{0,40}(?:\[\[[^\]]+\]\][^\[]{0,20})?edits?\s+(?:added\s+)?by\s+\[\[Special:Contrib(?:ution)?s/([^|\]]+)"@,
                comment@,
            ),
            r@.revertida == regex_captures(
                r"(?i)revertid[ao][^\[]{0,40}de \[\[Special:Contrib(?:ution)?s/([^|\]]+)"@,
                comment@,
            ),
            r@.ja_revert == regex_captures(
                r"\[\[Special:Contrib(?:ution)?s/([^|\]]+)\|[^\]]*\]\].*(?:取り消し|巻き戻し|差し戻)"@,
                comment@,
            ),
            r@.reverting_prose == regex_captures(
                r"(?i)revert(?:ing|ed)\b[^\[]{0,60}by\s+\[\[Special:Contrib(?:ution)?s/([^|\]]+)"@,
                comment@,
            ),
            r@.weak == (regex_captures(r"(?i)\brvv?\b|revert|vandal|巻き戻し|取り消し"@, comment@) is Some),
    {
        Matches {
            restored: search(RESTORED, comment),
            undid_wrapped: search(UNDID_WRAPPED, comment),
            undid_bare: search(UNDID_BARE, comment),
            reverted_by: search(REVERTED_BY, comment),
            revertida: search(REVERTIDA, comment),
            ja_revert: search(JA_REVERT, comment),
            reverting_prose: search(REVERTING_PROSE, comment),
            weak: found(WEAK, comment),
        }
    }
}

// ---------------------------------------------------------------------------
// Reverts
// ---------------------------------------------------------------------------

/// How much the comment tells.
#[derive(Debug, Clone, Copy, PartialEq, Eq, Structural)]
pub enum Confidence {
    /// An explicit revert. Settles Vandal Patrol calls and writes an incident.
    Strong,
    /// Revert-ish vocabulary only. Bumps the controversy index, nothing else.
    Weak,
}

/// A parsed revert.
#[derive(Debug, Clone, PartialEq, Eq)]
pub struct Revert {
    pub confidence: Confidence,
    /// The revision that was undone, when the comment names it.
    pub rev_id: Option<i64>,
    /// The editor whose work was undone, when the comment names them.
    pub reverted_user: Option<String>,
}

/// What a revert says.
pub struct RevertView {
    pub confidence: Confidence,
    pub rev_id: Option<i64>,
    pub reverted_user: Option<Seq<char>>,
}

impl View for Revert {
    type V = RevertView;

    open spec fn view(&self) -> RevertView {
        RevertView {
            confidence: self.confidence,
            rev_id: self.rev_id,
            reverted_user: text::opt_text(self.reverted_user),
        }
    }
}

/// The text of a group, where the group took part in the match.
pub open spec fn group_text(groups: Seq<Option<Seq<char>>>, i: int) -> Option<Seq<char>> {
    if 0 <= i < groups.len() {
        groups[i]
    } else {
        None
    }
}

/// The revision id that a group writes.
pub open spec fn group_rev_id(groups: Seq<Option<Seq<char>>>, i: int) -> Option<i64> {
    match group_text(groups, i) {
        Some(t) => text::i64_value(t),
        None => None,
    }
}

/// An undo names the revision and its editor.
pub open spec fn undo(groups: Seq<Option<Seq<char>>>) -> RevertView {
    RevertView {
        confidence: Confidence::Strong,
        rev_id: group_rev_id(groups, 1),
        reverted_user: group_text(groups, 2),
    }
}

/// A rollback names the editor only.
pub open spec fn rollback(groups: Seq<Option<Seq<char>>>) -> RevertView {
    RevertView {
        confidence: Confidence::Strong,
        rev_id: None,
        reverted_user: group_text(groups, 1),
    }
}

/// The revert that the matches tell of, the first pattern in order of confidence deciding.
/// `Restored revision` comes before the patterns that name a party, so that its restored-to
/// user is never mistaken for the reverted one.
pub open spec fn revert_in(m: MatchesView) -> Option<RevertView> {
    if m.restored is Some {
        Some(
            RevertView {
                confidence: Confidence::Strong,
                rev_id: group_rev_id(m.restored->0, 1),
                reverted_user: None,
            },
        )
    } else if m.undid_wrapped is Some {
        Some(undo(m.undid_wrapped->0))
    } else if m.undid_bare is Some {
        Some(undo(m.undid_bare->0))
    } else if m.reverted_by is Some {
        Some(rollback(m.reverted_by->0))
    } else if m.revertida is Some {
        Some(rollback(m.revertida->0))
    } else if m.ja_revert is Some {
        Some(rollback(m.ja_revert->0))
    } else if m.reverting_prose is Some {
        Some(rollback(m.reverting_prose->0))
    } else if m.weak {
        Some(RevertView { confidence: Confidence::Weak, rev_id: None, reverted_user: None })
    } else {
        None
    }
}

/// What an optional revert says.
pub open spec fn opt_revert(r: Option<Revert>) -> Option<RevertView> {
    match r {
        Some(v) => Some(v@),
        None => None,
    }
}

/// The text of a group, where the group took part in the match.
fn group(groups: &Vec<Option<String>>, i: usize) -> (r: Option<String>)
    ensures
        i < groups@.len() ==> text::opt_text(r) == text::opt_text(groups@[i as int]),
        i >= groups@.len() ==> r is None,
        text::opt_text(r) == group_text(groups_view(Some(*groups))->0, i as int),
{
    if i < groups.len() {
        match &groups[i] {
            Some(s) => Some(s.clone()),
            None => None,
        }
    } else {
        None
    }
}

/// The revision id that a group writes.
fn group_id(groups: &Vec<Option<String>>, i: usize) -> (r: Option<i64>)
    ensures
        r == group_rev_id(groups_view(Some(*groups))->0, i as int),
{
    match group(groups, i) {
        Some(s) => text::parse_i64(s.as_str()),
        None => None,
    }
}

/// The revert that the matches tell of.
pub fn from_matches(m: &Matches) -> (r: Option<Revert>)
    ensures
        opt_revert(r) == revert_in(m@),
{
    if let Some(g) = &m.restored {
        return Some(
            Revert { confidence: Confidence::Strong, rev_id: group_id(g, 1), reverted_user: None },
        );
    }
    if let Some(g) = &m.undid_wrapped {
        return Some(
            Revert {
                confidence: Confidence::Strong,
                rev_id: group_id(g, 1),
                reverted_user: group(g, 2),
            },
        );
    }
    if let Some(g) = &m.undid_bare {
        return Some(
            Revert {
                confidence: Confidence::Strong,
                rev_id: group_id(g, 1),
                reverted_user: group(g, 2),
            },
        );
    }
    if let Some(g) = &m.reverted_by {
        return Some(
            Revert { confidence: Confidence::Strong, rev_id: None, reverted_user: group(g, 1) },
        );
    }
    if let Some(g) = &m.revertida {
        return Some(
            Revert { confidence: Confidence::Strong, rev_id: None, reverted_user: group(g, 1) },
        );
    }
    if let Some(g) = &m.ja_revert {
        return Some(
            Revert { confidence: Confidence::Strong, rev_id: None, reverted_user: group(g, 1) },
        );
    }
    if let Some(g) = &m.reverting_prose {
        return Some(
            Revert { confidence: Confidence::Strong, rev_id: None, reverted_user: group(g, 1) },
        );
    }
    if m.weak {
        return Some(Revert { confidence: Confidence::Weak, rev_id: None, reverted_user: None });
    }
    None
}

/// Parses a revert out of an edit comment.
pub fn parse(comment: &str) -> (r: Option<Revert>)
    ensures
        opt_revert(r) == if comment@.len() == 0 {
            None
        } else {
            revert_in(matches_in(comment@))
        },
{
    if comment.is_empty() {
        return None;
    }
    let m: Matches = Matches::find(comment);
    from_matches(&m)
}

// ---------------------------------------------------------------------------
// Laws
// ---------------------------------------------------------------------------

/// One of the patterns that tell of an explicit revert matched.
pub open spec fn strong_match(m: MatchesView) -> bool {
    ||| m.restored is Some
    ||| m.undid_wrapped is Some
    ||| m.undid_bare is Some
    ||| m.reverted_by is Some
    ||| m.revertida is Some
    ||| m.ja_revert is Some
    ||| m.reverting_prose is Some
}

/// A revert is strong exactly where an explicit form matched, weak exactly where only the
/// vocabulary did, and there is none otherwise.
pub proof fn law_confidence(m: MatchesView)
    ensures
        strong_match(m) <==> (revert_in(m) is Some && revert_in(m)->0.confidence
            == Confidence::Strong),
        (!strong_match(m) && m.weak) <==> (revert_in(m) is Some && revert_in(m)->0.confidence
            == Confidence::Weak),
        (!strong_match(m) && !m.weak) <==> revert_in(m) is None,
{
}

/// A restored revision is a strong revert that names nobody, whatever else the comment says.
pub proof fn law_restored_names_nobody(m: MatchesView)
    requires
        m.restored is Some,
    ensures
        revert_in(m) is Some,
        revert_in(m)->0.confidence == Confidence::Strong,
        revert_in(m)->0.reverted_user is None,
{
}

/// A weak signal carries neither a revision nor a party.
pub proof fn law_weak_names_nothing(m: MatchesView)
    ensures
        (revert_in(m) is Some && revert_in(m)->0.confidence == Confidence::Weak) ==> revert_in(
            m,
        )->0.rev_id is None && revert_in(m)->0.reverted_user is None,
{
}

/// A revision is named only by an undo or a restoration.
pub proof fn law_revision_comes_from_undo_or_restore(m: MatchesView)
    ensures
        (revert_in(m) is Some && revert_in(m)->0.rev_id is Some) ==> m.restored is Some
            || m.undid_wrapped is Some || m.undid_bare is Some,
{
}

/// An undo names its revision and its editor by its own groups: the editor is the whole of
/// group 2, character for character, and the revision the number that group 1 writes. A match
/// of the wrapped form decides before one of the bare form.
pub proof fn law_undo_names_the_editor_of_group_two(m: MatchesView)
    requires
        m.restored is None,
        m.undid_wrapped is Some || m.undid_bare is Some,
    ensures
        revert_in(m) is Some,
        ({
            let groups = if m.undid_wrapped is Some {
                m.undid_wrapped->0
            } else {
                m.undid_bare->0
            };
            let r = revert_in(m)->0;
            &&& r.confidence == Confidence::Strong
            &&& groups.len() > 2 ==> r.reverted_user == groups[2]
            &&& groups.len() <= 2 ==> r.reverted_user is None
            &&& groups.len() > 1 && groups[1] is Some ==> r.rev_id == text::i64_value(groups[1]->0)
            &&& groups.len() <= 1 || groups[1] is None ==> r.rev_id is None
        }),
{
}

/// A rollback names its editor by its own group, the whole of group 1, character for
/// character, and no revision. Of the rollback forms that matched, the first one in the order
/// English, Spanish, Japanese, prose decides.
pub proof fn law_rollback_names_the_editor_of_group_one(m: MatchesView)
    requires
        m.restored is None,
        m.undid_wrapped is None,
        m.undid_bare is None,
        m.reverted_by is Some || m.revertida is Some || m.ja_revert is Some
            || m.reverting_prose is Some,
    ensures
        revert_in(m) is Some,
        ({
            let groups = if m.reverted_by is Some {
                m.reverted_by->0
            } else if m.revertida is Some {
                m.revertida->0
            } else if m.ja_revert is Some {
                m.ja_revert->0
            } else {
                m.reverting_prose->0
            };
            let r = revert_in(m)->0;
            &&& r.confidence == Confidence::Strong
            &&& groups.len() > 1 ==> r.reverted_user == groups[1]
            &&& groups.len() <= 1 ==> r.reverted_user is None
            &&& r.rev_id is None
        }),
{
}

/// A restoration names the revision that group 1 writes, whatever else the comment says.
pub proof fn law_restored_names_the_revision_of_group_one(m: MatchesView)
    requires
        m.restored is Some,
    ensures
        revert_in(m) is Some,
        m.restored->0.len() > 1 && m.restored->0[1] is Some ==> revert_in(m)->0.rev_id
            == text::i64_value(m.restored->0[1]->0),
        m.restored->0.len() <= 1 || m.restored->0[1] is None ==> revert_in(m)->0.rev_id is None,
{
}

/// A revision id that a group writes in decimal is the one that is named.
pub proof fn law_written_revisions_are_named(m: MatchesView, groups: Seq<Option<Seq<char>>>, id: i64)
    requires
        groups.len() > 1,
        groups[1] == Some(text::decimal(id as int)),
        m.restored == Some(groups) || (m.restored is None && m.undid_wrapped == Some(groups)) || (
        m.restored is None && m.undid_wrapped is None && m.undid_bare == Some(groups)),
    ensures
        revert_in(m) is Some,
        revert_in(m)->0.rev_id == Some(id),
{
    text::law_decimal_round_trip(id);
}

} // verus!
