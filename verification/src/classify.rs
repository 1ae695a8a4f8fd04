//! Classification.
//!
//! The stream annotates itself, so there is no learning here. Two evidence sources, in
//! confidence order:
//!
//! 1. `categorize` events: a page being added to `2026 deaths` is the wiki's own editors
//!    asserting the fact. The strongest signal available.
//! 2. Edit-comment keywords, English and Hindi. Those for deaths must stand as words of their
//!    own: whoever "studied" has not "died". The others may be stems: "impeach" is in
//!    "impeachment".
//!
//! Precision over coverage: a wrong `death` label is worse than no label. Anything
//! unrecognised stays `Unclassified`, which the receipts page shows honestly.

use vstd::prelude::*;
use crate::event::EventKind;
use crate::text;

verus! {

// ---------------------------------------------------------------------------
// Vocabulary
// ---------------------------------------------------------------------------

/// The texts of a list of words.
pub open spec fn words_of(words: Seq<&'static str>) -> Seq<Seq<char>> {
    Seq::new(words.len(), |i: int| words[i]@)
}

/// One of the texts stands somewhere in the text, be it inside a word.
pub open spec fn has_any(s: Seq<char>, words: Seq<Seq<char>>) -> bool {
    exists|i: int| 0 <= i < words.len() && text::contains_text(s, #[trigger] words[i])
}

/// Whether a character beyond ASCII has the Unicode property Alphabetic: what
/// `char::is_alphabetic` returns.
pub uninterp spec fn alphabetic(c: char) -> bool;

/// A letter of any script.
pub open spec fn is_letter(c: char) -> bool {
    if c <= '\u{7f}' {
        'a' <= c <= 'z' || 'A' <= c <= 'Z'
    } else {
        alphabetic(c)
    }
}

/// A word stands in the text at a position, with no letter right before or after it.
pub open spec fn stands_at(s: Seq<char>, word: Seq<char>, at: int) -> bool {
    &&& text::occurs_at(s, word, at)
    &&& at == 0 || !is_letter(s[at - 1])
    &&& at + word.len() == s.len() || !is_letter(s[at + word.len()])
}

/// A word stands somewhere in the text.
pub open spec fn has_word(s: Seq<char>, word: Seq<char>) -> bool {
    exists|at: int| stands_at(s, word, at)
}

/// One of the words stands in the text as a word of its own.
pub open spec fn has_any_word(s: Seq<char>, words: Seq<Seq<char>>) -> bool {
    exists|i: int| 0 <= i < words.len() && has_word(s, #[trigger] words[i])
}

/// Category words for deaths; ` obituaries` counts only at the end of the title.
pub open spec fn death_categories() -> Seq<Seq<char>> {
    seq!["deaths"@, "deceased"@]
}

/// Category words for disasters.
pub open spec fn disaster_categories() -> Seq<Seq<char>> {
    seq![
        "disasters"@,
        "earthquakes"@,
        "floods"@,
        "wildfires"@,
        "plane crashes"@,
        "cyclones"@,
        "hurricanes"@,
    ]
}

/// Category words for politics.
pub open spec fn political_categories() -> Seq<Seq<char>> {
    seq![
        "elections"@,
        "prime ministers"@,
        "heads of state"@,
        "political scandals"@,
        "coups"@,
    ]
}

/// Category words for sports.
pub open spec fn sports_categories() -> Seq<Seq<char>> {
    seq![
        "football"@,
        "cricket"@,
        "olympic"@,
        "matches"@,
        "tournaments"@,
        "championships"@,
        "seasons"@,
    ]
}

/// Comment words for deaths, in English, then in Hindi: demise, death, passed away. The lists
/// are deliberately narrow: a generic word like "won" appears constantly in maintenance
/// edits and would poison precision.
pub open spec fn death_words() -> Seq<Seq<char>> {
    seq![
        "died"@,
        "death date"@,
        "passed away"@,
        "date of death"@,
        "obituary"@,
        "dies aged"@,
        "निधन"@,
        "मृत्यु"@,
        "मौत"@,
    ]
}

/// Comment words for disasters, then Hindi: earthquake, flood, accident, storm.
pub open spec fn disaster_words() -> Seq<Seq<char>> {
    seq![
        "earthquake"@,
        "magnitude"@,
        "death toll"@,
        "casualties"@,
        "tsunami"@,
        "derailment"@,
        "plane crash"@,
        "wildfire"@,
        "भूकंप"@,
        "बाढ़"@,
        "दुर्घटना"@,
        "तूफान"@,
    ]
}

/// Comment words for politics, then Hindi: resignation, election, prime minister.
pub open spec fn political_words() -> Seq<Seq<char>> {
    seq![
        "resigned"@,
        "resignation"@,
        "sworn in"@,
        "elected president"@,
        "election result"@,
        "no-confidence"@,
        "impeach"@,
        "cabinet reshuffle"@,
        "इस्तीफा"@,
        "चुनाव"@,
        "प्रधानमंत्री"@,
    ]
}

/// Comment words for sports, then Hindi: match, innings.
pub open spec fn sports_words() -> Seq<Seq<char>> {
    seq![
        "final score"@,
        "full-time"@,
        "aggregate"@,
        "man of the match"@,
        "wickets"@,
        "goalscorer"@,
        "penalty shootout"@,
        "clean sheet"@,
        "मैच"@,
        "पारी"@,
    ]
}

/// The kind that a lowercased category title asserts.
pub open spec fn category_asserts(c: Seq<char>) -> Option<EventKind> {
    if has_any(c, death_categories()) || text::finishes_with(c, " obituaries"@) {
        Some(EventKind::Death)
    } else if has_any(c, disaster_categories()) {
        Some(EventKind::Disaster)
    } else if has_any(c, political_categories()) {
        Some(EventKind::Political)
    } else if has_any(c, sports_categories()) {
        Some(EventKind::Sports)
    } else {
        None
    }
}

/// The kind that a lowercased comment suggests. Death is the most consequential label, so
/// its words come first, and count only as words of their own.
pub open spec fn comment_suggests(c: Seq<char>) -> Option<EventKind> {
    if has_any_word(c, death_words()) {
        Some(EventKind::Death)
    } else if has_any(c, disaster_words()) {
        Some(EventKind::Disaster)
    } else if has_any(c, political_words()) {
        Some(EventKind::Political)
    } else if has_any(c, sports_words()) {
        Some(EventKind::Sports)
    } else {
        None
    }
}

/// The kind that the first telling category asserts.
pub open spec fn first_category(categories: Seq<Seq<char>>) -> Option<EventKind>
    decreases categories.len(),
{
    if categories.len() == 0 {
        None
    } else if category_asserts(categories[0]) is Some {
        category_asserts(categories[0])
    } else {
        first_category(categories.skip(1))
    }
}

/// The kind that the first telling comment suggests.
pub open spec fn first_comment(comments: Seq<Seq<char>>) -> Option<EventKind>
    decreases comments.len(),
{
    if comments.len() == 0 {
        None
    } else if comment_suggests(comments[0]) is Some {
        comment_suggests(comments[0])
    } else {
        first_comment(comments.skip(1))
    }
}

/// The label of lowercased evidence: categories outvote comments.
pub open spec fn label(categories: Seq<Seq<char>>, comments: Seq<Seq<char>>) -> EventKind {
    match first_category(categories) {
        Some(kind) => kind,
        None => match first_comment(comments) {
            Some(kind) => kind,
            None => EventKind::Unclassified,
        },
    }
}

/// The lowercase equivalent of a text, by the Unicode mappings: what `str::to_lowercase`
/// returns.
pub uninterp spec fn lowercase(s: Seq<char>) -> Seq<char>;

/// A text without characters beyond ASCII.
pub open spec fn is_plain(s: Seq<char>) -> bool {
    forall|i: int| 0 <= i < s.len() ==> #[trigger] s[i] <= '\u{7f}'
}

/// An ASCII capital as its small letter; any other character as it is.
pub open spec fn small(c: char) -> char {
    if 'A' <= c <= 'Z' {
        (c as int + 32) as char
    } else {
        c
    }
}

/// A text in lowercase: letter by letter in ASCII, and by the Unicode mappings beyond it.
pub open spec fn lowered(s: Seq<char>) -> Seq<char> {
    if is_plain(s) {
        s.map_values(|c: char| small(c))
    } else {
        lowercase(s)
    }
}

/// Some texts in lowercase.
pub open spec fn lowered_all(v: Seq<Seq<char>>) -> Seq<Seq<char>> {
    Seq::new(v.len(), |i: int| lowered(v[i]))
}

// ---------------------------------------------------------------------------
// Labels
// ---------------------------------------------------------------------------

/// Lowercases with `str::to_lowercase`. The contract names its result, and says that in a
/// text of ASCII characters alone each capital becomes its small letter and nothing else
/// changes.
#[verifier::external_body]
fn to_lowercase(s: &str) -> (r: String)
    ensures
        r@ == lowercase(s@),
        is_plain(s@) ==> r@ == s@.map_values(|c: char| small(c)),
{
    s.to_lowercase()
}

/// Asks `char::is_alphabetic` of a character; the contract names its result.
#[verifier::external_body]
fn is_alphabetic(c: char) -> (r: bool)
    ensures
        r == alphabetic(c),
{
    c.is_alphabetic()
}

/// Whether a character is a letter of any script.
fn letter(c: char) -> (r: bool)
    ensures
        r == is_letter(c),
{
    if c <= '\u{7f}' {
        ('a' <= c && c <= 'z') || ('A' <= c && c <= 'Z')
    } else {
        is_alphabetic(c)
    }
}

/// Whether a word stands in the text as a word of its own.
fn contains_word(c: &Vec<char>, word: &str) -> (r: bool)
    ensures
        r == has_word(c@, word@),
{
    let w: Vec<char> = text::chars_of(word);
    let n: usize = c.len();
    let k: usize = w.len();
    if k > n {
        return false;
    }
    let mut at: usize = 0;
    loop
        invariant
            n == c@.len(),
            k == w@.len(),
            w@ == word@,
            at + k <= n,
            forall|j: int| 0 <= j < at ==> !stands_at(c@, word@, j),
        ensures
            forall|j: int| 0 <= j <= n - k ==> !stands_at(c@, word@, j),
        decreases n - k - at,
    {
        if text::matches_at(c, &w, at) && (at == 0 || !letter(c[at - 1])) && (at + k == n
            || !letter(c[at + k])) {
            assert(stands_at(c@, word@, at as int));
            return true;
        }
        assert(!stands_at(c@, word@, at as int));
        if at == n - k {
            break;
        }
        at = at + 1;
    }
    false
}

/// Whether one of the words stands in the text as a word of its own.
fn contains_any_word(c: &Vec<char>, words: &Vec<&'static str>) -> (r: bool)
    ensures
        r == has_any_word(c@, words_of(words@)),
{
    let mut i: usize = 0;
    while i < words.len()
        invariant
            i <= words@.len(),
            forall|k: int| 0 <= k < i ==> !has_word(c@, #[trigger] words_of(words@)[k]),
        decreases words@.len() - i,
    {
        if contains_word(c, words[i]) {
            assert(has_word(c@, words_of(words@)[i as int]));
            return true;
        }
        i = i + 1;
    }
    false
}

/// Whether one of the texts stands somewhere in the text.
fn contains_any(c: &Vec<char>, words: &Vec<&'static str>) -> (r: bool)
    ensures
        r == has_any(c@, words_of(words@)),
{
    let mut i: usize = 0;
    while i < words.len()
        invariant
            i <= words@.len(),
            forall|k: int| 0 <= k < i ==> !text::contains_text(c@, #[trigger] words_of(words@)[k]),
        decreases words@.len() - i,
    {
        if text::contains(c, words[i]) {
            assert(text::contains_text(c@, words_of(words@)[i as int]));
            return true;
        }
        i = i + 1;
    }
    false
}

/// The kind that a lowercased category title asserts.
pub fn lowered_category_kind(category: &str) -> (r: Option<EventKind>)
    ensures
        r == category_asserts(category@),
{
    let c: Vec<char> = text::chars_of(category);
    let death: Vec<&'static str> = vec!["deaths", "deceased"];
    assert(words_of(death@) =~= death_categories());
    let disaster: Vec<&'static str> = vec![
        "disasters",
        "earthquakes",
        "floods",
        "wildfires",
        "plane crashes",
        "cyclones",
        "hurricanes",
    ];
    assert(words_of(disaster@) =~= disaster_categories());
    let political: Vec<&'static str> = vec![
        "elections",
        "prime ministers",
        "heads of state",
        "political scandals",
        "coups",
    ];
    assert(words_of(political@) =~= political_categories());
    let sports: Vec<&'static str> = vec![
        "football",
        "cricket",
        "olympic",
        "matches",
        "tournaments",
        "championships",
        "seasons",
    ];
    assert(words_of(sports@) =~= sports_categories());
    if contains_any(&c, &death) || text::ends_with(&c, " obituaries") {
        Some(EventKind::Death)
    } else if contains_any(&c, &disaster) {
        Some(EventKind::Disaster)
    } else if contains_any(&c, &political) {
        Some(EventKind::Political)
    } else if contains_any(&c, &sports) {
        Some(EventKind::Sports)
    } else {
        None
    }
}

/// The kind that a category title asserts.
pub fn category_kind(category: &str) -> (r: Option<EventKind>)
    ensures
        r == category_asserts(lowered(category@)),
{
    let c: String = to_lowercase(category);
    lowered_category_kind(c.as_str())
}

/// The kind that a lowercased comment suggests.
pub fn lowered_comment_kind(comment: &str) -> (r: Option<EventKind>)
    ensures
        r == comment_suggests(comment@),
{
    let c: Vec<char> = text::chars_of(comment);
    let death: Vec<&'static str> = vec![
        "died",
        "death date",
        "passed away",
        "date of death",
        "obituary",
        "dies aged",
        "निधन",
        "मृत्यु",
        "मौत",
    ];
    assert(words_of(death@) =~= death_words());
    let disaster: Vec<&'static str> = vec![
        "earthquake",
        "magnitude",
        "death toll",
        "casualties",
        "tsunami",
        "derailment",
        "plane crash",
        "wildfire",
        "भूकंप",
        "बाढ़",
        "दुर्घटना",
        "तूफान",
    ];
    assert(words_of(disaster@) =~= disaster_words());
    let political: Vec<&'static str> = vec![
        "resigned",
        "resignation",
        "sworn in",
        "elected president",
        "election result",
        "no-confidence",
        "impeach",
        "cabinet reshuffle",
        "इस्तीफा",
        "चुनाव",
        "प्रधानमंत्री",
    ];
    assert(words_of(political@) =~= political_words());
    let sports: Vec<&'static str> = vec![
        "final score",
        "full-time",
        "aggregate",
        "man of the match",
        "wickets",
        "goalscorer",
        "penalty shootout",
        "clean sheet",
        "मैच",
        "पारी",
    ];
    assert(words_of(sports@) =~= sports_words());
    if contains_any_word(&c, &death) {
        Some(EventKind::Death)
    } else if contains_any(&c, &disaster) {
        Some(EventKind::Disaster)
    } else if contains_any(&c, &political) {
        Some(EventKind::Political)
    } else if contains_any(&c, &sports) {
        Some(EventKind::Sports)
    } else {
        None
    }
}

/// The kind that a comment suggests.
pub fn comment_kind(comment: &str) -> (r: Option<EventKind>)
    ensures
        r == comment_suggests(lowered(comment@)),
{
    let c: String = to_lowercase(comment);
    lowered_comment_kind(c.as_str())
}

/// The label of evidence that has been lowercased.
pub fn classify_lowered(categories: &Vec<String>, comments: &Vec<String>) -> (r: EventKind)
    ensures
        r == label(text::texts(categories@), text::texts(comments@)),
{
    let ghost cats = text::texts(categories@);
    let ghost cmts = text::texts(comments@);
    let mut i: usize = 0;
    assert(cats.skip(0) =~= cats);
    while i < categories.len()
        invariant
            i <= categories@.len(),
            cats == text::texts(categories@),
            cmts == text::texts(comments@),
            first_category(cats.skip(i as int)) == first_category(cats),
        decreases categories@.len() - i,
    {
        assert(cats.skip(i as int)[0] == categories@[i as int]@);
        if let Some(kind) = lowered_category_kind(categories[i].as_str()) {
            return kind;
        }
        assert(cats.skip(i as int).skip(1) =~= cats.skip(i + 1));
        i = i + 1;
    }
    let mut j: usize = 0;
    assert(cmts.skip(0) =~= cmts);
    while j < comments.len()
        invariant
            j <= comments@.len(),
            cats == text::texts(categories@),
            cmts == text::texts(comments@),
            first_category(cats) is None,
            first_comment(cmts.skip(j as int)) == first_comment(cmts),
        decreases comments@.len() - j,
    {
        assert(cmts.skip(j as int)[0] == comments@[j as int]@);
        if let Some(kind) = lowered_comment_kind(comments[j].as_str()) {
            return kind;
        }
        assert(cmts.skip(j as int).skip(1) =~= cmts.skip(j + 1));
        j = j + 1;
    }
    EventKind::Unclassified
}

/// Some texts in lowercase.
fn lower_all(v: &[String]) -> (r: Vec<String>)
    ensures
        text::texts(r@) == lowered_all(text::texts(v@)),
        r@.len() == v@.len(),
        forall|i: int| 0 <= i < v@.len() ==> (#[trigger] r@[i])@ == lowered(v@[i]@),
{
    let mut out: Vec<String> = Vec::new();
    let mut i: usize = 0;
    while i < v.len()
        invariant
            i <= v@.len(),
            out@.len() == i,
            forall|k: int| 0 <= k < i ==> (#[trigger] out@[k])@ == lowered(v@[k]@),
        decreases v@.len() - i,
    {
        out.push(to_lowercase(v[i].as_str()));
        i = i + 1;
    }
    assert(text::texts(out@) =~= lowered_all(text::texts(v@)));
    out
}

/// Classifies a confirmed burst from the evidence gathered in its window.
///
/// Categories outvote comments: an editor adding a page to `2026 deaths` is a stronger claim
/// than the word "died" appearing in prose.
pub fn classify(categories: &[String], comments: &[String]) -> (r: EventKind)
    ensures
        r == label(
            lowered_all(text::texts(categories@)),
            lowered_all(text::texts(comments@)),
        ),
{
    let cats: Vec<String> = lower_all(categories);
    let cmts: Vec<String> = lower_all(comments);
    classify_lowered(&cats, &cmts)
}

// ---------------------------------------------------------------------------
// Categorize events
// ---------------------------------------------------------------------------

/// The article that a categorize comment adds to a category: what stands between the first
/// `[[:` and the next `]]`, where the comment tells of an addition and that is not nothing.
pub open spec fn added_article(comment: Seq<char>) -> Option<Seq<char>> {
    if !text::contains_text(comment, "added to category"@) {
        None
    } else {
        match text::find_text(comment, "[[:"@) {
            None => None,
            Some(at) => {
                let rest = comment.skip(at + 3);
                match text::find_text(rest, "]]"@) {
                    None => None,
                    Some(end) => if end == 0 {
                        None
                    } else {
                        Some(rest.take(end))
                    },
                }
            },
        }
    }
}

/// Extracts the article that a `categorize` event refers to.
///
/// A categorize event's `title` is the *category* page; the article that moved is named in
/// the comment, as in `[[:Ada Lovelace]] added to category`. Only additions are evidence: a
/// removal is the opposite claim.
pub fn categorized_article(comment: &str) -> (r: Option<&str>)
    ensures
        match r {
            Some(title) => added_article(comment@) == Some(title@),
            None => added_article(comment@) is None,
        },
{
    let c: Vec<char> = text::chars_of(comment);
    if !text::contains(&c, "added to category") {
        return None;
    }
    let open: Vec<char> = text::chars_of("[[:");
    let close: Vec<char> = text::chars_of("]]");
    proof {
        reveal_strlit("[[:");
        reveal_strlit("]]");
    }
    let n: usize = c.len();
    match text::find(&c, &open) {
        None => None,
        Some(at) => {
            let start: usize = at + 3;
            let rest: &str = comment.substring_char(start, n);
            assert(rest@ =~= comment@.skip(start as int));
            let body: Vec<char> = text::chars_of(rest);
            match text::find(&body, &close) {
                None => None,
                Some(end) => {
                    if end == 0 {
                        None
                    } else {
                        let title: &str = rest.substring_char(0, end);
                        assert(title@ =~= rest@.take(end as int));
                        Some(title)
                    }
                },
            }
        },
    }
}

// ---------------------------------------------------------------------------
// Laws
// ---------------------------------------------------------------------------

/// Where a category tells, comments have no say.
pub proof fn law_categories_outvote_comments(
    categories: Seq<Seq<char>>,
    comments: Seq<Seq<char>>,
    others: Seq<Seq<char>>,
)
    requires
        first_category(categories) is Some,
    ensures
        label(categories, comments) == label(categories, others),
{
}

/// A wrong `death` label is worse than none: where a letter stands right before or after every
/// occurrence of every word for deaths, a comment does not suggest one.
pub proof fn law_words_inside_words_are_no_deaths(comment: Seq<char>)
    requires
        forall|i: int, at: int|
            0 <= i < death_words().len() && #[trigger] text::occurs_at(
                comment,
                death_words()[i],
                at,
            ) ==> (at > 0 && is_letter(comment[at - 1])) || (at + death_words()[i].len()
                < comment.len() && is_letter(comment[at + death_words()[i].len()])),
    ensures
        comment_suggests(comment) != Some(EventKind::Death),
{
    let words = death_words();
    assert forall|i: int| 0 <= i < words.len() implies !has_word(comment, #[trigger] words[i]) by {
        assert forall|at: int| !stands_at(comment, words[i], at) by {
            if text::occurs_at(comment, words[i], at) {
            }
        }
    }
}

/// A telling category is one of the categories.
proof fn lemma_first_category(categories: Seq<Seq<char>>)
    ensures
        match first_category(categories) {
            Some(kind) => kind != EventKind::Unclassified && exists|i: int|
                0 <= i < categories.len() && category_asserts(#[trigger] categories[i]) == Some(
                    kind,
                ),
            None => forall|i: int|
                0 <= i < categories.len() ==> category_asserts(#[trigger] categories[i]) is None,
        },
    decreases categories.len(),
{
    if categories.len() > 0 && category_asserts(categories[0]) is None {
        let t = categories.skip(1);
        lemma_first_category(t);
        match first_category(t) {
            Some(kind) => {
                let i = choose|i: int|
                    0 <= i < t.len() && category_asserts(#[trigger] t[i]) == Some(kind);
                assert(categories[i + 1] == t[i]);
            },
            None => {
                assert forall|i: int| 0 <= i < categories.len() implies category_asserts(
                    #[trigger] categories[i],
                ) is None by {
                    if i > 0 {
                        assert(t[i - 1] == categories[i]);
                    }
                }
            },
        }
    }
}

/// A telling comment is one of the comments.
proof fn lemma_first_comment(comments: Seq<Seq<char>>)
    ensures
        match first_comment(comments) {
            Some(kind) => kind != EventKind::Unclassified && exists|i: int|
                0 <= i < comments.len() && comment_suggests(#[trigger] comments[i]) == Some(kind),
            None => forall|i: int|
                0 <= i < comments.len() ==> comment_suggests(#[trigger] comments[i]) is None,
        },
    decreases comments.len(),
{
    if comments.len() > 0 && comment_suggests(comments[0]) is None {
        let t = comments.skip(1);
        lemma_first_comment(t);
        match first_comment(t) {
            Some(kind) => {
                let i = choose|i: int|
                    0 <= i < t.len() && comment_suggests(#[trigger] t[i]) == Some(kind);
                assert(comments[i + 1] == t[i]);
            },
            None => {
                assert forall|i: int| 0 <= i < comments.len() implies comment_suggests(
                    #[trigger] comments[i],
                ) is None by {
                    if i > 0 {
                        assert(t[i - 1] == comments[i]);
                    }
                }
            },
        }
    }
}

/// Nothing is guessed: the label is `Unclassified` exactly where no category and no comment
/// tells of anything.
pub proof fn law_unknown_evidence_stays_unclassified(
    categories: Seq<Seq<char>>,
    comments: Seq<Seq<char>>,
)
    ensures
        label(categories, comments) == EventKind::Unclassified <==> {
            &&& forall|i: int|
                0 <= i < categories.len() ==> category_asserts(#[trigger] categories[i]) is None
            &&& forall|i: int|
                0 <= i < comments.len() ==> comment_suggests(#[trigger] comments[i]) is None
        },
{
    lemma_first_category(categories);
    lemma_first_comment(comments);
}

/// Every label but `Unclassified` has evidence of its own kind.
pub proof fn law_labels_have_evidence(categories: Seq<Seq<char>>, comments: Seq<Seq<char>>)
    ensures
        label(categories, comments) != EventKind::Unclassified ==> {
            ||| exists|i: int|
                0 <= i < categories.len() && category_asserts(#[trigger] categories[i]) == Some(
                    label(categories, comments),
                )
            ||| exists|i: int|
                0 <= i < comments.len() && comment_suggests(#[trigger] comments[i]) == Some(
                    label(categories, comments),
                )
        },
{
    lemma_first_category(categories);
    lemma_first_comment(comments);
}

/// Two texts of ASCII characters that differ in nothing but the case of their letters.
pub open spec fn same_but_case(a: Seq<char>, b: Seq<char>) -> bool {
    &&& a.len() == b.len()
    &&& forall|j: int|
        0 <= j < a.len() ==> (#[trigger] a[j]) <= '\u{7f}' && b[j] <= '\u{7f}' && (a[j]
            == b[j] || ('A' <= a[j] <= 'Z' && b[j] as int == a[j] as int + 32) || ('A' <= b[j]
            <= 'Z' && a[j] as int == b[j] as int + 32))
}

/// In lowercase, texts that differ in case alone are the same.
proof fn lemma_case(a: Seq<char>, b: Seq<char>)
    requires
        same_but_case(a, b),
    ensures
        lowered(a) == lowered(b),
{
    assert forall|j: int| 0 <= j < a.len() implies #[trigger] a[j] <= '\u{7f}' by {
    }
    assert forall|j: int| 0 <= j < b.len() implies #[trigger] b[j] <= '\u{7f}' by {
        assert(a[j] <= '\u{7f}');
    }
    assert(lowered(a).len() == lowered(b).len());
    assert forall|j: int| 0 <= j < a.len() implies #[trigger] lowered(a)[j] == lowered(b)[j] by {
        assert(a[j] <= '\u{7f}' && b[j] <= '\u{7f}');
    }
    assert(lowered(a) =~= lowered(b));
}

/// Case makes no difference, in any piece of the evidence: lists whose texts are the same, or
/// differ in the case of their letters alone, one by one, have the same label.
pub proof fn law_case_makes_no_difference(
    categories: Seq<Seq<char>>,
    other_categories: Seq<Seq<char>>,
    comments: Seq<Seq<char>>,
    other_comments: Seq<Seq<char>>,
)
    requires
        categories.len() == other_categories.len(),
        comments.len() == other_comments.len(),
        forall|i: int|
            0 <= i < categories.len() ==> #[trigger] categories[i] == other_categories[i]
                || same_but_case(categories[i], other_categories[i]),
        forall|i: int|
            0 <= i < comments.len() ==> #[trigger] comments[i] == other_comments[i]
                || same_but_case(comments[i], other_comments[i]),
    ensures
        label(lowered_all(categories), lowered_all(comments)) == label(
            lowered_all(other_categories),
            lowered_all(other_comments),
        ),
{
    assert forall|i: int| 0 <= i < categories.len() implies lowered(#[trigger] categories[i])
        == lowered(other_categories[i]) by {
        if same_but_case(categories[i], other_categories[i]) {
            lemma_case(categories[i], other_categories[i]);
        }
    }
    assert forall|i: int| 0 <= i < comments.len() implies lowered(#[trigger] comments[i])
        == lowered(other_comments[i]) by {
        if same_but_case(comments[i], other_comments[i]) {
            lemma_case(comments[i], other_comments[i]);
        }
    }
    assert forall|i: int| 0 <= i < categories.len() implies #[trigger] lowered_all(categories)[i]
        == lowered_all(other_categories)[i] by {
        assert(lowered(categories[i]) == lowered(other_categories[i]));
    }
    assert forall|i: int| 0 <= i < comments.len() implies #[trigger] lowered_all(comments)[i]
        == lowered_all(other_comments)[i] by {
        assert(lowered(comments[i]) == lowered(other_comments[i]));
    }
    assert(lowered_all(categories) =~= lowered_all(other_categories));
    assert(lowered_all(comments) =~= lowered_all(other_comments));
}

/// Each piece of evidence is put in lowercase, and none is left out or moved: in ASCII a
/// capital becomes the letter thirty-two places on, and nothing else changes; beyond ASCII the
/// Unicode mappings decide.
pub proof fn law_each_text_is_judged_in_lowercase(v: Seq<Seq<char>>)
    ensures
        lowered_all(v).len() == v.len(),
        forall|i: int|
            0 <= i < v.len() && is_plain(#[trigger] v[i]) ==> lowered_all(v)[i].len() == v[i].len()
                && forall|j: int|
                0 <= j < v[i].len() ==> #[trigger] lowered_all(v)[i][j] as int == v[i][j] as int
                    + if 'A' <= v[i][j] <= 'Z' {
                    32int
                } else {
                    0int
                },
        forall|i: int|
            0 <= i < v.len() && !is_plain(#[trigger] v[i]) ==> lowered_all(v)[i] == lowercase(v[i]),
{
}

/// The first telling category decides, whatever else the evidence holds.
pub proof fn law_the_first_telling_category_decides(
    categories: Seq<Seq<char>>,
    comments: Seq<Seq<char>>,
    i: int,
    kind: EventKind,
)
    requires
        0 <= i < categories.len(),
        category_asserts(lowered(categories[i])) == Some(kind),
        forall|j: int| 0 <= j < i ==> category_asserts(lowered(#[trigger] categories[j])) is None,
    ensures
        label(lowered_all(categories), lowered_all(comments)) == kind,
{
    let low = lowered_all(categories);
    assert forall|j: int| 0 <= j < i implies category_asserts(#[trigger] low[j]) is None by {
        assert(low[j] == lowered(categories[j]));
    }
    lemma_first_category_is(low, i);
}

/// Where no category tells, the first telling comment decides.
pub proof fn law_the_first_telling_comment_decides(
    categories: Seq<Seq<char>>,
    comments: Seq<Seq<char>>,
    i: int,
    kind: EventKind,
)
    requires
        forall|j: int|
            0 <= j < categories.len() ==> category_asserts(
                lowered(#[trigger] categories[j]),
            ) is None,
        0 <= i < comments.len(),
        comment_suggests(lowered(comments[i])) == Some(kind),
        forall|j: int| 0 <= j < i ==> comment_suggests(lowered(#[trigger] comments[j])) is None,
    ensures
        label(lowered_all(categories), lowered_all(comments)) == kind,
{
    let cats = lowered_all(categories);
    let low = lowered_all(comments);
    lemma_first_category(cats);
    assert forall|j: int| 0 <= j < cats.len() implies category_asserts(
        #[trigger] cats[j],
    ) is None by {
        assert(cats[j] == lowered(categories[j]));
    }
    assert forall|j: int| 0 <= j < i implies comment_suggests(#[trigger] low[j]) is None by {
        assert(low[j] == lowered(comments[j]));
    }
    lemma_first_comment_is(low, i);
}

/// Evidence of which no piece tells of anything in lowercase is unclassified.
pub proof fn law_silent_evidence_is_unclassified(
    categories: Seq<Seq<char>>,
    comments: Seq<Seq<char>>,
)
    requires
        forall|j: int|
            0 <= j < categories.len() ==> category_asserts(
                lowered(#[trigger] categories[j]),
            ) is None,
        forall|j: int|
            0 <= j < comments.len() ==> comment_suggests(lowered(#[trigger] comments[j])) is None,
    ensures
        label(lowered_all(categories), lowered_all(comments)) == EventKind::Unclassified,
{
    let cats = lowered_all(categories);
    let low = lowered_all(comments);
    assert forall|j: int| 0 <= j < cats.len() implies category_asserts(
        #[trigger] cats[j],
    ) is None by {
        assert(cats[j] == lowered(categories[j]));
    }
    assert forall|j: int| 0 <= j < low.len() implies comment_suggests(
        #[trigger] low[j],
    ) is None by {
        assert(low[j] == lowered(comments[j]));
    }
    lemma_first_category(cats);
    lemma_first_comment(low);
}

/// The category at which telling begins is the first telling one.
proof fn lemma_first_category_is(categories: Seq<Seq<char>>, i: int)
    requires
        0 <= i < categories.len(),
        category_asserts(categories[i]) is Some,
        forall|j: int| 0 <= j < i ==> category_asserts(#[trigger] categories[j]) is None,
    ensures
        first_category(categories) == category_asserts(categories[i]),
    decreases i,
{
    if i > 0 {
        let t = categories.skip(1);
        assert(category_asserts(categories[0]) is None);
        assert(t[i - 1] == categories[i]);
        assert forall|j: int| 0 <= j < i - 1 implies category_asserts(#[trigger] t[j]) is None by {
            assert(t[j] == categories[j + 1]);
        }
        lemma_first_category_is(t, i - 1);
    }
}

/// The comment at which telling begins is the first telling one.
proof fn lemma_first_comment_is(comments: Seq<Seq<char>>, i: int)
    requires
        0 <= i < comments.len(),
        comment_suggests(comments[i]) is Some,
        forall|j: int| 0 <= j < i ==> comment_suggests(#[trigger] comments[j]) is None,
    ensures
        first_comment(comments) == comment_suggests(comments[i]),
    decreases i,
{
    if i > 0 {
        let t = comments.skip(1);
        assert(comment_suggests(comments[0]) is None);
        assert(t[i - 1] == comments[i]);
        assert forall|j: int| 0 <= j < i - 1 implies comment_suggests(#[trigger] t[j]) is None by {
            assert(t[j] == comments[j + 1]);
        }
        lemma_first_comment_is(t, i - 1);
    }
}

/// What a category title says by the words in it, wherever in the title they stand: deaths
/// come before disasters, those before politics, and those before sports.
pub proof fn law_category_titles_tell_by_their_words(c: Seq<char>)
    ensures
        ({
            let deaths = text::contains_text(c, "deaths"@) || text::contains_text(c, "deceased"@)
                || text::finishes_with(c, " obituaries"@);
            let disasters = text::contains_text(c, "disasters"@) || text::contains_text(
                c,
                "earthquakes"@,
            ) || text::contains_text(c, "floods"@) || text::contains_text(c, "wildfires"@)
                || text::contains_text(c, "plane crashes"@) || text::contains_text(c, "cyclones"@)
                || text::contains_text(c, "hurricanes"@);
            let politics = text::contains_text(c, "elections"@) || text::contains_text(
                c,
                "prime ministers"@,
            ) || text::contains_text(c, "heads of state"@) || text::contains_text(
                c,
                "political scandals"@,
            ) || text::contains_text(c, "coups"@);
            let sports = text::contains_text(c, "football"@) || text::contains_text(c, "cricket"@)
                || text::contains_text(c, "olympic"@) || text::contains_text(c, "matches"@)
                || text::contains_text(c, "tournaments"@) || text::contains_text(
                c,
                "championships"@,
            ) || text::contains_text(c, "seasons"@);
            &&& category_asserts(c) == Some(EventKind::Death) <==> deaths
            &&& category_asserts(c) == Some(EventKind::Disaster) <==> !deaths && disasters
            &&& category_asserts(c) == Some(EventKind::Political) <==> !deaths && !disasters
                && politics
            &&& category_asserts(c) == Some(EventKind::Sports) <==> !deaths && !disasters
                && !politics && sports
            &&& category_asserts(c) is None <==> !deaths && !disasters && !politics && !sports
        }),
{
    let d = death_categories();
    assert(d[0] == "deaths"@ && d[1] == "deceased"@);
    let e = disaster_categories();
    assert(e[0] == "disasters"@ && e[1] == "earthquakes"@ && e[2] == "floods"@ && e[3]
        == "wildfires"@ && e[4] == "plane crashes"@ && e[5] == "cyclones"@ && e[6]
        == "hurricanes"@);
    let p = political_categories();
    assert(p[0] == "elections"@ && p[1] == "prime ministers"@ && p[2] == "heads of state"@ && p[3]
        == "political scandals"@ && p[4] == "coups"@);
    let s = sports_categories();
    assert(s[0] == "football"@ && s[1] == "cricket"@ && s[2] == "olympic"@ && s[3] == "matches"@
        && s[4] == "tournaments"@ && s[5] == "championships"@ && s[6] == "seasons"@);
}

/// What a comment says by the words in it: a word for a death counts where it stands as a word
/// of its own, the others wherever they stand; deaths come before disasters, those before
/// politics, and those before sports.
pub proof fn law_comments_tell_by_their_words(c: Seq<char>)
    ensures
        ({
            let deaths = has_word(c, "died"@) || has_word(c, "death date"@) || has_word(
                c,
                "passed away"@,
            ) || has_word(c, "date of death"@) || has_word(c, "obituary"@) || has_word(
                c,
                "dies aged"@,
            ) || has_word(c, "निधन"@) || has_word(c, "मृत्यु"@) || has_word(c, "मौत"@);
            let disasters = text::contains_text(c, "earthquake"@) || text::contains_text(
                c,
                "magnitude"@,
            ) || text::contains_text(c, "death toll"@) || text::contains_text(c, "casualties"@)
                || text::contains_text(c, "tsunami"@) || text::contains_text(c, "derailment"@)
                || text::contains_text(c, "plane crash"@) || text::contains_text(c, "wildfire"@)
                || text::contains_text(c, "भूकंप"@) || text::contains_text(c, "बाढ़"@)
                || text::contains_text(c, "दुर्घटना"@) || text::contains_text(c, "तूफान"@);
            let politics = text::contains_text(c, "resigned"@) || text::contains_text(
                c,
                "resignation"@,
            ) || text::contains_text(c, "sworn in"@) || text::contains_text(
                c,
                "elected president"@,
            ) || text::contains_text(c, "election result"@) || text::contains_text(
                c,
                "no-confidence"@,
            ) || text::contains_text(c, "impeach"@) || text::contains_text(c, "cabinet reshuffle"@)
                || text::contains_text(c, "इस्तीफा"@) || text::contains_text(c, "चुनाव"@)
                || text::contains_text(c, "प्रधानमंत्री"@);
            let sports = text::contains_text(c, "final score"@) || text::contains_text(
                c,
                "full-time"@,
            ) || text::contains_text(c, "aggregate"@) || text::contains_text(
                c,
                "man of the match"@,
            ) || text::contains_text(c, "wickets"@) || text::contains_text(c, "goalscorer"@)
                || text::contains_text(c, "penalty shootout"@) || text::contains_text(
                c,
                "clean sheet"@,
            ) || text::contains_text(c, "मैच"@) || text::contains_text(c, "पारी"@);
            &&& comment_suggests(c) == Some(EventKind::Death) <==> deaths
            &&& comment_suggests(c) == Some(EventKind::Disaster) <==> !deaths && disasters
            &&& comment_suggests(c) == Some(EventKind::Political) <==> !deaths && !disasters
                && politics
            &&& comment_suggests(c) == Some(EventKind::Sports) <==> !deaths && !disasters
                && !politics && sports
            &&& comment_suggests(c) is None <==> !deaths && !disasters && !politics && !sports
        }),
{
    let d = death_words();
    assert(d[0] == "died"@ && d[1] == "death date"@ && d[2] == "passed away"@ && d[3]
        == "date of death"@ && d[4] == "obituary"@ && d[5] == "dies aged"@ && d[6] == "निधन"@
        && d[7] == "मृत्यु"@ && d[8] == "मौत"@);
    let e = disaster_words();
    assert(e[0] == "earthquake"@ && e[1] == "magnitude"@ && e[2] == "death toll"@ && e[3]
        == "casualties"@ && e[4] == "tsunami"@ && e[5] == "derailment"@ && e[6] == "plane crash"@
        && e[7] == "wildfire"@ && e[8] == "भूकंप"@ && e[9] == "बाढ़"@ && e[10] == "दुर्घटना"@ && e[11]
        == "तूफान"@);
    let p = political_words();
    assert(p[0] == "resigned"@ && p[1] == "resignation"@ && p[2] == "sworn in"@ && p[3]
        == "elected president"@ && p[4] == "election result"@ && p[5] == "no-confidence"@ && p[6]
        == "impeach"@ && p[7] == "cabinet reshuffle"@ && p[8] == "इस्तीफा"@ && p[9] == "चुनाव"@ && p[10]
        == "प्रधानमंत्री"@);
    let s = sports_words();
    assert(s[0] == "final score"@ && s[1] == "full-time"@ && s[2] == "aggregate"@ && s[3]
        == "man of the match"@ && s[4] == "wickets"@ && s[5] == "goalscorer"@ && s[6]
        == "penalty shootout"@ && s[7] == "clean sheet"@ && s[8] == "मैच"@ && s[9] == "पारी"@);
}

/// A word stands in a text as a word of its own exactly where the text is something, the word,
/// and something more, and what is next to the word on either side is no letter.
pub proof fn law_words_stand_between_other_characters(s: Seq<char>, word: Seq<char>)
    ensures
        has_word(s, word) <==> exists|before: Seq<char>, after: Seq<char>|
            s == #[trigger] (before + word + after) && (before.len() == 0 || !is_letter(
                before.last(),
            )) && (after.len() == 0 || !is_letter(after[0])),
{
    if has_word(s, word) {
        let at = choose|at: int| stands_at(s, word, at);
        let before = s.take(at);
        let after = s.skip(at + word.len());
        assert(s =~= before + word + after);
        assert(before.len() > 0 ==> before.last() == s[at - 1]);
        assert(after.len() > 0 ==> after[0] == s[at + word.len()]);
    }
    if exists|before: Seq<char>, after: Seq<char>|
        s == #[trigger] (before + word + after) && (before.len() == 0 || !is_letter(before.last()))
            && (after.len() == 0 || !is_letter(after[0])) {
        let (before, after) = choose|before: Seq<char>, after: Seq<char>|
            s == #[trigger] (before + word + after) && (before.len() == 0 || !is_letter(
                before.last(),
            )) && (after.len() == 0 || !is_letter(after[0]));
        let at = before.len() as int;
        assert(s.subrange(at, at + word.len()) =~= word);
        assert(before.len() > 0 ==> before.last() == s[at - 1]);
        assert(after.len() > 0 ==> after[0] == s[at + word.len()]);
        assert(stands_at(s, word, at));
    }
}

/// The article that a comment adds to a category stands in it between brackets, is not
/// nothing, and holds no closing brackets; a comment that tells of no addition names none.
pub proof fn law_added_articles_stand_between_brackets(comment: Seq<char>)
    ensures
        match added_article(comment) {
            Some(title) => {
                &&& text::contains_text(comment, "added to category"@)
                &&& title.len() > 0
                &&& !text::contains_text(title, "]]"@)
                &&& exists|before: Seq<char>, after: Seq<char>|
                    comment == before + "[[:"@ + title + #[trigger] ("]]"@ + after)
                        && !#[trigger] text::contains_text(before, "[[:"@)
            },
            None => true,
        },
        !text::contains_text(comment, "added to category"@) ==> added_article(comment) is None,
{
    if let Some(title) = added_article(comment) {
        reveal_strlit("[[:");
        reveal_strlit("]]");
        text::lemma_find_text(comment, "[[:"@);
        let at = text::find_text(comment, "[[:"@)->0;
        let rest = comment.skip(at + 3);
        text::lemma_find_text(rest, "]]"@);
        let end = text::find_text(rest, "]]"@)->0;
        let before = comment.take(at);
        let after = rest.skip(end + 2);
        assert(comment.subrange(at, at + 3) == "[[:"@);
        assert(rest.subrange(end, end + 2) == "]]"@);
        assert(rest =~= title + ("]]"@ + after));
        assert(comment =~= before + "[[:"@ + rest);
        assert(comment =~= before + "[[:"@ + title + ("]]"@ + after));
        assert forall|j: int| !text::occurs_at(before, "[[:"@, j) by {
            if text::occurs_at(before, "[[:"@, j) {
                assert(comment.subrange(j, j + 3) =~= before.subrange(j, j + 3));
                assert(text::occurs_at(comment, "[[:"@, j));
            }
        }
        assert(!text::contains_text(before, "[[:"@));
        assert forall|j: int| !text::occurs_at(title, "]]"@, j) by {
            if text::occurs_at(title, "]]"@, j) {
                assert(rest.subrange(j, j + 2) =~= title.subrange(j, j + 2));
                assert(text::occurs_at(rest, "]]"@, j));
            }
        }
    }
}

/// An article that a comment names between brackets is the one that is read: whatever stands
/// around it, as long as the first opening brackets are its own, the first closing brackets
/// behind those too, and the comment tells of an addition. Brackets around nothing, or none at
/// all, name no article.
pub proof fn law_named_articles_are_read(before: Seq<char>, title: Seq<char>, after: Seq<char>)
    requires
        forall|j: int|
            0 <= j < before.len() ==> !#[trigger] text::occurs_at(
                before + "[[:"@ + title + ("]]"@ + after),
                "[[:"@,
                j,
            ),
        forall|j: int|
            0 <= j < title.len() ==> !#[trigger] text::occurs_at(
                title + ("]]"@ + after),
                "]]"@,
                j,
            ),
    ensures
        ({
            let comment = before + "[[:"@ + title + ("]]"@ + after);
            &&& title.len() > 0 && text::contains_text(comment, "added to category"@)
                ==> added_article(comment) == Some(title)
            &&& title.len() == 0 ==> added_article(comment) is None
        }),
        !text::contains_text(before, "[[:"@) ==> added_article(before) is None,
        !text::contains_text(before, "]]"@) ==> added_article(before) is None,
{
    reveal_strlit("[[:");
    reveal_strlit("]]");
    let comment = before + "[[:"@ + title + ("]]"@ + after);
    let at = before.len() as int;
    assert(comment.subrange(at, at + 3) =~= "[[:"@);
    assert(text::occurs_at(comment, "[[:"@, at));
    text::lemma_find_text(comment, "[[:"@);
    assert(text::find_text(comment, "[[:"@) == Some(at));
    let rest = comment.skip(at + 3);
    assert(rest =~= title + ("]]"@ + after));
    let end = title.len() as int;
    assert(rest.subrange(end, end + 2) =~= "]]"@);
    assert(text::occurs_at(rest, "]]"@, end));
    text::lemma_find_text(rest, "]]"@);
    assert(text::find_text(rest, "]]"@) == Some(end));
    assert(rest.take(end) =~= title);
    text::lemma_find_text(before, "[[:"@);
    if let Some(from) = text::find_text(before, "[[:"@) {
        let tail = before.skip(from + 3);
        text::lemma_find_text(tail, "]]"@);
        if let Some(to) = text::find_text(tail, "]]"@) {
            assert(before.subrange(from + 3 + to, from + 3 + to + 2) =~= tail.subrange(to, to + 2));
            assert(text::occurs_at(before, "]]"@, from + 3 + to));
        }
    }
}

/// In ASCII the letters are the twenty-six in both cases; beyond it Unicode decides.
pub proof fn law_letters(c: char)
    ensures
        c as int <= 0x7f ==> (is_letter(c) <==> (65 <= c as int && c as int <= 90) || (97 <= c as int
            && c as int <= 122)),
        c as int > 0x7f ==> is_letter(c) == alphabetic(c),
{
}

} // verus!
