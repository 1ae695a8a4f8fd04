//! Editor diversity: Gate 2 of the detector.
//!
//! Forty edits by one user is a rewrite; forty edits by twenty-five distinct humans is news.
//! The counts that decide are taken here. The share of the busiest editor is a ratio that
//! whoever holds its limit compares in floating point; the two numbers of the ratio come from
//! the tally, and the outcome of the comparison goes into Gate 2.

use vstd::prelude::*;
use crate::{config, event, ip, text};

verus! {

/// The whole-number thresholds of the detector.
#[derive(Debug, Clone, Copy)]
pub struct Tunables {
    /// Gate 2: distinct non-bot editors required.
    pub min_editors: usize,
    /// Gate 2: registered (non-anonymous) editors required.
    pub min_registered: usize,
    /// Sliding window length in seconds.
    pub window_secs: i64,
    /// Length in seconds of the part of the window that rates are taken over.
    pub rate_window_secs: i64,
    /// Suppress re-confirming the same article for this long.
    pub cooldown_secs: i64,
}

impl Default for Tunables {
    fn default() -> (r: Self)
        ensures
            r == (Tunables {
                min_editors: 5,
                min_registered: 2,
                window_secs: 900,
                rate_window_secs: 300,
                cooldown_secs: 21_600,
            }),
    {
        Tunables {
            min_editors: 5,
            min_registered: 2,
            window_secs: 900,
            rate_window_secs: 300,
            cooldown_secs: 21_600,
        }
    }
}

/// What the environment says of the whole-number thresholds.
#[derive(Debug, Clone)]
pub struct Overrides {
    /// `PULSE_MIN_EDITORS`
    pub min_editors: Option<String>,
    /// `PULSE_MIN_REGISTERED`
    pub min_registered: Option<String>,
    /// `PULSE_WINDOW_SECS`
    pub window_secs: Option<String>,
    /// `PULSE_RATE_WINDOW_SECS`
    pub rate_window_secs: Option<String>,
    /// `PULSE_COOLDOWN_SECS`
    pub cooldown_secs: Option<String>,
}

/// The count that a variable writes, or the default.
pub open spec fn count_or(value: Option<String>, fallback: int) -> int {
    config::number_or(text::opt_text(value), 0, usize::MAX as int, fallback)
}

/// The number of seconds that a variable writes, or the default.
pub open spec fn secs_or(value: Option<String>, fallback: int) -> int {
    config::number_or(text::opt_text(value), i64::MIN as int, i64::MAX as int, fallback)
}

impl Tunables {
    /// The thresholds with their overrides. Anything unset or unreadable keeps its default.
    pub fn from_env(o: Overrides) -> (r: Self)
        ensures
            r.min_editors == count_or(o.min_editors, 5),
            r.min_registered == count_or(o.min_registered, 2),
            r.window_secs == secs_or(o.window_secs, 900),
            r.rate_window_secs == secs_or(o.rate_window_secs, 300),
            r.cooldown_secs == secs_or(o.cooldown_secs, 21_600),
            r.min_editors == config::number_or(
                text::opt_text(o.min_editors),
                0,
                usize::MAX as int,
                5,
            ),
            r.min_registered == config::number_or(
                text::opt_text(o.min_registered),
                0,
                usize::MAX as int,
                2,
            ),
            r.window_secs == config::number_or(
                text::opt_text(o.window_secs),
                i64::MIN as int,
                i64::MAX as int,
                900,
            ),
            r.rate_window_secs == config::number_or(
                text::opt_text(o.rate_window_secs),
                i64::MIN as int,
                i64::MAX as int,
                300,
            ),
            r.cooldown_secs == config::number_or(
                text::opt_text(o.cooldown_secs),
                i64::MIN as int,
                i64::MAX as int,
                21_600,
            ),
    {
        let d: Tunables = Tunables::default();
        Tunables {
            min_editors: config::number_usize(o.min_editors, d.min_editors),
            min_registered: config::number_usize(o.min_registered, d.min_registered),
            window_secs: config::number_i64(o.window_secs, d.window_secs),
            rate_window_secs: config::number_i64(o.rate_window_secs, d.rate_window_secs),
            cooldown_secs: config::number_i64(o.cooldown_secs, d.cooldown_secs),
        }
    }
}

// ---------------------------------------------------------------------------
// Tallies
// ---------------------------------------------------------------------------

/// Editors and their edit counts, in the order of a tally.
pub open spec fn pairs_view(pairs: Seq<(String, u32)>) -> Seq<(Seq<char>, nat)> {
    Seq::new(pairs.len(), |i: int| (pairs[i].0@, pairs[i].1 as nat))
}

/// How many edits the pairs give to one editor.
pub open spec fn edits_by(pairs: Seq<(Seq<char>, nat)>, user: Seq<char>) -> nat
    decreases pairs.len(),
{
    if pairs.len() == 0 {
        0
    } else {
        edits_by(pairs.drop_last(), user) + if pairs.last().0 == user {
            pairs.last().1
        } else {
            0
        }
    }
}

/// How many edits there are in all.
pub open spec fn edits_total(pairs: Seq<(Seq<char>, nat)>) -> nat
    decreases pairs.len(),
{
    if pairs.len() == 0 {
        0
    } else {
        edits_total(pairs.drop_last()) + pairs.last().1
    }
}

/// How many of the editors are registered: their name is not an IP address.
pub open spec fn registered_count(pairs: Seq<(Seq<char>, nat)>) -> nat
    decreases pairs.len(),
{
    if pairs.len() == 0 {
        0
    } else {
        registered_count(pairs.drop_last()) + if ip::is_ip_address(pairs.last().0) {
            0nat
        } else {
            1nat
        }
    }
}

/// The most edits that one pair gives, or none where there is no pair.
pub open spec fn edits_top(pairs: Seq<(Seq<char>, nat)>) -> nat
    decreases pairs.len(),
{
    if pairs.len() == 0 {
        0
    } else {
        let rest = edits_top(pairs.drop_last());
        if pairs.last().1 > rest {
            pairs.last().1
        } else {
            rest
        }
    }
}

/// No editor is listed twice.
pub open spec fn editors_distinct(pairs: Seq<(Seq<char>, nat)>) -> bool {
    forall|i: int, j: int|
        0 <= i < j < pairs.len() ==> (#[trigger] pairs[i]).0 != (#[trigger] pairs[j]).0
}

/// Per-editor edit counts inside the window, bots already excluded.
#[derive(Debug, Clone)]
pub struct EditorTally {
    pub counts: Vec<(String, u32)>,
}

impl View for EditorTally {
    type V = Seq<(Seq<char>, nat)>;

    open spec fn view(&self) -> Seq<(Seq<char>, nat)> {
        pairs_view(self.counts@)
    }
}

impl Default for EditorTally {
    fn default() -> (r: Self)
        ensures
            r@ == Seq::<(Seq<char>, nat)>::empty(),
    {
        let r: EditorTally = EditorTally { counts: Vec::new() };
        assert(r@ =~= Seq::<(Seq<char>, nat)>::empty());
        r
    }
}

/// One more pair at the end.
proof fn lemma_take_next(pairs: Seq<(String, u32)>, i: int)
    requires
        0 <= i < pairs.len(),
    ensures
        pairs_view(pairs).take(i + 1).drop_last() == pairs_view(pairs).take(i),
        pairs_view(pairs).take(i + 1).last() == (pairs[i].0@, pairs[i].1 as nat),
{
    assert(pairs_view(pairs).take(i + 1).drop_last() =~= pairs_view(pairs).take(i));
}

/// A prefix holds no more edits than the whole.
proof fn lemma_total_prefix(pairs: Seq<(Seq<char>, nat)>, i: int)
    requires
        0 <= i <= pairs.len(),
    ensures
        edits_total(pairs.take(i)) <= edits_total(pairs),
    decreases pairs.len(),
{
    if i == pairs.len() {
        assert(pairs.take(i) =~= pairs);
    } else {
        lemma_total_prefix(pairs.drop_last(), i);
        assert(pairs.drop_last().take(i) =~= pairs.take(i));
    }
}

impl EditorTally {
    /// A tally of the given counts.
    pub fn from_pairs(pairs: Vec<(String, u32)>) -> (r: Self)
        ensures
            r.counts == pairs,
            r@ == pairs_view(pairs@),
    {
        EditorTally { counts: pairs }
    }

    /// How many editors there are.
    pub fn distinct(&self) -> (r: usize)
        ensures
            r == self@.len(),
    {
        self.counts.len()
    }

    /// How many editors are registered: their name is not an IP address.
    pub fn registered(&self) -> (r: usize)
        ensures
            r == registered_count(self@),
    {
        let mut n: usize = 0;
        let mut i: usize = 0;
        assert(self@.take(0) =~= Seq::<(Seq<char>, nat)>::empty());
        while i < self.counts.len()
            invariant
                i <= self.counts@.len(),
                n <= i,
                n == registered_count(self@.take(i as int)),
            decreases self.counts@.len() - i,
        {
            proof {
                lemma_take_next(self.counts@, i as int);
            }
            if !event::is_anon_user(self.counts[i].0.as_str()) {
                n = n + 1;
            }
            i = i + 1;
        }
        assert(self@.take(i as int) =~= self@);
        n
    }

    /// How many edits there are in all.
    pub fn total_edits(&self) -> (r: u32)
        requires
            edits_total(self@) <= u32::MAX,
        ensures
            r == edits_total(self@),
    {
        let mut n: u32 = 0;
        let mut i: usize = 0;
        assert(self@.take(0) =~= Seq::<(Seq<char>, nat)>::empty());
        while i < self.counts.len()
            invariant
                i <= self.counts@.len(),
                n == edits_total(self@.take(i as int)),
                edits_total(self@) <= u32::MAX,
            decreases self.counts@.len() - i,
        {
            proof {
                lemma_take_next(self.counts@, i as int);
                lemma_total_prefix(self@, i + 1);
            }
            n = n + self.counts[i].1;
            i = i + 1;
        }
        assert(self@.take(i as int) =~= self@);
        n
    }

    /// How many edits the busiest editor made: the numerator of the top share, whose
    /// denominator is `total_edits`.
    pub fn top_edits(&self) -> (r: u32)
        ensures
            r == edits_top(self@),
            forall|i: int| 0 <= i < self.counts@.len() ==> (#[trigger] self.counts@[i]).1 <= r,
            self.counts@.len() > 0 ==> exists|i: int|
                0 <= i < self.counts@.len() && (#[trigger] self.counts@[i]).1 == r,
            self.counts@.len() == 0 ==> r == 0,
    {
        let mut n: u32 = 0;
        let mut i: usize = 0;
        assert(self@.take(0) =~= Seq::<(Seq<char>, nat)>::empty());
        while i < self.counts.len()
            invariant
                i <= self.counts@.len(),
                n == edits_top(self@.take(i as int)),
            decreases self.counts@.len() - i,
        {
            proof {
                lemma_take_next(self.counts@, i as int);
            }
            if self.counts[i].1 > n {
                n = self.counts[i].1;
            }
            i = i + 1;
        }
        assert(self@.take(i as int) =~= self@);
        proof {
            law_nobody_is_busier_than_the_busiest(self@);
            assert forall|k: int| 0 <= k < self.counts@.len() implies (
            #[trigger] self.counts@[k]).1 <= n by {
                assert(self@[k].1 == self.counts@[k].1);
            }
            if self.counts@.len() > 0 {
                let k = choose|k: int| 0 <= k < self@.len() && (#[trigger] self@[k]).1 == n;
                assert(self.counts@[k].1 == n);
            }
        }
        n
    }
}

// ---------------------------------------------------------------------------
// Merging two slots
// ---------------------------------------------------------------------------

/// Adding one pair's edits to a list that has one entry per editor.
fn add_edits(merged: &mut Vec<(String, u32)>, user: &str, n: u32)
    requires
        editors_distinct(pairs_view(old(merged)@)),
        edits_by(pairs_view(old(merged)@), user@) + n <= u32::MAX,
    ensures
        editors_distinct(pairs_view(final(merged)@)),
        forall|u: Seq<char>|
            #[trigger] edits_by(pairs_view(final(merged)@), u) == edits_by(
                pairs_view(old(merged)@),
                u,
            ) + if u == user@ {
                n as nat
            } else {
                0
            },
        edits_total(pairs_view(final(merged)@)) == edits_total(pairs_view(old(merged)@)) + n,
        forall|u: Seq<char>|
            #[trigger] lists(pairs_view(final(merged)@), u) <==> lists(pairs_view(old(merged)@), u)
                || u == user@,
{
    let ghost before = pairs_view(merged@);
    let mut i: usize = 0;
    while i < merged.len()
        invariant
            i <= merged@.len(),
            merged@ == old(merged)@,
            before == pairs_view(merged@),
            editors_distinct(before),
            edits_by(before, user@) + n <= u32::MAX,
            forall|k: int| 0 <= k < i ==> (#[trigger] before[k]).0 != user@,
        decreases merged@.len() - i,
    {
        if text::text_eq(merged[i].0.as_str(), user) {
            let name: String = merged[i].0.clone();
            proof {
                lemma_edits_by_at(before, i as int);
            }
            let sum: u32 = merged[i].1 + n;
            merged.set(i, (name, sum));
            proof {
                let after = pairs_view(merged@);
                assert(after =~= before.update(i as int, (before[i as int].0, sum as nat)));
                lemma_update_edits(before, i as int, sum as nat);
                assert forall|a: int, b: int| 0 <= a < b < after.len() implies (
                #[trigger] after[a]).0 != (#[trigger] after[b]).0 by {
                    assert(before[a].0 == after[a].0);
                    assert(before[b].0 == after[b].0);
                }
                assert forall|u: Seq<char>| #[trigger] lists(after, u) <==> lists(before, u) || u
                    == user@ by {
                    if lists(after, u) {
                        let k = choose|k: int| 0 <= k < after.len() && (#[trigger] after[k]).0 == u;
                        assert(before[k].0 == u);
                    }
                    if lists(before, u) {
                        let k = choose|k: int|
                            0 <= k < before.len() && (#[trigger] before[k]).0 == u;
                        assert(after[k].0 == u);
                    }
                    if u == user@ {
                        assert(after[i as int].0 == u);
                    }
                }
            }
            return;
        }
        assert(before[i as int].0 != user@);
        i = i + 1;
    }
    merged.push((user.to_owned(), n));
    proof {
        let after = pairs_view(merged@);
        assert(after =~= before.push((user@, n as nat)));
        assert(after.drop_last() =~= before);
        assert forall|u: Seq<char>| #[trigger] lists(after, u) <==> lists(before, u) || u
            == user@ by {
            if lists(after, u) {
                let k = choose|k: int| 0 <= k < after.len() && (#[trigger] after[k]).0 == u;
                if k < before.len() {
                    assert(before[k].0 == u);
                }
            }
            if lists(before, u) {
                let k = choose|k: int| 0 <= k < before.len() && (#[trigger] before[k]).0 == u;
                assert(after[k].0 == u);
            }
            assert(after[before.len() as int].0 == user@);
        }
    }
}

/// The pairs have an entry for this editor.
pub open spec fn lists(pairs: Seq<(Seq<char>, nat)>, user: Seq<char>) -> bool {
    exists|k: int| 0 <= k < pairs.len() && (#[trigger] pairs[k]).0 == user
}

/// An entry counts no more edits than its editor has.
proof fn lemma_edits_by_at(pairs: Seq<(Seq<char>, nat)>, i: int)
    requires
        0 <= i < pairs.len(),
    ensures
        pairs[i].1 <= edits_by(pairs, pairs[i].0),
    decreases pairs.len(),
{
    if i < pairs.len() - 1 {
        lemma_edits_by_at(pairs.drop_last(), i);
    }
}

/// Changing one entry's count changes what its editor has, and the total, by the difference.
proof fn lemma_update_edits(pairs: Seq<(Seq<char>, nat)>, i: int, n: nat)
    requires
        0 <= i < pairs.len(),
    ensures
        edits_total(pairs.update(i, (pairs[i].0, n))) == edits_total(pairs) + n - pairs[i].1,
        forall|u: Seq<char>|
            #[trigger] edits_by(pairs.update(i, (pairs[i].0, n)), u) == edits_by(pairs, u)
                + if u == pairs[i].0 {
                n - pairs[i].1
            } else {
                0
            },
    decreases pairs.len(),
{
    let after = pairs.update(i, (pairs[i].0, n));
    if i == pairs.len() - 1 {
        assert(after.drop_last() =~= pairs.drop_last());
        assert(after.last() == (pairs[i].0, n));
    } else {
        lemma_update_edits(pairs.drop_last(), i, n);
        assert(after.drop_last() =~= pairs.drop_last().update(i, (pairs[i].0, n)));
        assert(after.last() == pairs.last());
        assert(pairs.drop_last()[i] == pairs[i]);
    }
    assert forall|u: Seq<char>| #[trigger] edits_by(after, u) == edits_by(pairs, u) + if u
        == pairs[i].0 {
        n - pairs[i].1
    } else {
        0
    } by {
        if i == pairs.len() - 1 {
            assert(edits_by(after.drop_last(), u) == edits_by(pairs.drop_last(), u));
        } else {
            assert(edits_by(after.drop_last(), u) == edits_by(
                pairs.drop_last().update(i, (pairs.drop_last()[i].0, n)),
                u,
            ));
        }
    }
}

/// An editor's count over two slots fits the counter.
pub open spec fn merge_fits(earlier: Seq<(Seq<char>, nat)>, later: Seq<(Seq<char>, nat)>) -> bool {
    forall|u: Seq<char>| #[trigger] edits_by(earlier, u) + edits_by(later, u) <= u32::MAX
}

/// `merged` has one entry for each editor of either slot, with the sum of their edits.
pub open spec fn is_merge(
    merged: Seq<(Seq<char>, nat)>,
    earlier: Seq<(Seq<char>, nat)>,
    later: Seq<(Seq<char>, nat)>,
) -> bool {
    &&& editors_distinct(merged)
    &&& forall|u: Seq<char>|
        #[trigger] edits_by(merged, u) == edits_by(earlier, u) + edits_by(later, u)
    &&& forall|u: Seq<char>| #[trigger] lists(merged, u) <==> lists(earlier, u) || lists(later, u)
}

/// Adding every pair of a slot to a list that has one entry per editor.
fn absorb(merged: &mut Vec<(String, u32)>, part: &Vec<(String, u32)>)
    requires
        editors_distinct(pairs_view(old(merged)@)),
        merge_fits(pairs_view(old(merged)@), pairs_view(part@)),
    ensures
        is_merge(pairs_view(final(merged)@), pairs_view(old(merged)@), pairs_view(part@)),
        edits_total(pairs_view(final(merged)@)) == edits_total(pairs_view(old(merged)@))
            + edits_total(pairs_view(part@)),
{
    let ghost start = pairs_view(merged@);
    let ghost view = pairs_view(part@);
    let mut i: usize = 0;
    assert(view.take(0) =~= Seq::<(Seq<char>, nat)>::empty());
    while i < part.len()
        invariant
            i <= part@.len(),
            view == pairs_view(part@),
            merge_fits(start, view),
            is_merge(pairs_view(merged@), start, view.take(i as int)),
            edits_total(pairs_view(merged@)) == edits_total(start) + edits_total(
                view.take(i as int),
            ),
        decreases part@.len() - i,
    {
        let ghost held = pairs_view(merged@);
        let ghost user = part@[i as int].0@;
        let ghost next = view.take(i + 1);
        proof {
            lemma_take_next(part@, i as int);
            lemma_edits_by_prefix(view, i + 1, user);
            assert(edits_by(held, user) == edits_by(start, user) + edits_by(
                view.take(i as int),
                user,
            ));
            assert(edits_by(start, user) + edits_by(view, user) <= u32::MAX);
        }
        add_edits(merged, part[i].0.as_str(), part[i].1);
        proof {
            let after = pairs_view(merged@);
            assert forall|u: Seq<char>| #[trigger] edits_by(after, u) == edits_by(start, u)
                + edits_by(next, u) by {
                assert(edits_by(held, u) == edits_by(start, u) + edits_by(view.take(i as int), u));
            }
            assert forall|u: Seq<char>| #[trigger] lists(after, u) <==> lists(start, u) || lists(
                next,
                u,
            ) by {
                assert(lists(held, u) <==> lists(start, u) || lists(view.take(i as int), u));
                lemma_lists_push(view, i as int, u);
            }
        }
        i = i + 1;
    }
    assert(view.take(i as int) =~= view);
}

/// A prefix gives an editor no more edits than the whole.
proof fn lemma_edits_by_prefix(pairs: Seq<(Seq<char>, nat)>, i: int, user: Seq<char>)
    requires
        0 <= i <= pairs.len(),
    ensures
        edits_by(pairs.take(i), user) <= edits_by(pairs, user),
    decreases pairs.len(),
{
    if i == pairs.len() {
        assert(pairs.take(i) =~= pairs);
    } else {
        lemma_edits_by_prefix(pairs.drop_last(), i, user);
        assert(pairs.drop_last().take(i) =~= pairs.take(i));
    }
}

/// One more pair lists one more editor.
proof fn lemma_lists_push(pairs: Seq<(Seq<char>, nat)>, i: int, user: Seq<char>)
    requires
        0 <= i < pairs.len(),
    ensures
        lists(pairs.take(i + 1), user) <==> lists(pairs.take(i), user) || pairs[i].0 == user,
{
    let long = pairs.take(i + 1);
    let short = pairs.take(i);
    if lists(long, user) {
        let k = choose|k: int| 0 <= k < long.len() && (#[trigger] long[k]).0 == user;
        if k < i {
            assert(short[k].0 == user);
        }
    }
    if lists(short, user) {
        let k = choose|k: int| 0 <= k < short.len() && (#[trigger] short[k]).0 == user;
        assert(long[k].0 == user);
    }
    assert(long[i] == pairs[i]);
}

/// Merges the editor counts of two adjacent slots.
///
/// A gate is evaluated over one window, but the counts are kept per ten-minute slot so that
/// they expire cleanly. Reading only the current slot would reset an in-progress burst's
/// editor count to zero at every boundary, precisely when a real event is still erupting.
pub fn merge_slots(earlier: &Vec<(String, u32)>, later: &Vec<(String, u32)>) -> (r: Vec<
    (String, u32),
>)
    requires
        merge_fits(pairs_view(earlier@), pairs_view(later@)),
    ensures
        is_merge(pairs_view(r@), pairs_view(earlier@), pairs_view(later@)),
        edits_total(pairs_view(r@)) == edits_total(pairs_view(earlier@)) + edits_total(
            pairs_view(later@),
        ),
{
    let ghost a = pairs_view(earlier@);
    let ghost b = pairs_view(later@);
    let mut merged: Vec<(String, u32)> = Vec::new();
    let ghost none = pairs_view(merged@);
    assert(none =~= Seq::<(Seq<char>, nat)>::empty());
    proof {
        assert forall|u: Seq<char>| #[trigger] edits_by(none, u) + edits_by(a, u) <= u32::MAX by {
            assert(edits_by(a, u) + edits_by(b, u) <= u32::MAX);
        }
    }
    absorb(&mut merged, earlier);
    let ghost first = pairs_view(merged@);
    proof {
        assert forall|u: Seq<char>| #[trigger] edits_by(first, u) + edits_by(b, u)
            <= u32::MAX by {
            assert(edits_by(first, u) == edits_by(none, u) + edits_by(a, u));
            assert(edits_by(a, u) + edits_by(b, u) <= u32::MAX);
        }
    }
    absorb(&mut merged, later);
    proof {
        let all = pairs_view(merged@);
        assert forall|u: Seq<char>| #[trigger] edits_by(all, u) == edits_by(a, u) + edits_by(
            b,
            u,
        ) by {
            assert(edits_by(first, u) == edits_by(none, u) + edits_by(a, u));
        }
        assert forall|u: Seq<char>| #[trigger] lists(all, u) <==> lists(a, u) || lists(b, u) by {
            assert(lists(first, u) <==> lists(none, u) || lists(a, u));
        }
    }
    merged
}

// ---------------------------------------------------------------------------
// Gate 2
// ---------------------------------------------------------------------------

/// What Gate 2 saw.
#[derive(Debug, Clone, Copy, PartialEq, Eq, Structural)]
pub struct Gate2 {
    pub fired: bool,
    pub distinct_editors: usize,
    pub registered_editors: usize,
}

/// Gate 2, editor diversity: enough distinct editors, enough of them registered, and no
/// dominant one. `share_within_limit` says whether the busiest editor's share of the edits,
/// `top_edits` over `total_edits`, is within the limit; without edits nobody dominates.
///
/// A rejection here with two dominant editors and reverts is an edit-war candidate, which is
/// why the gates feed the conflict radar too.
pub fn gate2(tally: &EditorTally, t: &Tunables, share_within_limit: bool) -> (r: Gate2)
    ensures
        r.distinct_editors == tally@.len(),
        r.registered_editors == registered_count(tally@),
        r.fired == (tally@.len() >= t.min_editors && registered_count(tally@) >= t.min_registered
            && share_within_limit),
{
    let distinct_editors: usize = tally.distinct();
    let registered_editors: usize = tally.registered();
    let fired: bool = distinct_editors >= t.min_editors && registered_editors >= t.min_registered
        && share_within_limit;
    Gate2 { fired, distinct_editors, registered_editors }
}

// ---------------------------------------------------------------------------
// Laws
// ---------------------------------------------------------------------------

/// No editor made more edits than there are, so the top share never exceeds one; and the
/// busiest editor made some exactly where there are edits.
pub proof fn law_top_share_is_a_share(pairs: Seq<(Seq<char>, nat)>)
    ensures
        edits_top(pairs) <= edits_total(pairs),
        edits_top(pairs) == 0 <==> edits_total(pairs) == 0,
    decreases pairs.len(),
{
    if pairs.len() > 0 {
        law_top_share_is_a_share(pairs.drop_last());
    }
}

/// Registered editors are some of the editors.
pub proof fn law_registered_are_some(pairs: Seq<(Seq<char>, nat)>)
    ensures
        registered_count(pairs) <= pairs.len(),
    decreases pairs.len(),
{
    if pairs.len() > 0 {
        law_registered_are_some(pairs.drop_last());
    }
}

/// A crowd in which everybody is anonymous has no registered editor.
pub proof fn law_anonymous_crowd_has_no_registered(pairs: Seq<(Seq<char>, nat)>)
    requires
        forall|i: int| 0 <= i < pairs.len() ==> ip::is_ip_address((#[trigger] pairs[i]).0),
    ensures
        registered_count(pairs) == 0,
    decreases pairs.len(),
{
    if pairs.len() > 0 {
        let front = pairs.drop_last();
        assert forall|i: int| 0 <= i < front.len() implies ip::is_ip_address(
            (#[trigger] front[i]).0,
        ) by {
            assert(front[i] == pairs[i]);
        }
        law_anonymous_crowd_has_no_registered(front);
        assert(ip::is_ip_address(pairs[pairs.len() - 1].0));
    }
}

/// The busiest editor's count is at least every editor's count, and is the count of one of
/// them; without editors it is zero.
pub proof fn law_nobody_is_busier_than_the_busiest(pairs: Seq<(Seq<char>, nat)>)
    ensures
        forall|i: int| 0 <= i < pairs.len() ==> (#[trigger] pairs[i]).1 <= edits_top(pairs),
        pairs.len() > 0 ==> exists|i: int|
            0 <= i < pairs.len() && (#[trigger] pairs[i]).1 == edits_top(pairs),
        pairs.len() == 0 ==> edits_top(pairs) == 0,
    decreases pairs.len(),
{
    if pairs.len() > 0 {
        let front = pairs.drop_last();
        law_nobody_is_busier_than_the_busiest(front);
        let last = pairs.len() - 1;
        assert(pairs[last] == pairs.last());
        assert forall|i: int| 0 <= i < pairs.len() implies (#[trigger] pairs[i]).1 <= edits_top(
            pairs,
        ) by {
            if i < last {
                assert(front[i] == pairs[i]);
            }
        }
        if pairs.last().1 <= edits_top(front) && front.len() > 0 {
            let i = choose|i: int| 0 <= i < front.len() && (#[trigger] front[i]).1 == edits_top(
                front,
            );
            assert(pairs[i].1 == edits_top(pairs));
        } else {
            assert(pairs[last].1 == edits_top(pairs));
        }
    }
}

/// Two lists of pairs one behind the other have the edits of both, for each editor and in all,
/// and the registered editors of both; the busiest of both is the busier one's busiest.
pub proof fn law_tallies_add_up(
    a: Seq<(Seq<char>, nat)>,
    b: Seq<(Seq<char>, nat)>,
    user: Seq<char>,
)
    ensures
        edits_total(a + b) == edits_total(a) + edits_total(b),
        edits_by(a + b, user) == edits_by(a, user) + edits_by(b, user),
        registered_count(a + b) == registered_count(a) + registered_count(b),
        edits_top(a + b) == if edits_top(a) >= edits_top(b) {
            edits_top(a)
        } else {
            edits_top(b)
        },
    decreases b.len(),
{
    if b.len() == 0 {
        assert(a + b =~= a);
    } else {
        law_tallies_add_up(a, b.drop_last(), user);
        assert((a + b).drop_last() =~= a + b.drop_last());
        assert((a + b).last() == b.last());
    }
}

/// One editor with their edits has just those edits, is the busiest, and is registered exactly
/// where their name is no IP address.
pub proof fn law_one_editor_is_a_tally(user: Seq<char>, other: Seq<char>, n: nat)
    ensures
        edits_total(seq![(user, n)]) == n,
        edits_by(seq![(user, n)], user) == n,
        other != user ==> edits_by(seq![(user, n)], other) == 0,
        edits_top(seq![(user, n)]) == n,
        registered_count(seq![(user, n)]) == if ip::is_ip_address(user) {
            0nat
        } else {
            1nat
        },
{
    let one = seq![(user, n)];
    assert(one.drop_last() =~= Seq::<(Seq<char>, nat)>::empty());
    assert(one.last() == (user, n));
    assert(edits_total(one.drop_last()) == 0);
    assert(edits_by(one.drop_last(), user) == 0);
    assert(edits_by(one.drop_last(), other) == 0);
    assert(edits_top(one.drop_last()) == 0);
    assert(registered_count(one.drop_last()) == 0);
}

/// In a merge nobody stands twice, everybody who edited in either slot stands once, and the
/// count beside a name is the sum of that editor's edits in the two slots.
pub proof fn law_a_merge_has_each_editor_once(
    merged: Seq<(Seq<char>, nat)>,
    earlier: Seq<(Seq<char>, nat)>,
    later: Seq<(Seq<char>, nat)>,
)
    requires
        is_merge(merged, earlier, later),
    ensures
        forall|i: int, j: int|
            0 <= i < merged.len() && 0 <= j < merged.len() && i != j ==> (#[trigger] merged[i]).0
                != (#[trigger] merged[j]).0,
        forall|i: int|
            0 <= i < merged.len() ==> (#[trigger] merged[i]).1 == edits_by(earlier, merged[i].0)
                + edits_by(later, merged[i].0),
        forall|user: Seq<char>, n: nat| #[trigger]
            earlier.contains((user, n)) ==> exists|k: int|
                0 <= k < merged.len() && (#[trigger] merged[k]).0 == user,
        forall|user: Seq<char>, n: nat| #[trigger]
            later.contains((user, n)) ==> exists|k: int|
                0 <= k < merged.len() && (#[trigger] merged[k]).0 == user,
        forall|user: Seq<char>, n: nat| #[trigger]
            merged.contains((user, n)) ==> (exists|i: int|
                0 <= i < earlier.len() && (#[trigger] earlier[i]).0 == user) || (exists|i: int|
                0 <= i < later.len() && (#[trigger] later[i]).0 == user),
{
    assert forall|i: int, j: int|
        0 <= i < merged.len() && 0 <= j < merged.len() && i != j implies (#[trigger] merged[i]).0
        != (#[trigger] merged[j]).0 by {
        if i < j {
            assert(merged[i].0 != merged[j].0);
        } else {
            assert(merged[j].0 != merged[i].0);
        }
    }
    assert forall|i: int| 0 <= i < merged.len() implies (#[trigger] merged[i]).1 == edits_by(
        earlier,
        merged[i].0,
    ) + edits_by(later, merged[i].0) by {
        lemma_one_entry(merged, i);
        assert(edits_by(merged, merged[i].0) == edits_by(earlier, merged[i].0) + edits_by(
            later,
            merged[i].0,
        ));
    }
    assert forall|user: Seq<char>, n: nat| #[trigger]
        earlier.contains((user, n)) implies exists|k: int|
        0 <= k < merged.len() && (#[trigger] merged[k]).0 == user by {
        let i = choose|i: int| 0 <= i < earlier.len() && earlier[i] == (user, n);
        assert(earlier[i].0 == user);
        assert(lists(earlier, user));
        assert(lists(merged, user));
    }
    assert forall|user: Seq<char>, n: nat| #[trigger]
        later.contains((user, n)) implies exists|k: int|
        0 <= k < merged.len() && (#[trigger] merged[k]).0 == user by {
        let i = choose|i: int| 0 <= i < later.len() && later[i] == (user, n);
        assert(later[i].0 == user);
        assert(lists(later, user));
        assert(lists(merged, user));
    }
    assert forall|user: Seq<char>, n: nat| #[trigger]
        merged.contains((user, n)) implies (exists|i: int|
        0 <= i < earlier.len() && (#[trigger] earlier[i]).0 == user) || (exists|i: int|
        0 <= i < later.len() && (#[trigger] later[i]).0 == user) by {
        let k = choose|k: int| 0 <= k < merged.len() && merged[k] == (user, n);
        assert(merged[k].0 == user);
        assert(lists(merged, user));
        assert(lists(earlier, user) || lists(later, user));
    }
}

/// Where nobody is listed twice, an editor's edits are those of their one entry.
proof fn lemma_one_entry(pairs: Seq<(Seq<char>, nat)>, i: int)
    requires
        editors_distinct(pairs),
        0 <= i < pairs.len(),
    ensures
        edits_by(pairs, pairs[i].0) == pairs[i].1,
    decreases pairs.len(),
{
    let front = pairs.drop_last();
    let last = pairs.len() - 1;
    assert forall|a: int, b: int| 0 <= a < b < front.len() implies (#[trigger] front[a]).0 != (
    #[trigger] front[b]).0 by {
        assert(pairs[a].0 != pairs[b].0);
    }
    if i < last {
        lemma_one_entry(front, i);
        assert(front[i] == pairs[i]);
        assert(pairs[i].0 != pairs[last].0);
    } else {
        assert forall|k: int| 0 <= k < front.len() implies (#[trigger] front[k]).0
            != pairs[i].0 by {
            assert(pairs[k].0 != pairs[i].0);
        }
        lemma_no_entry(front, pairs[i].0);
    }
}

/// An editor who is not listed has no edits.
proof fn lemma_no_entry(pairs: Seq<(Seq<char>, nat)>, user: Seq<char>)
    requires
        forall|k: int| 0 <= k < pairs.len() ==> (#[trigger] pairs[k]).0 != user,
    ensures
        edits_by(pairs, user) == 0,
    decreases pairs.len(),
{
    if pairs.len() > 0 {
        let front = pairs.drop_last();
        assert forall|k: int| 0 <= k < front.len() implies (#[trigger] front[k]).0 != user by {
            assert(front[k] == pairs[k]);
        }
        lemma_no_entry(front, user);
        assert(pairs[pairs.len() - 1].0 != user);
    }
}

} // verus!
