use pulse::classify::{
    categorized_article, category_kind, classify, classify_lowered, comment_kind,
    lowered_category_kind, lowered_comment_kind,
};
use pulse::event::EventKind;
use pulse::gates::{gate2, merge_slots, EditorTally, Gate2, Overrides, Tunables};

fn s(v: &[&str]) -> Vec<String> {
    v.iter().map(|x| (*x).to_string()).collect()
}

#[test]
fn category_beats_comment_when_both_are_present() {
    // Comment says sports, category says death: the category wins.
    let kind = classify(&s(&["Category:2026 deaths"]), &s(&["final score 3-1"]));
    assert_eq!(kind, EventKind::Death);
}

#[test]
fn recognises_each_category_family() {
    assert_eq!(classify(&s(&["2026 deaths"]), &[]), EventKind::Death);
    assert_eq!(
        classify(&s(&["Earthquakes in Japan"]), &[]),
        EventKind::Disaster
    );
    assert_eq!(
        classify(&s(&["2026 Indian general elections"]), &[]),
        EventKind::Political
    );
    assert_eq!(
        classify(&s(&["2026–27 Premier League seasons"]), &[]),
        EventKind::Sports
    );
}

#[test]
fn falls_back_to_comment_keywords_in_english() {
    assert_eq!(classify(&[], &s(&["updated death date"])), EventKind::Death);
    assert_eq!(
        classify(&[], &s(&["magnitude 7.1 earthquake"])),
        EventKind::Disaster
    );
    assert_eq!(classify(&[], &s(&["PM resigned today"])), EventKind::Political);
    assert_eq!(classify(&[], &s(&["final score 2-0"])), EventKind::Sports);
}

#[test]
fn falls_back_to_comment_keywords_in_hindi() {
    assert_eq!(classify(&[], &s(&["उनका निधन हो गया"])), EventKind::Death);
    assert_eq!(classify(&[], &s(&["भूकंप की तीव्रता"])), EventKind::Disaster);
    assert_eq!(classify(&[], &s(&["इस्तीफा दे दिया"])), EventKind::Political);
}

#[test]
fn unknown_evidence_stays_unclassified_rather_than_guessing() {
    assert_eq!(
        classify(&s(&["Category:Pages with syntax errors"]), &s(&["typo fix"])),
        EventKind::Unclassified
    );
    assert_eq!(classify(&[], &[]), EventKind::Unclassified);
}

#[test]
fn maintenance_vocabulary_does_not_produce_a_death_label() {
    // The precision rule: a wrong "death" is worse than no label.
    for comment in [
        "Reverted 1 edit by Example",
        "adding coordinates",
        "fixing dead link",
        "updated statistics table",
    ] {
        assert_eq!(
            classify(&[], &s(&[comment])),
            EventKind::Unclassified,
            "{comment:?} must not classify"
        );
    }
}

#[test]
fn extracts_the_article_from_a_categorize_addition() {
    assert_eq!(
        categorized_article("[[:Ada Lovelace]] added to category"),
        Some("Ada Lovelace")
    );
}

#[test]
fn ignores_category_removals_and_malformed_comments() {
    assert_eq!(
        categorized_article("[[:Ada Lovelace]] removed from category"),
        None
    );
    assert_eq!(categorized_article("added to category"), None);
    assert_eq!(categorized_article("[[:]] added to category"), None);
    assert_eq!(categorized_article(""), None);
}

#[test]
fn evidence_is_read_in_any_case() {
    assert_eq!(classify(&s(&["CATEGORY:2026 DEATHS"]), &[]), EventKind::Death);
    assert_eq!(classify(&[], &s(&["RESIGNED"])), EventKind::Political);
    assert_eq!(category_kind("2026 DEATHS"), Some(EventKind::Death));
    assert_eq!(comment_kind("RESIGNED"), Some(EventKind::Political));
    assert_eq!(comment_kind("ÉLU: RESIGNED"), Some(EventKind::Political));
    assert_eq!(lowered_category_kind("2026 deaths"), Some(EventKind::Death));
    assert_eq!(lowered_comment_kind("resigned"), Some(EventKind::Political));
    assert_eq!(
        classify_lowered(&s(&["2026 deaths"]), &s(&[])),
        EventKind::Death
    );
}

#[test]
fn a_death_word_inside_a_longer_word_is_no_evidence() {
    assert_eq!(
        classify(&[], &s(&["He studied law in London"])),
        EventKind::Unclassified
    );
    assert_eq!(comment_kind("embodied"), None);
    assert_eq!(comment_kind("diedé"), None);
    assert_eq!(comment_kind("died"), Some(EventKind::Death));
    assert_eq!(comment_kind("studied, then died."), Some(EventKind::Death));
    assert_eq!(comment_kind("मौतों"), None);
    assert_eq!(comment_kind("(मौत)"), Some(EventKind::Death));
    assert_eq!(category_kind("footballers"), Some(EventKind::Sports));
}

#[test]
fn stems_count_except_for_deaths() {
    assert_eq!(comment_kind("impeached"), Some(EventKind::Political));
    assert_eq!(comment_kind("Impeachment trial"), Some(EventKind::Political));
    assert_eq!(comment_kind("earthquakes"), Some(EventKind::Disaster));
    assert_eq!(comment_kind("wildfires"), Some(EventKind::Disaster));
    assert_eq!(comment_kind("goalscorers"), Some(EventKind::Sports));
    assert_eq!(comment_kind("चुनावों"), Some(EventKind::Political));
    assert_eq!(lowered_comment_kind("impeached"), Some(EventKind::Political));
}

#[test]
fn obituaries_count_only_at_the_end() {
    assert_eq!(category_kind("guardian obituaries"), Some(EventKind::Death));
    assert_eq!(category_kind("obituaries of note"), None);
}

#[test]
fn the_first_telling_category_decides() {
    assert_eq!(
        classify(&s(&["Cricket", "2026 deaths"]), &[]),
        EventKind::Sports
    );
    assert_eq!(
        classify(&s(&["Pages", "2026 deaths"]), &s(&["final score"])),
        EventKind::Death
    );
}

#[test]
fn titles_in_any_script_are_extracted_whole() {
    assert_eq!(
        categorized_article("é [[:日本]] added to category [[:X]]"),
        Some("日本")
    );
    assert_eq!(categorized_article("[[:open added to category"), None);
    assert_eq!(categorized_article("]] [[:A]] added to category"), Some("A"));
}

// Editor diversity. The limit on the busiest editor's share is one half.

fn tally(pairs: &[(&str, u32)]) -> EditorTally {
    EditorTally::from_pairs(pairs.iter().map(|(u, n)| ((*u).to_string(), *n)).collect())
}

fn tun() -> Tunables {
    Tunables::default()
}

fn top_share(t: &EditorTally) -> f64 {
    if t.total_edits() == 0 {
        return 0.0;
    }
    f64::from(t.top_edits()) / f64::from(t.total_edits())
}

fn gate(t: &EditorTally) -> Gate2 {
    gate2(t, &tun(), top_share(t) <= 0.5)
}

#[test]
fn diverse_crowd_of_humans_fires_gate2() {
    let t = tally(&[
        ("Ann", 2),
        ("Ben", 2),
        ("Cal", 2),
        ("Dee", 1),
        ("Eve", 1),
        ("203.0.113.9", 1),
    ]);
    let g = gate(&t);
    assert!(g.fired, "{g:?}");
    assert_eq!(g.distinct_editors, 6);
    assert_eq!(g.registered_editors, 5);
}

#[test]
fn single_author_rewrite_is_rejected() {
    let t = tally(&[("Ann", 40)]);
    let g = gate(&t);
    assert!(!g.fired);
    assert_eq!(top_share(&t), 1.0);
}

#[test]
fn two_person_edit_war_is_rejected_and_routes_to_the_radar() {
    let g = gate(&tally(&[("Ann", 10), ("Ben", 9)]));
    assert!(!g.fired, "{g:?}");
    assert_eq!(g.distinct_editors, 2);
}

#[test]
fn all_anonymous_crowd_fails_the_registered_floor() {
    let g = gate(&tally(&[
        ("203.0.113.1", 1),
        ("203.0.113.2", 1),
        ("203.0.113.3", 1),
        ("203.0.113.4", 1),
        ("203.0.113.5", 1),
    ]));
    assert!(!g.fired);
    assert_eq!(g.distinct_editors, 5);
    assert_eq!(g.registered_editors, 0);
}

#[test]
fn dominant_editor_in_a_crowd_fails_the_top_share_check() {
    // Six editors, but one made 20 of 25 edits: a rewrite with bystanders.
    let t = tally(&[
        ("Ann", 20),
        ("Ben", 1),
        ("Cal", 1),
        ("Dee", 1),
        ("Eve", 1),
        ("Fay", 1),
    ]);
    let g = gate(&t);
    assert!(!g.fired, "{g:?}");
    assert!(top_share(&t) > 0.5);
}

#[test]
fn boundaries_are_inclusive_exactly_as_specified() {
    // Exactly 5 distinct, exactly 2 registered, exactly 0.50 top share.
    let t = tally(&[
        ("Ann", 5),
        ("Ben", 2),
        ("203.0.113.1", 1),
        ("203.0.113.2", 1),
        ("203.0.113.3", 1),
    ]);
    let g = gate(&t);
    assert_eq!(g.distinct_editors, 5);
    assert_eq!(g.registered_editors, 2);
    assert!((top_share(&t) - 0.5).abs() < 1e-9);
    assert!(g.fired, "≥5, ≥2 and ≤0.5 must all pass at the boundary: {g:?}");
}

#[test]
fn empty_tally_is_inert_not_a_panic() {
    let t = EditorTally::default();
    let g = gate(&t);
    assert!(!g.fired);
    assert_eq!(top_share(&t), 0.0);
}

#[test]
fn a_dominated_crowd_fails_whatever_its_size() {
    let t = tally(&[("Ann", 1), ("Ben", 1), ("Cal", 1), ("Dee", 1), ("Eve", 1)]);
    assert!(gate2(&t, &tun(), true).fired);
    assert!(!gate2(&t, &tun(), false).fired);
}

#[test]
fn tallies_count_edits_and_find_the_busiest() {
    let t = tally(&[("Ann", 3), ("203.0.113.9", 7), ("Ben", 0)]);
    assert_eq!(t.distinct(), 3);
    assert_eq!(t.registered(), 2);
    assert_eq!(t.total_edits(), 10);
    assert_eq!(t.top_edits(), 7);
}

#[test]
fn slots_merge_by_editor() {
    let earlier = vec![("Ann".to_string(), 2), ("Ben".to_string(), 1)];
    let later = vec![("Ben".to_string(), 4), ("Cal".to_string(), 1)];
    let mut merged = merge_slots(&earlier, &later);
    merged.sort();
    assert_eq!(
        merged,
        vec![
            ("Ann".to_string(), 2),
            ("Ben".to_string(), 5),
            ("Cal".to_string(), 1)
        ]
    );
    assert!(merge_slots(&Vec::new(), &Vec::new()).is_empty());
}

#[test]
fn thresholds_keep_their_defaults_where_nothing_readable_overrides_them() {
    let t = Tunables::from_env(Overrides {
        min_editors: Some("7".to_string()),
        min_registered: Some("many".to_string()),
        window_secs: None,
        rate_window_secs: Some("-60".to_string()),
        cooldown_secs: Some("+5".to_string()),
    });
    assert_eq!(t.min_editors, 7);
    assert_eq!(t.min_registered, 2);
    assert_eq!(t.window_secs, 900);
    assert_eq!(t.rate_window_secs, -60);
    assert_eq!(t.cooldown_secs, 5);
}
