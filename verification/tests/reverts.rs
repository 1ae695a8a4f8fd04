use pulse::revert::{from_matches, parse, Confidence, Matches, Revert};

/// Comments as the stream emits them.
const CORPUS: &[&str] = &[
    "Undid revision [[Special:Diff/1368430003|1368430003]] by [[Special:Contributions/Barçaforlife|Barçaforlife]] ([[User talk:Barçaforlife|talk]])",
    "Reverted edit by [[Special:Contributions/~2026-43649-56|~2026-43649-56]] ([[User talk:~2026-43649-56|talk]]) to last revision by [[User:Sotiale|Sotiale]]",
    "Undid revision [[Special:Diff/1368482752|1368482752]] by [[Special:Contributions/Sirfurboy|Sirfurboy]] ([[User talk:Sirfurboy|talk]]) Actually, no.",
    "Reverted edits by [[Special:Contributions/Boomboom6837|Boomboom6837]] ([[User talk:Boomboom6837|talk]]): disruptive edits ([[WP:HG|HG]]) (3.4.14)",
    "Reverted 1 edit by [[Special:Contributions/~2026-43823-84|~2026-43823-84]] ([[User talk:~2026-43823-84|talk]]): [[WP:SIMPLEFLYING]]",
    "[[WP:CVPI|Interceptor]]: Reverting unsourced content added by [[Special:Contributions/Beitmerryprof|Beitmerryprof]]",
    "Reverted 1 edit by [[Special:Contributions/Hairnorth|Hairnorth]] ([[User talk:Hairnorth|talk]]): Date change without any sort of source",
    "Reverted [[WP:AGF|good faith]] edits by [[Special:Contributions/~2026-40270-91|~2026-40270-91]] ([[User talk:~2026-40270-91|talk]]): Incorrect comma",
    "Revertida una edición de [[Special:Contributions/~2026-43833-95|~2026-43833-95]] ([[User talk:~2026-43833-95|disc.]]) a la última edición de SeroBOT",
    "Reverted edits by [[Special:Contributions/Ismith400|Ismith400]] ([[User talk:Ismith400|talk]]) to last revision by [[User:MathXplore|MathXplore]]",
    "Reverted 1 edit by [[Special:Contributions/Eight Bit Cat|Eight Bit Cat]] ([[User talk:Eight Bit Cat|talk]]): Not a useful image",
    "Undid revision [[Special:Diff/1368475886|1368475886]] by [[Special:Contributions/~2026-43799-17|~2026-43799-17]] ([[User talk:~2026-43799-17|talk]]) Not needed",
    "Reverted edits by [[Special:Contribs/~2026-42482-20|~2026-42482-20]] ([[User talk:~2026-42482-20|talk]]) to last version by BridgeBoy1980",
    "Reverted 2 edits by [[Special:Contributions/Fence127|Fence127]] ([[User talk:Fence127|talk]]): Focus on improving articles",
    "[[Commons:Rollback|Reverted]] edits by [[Special:Contributions/Zwaao|Zwaao]] ([[User talk:Zwaao|talk]]) to last revision by Wikimedia Commons Welcome",
    "[[Special:Contributions/~2026-43693-74|~2026-43693-74]] ([[User talk:~2026-43693-74|会話]]) による版を 沢庵柚希 による版へ[[H:RV|巻き戻し]]",
    "Reverting possible vandalism by [[Special:Contribs/~2026-43812-32|~2026-43812-32]] to version by PhuzBot. Thanks, [[WP:CBNG|ClueBot NG]]. (4546516) (Bot)",
    "Revertida una edición de [[Special:Contributions/~2026-43630-08|~2026-43630-08]] ([[User talk:~2026-43630-08|disc.]]) a la última edición de Rafstr",
    "[[Special:Contributions/ぽめらにわん|ぽめらにわん]] ([[User talk:ぽめらにわん|会話]]) による ID:110580999 の版を[[H:RV|取り消し]]",
    "Reverted 3 edits by [[Special:Contributions/~2026-43792-72|~2026-43792-72]] ([[User talk:~2026-43792-72|talk]]) to last revision by Indagate",
    "Undid revision [[Special:Diff/1356473108|1356473108]] by [[Special:Contributions/Trhres|Trhres]] ([[User talk:Trhres|talk]])",
    "Undid revision [[Special:Diff/7278794|7278794]] by [[Special:Contributions/Muhamad Izzul Fiqih|Muhamad Izzul Fiqih]] ([[User talk:Muhamad Izzul Fiqih|talk]])",
    "[[Special:Contributions/Naokun|Naokun]] ([[User talk:Naokun|会話]]) による ID:110579535 の版を[[H:RV|取り消し]] 放送日欄は",
    "Reverted edits by [[Special:Contributions/~2026-43827-14|~2026-43827-14]] ([[User talk:~2026-43827-14|talk]]): not adhering to [[WP:MOS|manual of style]] ([[WP:HG|HG]]) (3.4.14)",
    "Undid revision [[Special:Diff/1368476209|1368476209]] by [[Special:Contributions/Shreya nagre|Shreya nagre]] ([[User talk:Shreya nagre|talk]])",
    "Undid revision [[Special:Diff/1368451775|1368451775]] by [[Special:Contributions/Hughpugh2|Hughpugh2]] ([[User talk:Hughpugh2|talk]])unsourced",
    "Reverted edits by [[Special:Contributions/~2026-43687-70|~2026-43687-70]] ([[User talk:~2026-43687-70|talk]]): [[WP:SANDBOX|editing tests]] ([[WP:HG|HG]]) (3.4.14)",
];

/// Comments that carry revert vocabulary but name nobody.
const WEAK_ONLY: &[&str] = &[
    "/* top */ Revert; contains non-American English spelling(s)",
    "Revert; contains non-American English spelling(s)",
    "/* Most appearances */ Vandalism removed",
    "Please do not vandalize Wikimedia Commons.",
    "/* Vandalism */ new section",
];

/// Comments with no revert semantics at all.
const NOT_REVERTS: &[&str] = &[
    "/* Khmer */",
    "adding coordinates",
    "updated statistics table",
    "fixing dead link",
    "/* wbsetclaim-create:2||1 */ [[Property:P1716]]: [[Q11900331]]",
    "",
];


#[test]
fn every_corpus_comment_parses_as_a_strong_revert() {
    for c in CORPUS {
        let r = parse(c).unwrap_or_else(|| panic!("no parse: {c}"));
        assert_eq!(
            r.confidence,
            Confidence::Strong,
            "should be strong: {c}\ngot {r:?}"
        );
    }
}

#[test]
fn the_specs_own_pattern_would_have_missed_the_real_format() {
    // A bare id finds nothing in the format that the stream actually emits.
    let real = CORPUS[0];
    let m = Matches::find(real);
    assert!(m.undid_bare.is_none(), "bare pattern matched?");
    assert!(m.undid_wrapped.is_some());
}

#[test]
fn extracts_rev_id_and_reverted_user_from_an_undo() {
    let r = parse(CORPUS[0]).unwrap();
    assert_eq!(r.rev_id, Some(1368430003));
    assert_eq!(r.reverted_user.as_deref(), Some("Barçaforlife"));
}

#[test]
fn names_the_reverted_party_not_the_restored_to_party() {
    // "Reverted edits by A ... to last revision by B": A is reverted.
    let r = parse(CORPUS[9]).unwrap();
    assert_eq!(r.reverted_user.as_deref(), Some("Ismith400"));
    assert_ne!(r.reverted_user.as_deref(), Some("MathXplore"));
}

#[test]
fn restored_revision_names_nobody_as_reverted() {
    // X here is who was restored to. Claiming X was reverted would invert the conflict edge.
    let r = parse(
        "Restored revision 1364274322 by [[Special:Contributions/TuxbietheFixer|TuxbietheFixer]] ([[User talk:TuxbietheFixer|talk]]): Rvv",
    )
    .unwrap();
    assert_eq!(r.confidence, Confidence::Strong);
    assert_eq!(r.rev_id, Some(1364274322));
    assert_eq!(r.reverted_user, None, "must not name the restored-to user");
}

#[test]
fn handles_spanish_and_japanese_rollbacks() {
    let es = parse(CORPUS[8]).unwrap();
    assert_eq!(es.confidence, Confidence::Strong);
    assert_eq!(es.reverted_user.as_deref(), Some("~2026-43833-95"));

    let ja = parse(CORPUS[18]).unwrap();
    assert_eq!(ja.confidence, Confidence::Strong);
    assert_eq!(ja.reverted_user.as_deref(), Some("ぽめらにわん"));
}

#[test]
fn revert_vocabulary_without_a_named_party_is_weak_only() {
    for c in WEAK_ONLY {
        let r = parse(c).unwrap_or_else(|| panic!("no parse: {c}"));
        assert_eq!(r.confidence, Confidence::Weak, "{c}");
        assert_eq!(r.reverted_user, None, "{c}");
    }
}

#[test]
fn ordinary_edits_are_not_reverts() {
    for c in NOT_REVERTS {
        assert!(parse(c).is_none(), "should not parse: {c:?}");
    }
}

#[test]
fn corpus_is_large_enough_to_be_a_regression_net() {
    assert!(CORPUS.len() + WEAK_ONLY.len() >= 30);
}

fn no_matches() -> Matches {
    Matches {
        restored: None,
        undid_wrapped: None,
        undid_bare: None,
        reverted_by: None,
        revertida: None,
        ja_revert: None,
        reverting_prose: None,
        weak: false,
    }
}

fn groups(texts: &[&str]) -> Option<Vec<Option<String>>> {
    Some(texts.iter().map(|t| Some((*t).to_string())).collect())
}

#[test]
fn a_restoration_outranks_every_form_that_names_a_party() {
    let mut m = no_matches();
    m.restored = groups(&["restored revision 7", "7"]);
    m.undid_wrapped = groups(&["undid", "8", "Ann"]);
    m.weak = true;
    assert_eq!(
        from_matches(&m),
        Some(Revert {
            confidence: Confidence::Strong,
            rev_id: Some(7),
            reverted_user: None,
        })
    );
}

#[test]
fn each_form_names_what_it_names() {
    let mut undo = no_matches();
    undo.undid_bare = groups(&["undid", "8", "Ann"]);
    assert_eq!(
        from_matches(&undo),
        Some(Revert {
            confidence: Confidence::Strong,
            rev_id: Some(8),
            reverted_user: Some("Ann".to_string()),
        })
    );

    let rollback = Some(Revert {
        confidence: Confidence::Strong,
        rev_id: None,
        reverted_user: Some("Ben".to_string()),
    });
    let mut reverted = no_matches();
    reverted.reverted_by = groups(&["reverted", "Ben"]);
    assert_eq!(from_matches(&reverted), rollback);
    let mut revertida = no_matches();
    revertida.revertida = groups(&["revertida", "Ben"]);
    assert_eq!(from_matches(&revertida), rollback);
    let mut ja = no_matches();
    ja.ja_revert = groups(&["ja", "Ben"]);
    assert_eq!(from_matches(&ja), rollback);
    let mut prose = no_matches();
    prose.reverting_prose = groups(&["reverting", "Ben"]);
    assert_eq!(from_matches(&prose), rollback);

    assert_eq!(from_matches(&no_matches()), None);
}

#[test]
fn a_revision_id_out_of_range_is_no_id() {
    let mut m = no_matches();
    m.undid_wrapped = groups(&["undid", "99999999999999999999", "Ann"]);
    let r = from_matches(&m).unwrap();
    assert_eq!(r.rev_id, None);
    assert_eq!(r.reverted_user.as_deref(), Some("Ann"));
}

#[test]
fn a_bare_undo_is_still_understood() {
    let r = parse("Undid revision 999 by [[Special:Contribs/1.2.3.4|1.2.3.4]]").unwrap();
    assert_eq!(r.confidence, Confidence::Strong);
    assert_eq!(r.rev_id, Some(999));
    assert_eq!(r.reverted_user.as_deref(), Some("1.2.3.4"));
}
