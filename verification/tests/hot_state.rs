use pulse::gates::Tunables;
use pulse::state::{
    baseline_is_due, bump_global_rate, claim_confirmation, claim_granted, edit_queries,
    ewma_queries, global_queries, last_full_minute, load_evidence, recall, record_category,
    record_edit, remember, sample_minute, sample_query, store_baseline, store_ewma, tally_queries,
    window_query, Evidence,
};

const NOW: i64 = 1_800_000_030_000;

fn words(commands: &[pulse::command::Command]) -> Vec<String> {
    commands.iter().map(|c| c.words.join(" ")).collect()
}

#[test]
fn a_first_edit_is_remembered_and_opens_no_window() {
    let t = Tunables::default();
    assert_eq!(
        words(&edit_queries("enwiki:Foo", NOW, &t)),
        vec![
            "ZCOUNT pulse:win:enwiki:Foo (1799999130000 +inf",
            "GET pulse:last:enwiki:Foo",
        ]
    );
    let commands = record_edit("enwiki:Foo", "Ann", "uuid", "", 0, None, NOW, &t);
    assert_eq!(
        words(&commands),
        vec![
            "SET pulse:last:enwiki:Foo 1800000030000:uuid",
            "EXPIRE pulse:last:enwiki:Foo 900",
            "HINCRBY pulse:eds:enwiki:Foo:3000000 Ann 1",
            "EXPIRE pulse:eds:enwiki:Foo:3000000 1800",
        ]
    );
}

#[test]
fn a_second_edit_enters_the_window_with_the_first() {
    let t = Tunables::default();
    let first = remember(NOW - 1_000, "a:b");
    let commands = record_edit("enwiki:Foo", "Ann", "uuid", "", 0, Some(&first), NOW, &t);
    assert_eq!(
        words(&commands),
        vec![
            "ZADD pulse:win:enwiki:Foo 1800000029000 a:b",
            "ZADD pulse:win:enwiki:Foo 1800000030000 uuid",
            "ZREMRANGEBYSCORE pulse:win:enwiki:Foo -inf 1799999130000",
            "EXPIRE pulse:win:enwiki:Foo 900",
            "SET pulse:last:enwiki:Foo 1800000030000:uuid",
            "EXPIRE pulse:last:enwiki:Foo 900",
            "HINCRBY pulse:eds:enwiki:Foo:3000000 Ann 1",
            "EXPIRE pulse:eds:enwiki:Foo:3000000 1800",
        ]
    );
}

/// Records edits against a model of the window and of the remembered edit.
fn run(edits: &[(&str, i64)]) -> Vec<(String, i64)> {
    let t = Tunables::default();
    let mut window: Vec<(String, i64)> = Vec::new();
    let mut latest: Option<String> = None;
    for (member, at_ms) in edits {
        let cutoff = at_ms - t.window_secs * 1000;
        let held = window.iter().filter(|(_, at)| *at > cutoff).count() as i64;
        let stored = latest.clone();
        for c in record_edit("a", "Ann", member, "", held, stored.as_deref(), *at_ms, &t) {
            match (c.words[0].as_str(), c.words[1].as_str()) {
                ("ZADD", "pulse:win:a") => {
                    window.retain(|(m, _)| *m != c.words[3]);
                    window.push((c.words[3].clone(), c.words[2].parse().unwrap()));
                }
                ("ZREMRANGEBYSCORE", "pulse:win:a") => {
                    let cutoff: i64 = c.words[3].parse().unwrap();
                    window.retain(|(_, at)| *at > cutoff);
                }
                ("SET", "pulse:last:a") => latest = Some(c.words[2].clone()),
                _ => {}
            }
        }
    }
    window.sort();
    window
}

#[test]
fn a_window_holds_two_or_more_edits_and_all_of_them() {
    let held = |v: &[(&str, i64)]| -> Vec<(String, i64)> {
        v.iter().map(|(m, at)| ((*m).to_string(), *at)).collect()
    };
    assert!(run(&[]).is_empty());
    assert!(run(&[("x", NOW)]).is_empty());
    assert!(run(&[("x", NOW), ("x", NOW + 1)]).is_empty());
    assert_eq!(run(&[("x", NOW), ("y", NOW + 1)]), held(&[("x", NOW), ("y", NOW + 1)]));
    assert_eq!(
        run(&[("x", NOW), ("x", NOW + 2), ("z", NOW + 1), ("y", NOW)]),
        held(&[("x", NOW + 2), ("y", NOW), ("z", NOW + 1)])
    );
    assert_eq!(
        run(&[("x", NOW), ("y", NOW + 1), ("y", NOW + 5)]),
        held(&[("x", NOW), ("y", NOW + 5)])
    );
    // A gap as long as the window starts afresh.
    assert!(run(&[("x", NOW), ("y", NOW + 900_000)]).is_empty());
}

#[test]
fn only_another_edit_of_the_window_counts_as_earlier() {
    let t = Tunables::default();
    let opens = |stored: &str| {
        let commands = record_edit("a", "Ann", "uuid", "", 0, Some(stored), NOW, &t);
        commands.iter().any(|c| c.words[1] == "pulse:win:a")
    };
    let cutoff = NOW - 900_000;
    assert!(!opens(&remember(cutoff, "other")));
    assert!(opens(&remember(cutoff + 1, "other")));
    assert!(!opens(&remember(NOW, "uuid")), "the same event again");
    assert!(!opens("malformed"));
    assert_eq!(recall(Some("5:x:y"), "uuid", 4), Some((5, "x:y".to_string())));
    assert_eq!(recall(None, "uuid", 4), None);
    // An edit that arrives late does not displace a later one.
    let late = record_edit("a", "Ann", "uuid", "", 0, Some(&remember(NOW + 5, "next")), NOW, &t);
    assert_eq!(late[4].words[2], remember(NOW + 5, "next"));
}

#[test]
fn a_window_that_holds_edits_takes_in_every_further_one() {
    let t = Tunables::default();
    let window = vec![
        "ZADD pulse:win:a 1800000030000 uuid",
        "ZREMRANGEBYSCORE pulse:win:a -inf 1799999130000",
        "EXPIRE pulse:win:a 900",
    ];
    let other = remember(NOW - 1_000, "other");
    let next = record_edit("a", "Ann", "uuid", "", 2, Some(&other), NOW, &t);
    assert_eq!(words(&next[..3]), window);
    // An event that is delivered again moves to its new moment.
    let itself = remember(NOW - 1_000, "uuid");
    let again = record_edit("a", "Ann", "uuid", "", 2, Some(&itself), NOW, &t);
    assert_eq!(words(&again[..3]), window);
    assert_eq!(again.len(), 7);
    let forgotten = record_edit("a", "Ann", "uuid", "", 1, None, NOW, &t);
    assert_eq!(words(&forgotten[..3]), window);
}

#[test]
fn a_comment_is_kept_among_the_last_ten() {
    let t = Tunables::default();
    let commands = record_edit("a", "Ann", "uuid", "hello", 0, None, NOW, &t);
    assert_eq!(commands.len(), 7);
    assert_eq!(
        words(&commands[4..]),
        vec![
            "LPUSH pulse:cmts:a hello",
            "LTRIM pulse:cmts:a 0 9",
            "EXPIRE pulse:cmts:a 900",
        ]
    );
}

#[test]
fn categories_are_evidence_for_a_window() {
    let t = Tunables::default();
    assert_eq!(
        words(&record_category("a", "2026 deaths", &t)),
        vec!["SADD pulse:cats:a 2026 deaths", "EXPIRE pulse:cats:a 900"]
    );
    assert_eq!(
        words(&load_evidence("a")),
        vec!["SMEMBERS pulse:cats:a", "LRANGE pulse:cmts:a 0 9"]
    );
    let bundle = Evidence {
        categories: vec!["2026 deaths".to_string()],
        comments: Vec::new(),
    };
    assert_eq!(bundle.categories.len() + bundle.comments.len(), 1);
}

#[test]
fn the_global_rate_is_read_from_the_minute_before() {
    assert_eq!(
        words(&bump_global_rate(NOW)),
        vec![
            "INCR pulse:global:rate:30000000",
            "EXPIRE pulse:global:rate:30000000 600",
        ]
    );
    assert_eq!(last_full_minute(NOW), 29_999_999);
    assert_eq!(
        words(&global_queries(NOW)),
        vec!["GET pulse:global:rate:29999999", "GET pulse:global:ewma"]
    );
}

#[test]
fn the_baseline_takes_in_each_minute_once() {
    assert!(baseline_is_due(NOW, true, None));
    assert!(!baseline_is_due(NOW, false, None));
    assert!(baseline_is_due(NOW, true, Some(29_999_998)));
    assert!(!baseline_is_due(NOW, true, Some(29_999_999)));
    assert!(!baseline_is_due(NOW, true, Some(i64::MAX)));
    assert_eq!(
        store_baseline(NOW, "2.5").words,
        vec!["SET", "pulse:global:ewma", "2.5:29999999"]
    );
}

#[test]
fn the_gates_read_the_window_and_two_slots() {
    let t = Tunables::default();
    assert_eq!(
        window_query("a", NOW, &t).words,
        vec!["ZCOUNT", "pulse:win:a", "1799999730000", "+inf"]
    );
    assert_eq!(
        words(&tally_queries("a", NOW)),
        vec!["HGETALL pulse:eds:a:2999999", "HGETALL pulse:eds:a:3000000"]
    );
}

#[test]
fn the_average_samples_a_minute_past_the_rate_window_once() {
    let t = Tunables::default();
    assert_eq!(sample_minute(NOW, &t), 29_999_994);
    assert_eq!(
        words(&ewma_queries("a")),
        vec!["HGET pulse:ewma a", "HGET pulse:ewma:bucket a"]
    );
    let query = sample_query("a", NOW, &t, None).unwrap();
    assert_eq!(
        query.words,
        vec!["ZCOUNT", "pulse:win:a", "1799999640000", "1799999699999"]
    );
    // The whole sampled minute lies before the window that rates are taken over.
    assert!(1_799_999_699_999 < NOW - t.rate_window_secs * 1000);
    assert!(sample_query("a", NOW, &t, Some(29_999_993)).is_some());
    assert!(sample_query("a", NOW, &t, Some(29_999_994)).is_none());
    assert_eq!(
        words(&store_ewma("a", "0.3", NOW, &t)),
        vec!["HSET pulse:ewma a 0.3", "HSET pulse:ewma:bucket a 29999994"]
    );
}

#[test]
fn a_confirmation_is_claimed_for_the_cooldown() {
    let t = Tunables::default();
    assert_eq!(
        claim_confirmation("a", &t).words,
        vec!["SET", "pulse:confirmed:a", "1", "NX", "EX", "21600"]
    );
    assert!(claim_granted(&Some("OK".to_string())));
    assert!(!claim_granted(&None));
}
