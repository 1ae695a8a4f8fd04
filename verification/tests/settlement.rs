use pulse::settle::{
    call_is_correct, drop_flag, first_flagger, record_revert_for_settlement, revert_landed,
    settle_surge_on_confirmation, surge_payout, OpenBet, OpenCall, Outcome, Reply, Settlement,
    Step, Win,
};

#[test]
fn correctness_is_verdict_matching_reality() {
    // Called vandalism, got reverted -> right.
    assert!(call_is_correct(true, true));
    // Called legit, was not reverted -> right.
    assert!(call_is_correct(false, false));
    // Called vandalism, nobody reverted -> wrong.
    assert!(!call_is_correct(true, false));
    // Called legit, but it was reverted -> wrong.
    assert!(!call_is_correct(false, true));
}

fn s(v: &[&str]) -> Vec<String> {
    v.iter().map(|x| (*x).to_string()).collect()
}

fn call(article: &str, rev_id: i64, verdict: bool) -> OpenCall {
    OpenCall {
        player_id: Some(9),
        article: article.to_string(),
        rev_id,
        verdict,
        called_at_ms: 1_000,
        deadline_ms: 601_000,
    }
}

#[test]
fn any_strong_revert_in_the_window_settles_a_call() {
    assert!(revert_landed(&s(&["rev:7"])));
    assert!(revert_landed(&s(&["any:123"])));
    assert!(revert_landed(&s(&["rev:7", "any:123"])));
    assert!(!revert_landed(&Vec::new()));
    assert!(!revert_landed(&s(&["many:1"])));
}

#[test]
fn reverts_are_recorded_for_an_hour() {
    let named = record_revert_for_settlement("a", Some(7), 3_600_001);
    assert_eq!(named[0].words, vec!["ZADD", "pulse:reverts:a", "3600001", "rev:7"]);
    assert_eq!(named[1].words, vec!["ZREMRANGEBYSCORE", "pulse:reverts:a", "-inf", "1"]);
    assert_eq!(named[2].words, vec!["EXPIRE", "pulse:reverts:a", "3600"]);
    let unnamed = record_revert_for_settlement("a", None, 5);
    assert_eq!(unnamed[0].words, vec!["ZADD", "pulse:reverts:a", "5", "any:5"]);
}

/// Runs a settlement against canned stores, and notes what it asked for.
fn run(
    due: &[&str],
    call_of: &dyn Fn(i64) -> Option<OpenCall>,
    reverts: &[&str],
) -> (Vec<String>, usize) {
    let mut log: Vec<String> = Vec::new();
    let (mut settlement, mut step) = Settlement::start(5_000);
    loop {
        let reply = match step {
            Step::ReadDue(c) => {
                log.push(c.words.join(" "));
                Reply::DueRead(s(due))
            }
            Step::LoadCall(id) => {
                log.push(format!("load {id}"));
                Reply::CallLoaded(call_of(id))
            }
            Step::ReadReverts(c) => {
                log.push(c.words.join(" "));
                Reply::RevertsRead(s(reverts))
            }
            Step::Store(o) => {
                log.push(format!("store {} {} {}", o.call_id, o.was_reverted, o.correct));
                Reply::Stored
            }
            Step::Forget(c) => {
                log.push(c.words.join(" "));
                Reply::Forgotten
            }
            Step::Done(n) => return (log, n),
        };
        let (next, next_step) = settlement.resume(reply);
        settlement = next;
        step = next_step;
    }
}

#[test]
fn every_due_member_gets_what_is_owed_to_it() {
    let open = |id: i64| {
        if id == 1 {
            Some(call("enwiki:Foo", 7, true))
        } else if id == 3 {
            Some(call("enwiki:Bar", 8, false))
        } else {
            None
        }
    };
    let (log, settled) = run(&["1", "junk", "2", "3"], &open, &["rev:7"]);
    assert_eq!(
        log,
        vec![
            "ZRANGEBYSCORE pulse:settle -inf 5000",
            "load 1",
            "ZRANGEBYSCORE pulse:reverts:enwiki:Foo 1000 601000",
            "store 1 true true",
            "ZREM pulse:settle 1",
            "ZREM pulse:settle junk",
            "load 2",
            "ZREM pulse:settle 2",
            "load 3",
            "ZRANGEBYSCORE pulse:reverts:enwiki:Bar 1000 601000",
            "store 3 true false",
            "ZREM pulse:settle 3",
        ]
    );
    assert_eq!(settled, 2);
}

#[test]
fn every_due_call_is_settled_however_many_there_are() {
    let ids: Vec<String> = (1..=101).map(|id: i64| id.to_string()).collect();
    let due: Vec<&str> = ids.iter().map(|id| id.as_str()).collect();
    let (log, settled) = run(&due, &|_| Some(call("a", 7, true)), &[]);
    assert_eq!(settled, 101);
    assert_eq!(log.iter().filter(|l| l.starts_with("store ")).count(), 101);
    assert_eq!(log.iter().filter(|l| l.starts_with("ZREM ")).count(), 101);
}

#[test]
fn nothing_due_is_nothing_done() {
    let (log, settled) = run(&[], &|_| None, &[]);
    assert_eq!(log.len(), 1);
    assert_eq!(settled, 0);
}

#[test]
fn a_wrong_call_is_graded_as_wrong() {
    let (settlement, _) = Settlement::start(0);
    let (settlement, _) = settlement.resume(Reply::DueRead(s(&["1"])));
    let (settlement, _) = settlement.resume(Reply::CallLoaded(Some(call("a", 7, true))));
    let (_, step) = settlement.resume(Reply::RevertsRead(Vec::new()));
    match step {
        Step::Store(o) => assert_eq!(
            o,
            Outcome {
                call_id: 1,
                player_id: Some(9),
                was_reverted: false,
                correct: false,
            }
        ),
        _ => panic!("expected an outcome"),
    }
}

#[test]
fn a_win_pays_double() {
    assert_eq!(surge_payout(100), 200);
    assert_eq!(surge_payout(i32::MAX), 4_294_967_294);
}

#[test]
fn a_credited_flag_is_taken_down() {
    assert_eq!(first_flagger("a").words, vec!["GET", "pulse:flag:a"]);
    assert_eq!(drop_flag("a").words, vec!["DEL", "pulse:flag:a"]);
}

#[test]
fn bets_are_paid_only_if_called_before_confirmation() {
    let bet = |id: i64, placed_at_us: i64, expires_at_us: i64| OpenBet {
        id,
        player_id: Some(id * 10),
        stake: 5,
        placed_at_us,
        expires_at_us,
    };
    let bets = vec![
        bet(1, 99, 200),
        bet(2, 100, 200),
        bet(3, 50, 100),
        bet(4, 50, 101),
        bet(5, 150, 200),
    ];
    let paid = |id: i64| Win {
        bet_id: id,
        player_id: Some(id * 10),
        points: 10,
    };
    assert_eq!(settle_surge_on_confirmation(&bets, 100), vec![paid(1), paid(4)]);
    assert!(settle_surge_on_confirmation(&Vec::new(), 100).is_empty());
}
