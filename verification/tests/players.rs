use pulse::game::{
    bet_expiry, call_deadline, clamp_limit, controversy, create_bet, create_call, create_flag, create_player,
    found, get_call, incidents, leaderboard, me, patrol_queue, queue_call, require_player,
    settles_in_secs, stake_deducted, war_query, watchlist, BoardQuery, CallReport, Column,
    IncidentQuery, LimitQuery, NewBet, NewCall, NewFlag, NewPlayer, Ranking, Refusal, SortKey,
};
use pulse::session::{
    claims, player_from_cookies, same_signature, secret_from_env, session_cookie, sign, verify,
};

const SECRET: &[u8] = b"a secret of the tests";

#[test]
fn a_signature_verifies_only_for_its_own_player() {
    let sig = sign(SECRET, 42);
    assert!(verify(SECRET, 42, &sig));
    assert!(!verify(SECRET, 43, &sig), "signature must be bound to the id");
}

#[test]
fn a_tampered_signature_is_rejected() {
    let mut sig = sign(SECRET, 7);
    // Flip one hex nibble.
    let last = sig.pop().unwrap();
    sig.push(if last == 'a' { 'b' } else { 'a' });
    assert!(!verify(SECRET, 7, &sig));
    assert!(!verify(SECRET, 7, ""), "empty signature must fail");
    assert!(!verify(SECRET, 7, "short"), "length mismatch must fail");
}

#[test]
fn extracts_a_player_from_a_valid_cookie() {
    let cookie = format!("pulse_player=99.{}", sign(SECRET, 99));
    assert_eq!(player_from_cookies(SECRET, Some(&cookie)), Some(99));
}

#[test]
fn finds_the_cookie_among_others() {
    let cookie = format!("theme=dark; pulse_player=5.{}; other=1", sign(SECRET, 5));
    assert_eq!(player_from_cookies(SECRET, Some(&cookie)), Some(5));
}

#[test]
fn forged_and_malformed_cookies_yield_no_player() {
    for raw in [
        "pulse_player=99.deadbeef",
        "pulse_player=99",
        "pulse_player=",
        "pulse_player=abc.def",
        "unrelated=1",
    ] {
        assert_eq!(player_from_cookies(SECRET, Some(raw)), None, "{raw}");
    }
    assert_eq!(player_from_cookies(SECRET, None), None);
}

#[test]
fn signatures_are_hmac_sha256_in_hex() {
    assert_eq!(
        sign(b"key", 1),
        "6da91fb91517be1f5cdcf3af91d7d40c717dd638a306157606fb2e584f7ae926"
    );
    assert_eq!(
        sign(b"", 0),
        "9979e4c3ee19965f9ecc6dca6b3954b10c18c1bfa105c512cc3ae58be85db71c"
    );
}

#[test]
fn signatures_are_compared_whole() {
    assert!(same_signature("abc", "abc"));
    assert!(!same_signature("abc", "abd"));
    assert!(!same_signature("abc", "bbc"));
    assert!(!same_signature("abc", "ab"));
    assert!(same_signature("", ""));
}

#[test]
fn a_session_cookie_is_recognised_when_it_comes_back() {
    for id in [1, 99, i64::MAX, -5] {
        let header = session_cookie(SECRET, id);
        assert_eq!(
            header,
            format!(
                "pulse_player={id}.{}; Path=/; Max-Age=2592000; SameSite=None; Secure; HttpOnly",
                sign(SECRET, id)
            )
        );
        let pair = header.split(';').next().unwrap();
        assert_eq!(player_from_cookies(SECRET, Some(pair)), Some(id));
        assert_eq!(player_from_cookies(SECRET, Some(&header)), Some(id));
        assert_eq!(player_from_cookies(b"other", Some(pair)), None);
    }
}

#[test]
fn a_malformed_session_hides_what_comes_after_it() {
    let good = format!("pulse_player=5.{}", sign(SECRET, 5));
    let after_forged = format!("pulse_player=5.00; {good}");
    assert_eq!(player_from_cookies(SECRET, Some(&after_forged)), Some(5));
    let after_malformed = format!("pulse_player=x; {good}");
    assert_eq!(player_from_cookies(SECRET, Some(&after_malformed)), None);
    assert_eq!(
        claims("a=b; pulse_player=1.x;pulse_player=2.y.z; pulse_player=; pulse_player=3.w"),
        vec![(1, "x".to_string()), (2, "y.z".to_string())]
    );
}

#[test]
fn an_empty_secret_is_no_secret() {
    assert_eq!(secret_from_env(None), None);
    assert_eq!(secret_from_env(Some(String::new())), None);
    assert_eq!(secret_from_env(Some("sé".to_string())), Some("sé".as_bytes().to_vec()));
}

fn cookie(id: i64) -> String {
    format!("pulse_player={id}.{}", sign(SECRET, id))
}

#[test]
fn a_request_without_a_session_is_unauthorized() {
    let c = cookie(3);
    assert_eq!(require_player(SECRET, Some(&c)), Ok(3));
    assert_eq!(require_player(SECRET, None), Err(Refusal::Unauthorized));
    assert_eq!(me(true, SECRET, Some(&c)), Ok(3));
    assert_eq!(me(true, SECRET, Some("x=1")), Err(Refusal::Unauthorized));
    assert_eq!(me(false, SECRET, None), Err(Refusal::ServiceUnavailable));
}

#[test]
fn handles_are_trimmed_and_short() {
    let player = |handle: &str| NewPlayer {
        handle: handle.to_string(),
    };
    assert_eq!(create_player(true, &player("  Ann\u{3000}")), Ok("Ann".to_string()));
    assert_eq!(create_player(true, &player(" \t ")), Err(Refusal::BadRequest));
    let longest = "é".repeat(24);
    assert_eq!(create_player(true, &player(&longest)), Ok(longest.clone()));
    let too_long = "é".repeat(25);
    assert_eq!(create_player(true, &player(&too_long)), Err(Refusal::BadRequest));
    assert_eq!(
        create_player(false, &player("")),
        Err(Refusal::ServiceUnavailable)
    );
}

#[test]
fn calls_name_an_article_and_a_revision() {
    let c = cookie(3);
    let call = |article: &str, rev_id: i64| NewCall {
        article: article.to_string(),
        rev_id,
        verdict: true,
    };
    assert_eq!(create_call(true, SECRET, Some(&c), &call("a", 1)), Ok(3));
    assert_eq!(
        create_call(true, SECRET, Some(&c), &call("", 1)),
        Err(Refusal::BadRequest)
    );
    assert_eq!(
        create_call(true, SECRET, Some(&c), &call("a", 0)),
        Err(Refusal::BadRequest)
    );
    assert_eq!(
        create_call(true, SECRET, None, &call("", 0)),
        Err(Refusal::Unauthorized)
    );
    assert_eq!(
        create_call(false, SECRET, None, &call("", 0)),
        Err(Refusal::ServiceUnavailable)
    );
    assert_eq!(call_deadline(1_000), 600_001_000);
    assert_eq!(settles_in_secs(), 600);
    assert_eq!(
        queue_call(12, 601_000).words,
        vec!["ZADD", "pulse:settle", "601000", "12"]
    );
}

#[test]
fn a_call_is_reported_as_it_stands() {
    assert_eq!(
        get_call(true, None),
        CallReport {
            correct: None,
            settled: false,
        }
    );
    assert_eq!(
        get_call(true, Some(false)),
        CallReport {
            correct: Some(false),
            settled: true,
        }
    );
    assert_eq!(get_call(false, Some(false)).correct, Some(true));
    assert_eq!(found(Some(1)), Ok(1));
    assert_eq!(found::<i64>(None), Err(Refusal::NotFound));
}

#[test]
fn stakes_are_bounded() {
    let c = cookie(3);
    let bet = |article: &str, stake: i32| NewBet {
        article: article.to_string(),
        stake,
    };
    for (stake, expected) in [
        (0, Err(Refusal::BadRequest)),
        (1, Ok(3)),
        (100, Ok(3)),
        (101, Err(Refusal::BadRequest)),
        (-1, Err(Refusal::BadRequest)),
    ] {
        assert_eq!(create_bet(true, SECRET, Some(&c), &bet("a", stake)), expected, "{stake}");
    }
    assert_eq!(
        create_bet(true, SECRET, Some(&c), &bet("", 1)),
        Err(Refusal::BadRequest)
    );
    assert_eq!(
        create_bet(true, SECRET, None, &bet("a", 1)),
        Err(Refusal::Unauthorized)
    );
    assert_eq!(
        create_bet(false, SECRET, Some(&c), &bet("a", 1)),
        Err(Refusal::ServiceUnavailable)
    );
    assert_eq!(bet_expiry(5), 3_600_000_005);
    assert_eq!(stake_deducted(0), Err(Refusal::PaymentRequired));
    assert_eq!(stake_deducted(1), Ok(()));
}

#[test]
fn the_first_flagger_wins() {
    let c = cookie(3);
    let flag = |article: &str| NewFlag {
        article: article.to_string(),
    };
    assert_eq!(
        create_flag(true, SECRET, Some(&c), &flag("a")).unwrap().words,
        vec!["SET", "pulse:flag:a", "3", "NX", "EX", "1800"]
    );
    assert_eq!(
        create_flag(false, SECRET, Some(&c), &flag("a")).unwrap_err(),
        Refusal::ServiceUnavailable
    );
    assert_eq!(
        create_flag(false, SECRET, Some(&c), &flag("")).unwrap_err(),
        Refusal::BadRequest
    );
    assert_eq!(
        create_flag(false, SECRET, None, &flag("")).unwrap_err(),
        Refusal::Unauthorized
    );
}

#[test]
fn limits_are_clamped() {
    assert_eq!(clamp_limit(None, 20, 60), 20);
    assert_eq!(clamp_limit(Some(0), 20, 60), 1);
    assert_eq!(clamp_limit(Some(-7), 20, 60), 1);
    assert_eq!(clamp_limit(Some(60), 20, 60), 60);
    assert_eq!(clamp_limit(Some(61), 20, 60), 60);
    assert_eq!(clamp_limit(Some(i64::MAX), 20, 100), 100);
}

#[test]
fn boards_are_asked_for_by_rank() {
    let q = |limit: Option<i64>| LimitQuery { limit };
    assert_eq!(
        patrol_queue(true, &q(None)).unwrap().words,
        vec!["LRANGE", "pulse:patrol:queue", "0", "19"]
    );
    assert_eq!(patrol_queue(true, &q(Some(99))).unwrap().words[3], "59");
    assert_eq!(
        patrol_queue(false, &q(None)).unwrap_err(),
        Refusal::ServiceUnavailable
    );
    assert_eq!(
        controversy(true, &q(Some(5))).unwrap().words,
        vec!["ZREVRANGE", "pulse:controversy", "0", "4", "WITHSCORES"]
    );
    assert_eq!(
        watchlist(true, &q(Some(500))).unwrap().words,
        vec!["ZREVRANGE", "pulse:watchlist", "0", "99", "WITHSCORES"]
    );
    assert_eq!(
        controversy(false, &q(None)).unwrap_err(),
        Refusal::ServiceUnavailable
    );
    assert_eq!(
        watchlist(false, &q(None)).unwrap_err(),
        Refusal::ServiceUnavailable
    );
    assert_eq!(war_query("a").words, vec!["GET", "pulse:war:a"]);
}

#[test]
fn leaderboards_rank_by_rating_unless_asked_for_points() {
    let q = |mode: Option<&str>, limit: Option<i64>| BoardQuery {
        mode: mode.map(|m| m.to_string()),
        limit,
    };
    let default = leaderboard(true, &q(None, None)).unwrap();
    assert_eq!(default.mode, "patrol");
    assert_eq!(default.ranking, Ranking::Rating);
    assert_eq!(default.limit, 20);
    let surge = leaderboard(true, &q(Some("surge"), Some(500))).unwrap();
    assert_eq!(surge.ranking, Ranking::Points);
    assert_eq!(surge.limit, 100);
    let other = leaderboard(true, &q(Some("Surge"), None)).unwrap();
    assert_eq!(other.mode, "Surge");
    assert_eq!(other.ranking, Ranking::Rating);
    assert_eq!(
        leaderboard(false, &q(None, None)).unwrap_err(),
        Refusal::ServiceUnavailable
    );
    let incident = |limit: Option<i64>| IncidentQuery {
        article: "a".to_string(),
        limit,
    };
    assert_eq!(incidents(true, &incident(None)), Ok(50));
    assert_eq!(incidents(true, &incident(Some(1_000))), Ok(200));
    assert_eq!(
        incidents(false, &incident(None)),
        Err(Refusal::ServiceUnavailable)
    );
}

#[test]
fn ties_go_by_handle() {
    let by_handle = SortKey {
        column: Column::Handle,
        descending: false,
    };
    let highest = |column: Column| SortKey {
        column,
        descending: true,
    };
    assert_eq!(Ranking::Rating.order(), vec![highest(Column::Rating), by_handle]);
    assert_eq!(Ranking::Points.order(), vec![highest(Column::Points), by_handle]);
}

#[test]
fn refusals_have_their_statuses() {
    assert_eq!(Refusal::BadRequest.status(), 400);
    assert_eq!(Refusal::Unauthorized.status(), 401);
    assert_eq!(Refusal::PaymentRequired.status(), 402);
    assert_eq!(Refusal::NotFound.status(), 404);
    assert_eq!(Refusal::Internal.status(), 500);
    assert_eq!(Refusal::ServiceUnavailable.status(), 503);
}
