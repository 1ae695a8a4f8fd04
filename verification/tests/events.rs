use pulse::event::{is_anon_user, EventKind, Length, Meta, RcEvent, Revision};
use pulse::ip::{ip_address, ipv4, ipv6};
use pulse::keys::{bucket_10m, bucket_1m, editors, global_rate, window};
use pulse::patrol::{candidate, diff_url, enqueue, is_eligible};
use serde_json::Value;

fn text(v: &Value, key: &str) -> Option<String> {
    v.get(key).and_then(|x| x.as_str()).map(|s| s.to_string())
}

fn integer(v: &Value, key: &str) -> Option<i64> {
    v.get(key).and_then(|x| x.as_i64())
}

fn flag(v: &Value, key: &str) -> bool {
    v.get(key).and_then(|x| x.as_bool()).unwrap_or(false)
}

/// An event as the stream writes it in JSON; what is absent takes its default.
fn ev(json: &str) -> RcEvent {
    let v: Value = serde_json::from_str(json).unwrap();
    let meta = v.get("meta").unwrap();
    RcEvent {
        meta: Meta {
            id: text(meta, "id"),
            dt: text(meta, "dt"),
            domain: text(meta, "domain"),
            stream: text(meta, "stream"),
            uri: text(meta, "uri"),
        },
        id: integer(&v, "id"),
        kind: text(&v, "type").unwrap(),
        namespace: integer(&v, "namespace"),
        title: text(&v, "title").unwrap(),
        title_url: text(&v, "title_url"),
        comment: text(&v, "comment").unwrap_or_default(),
        parsedcomment: text(&v, "parsedcomment"),
        timestamp: integer(&v, "timestamp"),
        user: text(&v, "user").unwrap_or_default(),
        bot: flag(&v, "bot"),
        minor: flag(&v, "minor"),
        patrolled: v.get("patrolled").and_then(|x| x.as_bool()),
        length: v.get("length").map(|l| Length {
            old: integer(l, "old"),
            new: integer(l, "new"),
        }),
        revision: v.get("revision").map(|r| Revision {
            old: integer(r, "old"),
            new: integer(r, "new"),
        }),
        wiki: text(&v, "wiki").unwrap_or_default(),
        server_name: text(&v, "server_name"),
        server_url: text(&v, "server_url"),
    }
}

const SAMPLE: &str = r#"{
        "meta": {"id":"abc-123","dt":"2026-08-09T05:00:00Z","domain":"en.wikipedia.org"},
        "id": 1234567,
        "type": "edit",
        "namespace": 0,
        "title": "Test Article",
        "comment": "Undid revision 999 by [[Special:Contributions/1.2.3.4|1.2.3.4]]",
        "timestamp": 1786000000,
        "user": "SomeEditor",
        "bot": false,
        "minor": false,
        "length": {"old": 100, "new": 60},
        "revision": {"old": 999, "new": 1000},
        "wiki": "enwiki"
    }"#;

#[test]
fn parses_a_real_shaped_event() {
    let ev: RcEvent = ev(SAMPLE);
    assert_eq!(ev.article_key(), "enwiki:Test Article");
    assert_eq!(ev.delta(), Some(-40));
    assert!(ev.is_interesting());
    assert!(ev.is_main_namespace());
    assert!(!ev.is_anon());
    assert_eq!(ev.meta.id.as_deref(), Some("abc-123"));
}

#[test]
fn tolerates_a_sparse_event() {
    // Minimum the stream can hand over: missing length, revision, comment.
    let ev: RcEvent =
        ev(r#"{"meta":{},"type":"categorize","title":"Category:X","wiki":"dewiki"}"#);
    assert_eq!(ev.delta(), None);
    assert!(ev.is_interesting());
    assert!(!ev.is_main_namespace());
}

#[test]
fn detects_anonymous_editors_by_ip_username() {
    let ev: RcEvent =
        ev(r#"{"meta":{},"type":"edit","title":"X","wiki":"enwiki","user":"203.0.113.9"}"#);
    assert!(ev.is_anon());
}

#[test]
fn anon_detection_covers_ipv6_and_rejects_names() {
    assert!(is_anon_user("203.0.113.9"));
    assert!(is_anon_user("2001:db8::1"));
    assert!(!is_anon_user("SomeEditor"));
    assert!(!is_anon_user(""));
}

#[test]
fn a_delta_needs_both_sides() {
    let created = ev(r#"{"meta":{},"type":"new","title":"X","length":{"new":20}}"#);
    assert_eq!(created.delta(), None);
    let gone = ev(r#"{"meta":{},"type":"edit","title":"X","length":{"old":20}}"#);
    assert_eq!(gone.delta(), None);
    let edited = ev(r#"{"meta":{},"type":"edit","title":"X","length":{"old":20,"new":25}}"#);
    assert_eq!(edited.delta(), Some(5));
}

#[test]
fn only_article_activity_is_interesting() {
    for (kind, interesting) in [
        ("edit", true),
        ("new", true),
        ("categorize", true),
        ("log", false),
        ("", false),
        ("edits", false),
    ] {
        let mut e = ev(SAMPLE);
        e.kind = kind.to_string();
        assert_eq!(e.is_interesting(), interesting, "{kind}");
    }
}

#[test]
fn addresses_are_told_from_names_as_std_tells_them() {
    for s in [
        "1.2.3.4", "0.0.0.0", "255.255.255.255", "256.1.1.1", "01.2.3.4", "1.2.3", "1.2.3.4.5",
        "1.2.3.4 ", " 1.2.3.4", "1..2.3", "::", "::1", "1::", "1::2", "1:2:3:4:5:6:7:8",
        "1:2:3:4:5:6:7:8:9", "1:2:3:4:5:6:7::", "::2:3:4:5:6:7:8", "1:2:3:4::5:6:7:8",
        "1:2:3:4:5:6:1.2.3.4", "::1.2.3.4", "::ffff:1.2.3.4", "1.2.3.4::", "::12345", "::g",
        "::1::", ":::", ":1", "1:", "fe80::1%eth0", "[::1]", "2001:DB8::1", "0:0:0:0:0:0:0:0",
        "1:2:3:4:5:6:7:1.2.3.4", "00001::", "0001::", "1.2.3.4:80", "", ":", "é",
        "1:2:3::4:5:6:1.2.3.4", "1:2:3:4:5::1.2.3.4", "::1.2.3", "::01.2.3.4",
    ] {
        assert_eq!(ip_address(s), s.parse::<core::net::IpAddr>().is_ok(), "{s:?}");
        assert_eq!(ipv4(s), s.parse::<core::net::Ipv4Addr>().is_ok(), "{s:?}");
        assert_eq!(ipv6(s), s.parse::<core::net::Ipv6Addr>().is_ok(), "{s:?}");
    }
}

#[test]
fn every_kind_has_its_label() {
    assert_eq!(EventKind::Death.as_str(), "death");
    assert_eq!(EventKind::Disaster.as_str(), "disaster");
    assert_eq!(EventKind::Sports.as_str(), "sports");
    assert_eq!(EventKind::Political.as_str(), "political");
    assert_eq!(EventKind::Unclassified.as_str(), "unclassified");
}

#[test]
fn keys_are_namespaced_and_stable() {
    assert_eq!(window("enwiki:Foo"), "pulse:win:enwiki:Foo");
    assert_eq!(editors("enwiki:Foo", 42), "pulse:eds:enwiki:Foo:42");
    assert_eq!(global_rate(7), "pulse:global:rate:7");
}

#[test]
fn buckets_divide_on_the_expected_boundaries() {
    assert_eq!(bucket_1m(59_999), 0);
    assert_eq!(bucket_1m(60_000), 1);
    assert_eq!(bucket_10m(599_999), 0);
    assert_eq!(bucket_10m(600_000), 1);
}

#[test]
fn buckets_round_toward_zero_before_the_epoch() {
    assert_eq!(bucket_1m(-59_999), 0);
    assert_eq!(bucket_1m(-60_000), -1);
    assert_eq!(bucket_10m(i64::MIN), i64::MIN / 600_000);
    assert_eq!(global_rate(i64::MIN), "pulse:global:rate:-9223372036854775808");
}

const ANON_DELETION: &str = r#"{"meta":{},"type":"edit","namespace":0,"title":"X","wiki":"enwiki","user":"203.0.113.9","length":{"old":500,"new":480},"revision":{"old":1,"new":2},"server_url":"https://en.wikipedia.org"}"#;

#[test]
fn anonymous_removals_are_eligible_even_when_small() {
    let e = ev(ANON_DELETION);
    assert_eq!(e.delta(), Some(-20));
    assert!(is_eligible(&e), "anon + negative delta is the classic shape");
}

#[test]
fn registered_edits_need_a_suspicious_magnitude() {
    // 20 bytes from a named editor: too small to judge, skip.
    let small = ev(r#"{"meta":{},"type":"edit","namespace":0,"title":"X","wiki":"enwiki","user":"Ann","length":{"old":500,"new":520},"revision":{"old":1,"new":2}}"#);
    assert!(!is_eligible(&small));

    let mid = ev(r#"{"meta":{},"type":"edit","namespace":0,"title":"X","wiki":"enwiki","user":"Ann","length":{"old":500,"new":900},"revision":{"old":1,"new":2}}"#);
    assert!(is_eligible(&mid));

    // A 20k rewrite is not a patrol candidate.
    let huge = ev(r#"{"meta":{},"type":"edit","namespace":0,"title":"X","wiki":"enwiki","user":"Ann","length":{"old":0,"new":20000},"revision":{"old":1,"new":2}}"#);
    assert!(!is_eligible(&huge));
}

#[test]
fn bots_and_non_articles_never_reach_a_player() {
    let bot = ev(r#"{"meta":{},"type":"edit","namespace":0,"title":"X","wiki":"enwiki","user":"Bot","bot":true,"length":{"old":500,"new":900},"revision":{"old":1,"new":2}}"#);
    assert!(!is_eligible(&bot));

    let talk = ev(r#"{"meta":{},"type":"edit","namespace":1,"title":"Talk:X","wiki":"enwiki","user":"Ann","length":{"old":500,"new":900},"revision":{"old":1,"new":2}}"#);
    assert!(!is_eligible(&talk));
}

#[test]
fn an_edit_without_a_revision_cannot_be_settled_so_is_skipped() {
    let no_rev = ev(r#"{"meta":{},"type":"edit","namespace":0,"title":"X","wiki":"enwiki","user":"Ann","length":{"old":500,"new":900}}"#);
    assert!(!is_eligible(&no_rev));
}

#[test]
fn diff_url_points_at_wikipedias_own_diff() {
    let e = ev(ANON_DELETION);
    assert_eq!(
        diff_url(&e).as_deref(),
        Some("https://en.wikipedia.org/w/index.php?diff=2")
    );
}

#[test]
fn the_suspicious_band_includes_its_ends_on_both_sides() {
    for (delta, expected) in [
        (39, false),
        (40, true),
        (4_000, true),
        (4_001, false),
        (-39, false),
        (-40, true),
        (-4_000, true),
        (-4_001, false),
        (0, false),
    ] {
        let mut e = ev(ANON_DELETION);
        e.user = "Ann".to_string();
        e.length = Some(Length {
            old: Some(10_000),
            new: Some(10_000 + delta),
        });
        assert_eq!(is_eligible(&e), expected, "{delta}");
    }
}

#[test]
fn a_revision_must_be_positive() {
    for (rev, expected) in [(None, false), (Some(0), false), (Some(-1), false), (Some(1), true)] {
        let mut e = ev(ANON_DELETION);
        e.revision = Some(Revision { old: None, new: rev });
        assert_eq!(is_eligible(&e), expected, "{rev:?}");
    }
}

#[test]
fn a_candidate_shows_what_the_event_says() {
    let mut e = ev(ANON_DELETION);
    e.comment = "blanked".to_string();
    e.meta.dt = Some("2026-08-09T05:00:00Z".to_string());
    let c = candidate(&e);
    assert_eq!(c.article, "enwiki:X");
    assert_eq!(c.wiki, "enwiki");
    assert_eq!(c.title, "X");
    assert_eq!(c.title_url, None);
    assert_eq!(c.user, "203.0.113.9");
    assert!(c.anon);
    assert_eq!(c.comment, "blanked");
    assert_eq!(c.delta, Some(-20));
    assert_eq!(c.rev_id, Some(2));
    assert_eq!(c.old_rev_id, Some(1));
    assert_eq!(c.at.as_deref(), Some("2026-08-09T05:00:00Z"));
    assert_eq!(
        c.diff_url.as_deref(),
        Some("https://en.wikipedia.org/w/index.php?diff=2")
    );
    e.server_url = None;
    assert_eq!(diff_url(&e), None);
}

#[test]
fn the_queue_is_capped_after_each_push() {
    let commands = enqueue("{}");
    assert_eq!(commands.len(), 2);
    assert_eq!(commands[0].words, vec!["LPUSH", "pulse:patrol:queue", "{}"]);
    assert_eq!(commands[1].words, vec!["LTRIM", "pulse:patrol:queue", "0", "119"]);
}
