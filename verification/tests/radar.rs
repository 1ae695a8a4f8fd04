use pulse::radar::{
    after_edge, bump_decayed, detect_cycle, edges_query, edits_key, elapsed_ms, flag_war, pack,
    read_decayed, record_edge, record_revert, reverts_key, unpack, unpack_all, Edge,
    HALF_LIFE_SECS,
};
use pulse::stamp::{read_stamp, stamp};

fn e(reverter: &str, reverted: &str, at_ms: i64) -> Edge {
    Edge {
        reverter: reverter.to_string(),
        reverted: reverted.to_string(),
        at_ms,
    }
}

const NOW: i64 = 1_800_000_000_000;

#[test]
fn ping_pong_between_two_editors_is_a_war() {
    let edges = vec![
        e("Ann", "Ben", NOW - 60_000),
        e("Ben", "Ann", NOW - 120_000),
        e("Ann", "Ben", NOW - 180_000),
    ];
    assert!(detect_cycle(&edges, NOW));
}

#[test]
fn a_three_way_cycle_is_a_war() {
    let edges = vec![
        e("Ann", "Ben", NOW - 60_000),
        e("Ben", "Cal", NOW - 120_000),
        e("Cal", "Ann", NOW - 180_000),
    ];
    assert!(detect_cycle(&edges, NOW));
}

#[test]
fn one_sided_reverts_are_not_a_war() {
    // A patroller cleaning up three different vandals is not a war.
    let edges = vec![
        e("Patroller", "Ben", NOW - 60_000),
        e("Patroller", "Cal", NOW - 120_000),
        e("Patroller", "Dee", NOW - 180_000),
    ];
    assert!(!detect_cycle(&edges, NOW));
}

#[test]
fn too_few_edges_is_not_a_war() {
    let edges = vec![e("Ann", "Ben", NOW - 60_000), e("Ben", "Ann", NOW - 90_000)];
    assert!(!detect_cycle(&edges, NOW), "needs >= 3 edges");
}

#[test]
fn stale_edges_fall_out_of_the_thirty_minute_window() {
    let old = NOW - 40 * 60 * 1000;
    let edges = vec![
        e("Ann", "Ben", old),
        e("Ben", "Ann", old - 60_000),
        e("Ann", "Ben", old - 120_000),
    ];
    assert!(!detect_cycle(&edges, NOW));
}

#[test]
fn edges_round_trip_through_packing() {
    let edge = e("Ann Smith", "203.0.113.9", NOW);
    let packed = format!("{}\t{}\t{}", edge.reverter, edge.reverted, edge.at_ms);
    assert_eq!(pack(&edge), packed);
    assert_eq!(unpack(&packed), Some(edge));
    assert_eq!(unpack("malformed"), None);
}

#[test]
fn decay_halves_over_one_half_life() {
    let half_life = HALF_LIFE_SECS as f64;
    let decayed = 1.0_f64 * 0.5_f64.powf(half_life / half_life);
    assert!((decayed - 0.5).abs() < 1e-9);
}

#[test]
fn the_thirty_minute_window_includes_its_edge() {
    let edge = NOW - 30 * 60 * 1000;
    let at = |ms: i64| {
        vec![
            e("Ann", "Ben", NOW),
            e("Ben", "Ann", NOW),
            e("Cal", "Dee", ms),
        ]
    };
    assert!(detect_cycle(&at(edge), NOW));
    assert!(!detect_cycle(&at(edge - 1), NOW));
}

#[test]
fn undoing_oneself_is_no_war() {
    let edges = vec![
        e("Ann", "Ann", NOW - 60_000),
        e("Ben", "Cal", NOW - 120_000),
        e("Dee", "Eve", NOW - 180_000),
    ];
    assert!(!detect_cycle(&edges, NOW));
    let twice = vec![
        e("Ann", "Ann", NOW - 60_000),
        e("Ann", "Ann", NOW - 120_000),
        e("Dee", "Eve", NOW - 180_000),
    ];
    assert!(!detect_cycle(&twice, NOW));
}

#[test]
fn malformed_edges_are_skipped() {
    assert_eq!(unpack("a\tb"), None);
    assert_eq!(unpack("a\tb\tsoon"), None);
    assert_eq!(unpack("a\tb\t7\tmore"), Some(e("a", "b", 7)));
    let raw: Vec<String> = vec!["x".to_string(), "a\tb\t7".to_string(), String::new()];
    assert_eq!(unpack_all(&raw), vec![e("a", "b", 7)]);
}

#[test]
fn a_war_is_flagged_and_peace_is_not() {
    let raw: Vec<String> = vec![
        pack(&e("Ann", "Ben", NOW)),
        pack(&e("Ben", "Ann", NOW)),
        pack(&e("Ann", "Ben", NOW)),
    ];
    let commands = after_edge("enwiki:Foo", &raw, NOW).unwrap();
    assert_eq!(commands[0].words, vec!["SET", "pulse:war:enwiki:Foo", "1"]);
    assert_eq!(commands[1].words, vec!["EXPIRE", "pulse:war:enwiki:Foo", "1800"]);
    assert_eq!(commands.len(), flag_war("enwiki:Foo").len());
    assert!(after_edge("enwiki:Foo", &raw[..2].to_vec(), NOW).is_none());
}

#[test]
fn the_last_twenty_edges_are_kept() {
    let commands = record_edge("enwiki:Foo", &e("Ann", "Ben", 7));
    assert_eq!(commands.len(), 3);
    assert_eq!(commands[0].words, vec!["LPUSH", "pulse:edges:enwiki:Foo", "Ann\tBen\t7"]);
    assert_eq!(commands[1].words, vec!["LTRIM", "pulse:edges:enwiki:Foo", "0", "19"]);
    assert_eq!(commands[2].words, vec!["EXPIRE", "pulse:edges:enwiki:Foo", "3600"]);
    assert_eq!(
        edges_query("enwiki:Foo").words,
        vec!["LRANGE", "pulse:edges:enwiki:Foo", "0", "19"]
    );
}

#[test]
fn counters_are_stored_with_their_moment() {
    assert_eq!(stamp("1.5", NOW), "1.5:1800000000000");
    assert_eq!(
        read_stamp("1.5:1800000000000"),
        Some(("1.5".to_string(), NOW))
    );
    assert_eq!(read_stamp("1.5"), None);
    assert_eq!(read_stamp("1.5:later"), None);
    assert_eq!(read_stamp("1:2:3"), None);
    assert_eq!(edits_key("a"), "pulse:ctrl:edits:a");
    assert_eq!(reverts_key("a"), "pulse:ctrl:reverts:a");
    let commands = bump_decayed("k", "1.5", NOW);
    assert_eq!(commands[0].words, vec!["SET", "k", "1.5:1800000000000"]);
    assert_eq!(commands[1].words, vec!["EXPIRE", "k", "3600"]);
    assert_eq!(read_decayed("k").words, vec!["GET", "k"]);
}

#[test]
fn a_stamp_from_the_future_does_not_decay() {
    assert_eq!(elapsed_ms(NOW, NOW - 5), 5);
    assert_eq!(elapsed_ms(NOW, NOW), 0);
    assert_eq!(elapsed_ms(NOW, NOW + 5), 0);
}

#[test]
fn the_board_keeps_its_two_hundred_highest() {
    let commands = record_revert("enwiki:Foo", "0.25");
    assert_eq!(commands.len(), 2);
    assert_eq!(commands[0].words, vec!["ZADD", "pulse:controversy", "0.25", "enwiki:Foo"]);
    assert_eq!(
        commands[1].words,
        vec!["ZREMRANGEBYRANK", "pulse:controversy", "0", "-201"]
    );
}
