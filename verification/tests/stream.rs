use pulse::sse::{Frame, Parser};

#[test]
fn parses_a_wikimedia_shaped_frame() {
    let mut p = Parser::new();
    let frames = p.feed(
        b"event: message\nid: [{\"topic\":\"rc\",\"partition\":0,\"offset\":42}]\ndata: {\"a\":1}\n\n",
    );
    assert_eq!(frames.len(), 1);
    assert_eq!(frames[0].event.as_deref(), Some("message"));
    assert_eq!(frames[0].data, "{\"a\":1}");
    assert!(frames[0].id.as_deref().unwrap().contains("offset"));
}

#[test]
fn reassembles_frames_split_across_chunks() {
    let mut p = Parser::new();
    assert!(p.feed(b"data: {\"par").is_empty());
    assert!(p.feed(b"tial\":true}").is_empty());
    let frames = p.feed(b"\n\n");
    assert_eq!(frames.len(), 1);
    assert_eq!(frames[0].data, "{\"partial\":true}");
}

#[test]
fn joins_multiline_data_and_skips_comments() {
    let mut p = Parser::new();
    let frames = p.feed(b":keep-alive\ndata: one\ndata: two\n\n");
    assert_eq!(frames.len(), 1);
    assert_eq!(frames[0].data, "one\ntwo");
}

#[test]
fn handles_crlf_and_back_to_back_frames() {
    let mut p = Parser::new();
    let frames = p.feed(b"data: a\r\n\r\ndata: b\r\n\r\n");
    assert_eq!(frames.len(), 2);
    assert_eq!(frames[0].data, "a");
    assert_eq!(frames[1].data, "b");
}

#[test]
fn blank_line_without_content_dispatches_nothing() {
    let mut p = Parser::new();
    assert!(p.feed(b"\n\n\n").is_empty());
}

fn all_frames(chunks: &[&[u8]]) -> Vec<(Option<String>, Option<String>, String)> {
    let mut p = Parser::new();
    let mut out = Vec::new();
    for chunk in chunks {
        for f in p.feed(chunk) {
            out.push((f.id, f.event, f.data));
        }
    }
    out
}

#[test]
fn chunking_is_invisible() {
    let whole: &[u8] = b"id: 7\nevent: message\ndata: x\r\n\n:c\ndata: y\n\n";
    let at_once = all_frames(&[whole]);
    let bytewise: Vec<&[u8]> = whole.chunks(1).collect();
    assert_eq!(all_frames(&bytewise), at_once);
    let by_three: Vec<&[u8]> = whole.chunks(3).collect();
    assert_eq!(all_frames(&by_three), at_once);
    assert_eq!(at_once.len(), 2);
    assert_eq!(at_once[0].0.as_deref(), Some("7"));
    assert_eq!(at_once[1], (None, None, "y".to_string()));
}

#[test]
fn only_one_leading_space_is_stripped_and_unknown_fields_are_ignored() {
    let frames = all_frames(&[b"data:  two spaces\nretry: 10\nnothing\n\n"]);
    assert_eq!(frames, vec![(None, None, " two spaces".to_string())]);
}

#[test]
fn a_field_without_a_colon_has_an_empty_value() {
    let frames = all_frames(&[b"id\n\n"]);
    assert_eq!(frames, vec![(Some(String::new()), None, String::new())]);
}

#[test]
fn an_event_type_alone_is_not_dispatched() {
    assert!(all_frames(&[b"event: message\n\n"]).is_empty());
}

#[test]
fn invalid_utf8_is_replaced_and_valid_utf8_kept() {
    let frames = all_frames(&[b"data: a\xffb\n\ndata: \xe3\x81\xbd\n\n"]);
    assert_eq!(frames[0].2, "a\u{fffd}b");
    assert_eq!(frames[1].2, "ぽ");
}

#[test]
fn a_blank_frame_is_empty_and_an_id_makes_it_not() {
    let mut f = Frame::default();
    assert!(f.is_empty());
    f.set_field(b"id", "1".to_string());
    assert!(!f.is_empty());
    let mut g = Frame::default();
    g.set_field(b"event", "message".to_string());
    assert!(g.is_empty());
    g.set_field(b"data", "x".to_string());
    g.set_field(b"data", "y".to_string());
    assert_eq!(g.data, "x\ny");
}
