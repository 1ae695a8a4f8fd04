use pulse::raw::{encoded, replay, GzipFailed, RawLog};

#[test]
fn appends_across_flushes_and_stays_readable_as_one_stream() {
    let mut file: Vec<u8> = Vec::new();
    let mut log = RawLog::new();

    log.push(r#"{"n":1}"#);
    log.push(r#"{"n":2}"#);
    assert_eq!(log.pending(), 2);
    file.extend(log.flush().unwrap().unwrap());
    assert_eq!(log.commit(2), 2);
    assert_eq!(log.pending(), 0);

    // A second flush writes a second gzip member to the same stream.
    log.push(r#"{"n":3}"#);
    file.extend(log.flush().unwrap().unwrap());
    assert_eq!(log.commit(1), 1);
    assert_eq!(log.pending(), 0);
    assert_eq!(log.written, 3);

    // A decoder reads concatenated members as a single stream.
    let text = String::from_utf8(replay(&file).unwrap()).unwrap();
    let lines: Vec<&str> = text.lines().collect();
    assert_eq!(lines, vec![r#"{"n":1}"#, r#"{"n":2}"#, r#"{"n":3}"#]);
}

#[test]
fn flushing_nothing_is_a_noop() {
    let mut log = RawLog::new();
    assert_eq!(log.flush(), Ok(None));
    assert_eq!(log.commit(0), 0);
    assert_eq!(log.written, 0);
}

#[test]
fn an_append_that_failed_loses_nothing() {
    let mut log = RawLog::new();
    log.push("é");
    let first = log.flush().unwrap().unwrap();
    // Nothing was committed: the same lines are still there to be appended.
    assert_eq!(log.pending(), 1);
    assert_eq!(log.flush().unwrap().unwrap(), first);
    assert_eq!(replay(&first), Some("é\n".as_bytes().to_vec()));
    assert_ne!(first, "é\n".as_bytes().to_vec());
}

#[test]
fn lines_queued_since_a_flush_stay() {
    let mut log = RawLog::new();
    log.push("a");
    let flushed = log.pending();
    let member = log.flush().unwrap().unwrap();
    log.push("b");
    assert_eq!(log.commit(flushed), 1);
    assert_eq!(log.buf, vec!["b"]);
    assert_eq!(log.written, 1);
    assert_eq!(replay(&member), Some(b"a\n".to_vec()));
}

#[test]
fn what_is_no_gzip_stream_is_not_read() {
    assert_eq!(replay(&Vec::new()), None);
    assert_eq!(replay(&b"plain text".to_vec()), None);
    let mut log = RawLog::new();
    log.push("x");
    let mut cut = log.flush().unwrap().unwrap();
    cut.pop();
    assert_eq!(replay(&cut), None);
}

#[test]
fn an_encoder_failure_is_reported_as_such() {
    assert_eq!(encoded(Ok(vec![1, 2])), Ok(Some(vec![1, 2])));
    let failure: std::io::Error = std::io::ErrorKind::Other.into();
    assert_eq!(encoded(Err(failure)), Err(GzipFailed));
}
