use thumb_queue::logsink::LogSink;

#[test]
fn lines_arrive_in_order_and_stay_intact() {
    // K lines from N "workers", interleaved as they would arrive at the
    // channel: the file holds exactly K lines, each whole, in arrival order
    let mut sink = LogSink::new();
    let arrivals = [
        "Worker 0 processed job for: a.png",
        "Worker 1 processed job for: b.png",
        "Worker 0 processed job for: c.png",
        "Worker 2 failed job for: d.png",
        "Worker 1 processed job for: e.png",
    ];
    for line in arrivals {
        sink.append(line.to_string());
    }
    assert_eq!(sink.line_count(), arrivals.len());
    let rendered = sink.render();
    let expected = "Worker 0 processed job for: a.png\n\
                    Worker 1 processed job for: b.png\n\
                    Worker 0 processed job for: c.png\n\
                    Worker 2 failed job for: d.png\n\
                    Worker 1 processed job for: e.png\n";
    assert_eq!(rendered, expected);
    assert_eq!(rendered.lines().count(), arrivals.len());
}

#[test]
fn append_all_keeps_batch_order() {
    let mut sink = LogSink::new();
    sink.append("first".to_string());
    sink.append_all(vec!["second".to_string(), "third".to_string()]);
    assert_eq!(sink.render(), "first\nsecond\nthird\n");
}

#[test]
fn empty_sink_renders_nothing() {
    let sink = LogSink::new();
    assert_eq!(sink.line_count(), 0);
    assert_eq!(sink.render(), "");
}

#[test]
fn close_keeps_the_stream_and_is_idempotent() {
    let mut sink = LogSink::new();
    sink.append("only line".to_string());
    sink.close();
    sink.close();
    assert_eq!(sink.render(), "only line\n");
}
