use cmux::notifications::{Parser, FRAME_LIMIT, PARTIAL_LIMIT};

/// Split every byte boundary, assemble interleaved chunks and recover after oversized control data.
#[test]
fn framing_chunking_and_limits() {
    let mut parser = Parser::new();
    let mut messages = Vec::new();
    for byte in b"\x1b]99;i=a:d=0;Title\x1b\\\x1b]9;hello\x07\x1b]99;i=a:p=body:e=1;Ym9keQ==\x1b\\\x1b]777;notify;Other;message\x07" {
        messages.extend(parser.feed(&[*byte], 0));
    }
    assert_eq!(messages.len(), 3);
    assert_eq!(
        (&messages[1].title, &messages[1].body),
        (&"Title".into(), &"body".into())
    );
    messages.extend(parser.feed(b"\x1b]9;4;1;50\x07\x1bP\x1b]9;hidden\x07\x1b\\", 0));
    assert_eq!(messages.len(), 3);
    messages.extend(parser.feed(
        format!("\x1b]9;{}\x07\x1b]9;after\x07", "x".repeat(FRAME_LIMIT * 2)).as_bytes(),
        0,
    ));
    assert_eq!(messages.last().unwrap().body, "after");
    assert!(parser.frame_capacity() <= FRAME_LIMIT * 2);
    for id in 0..100 {
        let emitted = parser.feed(format!("\x1b]99;i={id}:d=0;pending\x07").as_bytes(), 0);
        assert!(emitted.is_empty(), "incomplete notification emitted");
    }
    assert_eq!(parser.pending_count(), PARTIAL_LIMIT);
}

/// Plain notifications carry the protocol title; OSC 777 splits title and body.
#[test]
fn plain_notification_families() {
    let mut parser = Parser::new();
    let out = parser.feed(b"\x1b]9;hello world\x07\x1b]777;notify;Build;done\x1b\\\x1b]777;other;x\x07", 0);
    assert_eq!(out.len(), 2);
    assert_eq!((out[0].title.as_str(), out[0].body.as_str()), ("Notification", "hello world"));
    assert_eq!((out[1].title.as_str(), out[1].body.as_str()), ("Build", "done"));
    assert!(parser.feed(b"\x1b]9;10\x07\x1b]9;1;x\x07", 0).is_empty());
    assert_eq!(parser.feed(b"\x1b]9;13;x\x07", 0).len(), 1);
}

/// A chunked message whose title exceeds its limit is dropped; stale partials expire.
#[test]
fn chunk_limits_and_expiry() {
    let mut parser = Parser::new();
    let long = "t".repeat(513);
    let out = parser.feed(format!("\x1b]99;i=x;{long}\x07").as_bytes(), 0);
    assert!(out.is_empty());
    parser.feed(b"\x1b]99;i=y:d=0;Hello\x07", 0);
    assert_eq!(parser.pending_count(), 1);
    let out = parser.feed(b"\x1b]99;i=z:d=0;Other\x07", 61_000_000_000);
    assert!(out.is_empty());
    assert_eq!(parser.pending_count(), 1);
    let out = parser.feed(b"\x1b]99;i=z:p=body;text\x07", 61_000_000_001);
    assert_eq!((out[0].title.as_str(), out[0].body.as_str()), ("Other", "text"));
    assert_eq!(parser.pending_count(), 0);
}

/// Feeding a stream in two reads delivers what feeding it whole delivers.
#[test]
fn read_boundaries_do_not_matter() {
    let stream = b"\x1b]99;i=a:d=0;Ti\x1b\\\x1b]99;i=a:p=body:e=1;Ym9keQ==\x07\x1b]9;x\x07";
    let mut whole = Parser::new();
    let all = whole.feed(stream, 5);
    for split in 0..stream.len() {
        let mut parts = Parser::new();
        let mut out = parts.feed(&stream[..split], 5);
        out.extend(parts.feed(&stream[split..], 5));
        assert_eq!(out, all);
    }
}

/// What a parser delivers is always a valid notification: NUL and oversized chunks spoil the
/// message instead of reaching it.
#[test]
fn delivered_notifications_are_valid() {
    let mut parser = Parser::new();
    assert!(parser.feed(b"\x1b]99;i=n:d=0;a\x00b\x07\x1b]99;i=n;tail\x07", 0).is_empty());
    let long = "t".repeat(300);
    let out = parser.feed(
        format!("\x1b]99;i=m:d=0;{long}\x07\x1b]99;i=m:d=0;{long}\x07\x1b]99;i=m;end\x07").as_bytes(),
        0,
    );
    assert!(out.is_empty());
    let out = parser.feed(b"\x1b]99;i=k:p=body;only a body\x07", 0);
    assert_eq!(out.len(), 1);
    assert_eq!(out[0].title, "Notification");
    assert!(out[0].validate().is_ok());
}
