use cmux::utf8_stream::Utf8Stream;

fn run(chunks: &[&[u8]]) -> Vec<bool> {
    let mut stream = Utf8Stream::new();
    let mut results: Vec<bool> = chunks.iter().map(|chunk| stream.feed(chunk)).collect();
    results.push(stream.feed(&[]));
    results
}

#[test]
fn characters_may_span_reads() {
    let lambda = "λ".as_bytes();
    assert_eq!(run(&[&lambda[..1], &lambda[1..]]), vec![true, true, true]);
    let euro = "€".as_bytes();
    assert_eq!(run(&[&euro[..1], &euro[1..]]), vec![true, true, true]);
    assert_eq!(run(&[&euro[..2], &euro[2..]]), vec![true, true, true]);
    let face = "😀".as_bytes();
    assert_eq!(
        run(&[&face[..1], &face[1..2], &face[2..3], &face[3..]]),
        vec![true, true, true, true, true]
    );
    let text = "λ\"\n€😀 plain".repeat(50);
    let bytes = text.as_bytes();
    for size in 1..8 {
        let chunks: Vec<&[u8]> = bytes.chunks(size).collect();
        assert!(run(&chunks).iter().all(|ok| *ok), "chunk size {size}");
    }
}

#[test]
fn invalid_or_unfinished_input_is_rejected() {
    assert_eq!(run(&[b"ok", b"\xff"]), vec![true, false, true]);
    assert_eq!(run(&[b"\xe2\x82"]), vec![true, false]);
    assert_eq!(run(&[b"\xe0", b"\x80"]), vec![true, false, true]);
    assert_eq!(run(&[b"\xed\xa0\x80"])[0], false);
    assert_eq!(run(&[b"\xc0\x80"])[0], false);
    assert_eq!(run(&[b"\xf4\x90\x80\x80"])[0], false);
    assert_eq!(run(&[b"a\xf0\x9f"]), vec![true, false]);
    assert_eq!(run(&[b""]), vec![true, true]);
}
