use cmux::review_comments::{
    add_to, check_encoded, check_store, consume_in, delete_from, pending_of, prepare,
    store_key, validate_anchor, Comment, CommentError, IoKind, NewComment, Pruner, MAX_COMMENTS,
};

fn request(id: u128, path: &str, side: &str, start: u32, end: u32, message: &str) -> NewComment {
    NewComment {
        id,
        file_path: path.to_owned(),
        side: side.to_owned(),
        start_line: start,
        end_line: end,
        line_text: "let x = 1;".to_owned(),
        message: message.to_owned(),
    }
}

fn comment(id: u128, message: &str) -> Comment {
    prepare(request(id, "src/lib.rs", "new", 1, 2, message), "100".to_owned()).unwrap()
}

#[test]
fn anchors_are_bounded_repository_paths() {
    for path in ["", "/etc/passwd", "../x", "a/../b", "a/..", "..", "a/b/.."] {
        assert_eq!(
            validate_anchor(&request(1, path, "old", 1, 1, "m")),
            Err(CommentError::InvalidPath),
            "{path}"
        );
    }
    let long = "a".repeat(4097);
    assert_eq!(
        validate_anchor(&request(1, &long, "old", 1, 1, "m")),
        Err(CommentError::InvalidPath)
    );
    for path in ["a/..b", "..a/b", "./a", "a/./b", "a/b"] {
        assert_eq!(validate_anchor(&request(1, path, "OLD", 1, 1, "m")), Ok(()), "{path}");
    }
    assert_eq!(
        validate_anchor(&request(1, "a", "both", 1, 1, "m")),
        Err(CommentError::InvalidSide)
    );
    assert_eq!(
        validate_anchor(&request(1, "a", "new", 0, 1, "m")),
        Err(CommentError::InvalidRange)
    );
    assert_eq!(
        validate_anchor(&request(1, "a", "new", 5, 4, "m")),
        Err(CommentError::InvalidRange)
    );
    assert_eq!(
        validate_anchor(&request(1, "a", "new", 1, 10_000_001, "m")),
        Err(CommentError::InvalidRange)
    );
    assert_eq!(
        validate_anchor(&request(1, "a", "new", 1, 10_000_000, "m")),
        Ok(())
    );
    assert_eq!(
        validate_anchor(&request(1, "a", "new", 1, 1, "")),
        Err(CommentError::TextTooLong)
    );
    let mut big = request(1, "a", "new", 1, 1, "m");
    big.line_text = "x".repeat(16 * 1024 + 1);
    assert_eq!(validate_anchor(&big), Err(CommentError::TextTooLong));
    assert_eq!(CommentError::TextTooLong.kind(), IoKind::InvalidInput);
    assert_eq!(
        CommentError::InvalidPath.message(),
        "comment file must be a bounded repository-relative path"
    );
}

#[test]
fn prepared_comment_carries_its_delivery_text() {
    let c = prepare(request(7, "src/main.rs", "NeW", 3, 12, "rename this"), "42".to_owned())
        .unwrap();
    assert_eq!(c.id, 7);
    assert_eq!(c.side, "new");
    assert_eq!(
        c.submission_text,
        "Review comment on src/main.rs:12 (new):\nrename this"
    );
    assert_eq!(c.consumed_at, None);
    assert_eq!(c.created_at, "42");
    assert_eq!(c.updated_at, "42");
    assert!(matches!(
        prepare(request(7, "/abs", "new", 1, 1, "m"), "1".to_owned()),
        Err(CommentError::InvalidPath)
    ));
}

#[test]
fn add_is_idempotent_and_bounded() {
    let mut store = Vec::new();
    let first = add_to(&mut store, comment(1, "a")).unwrap();
    assert_eq!(first.message, "a");
    let replay = add_to(&mut store, comment(1, "a")).unwrap();
    assert_eq!(replay.created_at, first.created_at);
    assert_eq!(store.len(), 1);
    let conflict = add_to(&mut store, comment(1, "b"));
    assert!(matches!(conflict, Err(CommentError::Conflict)));
    assert_eq!(CommentError::Conflict.kind(), IoKind::AlreadyExists);

    let mut full: Vec<Comment> = (0..MAX_COMMENTS as u128).map(|i| comment(i, "m")).collect();
    assert!(matches!(
        add_to(&mut full, comment(9999, "m")),
        Err(CommentError::LimitReached)
    ));
    assert_eq!(full.len(), MAX_COMMENTS);
    assert_eq!(consume_in(&mut full, &[5, 6], false, &"200".to_owned()), 2);
    add_to(&mut full, comment(9999, "m")).unwrap();
    assert_eq!(full.len(), MAX_COMMENTS);
    assert!(full.iter().all(|c| c.id != 5));
    assert!(full.iter().any(|c| c.id == 6));
    assert_eq!(full.last().unwrap().id, 9999);
}

#[test]
fn consume_delete_and_pending() {
    let mut store = vec![comment(1, "a"), comment(2, "b"), comment(3, "c")];
    assert_eq!(consume_in(&mut store, &[2], false, &"300".to_owned()), 1);
    assert_eq!(store[1].consumed_at.as_deref(), Some("300"));
    assert_eq!(store[1].updated_at, "300");
    assert_eq!(consume_in(&mut store, &[2], false, &"400".to_owned()), 0);
    let pending: Vec<u128> = pending_of(&store).iter().map(|c| c.id).collect();
    assert_eq!(pending, vec![1, 3]);
    assert_eq!(consume_in(&mut store, &[], true, &"500".to_owned()), 2);
    assert!(pending_of(&store).is_empty());
    assert_eq!(store[1].consumed_at.as_deref(), Some("300"));

    assert_eq!(delete_from(&mut store, 2), Ok(()));
    assert_eq!(store.len(), 2);
    assert_eq!(delete_from(&mut store, 2), Err(CommentError::NotFound));
    assert_eq!(CommentError::NotFound.message(), "review comment not found");
}

#[test]
fn store_identity_and_size() {
    assert_eq!(check_store("/repo", "/repo", 512), Ok(()));
    assert_eq!(
        check_store("/repo", "/other", 1),
        Err(CommentError::InvalidStore)
    );
    assert_eq!(
        check_store("/repo", "/repo", 513),
        Err(CommentError::InvalidStore)
    );
    assert_eq!(check_encoded(1024 * 1024), Ok(()));
    assert_eq!(
        check_encoded(1024 * 1024 + 1),
        Err(CommentError::StoreTooLarge)
    );
    assert_eq!(store_key("abc"), "ba7816bf8f01cfea414140de");
    assert_eq!(store_key("abc").len(), 24);
    assert_ne!(store_key("/repo/a"), store_key("/repo/b"));
}

#[test]
fn pruning_stops_within_limits() {
    let mut sizes = vec![10u64; 130];
    sizes[0] = 64 * 1024 * 1024;
    let mut pruner = Pruner::new(&sizes);
    assert_eq!(pruner.remaining, 130);
    assert_eq!(pruner.bytes, 64 * 1024 * 1024 + 129 * 10);
    let mut dropped = 0;
    while pruner.over() {
        let removed = dropped != 1;
        pruner.dropped(sizes[dropped], removed);
        dropped += 1;
    }
    assert_eq!(dropped, 2);
    assert_eq!(pruner.remaining, 128);
    assert_eq!(pruner.bytes, 129 * 10);
    let small = Pruner::new(&[1, 2, 3]);
    assert!(!small.over());
}
