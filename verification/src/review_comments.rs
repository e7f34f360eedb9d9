//! Durable diff-review comments: request validation, the retained-store rules and the store's
//! file key.
use crate::inbox_actions::{first_where, lemma_first_where, lemma_first_where_at};
use crate::text::{
    ascii_lower, chars_equal, chars_of, decimal, hex, hex_char, lower_ascii, push_decimal,
    utf8_len, utf8_size,
};
use sha2::Digest;
use vstd::prelude::*;
use vstd::string::StringExecFns;
use vstd::utf8::encode_utf8;

verus! {

/// Most comments retained per repository.
pub const MAX_COMMENTS: usize = 512;

/// Largest encoded store file.
pub const MAX_STORE_BYTES: usize = 1048576;

/// Most repository store files kept in the comment directory.
pub const MAX_REPOSITORIES: usize = 128;

/// Most bytes of store files kept in the comment directory.
pub const MAX_DIRECTORY_BYTES: u64 = 67108864;

/// Longest anchored file path, in bytes.
pub const MAX_PATH_BYTES: usize = 4096;

/// Longest quoted line text, in bytes.
pub const MAX_LINE_TEXT_BYTES: usize = 16384;

/// Longest comment message, in bytes.
pub const MAX_MESSAGE_BYTES: usize = 65536;

/// Highest line number a comment may anchor.
pub const MAX_LINE: u32 = 10000000;

/// One retained review comment; identities are UUIDs held by their 128-bit value.
pub struct Comment {
    pub id: u128,
    pub file_path: String,
    pub side: String,
    pub start_line: u32,
    pub end_line: u32,
    pub line_text: String,
    pub message: String,
    pub submission_text: String,
    pub consumed_at: Option<String>,
    pub created_at: String,
    pub updated_at: String,
}

/// A comment as a client submits it.
pub struct NewComment {
    pub id: u128,
    pub file_path: String,
    pub side: String,
    pub start_line: u32,
    pub end_line: u32,
    pub line_text: String,
    pub message: String,
}

/// The I/O error kind a refusal is reported with.
#[derive(Debug, PartialEq, Eq, Structural)]
pub enum IoKind {
    InvalidInput,
    AlreadyExists,
    NotFound,
    InvalidData,
    Other,
}

/// Why a comment request or a store was refused.
#[derive(Debug, PartialEq, Eq, Structural)]
pub enum CommentError {
    /// The file is not a bounded repository-relative path.
    InvalidPath,
    /// The side is neither `old` nor `new`.
    InvalidSide,
    /// The line range is empty, reversed or too high.
    InvalidRange,
    /// The line text or message is too long, or the message is empty.
    TextTooLong,
    /// A comment with the request's identity holds other content.
    Conflict,
    /// The store is full and holds no consumed comment to evict.
    LimitReached,
    /// No comment has the identity.
    NotFound,
    /// A loaded store belongs to another repository or holds too many comments.
    InvalidStore,
    /// The encoded store exceeds its byte limit.
    StoreTooLarge,
}

/// The error kind of each refusal.
pub open spec fn spec_kind(e: CommentError) -> IoKind {
    match e {
        CommentError::InvalidPath => IoKind::InvalidInput,
        CommentError::InvalidSide => IoKind::InvalidInput,
        CommentError::InvalidRange => IoKind::InvalidInput,
        CommentError::TextTooLong => IoKind::InvalidInput,
        CommentError::Conflict => IoKind::AlreadyExists,
        CommentError::LimitReached => IoKind::Other,
        CommentError::NotFound => IoKind::NotFound,
        CommentError::InvalidStore => IoKind::InvalidData,
        CommentError::StoreTooLarge => IoKind::Other,
    }
}

/// The message of each refusal.
pub open spec fn spec_comment_message(e: CommentError) -> Seq<char> {
    match e {
        CommentError::InvalidPath => "comment file must be a bounded repository-relative path"@,
        CommentError::InvalidSide => "comment side must be old or new"@,
        CommentError::InvalidRange => "comment line range is invalid"@,
        CommentError::TextTooLong => "comment line text or message exceeds its limit"@,
        CommentError::Conflict => "review comment request ID conflicts with existing content"@,
        CommentError::LimitReached => "review comment limit reached; consume or delete an entry"@,
        CommentError::NotFound => "review comment not found"@,
        CommentError::InvalidStore => "comment store identity or count is invalid"@,
        CommentError::StoreTooLarge => "review comment store exceeds one MiB"@,
    }
}

impl CommentError {
    /// The I/O error kind this refusal is reported with.
    pub fn kind(&self) -> (k: IoKind)
        ensures
            k == spec_kind(*self),
    {
        match self {
            CommentError::InvalidPath => IoKind::InvalidInput,
            CommentError::InvalidSide => IoKind::InvalidInput,
            CommentError::InvalidRange => IoKind::InvalidInput,
            CommentError::TextTooLong => IoKind::InvalidInput,
            CommentError::Conflict => IoKind::AlreadyExists,
            CommentError::LimitReached => IoKind::Other,
            CommentError::NotFound => IoKind::NotFound,
            CommentError::InvalidStore => IoKind::InvalidData,
            CommentError::StoreTooLarge => IoKind::Other,
        }
    }

    /// The message this refusal is reported with.
    pub fn message(&self) -> (m: &'static str)
        ensures
            m@ == spec_comment_message(*self),
    {
        match self {
            CommentError::InvalidPath => {
                proof {
                    reveal_strlit("comment file must be a bounded repository-relative path");
                }
                "comment file must be a bounded repository-relative path"
            },
            CommentError::InvalidSide => {
                proof {
                    reveal_strlit("comment side must be old or new");
                }
                "comment side must be old or new"
            },
            CommentError::InvalidRange => {
                proof {
                    reveal_strlit("comment line range is invalid");
                }
                "comment line range is invalid"
            },
            CommentError::TextTooLong => {
                proof {
                    reveal_strlit("comment line text or message exceeds its limit");
                }
                "comment line text or message exceeds its limit"
            },
            CommentError::Conflict => {
                proof {
                    reveal_strlit("review comment request ID conflicts with existing content");
                }
                "review comment request ID conflicts with existing content"
            },
            CommentError::LimitReached => {
                proof {
                    reveal_strlit("review comment limit reached; consume or delete an entry");
                }
                "review comment limit reached; consume or delete an entry"
            },
            CommentError::NotFound => {
                proof {
                    reveal_strlit("review comment not found");
                }
                "review comment not found"
            },
            CommentError::InvalidStore => {
                proof {
                    reveal_strlit("comment store identity or count is invalid");
                }
                "comment store identity or count is invalid"
            },
            CommentError::StoreTooLarge => {
                proof {
                    reveal_strlit("review comment store exceeds one MiB");
                }
                "review comment store exceeds one MiB"
            },
        }
    }
}

/// Whether a `..` component starts at `i`: two dots between separators or the path's ends.
pub open spec fn parent_at(p: Seq<char>, i: int) -> bool {
    &&& 0 <= i
    &&& i + 2 <= p.len()
    &&& p[i] == '.'
    &&& p[i + 1] == '.'
    &&& (i == 0 || p[i - 1] == '/')
    &&& (i + 2 == p.len() || p[i + 2] == '/')
}

/// Whether a path stays inside the repository: nonempty, at most 4096 bytes, not absolute, and
/// without a `..` component.
pub open spec fn relative_path_ok(p: Seq<char>) -> bool {
    &&& p.len() > 0
    &&& utf8_len(p) <= MAX_PATH_BYTES
    &&& p[0] != '/'
    &&& !(exists|i: int| parent_at(p, i))
}

/// A string with its ASCII letters in lower case.
pub open spec fn lower(s: Seq<char>) -> Seq<char> {
    s.map_values(|c: char| ascii_lower(c))
}

/// The first problem with a submitted comment: its path, its side, its line range, then its
/// texts.
pub open spec fn anchor_check(input: NewComment) -> Result<(), CommentError> {
    if !relative_path_ok(input.file_path@) {
        Err(CommentError::InvalidPath)
    } else if lower(input.side@) != "old"@ && lower(input.side@) != "new"@ {
        Err(CommentError::InvalidSide)
    } else if input.start_line == 0 || input.end_line < input.start_line || input.end_line
        > MAX_LINE {
        Err(CommentError::InvalidRange)
    } else if utf8_len(input.line_text@) > MAX_LINE_TEXT_BYTES || input.message@.len() == 0
        || utf8_len(input.message@) > MAX_MESSAGE_BYTES {
        Err(CommentError::TextTooLong)
    } else {
        Ok(())
    }
}

/// The text delivered to an agent for a comment.
pub open spec fn submission(file_path: Seq<char>, end_line: u32, side: Seq<char>, message: Seq<char>) -> Seq<
    char,
> {
    "Review comment on "@ + file_path + ":"@ + decimal(end_line as nat) + " ("@ + side + "):\n"@
        + message
}

/// Whether a path has a `..` component.
fn has_parent_component(v: &Vec<char>) -> (r: bool)
    ensures
        r == exists|i: int| parent_at(v@, i),
{
    let n = v.len();
    let mut i: usize = 0;
    while n >= 2 && i < n - 1
        invariant
            n == v@.len(),
            i <= n,
            forall|j: int| 0 <= j < i ==> !parent_at(v@, j),
        decreases n - i,
    {
        if v[i] == '.' && v[i + 1] == '.' && (i == 0 || v[i - 1] == '/') && (i + 2 == n || v[i
            + 2] == '/') {
            assert(parent_at(v@, i as int));
            return true;
        }
        i = i + 1;
    }
    assert forall|j: int| !parent_at(v@, j) by {
        if 0 <= j && j >= i {
            assert(j + 2 > v@.len());
        }
    }
    false
}

/// Check a submitted comment's anchor and texts before any store access.
pub fn validate_anchor(input: &NewComment) -> (r: Result<(), CommentError>)
    ensures
        r == anchor_check(*input),
{
    let path = chars_of(input.file_path.as_str());
    if path.len() == 0 || utf8_size(input.file_path.as_str()) > MAX_PATH_BYTES || path[0] == '/'
        || has_parent_component(&path) {
        return Err(CommentError::InvalidPath);
    }
    let side = lower_ascii(input.side.as_str());
    let old_side = "old";
    let new_side = "new";
    proof {
        reveal_strlit("old");
        reveal_strlit("new");
    }
    if !chars_equal(&chars_of(side.as_str()), old_side) && !chars_equal(
        &chars_of(side.as_str()),
        new_side,
    ) {
        return Err(CommentError::InvalidSide);
    }
    if input.start_line == 0 || input.end_line < input.start_line || input.end_line > MAX_LINE {
        return Err(CommentError::InvalidRange);
    }
    if utf8_size(input.line_text.as_str()) > MAX_LINE_TEXT_BYTES || input.message.as_str().len()
        == 0 || utf8_size(input.message.as_str()) > MAX_MESSAGE_BYTES {
        return Err(CommentError::TextTooLong);
    }
    Ok(())
}

/// Turn a validated submission into a pending comment created and updated at `now`, with its
/// side in lower case and its delivery text.
pub fn prepare(input: NewComment, now: String) -> (r: Result<Comment, CommentError>)
    ensures
        anchor_check(input) matches Err(e) ==> r == Err::<Comment, CommentError>(e),
        anchor_check(input) is Ok ==> (r matches Ok(c) && c.id == input.id && c.file_path
            == input.file_path && c.side@ == lower(input.side@) && c.start_line == input.start_line
            && c.end_line == input.end_line && c.line_text == input.line_text && c.message
            == input.message && c.submission_text@ == submission(
            input.file_path@,
            input.end_line,
            lower(input.side@),
            input.message@,
        ) && c.consumed_at is None && c.created_at == now && c.updated_at == now),
{
    if let Err(e) = validate_anchor(&input) {
        return Err(e);
    }
    let side = lower_ascii(input.side.as_str());
    let mut text = String::from_str("Review comment on ");
    proof {
        reveal_strlit("Review comment on ");
        reveal_strlit(":");
        reveal_strlit(" (");
        reveal_strlit("):\n");
    }
    text.append(input.file_path.as_str());
    text.append(":");
    push_decimal(&mut text, input.end_line as u64);
    text.append(" (");
    text.append(side.as_str());
    text.append("):\n");
    text.append(input.message.as_str());
    let created_at = now.clone();
    Ok(
        Comment {
            id: input.id,
            file_path: input.file_path,
            side,
            start_line: input.start_line,
            end_line: input.end_line,
            line_text: input.line_text,
            message: input.message,
            submission_text: text,
            consumed_at: None,
            created_at,
            updated_at: now,
        },
    )
}

/// Whether two comments anchor the same content: file, side, lines, line text and message.
pub open spec fn same_content(a: Comment, b: Comment) -> bool {
    &&& a.file_path@ == b.file_path@
    &&& a.side@ == b.side@
    &&& a.start_line == b.start_line
    &&& a.end_line == b.end_line
    &&& a.line_text@ == b.line_text@
    &&& a.message@ == b.message@
}

/// Index of the first comment with identity `id`, or the count.
pub open spec fn id_index(cs: Seq<Comment>, id: u128) -> int {
    first_where(cs, |c: Comment| c.id == id)
}

/// Index of the first consumed comment, or the count.
pub open spec fn consumed_index(cs: Seq<Comment>) -> int {
    first_where(cs, |c: Comment| c.consumed_at is Some)
}

/// The store after adding comment `c`, and the comment reported: replaying a request with the
/// same identity and content reports the stored comment and changes nothing, other content
/// under that identity conflicts; a full store first evicts its oldest consumed comment and
/// refuses when none is consumed.
pub open spec fn spec_add(cs: Seq<Comment>, c: Comment) -> Result<(Seq<Comment>, Comment), CommentError> {
    let i = id_index(cs, c.id);
    if i < cs.len() {
        if same_content(cs[i], c) {
            Ok((cs, cs[i]))
        } else {
            Err(CommentError::Conflict)
        }
    } else if cs.len() >= MAX_COMMENTS {
        let j = consumed_index(cs);
        if j < cs.len() {
            Ok((cs.remove(j).push(c), c))
        } else {
            Err(CommentError::LimitReached)
        }
    } else {
        Ok((cs.push(c), c))
    }
}

/// The comments other than those with identity `id`, in order.
pub open spec fn without(cs: Seq<Comment>, id: u128) -> Seq<Comment> {
    cs.filter(|c: Comment| c.id != id)
}

/// Whether a consume request delivers a comment: it is pending, and every comment or this one
/// was asked for.
pub open spec fn consumes(c: Comment, ids: Seq<u128>, all: bool) -> bool {
    c.consumed_at is None && (all || ids.contains(c.id))
}

/// A comment delivered at `now`.
pub open spec fn delivered(c: Comment, now: String) -> Comment {
    Comment {
        id: c.id,
        file_path: c.file_path,
        side: c.side,
        start_line: c.start_line,
        end_line: c.end_line,
        line_text: c.line_text,
        message: c.message,
        submission_text: c.submission_text,
        consumed_at: Some(now),
        created_at: c.created_at,
        updated_at: now,
    }
}

/// The store after a consume request at `now`.
pub open spec fn after_consume(cs: Seq<Comment>, ids: Seq<u128>, all: bool, now: String) -> Seq<
    Comment,
> {
    cs.map_values(
        |c: Comment|
            if consumes(c, ids, all) {
                delivered(c, now)
            } else {
                c
            },
    )
}

/// How many comments a consume request delivers.
pub open spec fn consume_count(cs: Seq<Comment>, ids: Seq<u128>, all: bool) -> nat
    decreases cs.len(),
{
    if cs.len() == 0 {
        0
    } else {
        consume_count(cs.drop_last(), ids, all) + if consumes(cs.last(), ids, all) {
            1nat
        } else {
            0nat
        }
    }
}

/// Whether a comment still awaits delivery.
pub open spec fn is_pending(c: Comment) -> bool {
    c.consumed_at is None
}

impl Comment {
    /// A copy of this comment.
    pub fn duplicate(&self) -> (c: Comment)
        ensures
            c == *self,
    {
        Comment {
            id: self.id,
            file_path: self.file_path.clone(),
            side: self.side.clone(),
            start_line: self.start_line,
            end_line: self.end_line,
            line_text: self.line_text.clone(),
            message: self.message.clone(),
            submission_text: self.submission_text.clone(),
            consumed_at: match &self.consumed_at {
                Some(t) => Some(t.clone()),
                None => None,
            },
            created_at: self.created_at.clone(),
            updated_at: self.updated_at.clone(),
        }
    }
}

/// Index of the first comment with identity `id`, or the count.
fn find_comment(cs: &Vec<Comment>, id: u128) -> (i: usize)
    ensures
        i as int == id_index(cs@, id),
{
    let mut k: usize = 0;
    while k < cs.len() && cs[k].id != id
        invariant
            k <= cs@.len(),
            forall|j: int| 0 <= j < k ==> (#[trigger] cs@[j]).id != id,
        decreases cs@.len() - k,
    {
        k = k + 1;
    }
    proof {
        lemma_first_where_at(cs@, |c: Comment| c.id == id, k as int);
    }
    k
}

/// Insert one prepared comment; replaying the same request identity is idempotent.
pub fn add_to(comments: &mut Vec<Comment>, comment: Comment) -> (r: Result<Comment, CommentError>)
    ensures
        match spec_add(old(comments)@, comment) {
            Ok((cs, c)) => final(comments)@ == cs && r == Ok::<Comment, CommentError>(c),
            Err(e) => final(comments)@ == old(comments)@ && r == Err::<Comment, CommentError>(e),
        },
{
    let i = find_comment(comments, comment.id);
    if i < comments.len() {
        let existing = &comments[i];
        let same = existing.file_path == comment.file_path && existing.side == comment.side
            && existing.start_line == comment.start_line && existing.end_line == comment.end_line
            && existing.line_text == comment.line_text && existing.message == comment.message;
        if !same {
            return Err(CommentError::Conflict);
        }
        return Ok(existing.duplicate());
    }
    if comments.len() >= MAX_COMMENTS {
        let mut j: usize = 0;
        while j < comments.len() && comments[j].consumed_at.is_none()
            invariant
                j <= comments@.len(),
                comments@ == old(comments)@,
                forall|k: int| 0 <= k < j ==> (#[trigger] comments@[k]).consumed_at is None,
            decreases comments@.len() - j,
        {
            j = j + 1;
        }
        proof {
            lemma_first_where_at(comments@, |c: Comment| c.consumed_at is Some, j as int);
        }
        if j == comments.len() {
            return Err(CommentError::LimitReached);
        }
        comments.remove(j);
    }
    let reported = comment.duplicate();
    comments.push(comment);
    Ok(reported)
}

/// Delete the comment with identity `id`; refused when there is none.
pub fn delete_from(comments: &mut Vec<Comment>, id: u128) -> (r: Result<(), CommentError>)
    ensures
        id_index(old(comments)@, id) >= old(comments)@.len() ==> r == Err::<(), CommentError>(
            CommentError::NotFound,
        ) && final(comments)@ == old(comments)@,
        id_index(old(comments)@, id) < old(comments)@.len() ==> r is Ok && final(comments)@
            == without(old(comments)@, id),
{
    if find_comment(comments, id) == comments.len() {
        return Err(CommentError::NotFound);
    }
    let ghost all = comments@;
    let mut source: Vec<Comment> = Vec::new();
    std::mem::swap(&mut source, comments);
    let n = source.len();
    let mut k: usize = 0;
    while k < n
        invariant
            n == all.len(),
            k <= n,
            source@ == all.skip(k as int),
            comments@ == all.take(k as int).filter(|c: Comment| c.id != id),
        decreases n - k,
    {
        proof {
            reveal_with_fuel(Seq::<_>::filter, 1);
            assert(all.take(k + 1).drop_last() =~= all.take(k as int));
            assert(all.take(k + 1).last() == all[k as int]);
        }
        let c = source.remove(0);
        assert(source@ =~= all.skip(k + 1));
        if c.id != id {
            comments.push(c);
        }
        k = k + 1;
    }
    assert(all.take(n as int) =~= all);
    Ok(())
}

/// Whether `id` is among `ids`.
fn listed(ids: &[u128], id: u128) -> (r: bool)
    ensures
        r == ids@.contains(id),
{
    let mut k: usize = 0;
    while k < ids.len()
        invariant
            k <= ids@.len(),
            forall|j: int| 0 <= j < k ==> ids@[j] != id,
        decreases ids@.len() - k,
    {
        if ids[k] == id {
            assert(ids@[k as int] == id);
            return true;
        }
        k = k + 1;
    }
    false
}

/// Mark the listed, or all, pending comments delivered at `now` and count them.
pub fn consume_in(comments: &mut Vec<Comment>, ids: &[u128], all: bool, now: &String) -> (count: usize)
    ensures
        final(comments)@ == after_consume(old(comments)@, ids@, all, *now),
        count == consume_count(old(comments)@, ids@, all),
{
    let ghost start = comments@;
    let n = comments.len();
    let mut count: usize = 0;
    let mut k: usize = 0;
    while k < n
        invariant
            n == start.len(),
            k <= n,
            comments@.len() == n,
            forall|j: int| 0 <= j < k ==> #[trigger] comments@[j] == after_consume(start, ids@, all, *now)[j],
            forall|j: int| k <= j < n ==> #[trigger] comments@[j] == start[j],
            count == consume_count(start.take(k as int), ids@, all),
            count <= k,
        decreases n - k,
    {
        proof {
            assert(start.take(k + 1).drop_last() =~= start.take(k as int));
        }
        if comments[k].consumed_at.is_none() && (all || listed(ids, comments[k].id)) {
            let mut c = comments.remove(k);
            c.consumed_at = Some(now.clone());
            c.updated_at = now.clone();
            comments.insert(k, c);
            count = count + 1;
        }
        k = k + 1;
    }
    assert(start.take(n as int) =~= start);
    assert(comments@ =~= after_consume(start, ids@, all, *now));
    count
}

/// The comments not yet delivered to an agent, in store order.
pub fn pending_of(comments: &Vec<Comment>) -> (r: Vec<Comment>)
    ensures
        r@ == comments@.filter(|c: Comment| is_pending(c)),
{
    let mut out: Vec<Comment> = Vec::new();
    let mut k: usize = 0;
    while k < comments.len()
        invariant
            k <= comments@.len(),
            out@ == comments@.take(k as int).filter(|c: Comment| is_pending(c)),
        decreases comments@.len() - k,
    {
        proof {
            reveal_with_fuel(Seq::<_>::filter, 1);
            assert(comments@.take(k + 1).drop_last() =~= comments@.take(k as int));
            assert(comments@.take(k + 1).last() == comments@[k as int]);
        }
        if comments[k].consumed_at.is_none() {
            out.push(comments[k].duplicate());
        }
        k = k + 1;
    }
    assert(comments@.take(k as int) =~= comments@);
    out
}

/// Accept a loaded store only for the same canonical repository and within the comment limit.
pub fn check_store(repo_root: &str, root: &str, count: usize) -> (r: Result<(), CommentError>)
    ensures
        r is Ok <==> (repo_root@ == root@ && count <= MAX_COMMENTS),
        r matches Err(e) ==> e == CommentError::InvalidStore,
{
    if !chars_equal(&chars_of(repo_root), root) || count > MAX_COMMENTS {
        return Err(CommentError::InvalidStore);
    }
    Ok(())
}

/// Accept an encoded store only within its byte limit.
pub fn check_encoded(len: usize) -> (r: Result<(), CommentError>)
    ensures
        r is Ok <==> len <= MAX_STORE_BYTES,
        r matches Err(e) ==> e == CommentError::StoreTooLarge,
{
    if len > MAX_STORE_BYTES {
        return Err(CommentError::StoreTooLarge);
    }
    Ok(())
}

/// The SHA-256 digest of `data`, as `sha2::Sha256::digest` computes it.
pub uninterp spec fn sha256_of(data: Seq<u8>) -> Seq<u8>;

/// Hash `data` with `sha2::Sha256::digest`; the digest of SHA-256 is 32 bytes.
#[verifier::external_body]
fn sha256(data: &[u8]) -> (d: Vec<u8>)
    ensures
        d@ == sha256_of(data@),
        d@.len() == 32,
{
    sha2::Sha256::digest(data).to_vec()
}

/// The name a repository's store files share: the first twelve bytes of the SHA-256 of the
/// canonical root's text, in hexadecimal.
pub fn store_key(root: &str) -> (key: String)
    ensures
        key@ == hex(sha256_of(encode_utf8(root@)).take(12)),
{
    let digest = sha256(root.as_bytes());
    let mut out: Vec<char> = Vec::new();
    let mut k: usize = 0;
    while k < 12
        invariant
            digest@.len() == 32,
            k <= 12,
            out@ == hex(digest@.take(k as int)),
        decreases 12 - k,
    {
        proof {
            assert(digest@.take(k + 1).drop_last() =~= digest@.take(k as int));
        }
        let b = digest[k];
        out.push(hex_char(b / 16));
        out.push(hex_char(b % 16));
        k = k + 1;
        assert(out@ =~= hex(digest@.take(k as int)));
    }
    crate::text::string_of(out.as_slice())
}


/// A position with the identity, where no earlier one has it, is `id_index`.
proof fn lemma_id_index_at(cs: Seq<Comment>, id: u128, i: int)
    requires
        0 <= i <= cs.len(),
        forall|j: int| 0 <= j < i ==> (#[trigger] cs[j]).id != id,
        i < cs.len() ==> cs[i].id == id,
    ensures
        id_index(cs, id) == i,
{
    assert forall|j: int| 0 <= j < i implies !(|c: Comment| c.id == id)(#[trigger] cs[j]) by {}
    lemma_first_where_at(cs, |c: Comment| c.id == id, i);
}

/// Replaying an accepted add request is idempotent: the store stays as the first request left
/// it and the same comment is reported.
pub proof fn law_add_replay_idempotent(cs: Seq<Comment>, c: Comment)
    requires
        spec_add(cs, c) is Ok,
    ensures
        spec_add(spec_add(cs, c)->Ok_0.0, c) == spec_add(cs, c),
{
    let i = id_index(cs, c.id);
    lemma_first_where(cs, |x: Comment| x.id == c.id);
    if i >= cs.len() {
        let after = spec_add(cs, c)->Ok_0.0;
        if cs.len() >= MAX_COMMENTS {
            let j = consumed_index(cs);
            lemma_first_where(cs, |x: Comment| x.consumed_at is Some);
            assert(0 <= j < cs.len());
            let base = cs.remove(j);
            assert forall|k: int| 0 <= k < base.len() implies (#[trigger] base[k]).id != c.id by {
                assert(!(|x: Comment| x.id == c.id)(cs[k]));
                assert(!(|x: Comment| x.id == c.id)(cs[k + 1]));
                if k < j {
                    assert(base[k] == cs[k]);
                } else {
                    assert(base[k] == cs[k + 1]);
                }
            }
            assert(after == base.push(c));
            lemma_id_index_at(after, c.id, base.len() as int);
        } else {
            assert(after == cs.push(c));
            lemma_id_index_at(after, c.id, cs.len() as int);
        }
    }
}

/// Adding never lets a store that was within the limit exceed it.
pub proof fn law_add_within_limit(cs: Seq<Comment>, c: Comment)
    requires
        cs.len() <= MAX_COMMENTS,
        spec_add(cs, c) is Ok,
    ensures
        spec_add(cs, c)->Ok_0.0.len() <= MAX_COMMENTS,
{
    lemma_first_where(cs, |x: Comment| x.consumed_at is Some);
}

/// Delivery is idempotent: consuming again with the same request changes nothing and counts
/// nothing, and a delivered comment is no longer pending.
pub proof fn law_consume_idempotent(cs: Seq<Comment>, ids: Seq<u128>, all: bool, now: String)
    ensures
        after_consume(after_consume(cs, ids, all, now), ids, all, now) == after_consume(
            cs,
            ids,
            all,
            now,
        ),
        consume_count(after_consume(cs, ids, all, now), ids, all) == 0,
        forall|k: int|
            0 <= k < cs.len() && consumes(cs[k], ids, all) ==> !is_pending(
                #[trigger] after_consume(cs, ids, all, now)[k],
            ),
    decreases cs.len(),
{
    let a = after_consume(cs, ids, all, now);
    assert(after_consume(a, ids, all, now) =~= a);
    if cs.len() > 0 {
        assert(a.drop_last() =~= after_consume(cs.drop_last(), ids, all, now));
        law_consume_idempotent(cs.drop_last(), ids, all, now);
    }
}

/// After a delete, no comment with the identity remains.
pub proof fn law_delete_removes_identity(cs: Seq<Comment>, id: u128)
    ensures
        forall|k: int| 0 <= k < without(cs, id).len() ==> (#[trigger] without(cs, id)[k]).id != id,
{
    let p = |c: Comment| c.id != id;
    assert forall|k: int| 0 <= k < without(cs, id).len() implies (#[trigger] without(cs, id)[k]).id
        != id by {
        cs.lemma_filter_pred(p, k);
    }
}


/// Eviction of old store files, oldest first: while more than `MAX_REPOSITORIES` files remain
/// listed or their listed bytes exceed `MAX_DIRECTORY_BYTES`, the oldest listed file leaves the
/// list, and its bytes leave the total only when it was removed.
pub struct Pruner {
    pub remaining: usize,
    pub bytes: u64,
}

/// Total of some sizes.
pub open spec fn sum_sizes(sizes: Seq<u64>) -> int
    decreases sizes.len(),
{
    if sizes.len() == 0 {
        0
    } else {
        sum_sizes(sizes.drop_last()) + sizes.last()
    }
}

impl Pruner {
    /// Start from the sizes of the listed store files.
    pub fn new(sizes: &[u64]) -> (p: Pruner)
        requires
            sum_sizes(sizes@) <= u64::MAX,
        ensures
            p.remaining == sizes@.len(),
            p.bytes == sum_sizes(sizes@),
    {
        let mut bytes: u64 = 0;
        let mut k: usize = 0;
        while k < sizes.len()
            invariant
                k <= sizes@.len(),
                bytes == sum_sizes(sizes@.take(k as int)),
                sum_sizes(sizes@) <= u64::MAX,
            decreases sizes@.len() - k,
        {
            proof {
                assert(sizes@.take(k + 1).drop_last() =~= sizes@.take(k as int));
                lemma_sum_prefix(sizes@, k + 1);
            }
            bytes = bytes + sizes[k];
            k = k + 1;
        }
        assert(sizes@.take(k as int) =~= sizes@);
        Pruner { remaining: sizes.len(), bytes }
    }

    /// Whether the directory is still over a limit, so the oldest listed file goes next.
    pub fn over(&self) -> (r: bool)
        ensures
            r == (self.remaining > MAX_REPOSITORIES || self.bytes > MAX_DIRECTORY_BYTES),
    {
        self.remaining > MAX_REPOSITORIES || self.bytes > MAX_DIRECTORY_BYTES
    }

    /// The oldest listed file of `size` bytes left the list; `removed` tells whether it was
    /// deleted (the current repository's file never is).
    pub fn dropped(&mut self, size: u64, removed: bool)
        requires
            old(self).remaining > 0,
        ensures
            final(self).remaining == old(self).remaining - 1,
            final(self).bytes == if removed {
                if old(self).bytes >= size {
                    (old(self).bytes - size) as u64
                } else {
                    0
                }
            } else {
                old(self).bytes
            },
    {
        self.remaining = self.remaining - 1;
        if removed {
            self.bytes = self.bytes.saturating_sub(size);
        }
    }
}

/// A prefix of the sizes sums to no more than all of them.
proof fn lemma_sum_prefix(sizes: Seq<u64>, k: int)
    requires
        0 <= k <= sizes.len(),
    ensures
        sum_sizes(sizes.take(k)) <= sum_sizes(sizes),
    decreases sizes.len() - k,
{
    if k < sizes.len() {
        lemma_sum_prefix(sizes, k + 1);
        assert(sizes.take(k + 1).drop_last() =~= sizes.take(k));
    } else {
        assert(sizes.take(k) =~= sizes);
    }
}


} // verus!
