//! Incremental bounded OSC notification decoding before native desktop truncation/throttling.
use crate::inbox::{content_valid, default_title, field_ok, Content, ContentModel};
use crate::text::{
    chars_equal, chars_of, contains_char, find_char, find_from, has_char, lemma_find_from,
    lemma_find_from_skip, slice_chars,
    split_once, split_once_chars, string_of, utf8_len, utf8_size, utf8_string,
};
use base64::Engine;
use vstd::prelude::*;
use vstd::string::StringExecFns;
use vstd::utf8::{decode_utf8, valid_utf8};

verus! {

/// Longest OSC frame body kept; longer frames are discarded whole.
pub const FRAME_LIMIT: usize = 16384;

/// Most incomplete chunked notifications kept at once.
pub const PARTIAL_LIMIT: usize = 8;

/// How long, in nanoseconds, an incomplete chunked notification waits for its next chunk.
pub const PARTIAL_LIFETIME_NS: u64 = 60000000000;

/// What `base64::engine::general_purpose::STANDARD.decode` yields for a text: the bytes a
/// padded standard-alphabet base64 text encodes, or `None` when the text is not such base64.
pub uninterp spec fn base64_standard_decode(text: Seq<char>) -> Option<Seq<u8>>;

/// Decode padded standard base64 (`base64::engine::general_purpose::STANDARD.decode`).
#[verifier::external_body]
fn base64_decode(text: &str) -> (r: Option<Vec<u8>>)
    ensures
        match r {
            Some(b) => base64_standard_decode(text@) == Some(b@),
            None => base64_standard_decode(text@) is None,
        },
{
    base64::engine::general_purpose::STANDARD.decode(text).ok()
}

/// Where the byte scanner stands between reads.
#[derive(PartialEq, Eq, Structural, Clone, Copy)]
pub enum ScanState {
    Ground,
    Escape,
    Osc,
    OscEscape,
    Ignore,
    IgnoreEscape,
}

/// An incomplete chunked notification.
pub struct Partial {
    pub content: Content,
    pub invalid: bool,
    /// Monotonic time of the last chunk, in nanoseconds.
    pub updated: u64,
}

/// What is kept of an incomplete chunked notification.
pub struct PendingModel {
    pub title: Seq<char>,
    pub body: Seq<char>,
    pub invalid: bool,
    pub updated: u64,
}

/// Incomplete notifications by id, in arrival order.
pub type Pending = Seq<(Seq<char>, PendingModel)>;

/// What is kept of a partial.
pub open spec fn pending_model(p: Partial) -> PendingModel {
    PendingModel {
        title: p.content.title@,
        body: p.content.body@,
        invalid: p.invalid,
        updated: p.updated,
    }
}

/// The model of one kept partial.
pub open spec fn partial_view(e: (String, Partial)) -> (Seq<char>, PendingModel) {
    (e.0@, pending_model(e.1))
}

/// The model of the kept partials.
pub open spec fn pending_view(ps: Seq<(String, Partial)>) -> Pending {
    ps.map_values(|e: (String, Partial)| partial_view(e))
}

/// Whether kept partials are at most `PARTIAL_LIMIT`, with empty subtitles and titles and
/// bodies within their limits.
pub open spec fn partials_wf(ps: Seq<(String, Partial)>) -> bool {
    &&& ps.len() <= PARTIAL_LIMIT
    &&& forall|i: int| 0 <= i < ps.len() ==> (#[trigger] ps[i]).1.content.subtitle@.len() == 0
    &&& forall|i: int| 0 <= i < ps.len() ==> utf8_len((#[trigger] ps[i]).1.content.title@) <= 512
    &&& forall|i: int| 0 <= i < ps.len() ==> utf8_len((#[trigger] ps[i]).1.content.body@) <= 8192
}

/* Frame decoding */

/// Whether all characters are ASCII digits.
pub open spec fn all_digits(s: Seq<char>) -> bool {
    forall|i: int| 0 <= i < s.len() ==> '0' <= #[trigger] s[i] && s[i] <= '9'
}

/// The decimal value of a digit string.
pub open spec fn digits_value(s: Seq<char>) -> int
    decreases s.len(),
{
    if s.len() == 0 {
        0
    } else {
        digits_value(s.drop_last()) * 10 + (s.last() as int - '0' as int)
    }
}

/// Whether `u8::from_str` reads a ConEmu progress code (1 through 12): an optional `+`, then
/// decimal digits.
pub open spec fn progress_code(s: Seq<char>) -> bool {
    let d = if s.len() > 0 && s[0] == '+' {
        s.drop_first()
    } else {
        s
    };
    d.len() > 0 && all_digits(d) && 1 <= digits_value(d) <= 12
}

/// The content an OSC 9 or OSC 777 frame carries, before validation; `None` for other codes,
/// ConEmu operations and non-notify OSC 777 frames.
pub open spec fn plain_content(code: Seq<char>, payload: Seq<char>) -> Option<ContentModel> {
    if code == "9"@ {
        let first = match split_once(payload, ';') {
            Some((f, _)) => f,
            None => payload,
        };
        if (payload.contains(';') && progress_code(first)) || payload == "10"@ || payload == "11"@
            || payload == "12"@ {
            None
        } else {
            Some(("Notification"@, Seq::empty(), payload))
        }
    } else if code == "777"@ {
        match split_once(payload, ';') {
            None => None,
            Some((kind, rest)) => if kind != "notify"@ {
                None
            } else {
                match split_once(rest, ';') {
                    Some((title, body)) => Some((title, Seq::empty(), body)),
                    None => Some((rest, Seq::empty(), Seq::empty())),
                }
            },
        }
    } else {
        None
    }
}

/* Chunked OSC 99 notifications */

/// The `:`-separated pieces of a text, empty ones included.
pub open spec fn pieces(s: Seq<char>) -> Seq<Seq<char>>
    decreases s.len(),
{
    let i = find_from(s, 0, ':');
    if i >= s.len() {
        seq![s]
    } else {
        proof {
            lemma_find_from(s, 0, ':');
        }
        seq![s.take(i)] + pieces(s.skip(i + 1))
    }
}

/// OSC 99 metadata: id, part, whether the message is done, whether the data is base64.
pub type Meta = (Seq<char>, Seq<char>, bool, bool);

/// Apply one `key=value` metadata item; `None` for an item without `=` or a bad flag.
pub open spec fn apply_item(m: Meta, item: Seq<char>) -> Option<Meta> {
    match split_once(item, '=') {
        None => None,
        Some((k, v)) => if k == "i"@ {
            Some((v, m.1, m.2, m.3))
        } else if k == "p"@ {
            Some((m.0, v, m.2, m.3))
        } else if k == "d"@ {
            if v == "0"@ {
                Some((m.0, m.1, false, m.3))
            } else if v == "1"@ {
                Some((m.0, m.1, true, m.3))
            } else {
                None
            }
        } else if k == "e"@ {
            if v == "0"@ {
                Some((m.0, m.1, m.2, false))
            } else if v == "1"@ {
                Some((m.0, m.1, m.2, true))
            } else {
                None
            }
        } else {
            Some(m)
        },
    }
}

/// Apply metadata items in order, skipping empty ones.
pub open spec fn apply_items(items: Seq<Seq<char>>, m: Meta) -> Option<Meta>
    decreases items.len(),
{
    if items.len() == 0 {
        Some(m)
    } else if items[0].len() == 0 {
        apply_items(items.drop_first(), m)
    } else {
        match apply_item(m, items[0]) {
            None => None,
            Some(m2) => apply_items(items.drop_first(), m2),
        }
    }
}

/// The metadata of an OSC 99 frame; by default an unnamed, complete, plain title.
pub open spec fn metadata(s: Seq<char>) -> Option<Meta> {
    apply_items(pieces(s), (Seq::empty(), "title"@, true, false))
}

/// A notification id: at most 128 ASCII letters, digits, `_` or `-`.
pub open spec fn id_ok(id: Seq<char>) -> bool {
    id.len() <= 128 && forall|i: int|
        0 <= i < id.len() ==> {
            let c = #[trigger] id[i];
            ('a' <= c && c <= 'z') || ('A' <= c && c <= 'Z') || ('0' <= c && c <= '9') || c == '_'
                || c == '-'
        }
}

/// Index of the first partial with `id`, or the length.
pub open spec fn id_index(ps: Pending, id: Seq<char>) -> int
    decreases ps.len(),
{
    if ps.len() == 0 {
        0
    } else if id_index(ps.drop_last(), id) < ps.len() - 1 {
        id_index(ps.drop_last(), id)
    } else if ps.last().0 == id {
        ps.len() - 1
    } else {
        ps.len() as int
    }
}

/// The partials without the one named `id`.
pub open spec fn remove_id(ps: Pending, id: Seq<char>) -> Pending {
    let i = id_index(ps, id);
    if i < ps.len() {
        ps.remove(i)
    } else {
        ps
    }
}

/// Whether a partial updated at `updated` is still waiting at `now`.
pub open spec fn fresh(updated: u64, now: u64) -> bool {
    (now as int) - (updated as int) < PARTIAL_LIFETIME_NS as int
}

/// Index of the first least recently updated partial.
pub open spec fn oldest(ps: Pending) -> int
    decreases ps.len(),
{
    if ps.len() <= 1 {
        0
    } else if ps.last().1.updated < ps[oldest(ps.drop_last())].1.updated {
        ps.len() - 1
    } else {
        oldest(ps.drop_last())
    }
}

/// The text of one chunk's data, if it decodes.
pub open spec fn chunk_text(data: Seq<char>, encoded: bool) -> Option<Seq<char>> {
    if encoded {
        match base64_standard_decode(data) {
            Some(bytes) => if valid_utf8(bytes) {
                Some(decode_utf8(bytes))
            } else {
                None
            },
            None => None,
        }
    } else {
        Some(data)
    }
}

/// A partial after one chunk for `part` (`title` or `body`): appended when it fits the part's
/// limit and holds no NUL, otherwise the partial is marked invalid.
pub open spec fn add_chunk(p: PendingModel, body: bool, text: Option<Seq<char>>) -> PendingModel {
    match text {
        Some(t) => {
            let field = if body {
                p.body
            } else {
                p.title
            };
            let limit: nat = if body {
                8192
            } else {
                512
            };
            if utf8_len(field) + utf8_len(t) > limit || t.contains('\0') {
                PendingModel { invalid: true, ..p }
            } else if !p.invalid {
                if body {
                    PendingModel { body: p.body + t, ..p }
                } else {
                    PendingModel { title: p.title + t, ..p }
                }
            } else {
                p
            }
        },
        None => PendingModel { invalid: true, ..p },
    }
}

/// The partials that make room for a chunk of `id`: stale ones go, and when eight remain
/// without `id`, the least recently updated goes too.
pub open spec fn make_room(ps: Pending, id: Seq<char>, now: u64) -> Pending {
    let live = ps.filter(|e: (Seq<char>, PendingModel)| fresh(e.1.updated, now));
    if id_index(live, id) >= live.len() && live.len() >= PARTIAL_LIMIT {
        live.remove(oldest(live))
    } else {
        live
    }
}

/// Store the partial for `id`: in place when present, otherwise last.
pub open spec fn store(ps: Pending, id: Seq<char>, p: PendingModel) -> Pending {
    let i = id_index(ps, id);
    if i < ps.len() {
        ps.update(i, (id, p))
    } else {
        ps.push((id, p))
    }
}

/// The partial currently kept for `id`, touched at `now`; a fresh one when there is none.
pub open spec fn touched(ps: Pending, id: Seq<char>, now: u64) -> PendingModel {
    let i = id_index(ps, id);
    if i < ps.len() {
        PendingModel { updated: now, ..ps[i].1 }
    } else {
        PendingModel { title: Seq::empty(), body: Seq::empty(), invalid: false, updated: now }
    }
}

/// The message a finished partial delivers: none when invalid or empty; an empty title becomes
/// the protocol title.
pub open spec fn finished(p: PendingModel) -> Option<ContentModel> {
    if p.invalid || (p.title.len() == 0 && p.body.len() == 0) {
        None
    } else if p.title.len() == 0 {
        Some(("Notification"@, Seq::empty(), p.body))
    } else {
        Some((p.title, Seq::empty(), p.body))
    }
}

/// One OSC 99 payload applied to the kept partials: the partials after it, and the message it
/// completes, if any.
pub open spec fn spec_chunk(ps: Pending, payload: Seq<char>, now: u64) -> (Pending, Option<ContentModel>) {
    match split_once(payload, ';') {
        None => (ps, None),
        Some((meta, data)) => match metadata(meta) {
            None => (ps, None),
            Some((id, part, done, encoded)) => if !id_ok(id) {
                (ps, None)
            } else if part == "close"@ {
                (remove_id(ps, id), None)
            } else if part != "title"@ && part != "body"@ {
                (ps, None)
            } else {
                let room = make_room(ps, id, now);
                let p = add_chunk(touched(room, id, now), part == "body"@, chunk_text(data, encoded));
                let stored = store(room, id, p);
                if !done {
                    (stored, None)
                } else {
                    (remove_id(stored, id), finished(p))
                }
            },
        },
    }
}

/// One complete OSC frame text applied to the kept partials: the partials after it, and the
/// notification it delivers, if any.
pub open spec fn spec_decode(ps: Pending, frame: Seq<char>, now: u64) -> (Pending, Option<ContentModel>) {
    match split_once(frame, ';') {
        None => (ps, None),
        Some((code, payload)) => if code == "99"@ {
            spec_chunk(ps, payload, now)
        } else {
            match plain_content(code, payload) {
                Some(c) => if content_valid(c) {
                    (ps, Some(c))
                } else {
                    (ps, None)
                },
                None => (ps, None),
            }
        },
    }
}

/// Whether the characters read as a ConEmu progress code.
fn is_progress_code(v: &Vec<char>) -> (r: bool)
    ensures
        r == progress_code(v@),
{
    let mut start: usize = 0;
    if v.len() > 0 && v[0] == '+' {
        start = 1;
    }
    let ghost d = v@.subrange(start as int, v@.len() as int);
    assert(d =~= (if v@.len() > 0 && v@[0] == '+' { v@.drop_first() } else { v@ }));
    if start >= v.len() {
        assert(d.len() == 0);
        return false;
    }
    let mut value: u32 = 0;
    let mut k = start;
    while k < v.len()
        invariant
            start <= k <= v@.len(),
            d == v@.subrange(start as int, v@.len() as int),
            d == (if v@.len() > 0 && v@[0] == '+' { v@.drop_first() } else { v@ }),
            all_digits(v@.subrange(start as int, k as int)),
            digits_value(v@.subrange(start as int, k as int)) >= 0,
            (digits_value(v@.subrange(start as int, k as int)) >= 1000 && value == 1000) || (
            digits_value(v@.subrange(start as int, k as int)) < 1000 && value == digits_value(
                v@.subrange(start as int, k as int),
            )),
        decreases v@.len() - k,
    {
        let c = v[k];
        if !(c >= '0' && c <= '9') {
            assert(d[k - start] == c);
            assert(!all_digits(d));
            return false;
        }
        let ghost sub = v@.subrange(start as int, k + 1);
        assert(sub.drop_last() =~= v@.subrange(start as int, k as int));
        assert(sub.last() == c);
        let digit: u32 = (c as u32) - ('0' as u32);
        if value < 1000 {
            value = value * 10 + digit;
            if value > 1000 {
                value = 1000;
            }
        }
        k = k + 1;
    }
    assert(v@.subrange(start as int, k as int) =~= d);
    1 <= value && value <= 12
}

/// The content of an OSC 9 or OSC 777 frame, before validation.
fn plain(code: &Vec<char>, payload: &Vec<char>) -> (r: Option<Content>)
    ensures
        match r {
            Some(c) => plain_content(code@, payload@) == Some(c.model()),
            None => plain_content(code@, payload@) is None,
        },
{
    if chars_equal(code, "9") {
        let first = match split_once_chars(payload, ';') {
            Some((f, _)) => f,
            None => slice_chars(payload, 0, payload.len()),
        };
        assert(payload@.subrange(0, payload@.len() as int) =~= payload@);
        if (has_char(payload, ';') && is_progress_code(&first)) || chars_equal(payload, "10")
            || chars_equal(payload, "11") || chars_equal(payload, "12") {
            return None;
        }
        return Some(Content { title: default_title(), subtitle: String::new(), body: string_of(payload.as_slice()) });
    }
    if chars_equal(code, "777") {
        match split_once_chars(payload, ';') {
            None => None,
            Some((kind, rest)) => {
                if !chars_equal(&kind, "notify") {
                    return None;
                }
                match split_once_chars(&rest, ';') {
                    Some((title, body)) => Some(
                        Content {
                            title: string_of(title.as_slice()),
                            subtitle: String::new(),
                            body: string_of(body.as_slice()),
                        },
                    ),
                    None => Some(
                        Content { title: string_of(rest.as_slice()), subtitle: String::new(), body: String::new() },
                    ),
                }
            },
        }
    } else {
        None
    }
}

/// Whether the characters form a notification id.
fn is_id(id: &Vec<char>) -> (r: bool)
    ensures
        r == id_ok(id@),
{
    if id.len() > 128 {
        return false;
    }
    let mut i: usize = 0;
    while i < id.len()
        invariant
            i <= id@.len(),
            id@.len() <= 128,
            forall|j: int|
                0 <= j < i ==> {
                    let c = #[trigger] id@[j];
                    ('a' <= c && c <= 'z') || ('A' <= c && c <= 'Z') || ('0' <= c && c <= '9') || c
                        == '_' || c == '-'
                },
        decreases id@.len() - i,
    {
        let c = id[i];
        if !(('a' <= c && c <= 'z') || ('A' <= c && c <= 'Z') || ('0' <= c && c <= '9') || c == '_'
            || c == '-') {
            return false;
        }
        i = i + 1;
    }
    true
}

/// The pieces of a suffix: its first piece, then the pieces after the next `:`.
proof fn lemma_pieces_step(s: Seq<char>, pos: int)
    requires
        0 <= pos <= s.len(),
    ensures
        ({
            let j = find_from(s, pos, ':');
            &&& pos <= j <= s.len()
            &&& j >= s.len() ==> pieces(s.skip(pos)) == seq![s.subrange(pos, s.len() as int)]
            &&& j < s.len() ==> pieces(s.skip(pos)) == seq![s.subrange(pos, j)] + pieces(s.skip(j + 1))
        }),
{
    lemma_find_from(s, pos, ':');
    lemma_find_from_skip(s, pos, 0, ':');
    let j = find_from(s, pos, ':');
    let t = s.skip(pos);
    assert(find_from(t, 0, ':') == j - pos);
    if j < s.len() {
        assert(t.take(j - pos) =~= s.subrange(pos, j));
        assert(t.skip(j - pos + 1) =~= s.skip(j + 1));
    } else {
        assert(t =~= s.subrange(pos, s.len() as int));
    }
}

/// Read OSC 99 metadata items.
fn parse_metadata(meta: &Vec<char>) -> (r: Option<(Vec<char>, Vec<char>, bool, bool)>)
    ensures
        match r {
            Some((id, part, done, encoded)) => metadata(meta@) == Some((id@, part@, done, encoded)),
            None => metadata(meta@) is None,
        },
{
    let mut id: Vec<char> = Vec::new();
    let mut part = chars_of("title");
    let mut done = true;
    let mut encoded = false;
    let mut pos: usize = 0;
    let mut more = true;
    assert(meta@.skip(0) =~= meta@);
    while more
        invariant
            pos <= meta@.len(),
            more ==> metadata(meta@) == apply_items(pieces(meta@.skip(pos as int)), (id@, part@, done, encoded)),
            !more ==> metadata(meta@) == Some((id@, part@, done, encoded)),
        decreases meta@.len() - pos + (if more { 1int } else { 0int }),
    {
        let j = find_char(meta, pos, ':');
        proof {
            lemma_pieces_step(meta@, pos as int);
        }
        let piece = slice_chars(meta, pos, j);
        let ghost items = pieces(meta@.skip(pos as int));
        let ghost m = (id@, part@, done, encoded);
        assert(items[0] == piece@);
        if piece.len() > 0 {
            match split_once_chars(&piece, '=') {
                None => {
                    return None;
                },
                Some((k, v)) => {
                    if chars_equal(&k, "i") {
                        id = v;
                    } else if chars_equal(&k, "p") {
                        part = v;
                    } else if chars_equal(&k, "d") {
                        if chars_equal(&v, "0") {
                            done = false;
                        } else if chars_equal(&v, "1") {
                            done = true;
                        } else {
                            return None;
                        }
                    } else if chars_equal(&k, "e") {
                        if chars_equal(&v, "0") {
                            encoded = false;
                        } else if chars_equal(&v, "1") {
                            encoded = true;
                        } else {
                            return None;
                        }
                    }
                    assert(apply_item(m, piece@) == Some((id@, part@, done, encoded)));
                },
            }
        }
        if j >= meta.len() {
            assert(items.drop_first() =~= Seq::<Seq<char>>::empty());
            assert(apply_items(items.drop_first(), (id@, part@, done, encoded)) == Some((id@, part@, done, encoded)));
            more = false;
        } else {
            assert(items.drop_first() =~= pieces(meta@.skip(j + 1)));
            pos = j + 1;
        }
    }
    Some((id, part, done, encoded))
}

/// `id_index` is the first index holding `id`, or the length.
pub proof fn lemma_id_index(ps: Pending, id: Seq<char>)
    ensures
        0 <= id_index(ps, id) <= ps.len(),
        id_index(ps, id) < ps.len() ==> ps[id_index(ps, id)].0 == id,
        forall|j: int| 0 <= j < id_index(ps, id) ==> (#[trigger] ps[j]).0 != id,
    decreases ps.len(),
{
    if ps.len() > 0 {
        let d = ps.drop_last();
        lemma_id_index(d, id);
        assert forall|j: int| 0 <= j < id_index(ps, id) implies (#[trigger] ps[j]).0 != id by {
            if j < d.len() {
                assert(d[j] == ps[j]);
            }
        }
    }
}

/// `oldest` is the first index of a least recently updated partial.
pub proof fn lemma_oldest(ps: Pending)
    requires
        ps.len() > 0,
    ensures
        0 <= oldest(ps) < ps.len(),
        forall|j: int| 0 <= j < ps.len() ==> ps[oldest(ps)].1.updated <= (#[trigger] ps[j]).1.updated,
    decreases ps.len(),
{
    if ps.len() > 1 {
        let d = ps.drop_last();
        lemma_oldest(d);
        assert(d[oldest(d)] == ps[oldest(d)]);
        assert forall|j: int| 0 <= j < ps.len() implies ps[oldest(ps)].1.updated <= (
        #[trigger] ps[j]).1.updated by {
            if j < d.len() {
                assert(d[j] == ps[j]);
            }
        }
    }
}

/// After storing a partial for `id`, the partial found for `id` is the stored one.
pub proof fn lemma_store_lookup(ps: Pending, id: Seq<char>, p: PendingModel)
    ensures
        id_index(store(ps, id, p), id) < store(ps, id, p).len(),
        store(ps, id, p)[id_index(store(ps, id, p), id)] == (id, p),
{
    lemma_id_index(ps, id);
    let st = store(ps, id, p);
    lemma_id_index(st, id);
    let i = id_index(ps, id);
    if i < ps.len() {
        assert(st[i].0 == id);
        assert forall|j: int| 0 <= j < i implies st[j].0 != id by {
            assert(st[j] == ps[j]);
        }
    } else {
        assert(st[ps.len() as int].0 == id);
        assert forall|j: int| 0 <= j < ps.len() implies st[j].0 != id by {
            assert(st[j] == ps[j]);
        }
    }
}

/// Position of the partial named `id`, or the count when there is none.
fn find_id(ps: &Vec<(String, Partial)>, id: &String) -> (i: usize)
    ensures
        i == id_index(pending_view(ps@), id@),
{
    let ghost v = pending_view(ps@);
    let mut i: usize = 0;
    while i < ps.len() && !(ps[i].0 == *id)
        invariant
            v == pending_view(ps@),
            i <= ps@.len(),
            forall|j: int| 0 <= j < i ==> (#[trigger] v[j]).0 != id@,
        decreases ps@.len() - i,
    {
        assert(v[i as int].0 == ps@[i as int].0@);
        i = i + 1;
    }
    proof {
        lemma_id_index(v, id@);
        if i < ps@.len() {
            assert(v[i as int].0 == id@);
        }
    }
    i
}

/// Forget the partial named `id`.
fn remove_partial(ps: &mut Vec<(String, Partial)>, id: &String)
    requires
        partials_wf(old(ps)@),
    ensures
        partials_wf(final(ps)@),
        pending_view(final(ps)@) == remove_id(pending_view(old(ps)@), id@),
{
    let i = find_id(ps, id);
    if i < ps.len() {
        let ghost before = ps@;
        let _ = ps.remove(i);
        assert(pending_view(ps@) =~= pending_view(before).remove(i as int));
    }
}

/// Forget partials that waited too long for their next chunk.
fn drop_stale(ps: &mut Vec<(String, Partial)>, now: u64)
    requires
        partials_wf(old(ps)@),
    ensures
        partials_wf(final(ps)@),
        pending_view(final(ps)@) == pending_view(old(ps)@).filter(
            |e: (Seq<char>, PendingModel)| fresh(e.1.updated, now),
        ),
{
    let ghost all = pending_view(ps@);
    let mut pending: Vec<(String, Partial)> = Vec::new();
    std::mem::swap(&mut pending, ps);
    let ghost source = pending@;
    let mut k: usize = 0;
    while pending.len() > 0
        invariant
            k + pending@.len() == source.len(),
            pending@ == source.skip(k as int),
            partials_wf(source),
            all == pending_view(source),
            ps@.len() <= k,
            partials_wf(ps@),
            pending_view(ps@) == all.take(k as int).filter(
                |e: (Seq<char>, PendingModel)| fresh(e.1.updated, now),
            ),
        decreases pending@.len(),
    {
        proof {
            reveal_with_fuel(Seq::<_>::filter, 1);
            assert(all.take(k + 1).drop_last() =~= all.take(k as int));
            assert(all.take(k + 1).last() == partial_view(source[k as int]));
        }
        let ghost rest = pending@;
        let e = pending.remove(0);
        assert(e == source[k as int]);
        assert(pending@ =~= source.skip(k + 1));
        if now < e.1.updated || now - e.1.updated < PARTIAL_LIFETIME_NS {
            let ghost before = ps@;
            ps.push(e);
            assert(pending_view(ps@) =~= pending_view(before).push(partial_view(e)));
        }
        k = k + 1;
    }
    assert(all.take(k as int) =~= all);
}

/// Position of the first least recently updated partial.
fn oldest_index(ps: &Vec<(String, Partial)>) -> (i: usize)
    requires
        ps@.len() > 0,
    ensures
        i == oldest(pending_view(ps@)),
{
    let ghost v = pending_view(ps@);
    let mut best: usize = 0;
    let mut k: usize = 1;
    assert(v.take(1).len() == 1);
    while k < ps.len()
        invariant
            v == pending_view(ps@),
            1 <= k <= ps@.len(),
            best == oldest(v.take(k as int)),
            best < k,
        decreases ps@.len() - k,
    {
        assert(v.take(k + 1).drop_last() =~= v.take(k as int));
        assert(v.take(k as int)[best as int] == v[best as int]);
        if ps[k].1.updated < ps[best].1.updated {
            best = k;
        }
        k = k + 1;
    }
    assert(v.take(k as int) =~= v);
    best
}

/// Incomplete chunked notifications by id, with the chunk applied: the partial the chunk leaves.
fn apply_chunk(p: &mut Partial, body: bool, text: Option<Vec<char>>)
    requires
        old(p).content.subtitle@.len() == 0,
        utf8_len(old(p).content.title@) <= 512,
        utf8_len(old(p).content.body@) <= 8192,
    ensures
        final(p).content.subtitle@.len() == 0,
        utf8_len(final(p).content.title@) <= 512,
        utf8_len(final(p).content.body@) <= 8192,
        pending_model(*final(p)) == add_chunk(
            pending_model(*old(p)),
            body,
            match text {
                Some(t) => Some(t@),
                None => None,
            },
        ),
{
    match text {
        Some(t) => {
            let t_s = string_of(t.as_slice());
            let t_len = utf8_size(t_s.as_str());
            let field_len = if body {
                utf8_size(p.content.body.as_str())
            } else {
                utf8_size(p.content.title.as_str())
            };
            let limit: usize = if body {
                8192
            } else {
                512
            };
            if t_len > limit - field_len || has_char(&t, '\0') {
                p.invalid = true;
            } else if !p.invalid {
                proof {
                    crate::text::lemma_utf8_len_concat(p.content.body@, t@);
                    crate::text::lemma_utf8_len_concat(p.content.title@, t@);
                }
                if body {
                    p.content.body.append(t_s.as_str());
                } else {
                    p.content.title.append(t_s.as_str());
                }
            }
        },
        None => {
            p.invalid = true;
        },
    }
}

/// The text of one chunk's data, if it decodes.
fn decode_chunk(data: &Vec<char>, encoded: bool) -> (r: Option<Vec<char>>)
    ensures
        match r {
            Some(t) => chunk_text(data@, encoded) == Some(t@),
            None => chunk_text(data@, encoded) is None,
        },
{
    if !encoded {
        return Some(slice_chars(data, 0, data.len()));
    }
    let text = string_of(data.as_slice());
    match base64_decode(text.as_str()) {
        Some(bytes) => match utf8_string(bytes) {
            Some(t) => Some(chars_of(t.as_str())),
            None => None,
        },
        None => None,
    }
}

/// Drop stale partials and, when eight remain without `id`, the least recently updated one.
fn make_room_for(ps: &mut Vec<(String, Partial)>, id: &String, now: u64)
    requires
        partials_wf(old(ps)@),
    ensures
        partials_wf(final(ps)@),
        final(ps)@.len() < PARTIAL_LIMIT || id_index(pending_view(final(ps)@), id@) < final(ps)@.len(),
        pending_view(final(ps)@) == make_room(pending_view(old(ps)@), id@, now),
{
    drop_stale(ps, now);
    let ghost live = pending_view(ps@);
    let i = find_id(ps, id);
    proof {
        lemma_id_index(live, id@);
    }
    if i >= ps.len() && ps.len() >= PARTIAL_LIMIT {
        let o = oldest_index(ps);
        proof {
            lemma_oldest(live);
        }
        let _ = ps.remove(o);
        assert(pending_view(ps@) =~= live.remove(o as int));
    }
}

/// The partial kept for `id`, touched at `now`, or a fresh one.
fn touch(ps: &Vec<(String, Partial)>, id: &String, now: u64) -> (p: Partial)
    requires
        partials_wf(ps@),
    ensures
        pending_model(p) == touched(pending_view(ps@), id@, now),
        p.content.subtitle@.len() == 0,
        utf8_len(p.content.title@) <= 512,
        utf8_len(p.content.body@) <= 8192,
{
    let i = find_id(ps, id);
    proof {
        lemma_id_index(pending_view(ps@), id@);
    }
    if i < ps.len() {
        let e = &ps[i];
        assert(pending_view(ps@)[i as int] == partial_view(ps@[i as int]));
        Partial { content: e.1.content.duplicate(), invalid: e.1.invalid, updated: now }
    } else {
        let c = Content::default();
        assert(c.title@ =~= Seq::<char>::empty());
        assert(c.body@ =~= Seq::<char>::empty());
        assert(c.subtitle@ =~= Seq::<char>::empty());
        Partial { content: c, invalid: false, updated: now }
    }
}

/// Keep `p` as the partial for `id`: in place when present, otherwise last.
fn store_partial(ps: &mut Vec<(String, Partial)>, id: String, p: Partial)
    requires
        partials_wf(old(ps)@),
        old(ps)@.len() < PARTIAL_LIMIT || id_index(pending_view(old(ps)@), id@) < old(ps)@.len(),
        p.content.subtitle@.len() == 0,
        utf8_len(p.content.title@) <= 512,
        utf8_len(p.content.body@) <= 8192,
    ensures
        partials_wf(final(ps)@),
        pending_view(final(ps)@) == store(pending_view(old(ps)@), id@, pending_model(p)),
        id_index(pending_view(final(ps)@), id@) < final(ps)@.len(),
{
    let ghost room = pending_view(ps@);
    let ghost pm = pending_model(p);
    let ghost key = id@;
    let i = find_id(ps, &id);
    proof {
        lemma_id_index(room, key);
    }
    if i < ps.len() {
        ps.set(i, (id, p));
        assert(pending_view(ps@) =~= room.update(i as int, (key, pm)));
        proof {
            lemma_id_index(pending_view(ps@), key);
            assert(pending_view(ps@)[i as int].0 == key);
        }
    } else {
        ps.push((id, p));
        assert(pending_view(ps@) =~= room.push((key, pm)));
        proof {
            lemma_id_index(pending_view(ps@), key);
            assert(pending_view(ps@)[room.len() as int].0 == key);
        }
    }
}

/// Remove and return the partial kept for `id`, which must be present.
fn take_partial(ps: &mut Vec<(String, Partial)>, id: &String) -> (e: (String, Partial))
    requires
        partials_wf(old(ps)@),
        id_index(pending_view(old(ps)@), id@) < old(ps)@.len(),
    ensures
        partials_wf(final(ps)@),
        pending_view(final(ps)@) == remove_id(pending_view(old(ps)@), id@),
        pending_model(e.1) == pending_view(old(ps)@)[id_index(pending_view(old(ps)@), id@)].1,
        e.1.content.subtitle@.len() == 0,
        utf8_len(e.1.content.title@) <= 512,
        utf8_len(e.1.content.body@) <= 8192,
{
    let ghost v = pending_view(ps@);
    let k = find_id(ps, id);
    let ghost before = ps@;
    let e = ps.remove(k);
    assert(pending_view(ps@) =~= v.remove(k as int));
    assert(v[k as int] == partial_view(before[k as int]));
    e
}

/// Every kept partial marked invalid.
pub open spec fn invalidate_all(ps: Pending) -> Pending {
    ps.map_values(|e: (Seq<char>, PendingModel)| (e.0, PendingModel { invalid: true, ..e.1 }))
}

/// A parser at rest after a frame ends.
pub open spec fn at_ground(m: ParserModel, pending: Pending) -> ParserModel {
    ParserModel { state: ScanState::Ground, frame: Seq::empty(), overflow: m.overflow, pending }
}

/// Decode one complete frame: an oversized or non-UTF-8 frame delivers nothing and spoils
/// every incomplete chunked notification; any other frame is decoded.
pub open spec fn spec_finish(m: ParserModel, now: u64) -> (ParserModel, Option<ContentModel>) {
    if m.overflow || !valid_utf8(m.frame) {
        (at_ground(m, invalidate_all(m.pending)), None)
    } else {
        let (ps, out) = spec_decode(m.pending, decode_utf8(m.frame), now);
        (at_ground(m, ps), out)
    }
}

/// The parser in state `state`, otherwise unchanged.
pub open spec fn with_state(m: ParserModel, state: ScanState) -> ParserModel {
    ParserModel { state, ..m }
}

/// The parser starting a new OSC frame.
pub open spec fn start_osc(m: ParserModel) -> ParserModel {
    ParserModel { state: ScanState::Osc, frame: Seq::empty(), overflow: false, ..m }
}

/// One output byte applied to the parser: the parser after it, and the notification it
/// completes, if any. CAN and SUB abort any sequence; OSC frames end at BEL or ST, keep at most
/// `FRAME_LIMIT` bytes and are marked overflowing beyond; DCS, APC, PM and SOS strings are skipped.
pub open spec fn step(m: ParserModel, byte: u8, now: u64) -> (ParserModel, Option<ContentModel>) {
    if byte == 0x18u8 || byte == 0x1au8 {
        (ParserModel { state: ScanState::Ground, frame: Seq::empty(), ..m }, None)
    } else {
        match m.state {
            ScanState::Ground => (
                with_state(m, if byte == 0x1bu8 { ScanState::Escape } else { ScanState::Ground }),
                None,
            ),
            ScanState::Escape => (
                if byte == 0x5du8 {
                    start_osc(m)
                } else if byte == 0x50u8 || byte == 0x5fu8 || byte == 0x5eu8 || byte == 0x58u8 {
                    with_state(m, ScanState::Ignore)
                } else if byte == 0x1bu8 {
                    with_state(m, ScanState::Escape)
                } else {
                    with_state(m, ScanState::Ground)
                },
                None,
            ),
            ScanState::Ignore => (
                with_state(m, if byte == 0x1bu8 { ScanState::IgnoreEscape } else { ScanState::Ignore }),
                None,
            ),
            ScanState::IgnoreEscape => (
                with_state(
                    m,
                    if byte == 0x5cu8 {
                        ScanState::Ground
                    } else if byte == 0x1bu8 {
                        ScanState::IgnoreEscape
                    } else {
                        ScanState::Ignore
                    },
                ),
                None,
            ),
            ScanState::Osc => if byte == 0x07u8 {
                spec_finish(m, now)
            } else if byte == 0x1bu8 {
                (with_state(m, ScanState::OscEscape), None)
            } else if m.frame.len() < FRAME_LIMIT {
                (ParserModel { frame: m.frame.push(byte), ..m }, None)
            } else {
                (ParserModel { overflow: true, ..m }, None)
            },
            ScanState::OscEscape => if byte == 0x5cu8 {
                spec_finish(m, now)
            } else if byte == 0x5du8 {
                (start_osc(m), None)
            } else {
                (ParserModel { state: ScanState::Ground, frame: Seq::empty(), ..m }, None)
            },
        }
    }
}

/// Bytes applied in order: the parser after them, and the notifications they complete, in order.
pub open spec fn spec_feed(m: ParserModel, bytes: Seq<u8>, now: u64) -> (ParserModel, Seq<ContentModel>)
    decreases bytes.len(),
{
    if bytes.len() == 0 {
        (m, Seq::empty())
    } else {
        let (m1, out) = spec_feed(m, bytes.drop_last(), now);
        let (m2, e) = step(m1, bytes.last(), now);
        (
            m2,
            match e {
                Some(c) => out.push(c),
                None => out,
            },
        )
    }
}

/// Ordinary output without ESC leaves a parser at rest unchanged and delivers nothing.
pub proof fn lemma_plain_output(m: ParserModel, bytes: Seq<u8>, now: u64)
    requires
        m.state == ScanState::Ground,
        m.frame.len() == 0,
        !bytes.contains(0x1bu8),
    ensures
        spec_feed(m, bytes, now) == (m, Seq::<ContentModel>::empty()),
    decreases bytes.len(),
{
    if bytes.len() > 0 {
        assert(!bytes.drop_last().contains(0x1bu8)) by {
            if bytes.drop_last().contains(0x1bu8) {
                let i = choose|i: int| 0 <= i < bytes.drop_last().len() && bytes.drop_last()[i] == 0x1bu8;
                assert(bytes[i] == 0x1bu8);
            }
        }
        lemma_plain_output(m, bytes.drop_last(), now);
        assert(bytes[bytes.len() - 1] != 0x1bu8);
        assert(m.frame =~= Seq::<u8>::empty());
    }
}

/// Whether `bytes` holds `b`.
fn has_byte(bytes: &[u8], b: u8) -> (r: bool)
    ensures
        r == bytes@.contains(b),
{
    let mut i: usize = 0;
    while i < bytes.len()
        invariant
            i <= bytes@.len(),
            forall|j: int| 0 <= j < i ==> bytes@[j] != b,
        decreases bytes@.len() - i,
    {
        if bytes[i] == b {
            assert(bytes@[i as int] == b);
            return true;
        }
        i = i + 1;
    }
    false
}

/// The capacity a vector reserved (`Vec::capacity`): never less than its length, and otherwise
/// dependent on the allocator's history, which is left unsaid.
#[verifier::external_body]
fn vec_capacity(v: &Vec<u8>) -> (n: usize)
    ensures
        n >= v@.len(),
{
    v.capacity()
}

/// Stream framing retains one bounded OSC and at most eight bounded incomplete OSC 99 messages.
pub struct Parser {
    state: ScanState,
    frame: Vec<u8>,
    overflow: bool,
    partials: Vec<(String, Partial)>,
}

/// What a parser holds between reads.
pub struct ParserModel {
    pub state: ScanState,
    pub frame: Seq<u8>,
    pub overflow: bool,
    pub pending: Pending,
}

impl Parser {
    /// The parser's state, frame in progress, overflow flag and incomplete notifications.
    pub closed spec fn model(&self) -> ParserModel {
        ParserModel {
            state: self.state,
            frame: self.frame@,
            overflow: self.overflow,
            pending: pending_view(self.partials@),
        }
    }

    /// The frame fits its limit, only OSC states hold frame bytes, and the kept partials are
    /// within their limits.
    pub closed spec fn wf(&self) -> bool {
        &&& self.frame@.len() <= FRAME_LIMIT
        &&& (self.state != ScanState::Osc && self.state != ScanState::OscEscape) ==> self.frame@.len() == 0
        &&& partials_wf(self.partials@)
    }

    /// A parser at rest with nothing pending.
    pub fn new() -> (p: Parser)
        ensures
            p.wf(),
            p.model() == (ParserModel {
                state: ScanState::Ground,
                frame: Seq::empty(),
                overflow: false,
                pending: Seq::empty(),
            }),
    {
        let p = Parser { state: ScanState::Ground, frame: Vec::new(), overflow: false, partials: Vec::new() };
        assert(p.model().pending =~= Seq::<(Seq<char>, PendingModel)>::empty());
        p
    }

    /// Number of incomplete chunked notifications kept.
    pub fn pending_count(&self) -> (n: usize)
        ensures
            n == self.model().pending.len(),
    {
        self.partials.len()
    }

    /// Bytes reserved for the frame in progress, at least the bytes it holds.
    pub fn frame_capacity(&self) -> (n: usize)
        ensures
            n >= self.model().frame.len(),
    {
        vec_capacity(&self.frame)
    }

    /// Mark every incomplete chunked notification invalid.
    fn invalidate_partials(&mut self)
        requires
            partials_wf(old(self).partials@),
        ensures
            partials_wf(final(self).partials@),
            pending_view(final(self).partials@) == invalidate_all(pending_view(old(self).partials@)),
            final(self).state == old(self).state,
            final(self).frame@ == old(self).frame@,
            final(self).overflow == old(self).overflow,
    {
        let ghost all = pending_view(self.partials@);
        let ghost st = self.state;
        let ghost fr = self.frame@;
        let ghost ov = self.overflow;
        let mut source: Vec<(String, Partial)> = Vec::new();
        std::mem::swap(&mut source, &mut self.partials);
        let ghost src = source@;
        let mut k: usize = 0;
        while source.len() > 0
            invariant
                self.state == st,
                self.frame@ == fr,
                self.overflow == ov,
                k + source@.len() == src.len(),
                source@ == src.skip(k as int),
                partials_wf(src),
                all == pending_view(src),
                self.partials@.len() == k,
                partials_wf(self.partials@),
                pending_view(self.partials@) == invalidate_all(all.take(k as int)),
            decreases source@.len(),
        {
            let mut e = source.remove(0);
            assert(e == src[k as int]);
            assert(source@ =~= src.skip(k + 1));
            e.1.invalid = true;
            let ghost before = self.partials@;
            self.partials.push(e);
            assert(all.take(k + 1) =~= all.take(k as int).push(all[k as int]));
            assert(all[k as int] == partial_view(src[k as int]));
            assert(partial_view(e) == (all[k as int].0, PendingModel { invalid: true, ..all[k as int].1 }));
            assert(invalidate_all(all.take(k + 1)) =~= invalidate_all(all.take(k as int)).push(partial_view(e)));
            assert(pending_view(self.partials@) =~= pending_view(before).push(partial_view(e)));
            k = k + 1;
        }
        assert(all.take(k as int) =~= all);
    }

    /// Decode supported notification families; ConEmu operations remain the native parser's concern.
    fn decode(&mut self, frame: &Vec<char>, now: u64) -> (r: Option<Content>)
        requires
            partials_wf(old(self).partials@),
        ensures
            partials_wf(final(self).partials@),
            final(self).state == old(self).state,
            final(self).frame@ == old(self).frame@,
            final(self).overflow == old(self).overflow,
            spec_decode(pending_view(old(self).partials@), frame@, now) == (
                pending_view(final(self).partials@),
                match r {
                    Some(c) => Some(c.model()),
                    None => None::<ContentModel>,
                },
            ),
    {
        match split_once_chars(frame, ';') {
            None => None,
            Some((code, payload)) => {
                if chars_equal(&code, "99") {
                    return self.chunk(&payload, now);
                }
                match plain(&code, &payload) {
                    Some(c) => {
                        if c.validate().is_ok() {
                            Some(c)
                        } else {
                            None
                        }
                    },
                    None => None,
                }
            },
        }
    }

    /// Decode one complete frame, returning its reusable allocation without retaining terminal text.
    fn finish(&mut self, now: u64) -> (r: Option<Content>)
        requires
            old(self).wf(),
        ensures
            final(self).wf(),
            spec_finish(old(self).model(), now) == (
                final(self).model(),
                match r {
                    Some(c) => Some(c.model()),
                    None => None::<ContentModel>,
                },
            ),
    {
        self.state = ScanState::Ground;
        let mut frame: Vec<u8> = Vec::new();
        std::mem::swap(&mut frame, &mut self.frame);
        if self.overflow {
            self.invalidate_partials();
            return None;
        }
        match utf8_string(frame) {
            None => {
                self.invalidate_partials();
                None
            },
            Some(text) => {
                let chars = chars_of(text.as_str());
                self.decode(&chars, now)
            },
        }
    }

    /// Apply one output byte.
    fn step(&mut self, byte: u8, now: u64) -> (r: Option<Content>)
        requires
            old(self).wf(),
        ensures
            final(self).wf(),
            step(old(self).model(), byte, now) == (
                final(self).model(),
                match r {
                    Some(c) => Some(c.model()),
                    None => None::<ContentModel>,
                },
            ),
    {
        if byte == 0x18u8 || byte == 0x1au8 {
            self.state = ScanState::Ground;
            self.frame.clear();
            return None;
        }
        match self.state {
            ScanState::Ground => {
                if byte == 0x1bu8 {
                    self.state = ScanState::Escape;
                }
                None
            },
            ScanState::Escape => {
                if byte == 0x5du8 {
                    self.frame.clear();
                    self.overflow = false;
                    self.state = ScanState::Osc;
                } else if byte == 0x50u8 || byte == 0x5fu8 || byte == 0x5eu8 || byte == 0x58u8 {
                    self.state = ScanState::Ignore;
                } else if byte == 0x1bu8 {
                    self.state = ScanState::Escape;
                } else {
                    self.state = ScanState::Ground;
                }
                None
            },
            ScanState::Ignore => {
                if byte == 0x1bu8 {
                    self.state = ScanState::IgnoreEscape;
                }
                None
            },
            ScanState::IgnoreEscape => {
                if byte == 0x5cu8 {
                    self.state = ScanState::Ground;
                } else if byte == 0x1bu8 {
                    self.state = ScanState::IgnoreEscape;
                } else {
                    self.state = ScanState::Ignore;
                }
                None
            },
            ScanState::Osc => {
                if byte == 0x07u8 {
                    self.finish(now)
                } else if byte == 0x1bu8 {
                    self.state = ScanState::OscEscape;
                    None
                } else {
                    if self.frame.len() < FRAME_LIMIT {
                        self.frame.push(byte);
                    } else {
                        self.overflow = true;
                    }
                    None
                }
            },
            ScanState::OscEscape => {
                if byte == 0x5cu8 {
                    self.finish(now)
                } else {
                    self.frame.clear();
                    if byte == 0x5du8 {
                        self.overflow = false;
                        self.state = ScanState::Osc;
                    } else {
                        self.state = ScanState::Ground;
                    }
                    None
                }
            },
        }
    }

    /// Consume arbitrary read boundaries, ignoring unrelated control strings and oversize frames.
    /// Returns the notifications the bytes complete, in order; `now` is the monotonic time of the
    /// read, in nanoseconds.
    pub fn feed(&mut self, bytes: &[u8], now: u64) -> (out: Vec<Content>)
        requires
            old(self).wf(),
        ensures
            final(self).wf(),
            final(self).model().frame.len() <= FRAME_LIMIT,
            final(self).model().pending.len() <= PARTIAL_LIMIT,
            spec_feed(old(self).model(), bytes@, now) == (
                final(self).model(),
                out@.map_values(|c: Content| c.model()),
            ),
            pending_ok(old(self).model().pending) ==> pending_ok(final(self).model().pending) && forall|i: int|
                0 <= i < out@.len() ==> content_valid(#[trigger] out@[i].model()),
    {
        let ghost entry = self.model();
        let mut out: Vec<Content> = Vec::new();
        if self.state == ScanState::Ground && !has_byte(bytes, 0x1bu8) {
            proof {
                assert(self.partials@.len() == self.model().pending.len());
                lemma_plain_output(self.model(), bytes@, now);
                assert(out@.map_values(|c: Content| c.model()) =~= Seq::<ContentModel>::empty());
            }
            return out;
        }
        let ghost start = self.model();
        let mut k: usize = 0;
        while k < bytes.len()
            invariant
                k <= bytes@.len(),
                self.wf(),
                spec_feed(start, bytes@.take(k as int), now) == (
                    self.model(),
                    out@.map_values(|c: Content| c.model()),
                ),
            decreases bytes@.len() - k,
        {
            assert(bytes@.take(k + 1).drop_last() =~= bytes@.take(k as int));
            assert(bytes@.take(k + 1).last() == bytes@[k as int]);
            let ghost before = out@;
            match self.step(bytes[k], now) {
                Some(c) => {
                    out.push(c);
                    assert(out@.map_values(|c: Content| c.model()) =~= before.map_values(
                        |c: Content| c.model(),
                    ).push(c.model()));
                },
                None => {},
            }
            k = k + 1;
        }
        assert(bytes@.take(k as int) =~= bytes@);
        proof {
            assert(self.partials@.len() == self.model().pending.len());
            if pending_ok(entry.pending) {
                law_feed_delivers_valid(entry, bytes@, now);
                assert forall|i: int| 0 <= i < out@.len() implies content_valid(#[trigger] out@[i].model()) by {
                    assert(out@.map_values(|c: Content| c.model())[i] == out@[i].model());
                    assert(spec_feed(entry, bytes@, now).1[i] == out@[i].model());
                }
            }
        }
        out
    }

    /// Assemble title/body chunks per native ID, with bounded lifetime, count and completed content.
    fn chunk(&mut self, payload: &Vec<char>, now: u64) -> (r: Option<Content>)
        requires
            partials_wf(old(self).partials@),
        ensures
            partials_wf(final(self).partials@),
            final(self).state == old(self).state,
            final(self).frame@ == old(self).frame@,
            final(self).overflow == old(self).overflow,
            spec_chunk(pending_view(old(self).partials@), payload@, now) == (
                pending_view(final(self).partials@),
                match r {
                    Some(c) => Some(c.model()),
                    None => None::<ContentModel>,
                },
            ),
    {
        let (meta, data) = match split_once_chars(payload, ';') {
            None => {
                return None;
            },
            Some(x) => x,
        };
        let (id, part, done, encoded) = match parse_metadata(&meta) {
            None => {
                return None;
            },
            Some(x) => x,
        };
        if !is_id(&id) {
            return None;
        }
        let id_s = string_of(id.as_slice());
        if chars_equal(&part, "close") {
            remove_partial(&mut self.partials, &id_s);
            return None;
        }
        let body = chars_equal(&part, "body");
        if !body && !chars_equal(&part, "title") {
            return None;
        }
        make_room_for(&mut self.partials, &id_s, now);
        let ghost room = pending_view(self.partials@);
        let mut p = touch(&self.partials, &id_s, now);
        let text = decode_chunk(&data, encoded);
        apply_chunk(&mut p, body, text);
        let ghost pm = pending_model(p);
        let entry_id = string_of(id.as_slice());
        store_partial(&mut self.partials, entry_id, p);
        if !done {
            return None;
        }
        proof {
            lemma_store_lookup(room, id@, pm);
        }
        let e = take_partial(&mut self.partials, &id_s);
        assert(pending_model(e.1) == pm);
        let p = e.1;
        if p.invalid || (p.content.title.as_str().len() == 0 && p.content.body.as_str().len() == 0) {
            return None;
        }
        if p.content.title.as_str().len() == 0 {
            return Some(Content { title: crate::inbox::default_title(), subtitle: String::new(), body: p.content.body });
        }
        Some(p.content)
    }
}

/// Read boundaries do not matter: feeding two reads one after the other leaves the parser as
/// feeding their concatenation does, and delivers the same notifications in the same order.
pub proof fn law_read_boundaries(m: ParserModel, a: Seq<u8>, b: Seq<u8>, now: u64)
    ensures
        spec_feed(m, a + b, now) == ({
            let (m1, o1) = spec_feed(m, a, now);
            let (m2, o2) = spec_feed(m1, b, now);
            (m2, o1 + o2)
        }),
    decreases b.len(),
{
    if b.len() == 0 {
        assert(a + b =~= a);
        let (m1, o1) = spec_feed(m, a, now);
        assert(o1 + Seq::<ContentModel>::empty() =~= o1);
    } else {
        assert((a + b).drop_last() =~= a + b.drop_last());
        assert((a + b).last() == b.last());
        law_read_boundaries(m, a, b.drop_last(), now);
        let (m1, o1) = spec_feed(m, a, now);
        let (m2, o2) = spec_feed(m1, b.drop_last(), now);
        let (m3, e) = step(m2, b.last(), now);
        match e {
            Some(c) => {
                assert((o1 + o2).push(c) =~= o1 + o2.push(c));
            },
            None => {},
        }
    }
}

/// Whether a kept partial's title and body are within their limits and free of NUL.
pub open spec fn entry_ok(e: (Seq<char>, PendingModel)) -> bool {
    field_ok(e.1.title, 512) && field_ok(e.1.body, 8192)
}

/// Whether every kept partial's title and body are within their limits and free of NUL.
pub open spec fn pending_ok(ps: Pending) -> bool {
    forall|i: int| 0 <= i < ps.len() ==> entry_ok(#[trigger] ps[i])
}

/// Appending a NUL-free text that fits keeps a field within its limit.
proof fn lemma_field_concat(a: Seq<char>, b: Seq<char>, limit: nat)
    requires
        field_ok(a, limit),
        utf8_len(a) + utf8_len(b) <= limit,
        !b.contains('\0'),
    ensures
        field_ok(a + b, limit),
{
    crate::text::lemma_utf8_len_concat(a, b);
    if (a + b).contains('\0') {
        let k = choose|k: int| 0 <= k < (a + b).len() && (a + b)[k] == '\0';
        if k < a.len() {
            assert(a[k] == '\0');
        } else {
            assert(b[k - a.len()] == '\0');
        }
    }
}

/// The empty text is a valid field.
proof fn lemma_empty_field(limit: nat)
    ensures
        field_ok(Seq::<char>::empty(), limit),
{
    crate::text::lemma_utf8_len_ascii(Seq::<char>::empty());
}

/// Dropping stale partials keeps the rest as they were.
proof fn lemma_filter_ok(ps: Pending, now: u64)
    requires
        pending_ok(ps),
    ensures
        pending_ok(ps.filter(|e: (Seq<char>, PendingModel)| fresh(e.1.updated, now))),
    decreases ps.len(),
{
    reveal(Seq::filter);
    if ps.len() > 0 {
        let d = ps.drop_last();
        assert forall|i: int| 0 <= i < d.len() implies entry_ok(#[trigger] d[i]) by {
            assert(d[i] == ps[i]);
        }
        lemma_filter_ok(d, now);
        assert(entry_ok(ps[ps.len() - 1]));
    }
}

/// Removing one partial keeps the rest as they were.
proof fn lemma_remove_ok(ps: Pending, i: int)
    requires
        pending_ok(ps),
        0 <= i < ps.len(),
    ensures
        pending_ok(ps.remove(i)),
{
    let r = ps.remove(i);
    assert forall|j: int| 0 <= j < r.len() implies entry_ok(#[trigger] r[j]) by {
        if j < i {
            assert(r[j] == ps[j]);
        } else {
            assert(r[j] == ps[j + 1]);
        }
    }
}

/// A chunk leaves every kept partial valid and delivers a valid notification.
proof fn lemma_chunk_ok(ps: Pending, payload: Seq<char>, now: u64)
    requires
        pending_ok(ps),
    ensures
        pending_ok(spec_chunk(ps, payload, now).0),
        spec_chunk(ps, payload, now).1 matches Some(c) ==> content_valid(c),
{
    match split_once(payload, ';') {
        None => {},
        Some((meta, data)) => match metadata(meta) {
            None => {},
            Some((id, part, done, encoded)) => {
                if !id_ok(id) {
                } else if part == "close"@ {
                    lemma_id_index(ps, id);
                    if id_index(ps, id) < ps.len() {
                        lemma_remove_ok(ps, id_index(ps, id));
                    }
                } else if part != "title"@ && part != "body"@ {
                } else {
                    let live = ps.filter(|e: (Seq<char>, PendingModel)| fresh(e.1.updated, now));
                    lemma_filter_ok(ps, now);
                    let room = make_room(ps, id, now);
                    if id_index(live, id) >= live.len() && live.len() >= PARTIAL_LIMIT {
                        lemma_oldest(live);
                        lemma_remove_ok(live, oldest(live));
                    }
                    assert(pending_ok(room));
                    lemma_id_index(room, id);
                    let t = touched(room, id, now);
                    if id_index(room, id) < room.len() {
                        assert(entry_ok(room[id_index(room, id)]));
                    } else {
                        lemma_empty_field(512);
                        lemma_empty_field(8192);
                    }
                    assert(field_ok(t.title, 512) && field_ok(t.body, 8192));
                    let text = chunk_text(data, encoded);
                    let body = part == "body"@;
                    let p = add_chunk(t, body, text);
                    match text {
                        Some(x) => {
                            if body {
                                if !(utf8_len(t.body) + utf8_len(x) > 8192 || x.contains('\0')) {
                                    lemma_field_concat(t.body, x, 8192);
                                }
                            } else {
                                if !(utf8_len(t.title) + utf8_len(x) > 512 || x.contains('\0')) {
                                    lemma_field_concat(t.title, x, 512);
                                }
                            }
                        },
                        None => {},
                    }
                    assert(entry_ok((id, p)));
                    let stored = store(room, id, p);
                    lemma_id_index(room, id);
                    assert forall|j: int| 0 <= j < stored.len() implies entry_ok(#[trigger] stored[j]) by {
                        if j < room.len() && j != id_index(room, id) {
                            assert(stored[j] == room[j]);
                        }
                    }
                    if done {
                        lemma_store_lookup(room, id, p);
                        lemma_id_index(stored, id);
                        lemma_remove_ok(stored, id_index(stored, id));
                        if !p.invalid && p.title.len() == 0 && p.body.len() > 0 {
                            reveal_strlit("Notification");
                            crate::text::lemma_utf8_len_ascii("Notification"@);
                            lemma_empty_field(1024);
                        } else if !p.invalid && p.title.len() > 0 {
                            lemma_empty_field(1024);
                        }
                    }
                }
            },
        },
    }
}

/// Every partial of `invalidate_all` keeps its title and body.
proof fn lemma_invalidate_ok(ps: Pending)
    requires
        pending_ok(ps),
    ensures
        pending_ok(invalidate_all(ps)),
{
    let v = invalidate_all(ps);
    assert forall|j: int| 0 <= j < v.len() implies entry_ok(#[trigger] v[j]) by {
        assert(entry_ok(ps[j]));
    }
}

/// One byte leaves every kept partial valid and delivers only a valid notification.
proof fn lemma_step_ok(m: ParserModel, byte: u8, now: u64)
    requires
        pending_ok(m.pending),
    ensures
        pending_ok(step(m, byte, now).0.pending),
        step(m, byte, now).1 matches Some(c) ==> content_valid(c),
{
    if m.overflow || !valid_utf8(m.frame) {
        lemma_invalidate_ok(m.pending);
    } else {
        let f = decode_utf8(m.frame);
        match split_once(f, ';') {
            None => {},
            Some((code, payload)) => if code == "99"@ {
                lemma_chunk_ok(m.pending, payload, now);
            },
        }
    }
}

/// Whatever output a parser reads, every notification it delivers has a title of at most
/// 512 bytes, a subtitle of at most 1024 and a body of at most 8192, none holding NUL; and the
/// incomplete notifications it keeps stay within their limits.
pub proof fn law_feed_delivers_valid(m: ParserModel, bytes: Seq<u8>, now: u64)
    requires
        pending_ok(m.pending),
    ensures
        pending_ok(spec_feed(m, bytes, now).0.pending),
        forall|i: int|
            0 <= i < spec_feed(m, bytes, now).1.len() ==> content_valid(#[trigger] spec_feed(m, bytes, now).1[i]),
    decreases bytes.len(),
{
    if bytes.len() > 0 {
        law_feed_delivers_valid(m, bytes.drop_last(), now);
        let (m1, out) = spec_feed(m, bytes.drop_last(), now);
        lemma_step_ok(m1, bytes.last(), now);
    }
}

/// Where the first `c` lies in `a + b` when `a` holds none: in `b`, shifted past `a`.
proof fn lemma_find_after(a: Seq<char>, b: Seq<char>, c: char)
    requires
        !a.contains(c),
    ensures
        find_from(a + b, 0, c) == a.len() + find_from(b, 0, c),
{
    let s = a + b;
    lemma_find_from(s, 0, c);
    lemma_find_from(b, 0, c);
    let f = find_from(s, 0, c);
    let g = find_from(b, 0, c);
    if f < a.len() {
        assert(a[f] == s[f]);
        assert(a.contains(c));
    }
    if a.len() + g < s.len() {
        assert(s[a.len() + g] == b[g]);
        if f < a.len() + g {
            assert(b[f - a.len()] == s[f]);
        }
    } else {
        if f < s.len() {
            assert(b[f - a.len()] == s[f]);
        }
    }
}

/// An OSC 777 `notify` frame carries its title and body: `notify;T;B` with `T` free of `;`
/// gives title `T` and body `B`, and `notify;T` with `T` free of `;` gives title `T` and an
/// empty body; neither has a subtitle.
pub proof fn law_notify_title_and_body(t: Seq<char>, b: Seq<char>)
    requires
        !t.contains(';'),
    ensures
        plain_content("777"@, "notify;"@ + t) == Some((t, Seq::<char>::empty(), Seq::<char>::empty())),
        plain_content("777"@, "notify;"@ + t + seq![';'] + b) == Some((t, Seq::<char>::empty(), b)),
{
    reveal_strlit("777");
    reveal_strlit("9");
    reveal_strlit("notify;");
    reveal_strlit("notify");
    assert("777"@.len() != "9"@.len());
    let k = "notify"@;
    assert("notify;"@ =~= k + seq![';']);
    assert(!k.contains(';')) by {
        if k.contains(';') {
            let i = choose|i: int| 0 <= i < k.len() && k[i] == ';';
            assert(k[i] == ';');
        }
    }
    // The title-only frame.
    let p1 = "notify;"@ + t;
    assert(p1 =~= k + (seq![';'] + t));
    lemma_find_after(k, seq![';'] + t, ';');
    lemma_find_from(seq![';'] + t, 0, ';');
    assert(find_from(p1, 0, ';') == 6);
    assert(p1.take(6) =~= k);
    assert(p1.skip(7) =~= t);
    lemma_find_from(t, 0, ';');
    if find_from(t, 0, ';') < t.len() {
        assert(t.contains(';'));
    }
    // The frame with a body.
    let p2 = "notify;"@ + t + seq![';'] + b;
    assert(p2 =~= k + (seq![';'] + (t + seq![';'] + b)));
    lemma_find_after(k, seq![';'] + (t + seq![';'] + b), ';');
    lemma_find_from(seq![';'] + (t + seq![';'] + b), 0, ';');
    assert(find_from(p2, 0, ';') == 6);
    assert(p2.take(6) =~= k);
    let rest = p2.skip(7);
    assert(rest =~= t + (seq![';'] + b));
    lemma_find_after(t, seq![';'] + b, ';');
    lemma_find_from(seq![';'] + b, 0, ';');
    assert(find_from(rest, 0, ';') == t.len());
    assert(rest.take(t.len() as int) =~= t);
    assert(rest.skip(t.len() + 1 as int) =~= b);
}

/// An OSC 9 frame without `;` is a notification with the protocol title and the text as its body,
/// unless it is one of the ConEmu codes `10`, `11` or `12`; and an OSC 777 frame of another kind
/// than `notify` is none.
pub proof fn law_plain_osc9_and_other_kinds(text: Seq<char>, kind: Seq<char>, rest: Seq<char>)
    requires
        !text.contains(';'),
        !kind.contains(';'),
    ensures
        text != "10"@ && text != "11"@ && text != "12"@ ==> plain_content("9"@, text) == Some(
            ("Notification"@, Seq::<char>::empty(), text),
        ),
        kind != "notify"@ ==> plain_content("777"@, kind + seq![';'] + rest) is None,
{
    reveal_strlit("777");
    reveal_strlit("9");
    assert("777"@.len() != "9"@.len());
    lemma_find_from(text, 0, ';');
    if find_from(text, 0, ';') < text.len() {
        assert(text.contains(';'));
    }
    let p = kind + seq![';'] + rest;
    assert(p =~= kind + (seq![';'] + rest));
    lemma_find_after(kind, seq![';'] + rest, ';');
    lemma_find_from(seq![';'] + rest, 0, ';');
    assert(p.take(kind.len() as int) =~= kind);
}

} // verus!
