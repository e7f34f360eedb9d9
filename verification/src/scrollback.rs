//! Bounded, theme-independent rendered history suitable for terminal output replay.
use crate::text::{
    char_len, char_utf8_len, chars_of, lemma_utf8_len_ascii, lemma_utf8_len_concat,
    lemma_utf8_len_bound, lemma_utf8_len_push, push_char, utf8_len, utf8_size,
};
use vstd::prelude::*;
use vstd::string::StringExecFns;

verus! {

/// Per-terminal UTF-8 replay budget, including reset sequences.
pub const MAX_BYTES: usize = 262144;

/// Aggregate retained replay limit across all workspaces in a snapshot.
pub const SESSION_MAX_BYTES: usize = 16777216;

/// Deepest layout level whose histories are kept.
pub const MAX_DEPTH: usize = 16;

/// The SGR reset that opens and closes every replay.
pub open spec fn reset() -> Seq<char> {
    seq!['\x1b', '[', '0', 'm']
}

/// Unicode general category Cc (`char::is_control`).
pub open spec fn is_control(c: char) -> bool {
    (c as u32) <= 0x1f || (0x7f <= (c as u32) && (c as u32) <= 0x9f)
}

/// Final byte of a control sequence.
pub open spec fn is_final(c: char) -> bool {
    '@' <= c && c <= '~'
}

/// Intermediate byte of an escape sequence.
pub open spec fn is_intermediate(c: char) -> bool {
    ' ' <= c && c <= '/'
}

/// Parameter characters of a numeric SGR sequence.
pub open spec fn sgr_param(c: char) -> bool {
    ('0' <= c && c <= '9') || c == ';' || c == ':'
}

/// Introducers of string-carrying controls (OSC, DCS, APC, PM, SOS).
pub open spec fn string_introducer(c: char) -> bool {
    c == ']' || c == 'P' || c == '_' || c == '^' || c == 'X'
}

/// Printable text and the whitespace controls that replay keeps.
pub open spec fn kept_char(c: char) -> bool {
    !is_control(c) || c == '\r' || c == '\n' || c == '\t'
}

/// The first index at or after `k` holding a final byte, or the length if none does.
pub open spec fn csi_final(s: Seq<char>, k: int) -> int
    decreases s.len() - k,
{
    if k >= s.len() {
        s.len() as int
    } else if is_final(s[k]) {
        k
    } else {
        csi_final(s, k + 1)
    }
}

/// The first index at or after `k` that ends a control string (BEL, or `\` after ESC), or the
/// length if none does; `escaped` says whether the character before `k` was an ESC of the string.
pub open spec fn string_end(s: Seq<char>, k: int, escaped: bool) -> int
    decreases s.len() - k,
{
    if k >= s.len() {
        s.len() as int
    } else if s[k] == '\x07' || (escaped && s[k] == '\\') {
        k
    } else {
        string_end(s, k + 1, s[k] == '\x1b')
    }
}

/// The first index at or after `k` that is not an intermediate byte, or the length.
pub open spec fn intermediate_end(s: Seq<char>, k: int) -> int
    decreases s.len() - k,
{
    if k >= s.len() {
        s.len() as int
    } else if !is_intermediate(s[k]) {
        k
    } else {
        intermediate_end(s, k + 1)
    }
}

/// Whether every character of `s` in `[a, b)` is an SGR parameter character.
pub open spec fn all_params(s: Seq<char>, a: int, b: int) -> bool {
    forall|k: int| a <= k < b ==> sgr_param(#[trigger] s[k])
}

/// Index after a terminator found at `j`, or the length when none was found.
pub open spec fn past(s: Seq<char>, j: int) -> int {
    if j >= s.len() {
        s.len() as int
    } else {
        j + 1
    }
}

/// The element starting at index `i` of `s`: the text replay keeps of it, and the index after it.
/// A numeric SGR sequence of at most 256 bytes before its final `m` is kept whole; any other
/// escape sequence or control string is dropped through its terminator, or through the end of the
/// text when it is unfinished.
pub open spec fn token(s: Seq<char>, i: int) -> (Option<Seq<char>>, int) {
    if s[i] == '\x1b' {
        if i + 1 >= s.len() {
            (None, s.len() as int)
        } else if s[i + 1] == '[' {
            let j = csi_final(s, i + 2);
            if j >= s.len() {
                (None, s.len() as int)
            } else if s[j] == 'm' && all_params(s, i + 2, j) && j - i <= 256 {
                (Some(s.subrange(i, j + 1)), j + 1)
            } else {
                (None, j + 1)
            }
        } else if string_introducer(s[i + 1]) {
            (None, past(s, string_end(s, i + 2, false)))
        } else if is_intermediate(s[i + 1]) {
            (None, past(s, intermediate_end(s, i + 2)))
        } else {
            (None, i + 2)
        }
    } else if kept_char(s[i]) {
        (Some(seq![s[i]]), i + 1)
    } else {
        (None, i + 1)
    }
}

pub proof fn lemma_csi_final_range(s: Seq<char>, k: int)
    requires
        0 <= k,
    ensures
        k <= csi_final(s, k) <= s.len() || (k > s.len() && csi_final(s, k) == s.len()),
        csi_final(s, k) < s.len() ==> is_final(s[csi_final(s, k)]),
        forall|m: int| k <= m < csi_final(s, k) ==> !is_final(#[trigger] s[m]),
    decreases s.len() - k,
{
    if k < s.len() && !is_final(s[k]) {
        lemma_csi_final_range(s, k + 1);
    }
}

pub proof fn lemma_string_end_range(s: Seq<char>, k: int, escaped: bool)
    requires
        0 <= k <= s.len(),
    ensures
        k <= string_end(s, k, escaped) <= s.len(),
    decreases s.len() - k,
{
    if k < s.len() && !(s[k] == '\x07' || (escaped && s[k] == '\\')) {
        lemma_string_end_range(s, k + 1, s[k] == '\x1b');
    }
}

pub proof fn lemma_intermediate_end_range(s: Seq<char>, k: int)
    requires
        0 <= k <= s.len(),
    ensures
        k <= intermediate_end(s, k) <= s.len(),
    decreases s.len() - k,
{
    if k < s.len() && is_intermediate(s[k]) {
        lemma_intermediate_end_range(s, k + 1);
    }
}

/// Every element ends after it starts and no later than the text.
pub proof fn lemma_token_advances(s: Seq<char>, i: int)
    requires
        0 <= i < s.len(),
    ensures
        i < token(s, i).1 <= s.len(),
{
    if s[i] == '\x1b' && i + 1 < s.len() {
        if s[i + 1] == '[' {
            lemma_csi_final_range(s, i + 2);
        } else if string_introducer(s[i + 1]) {
            lemma_string_end_range(s, i + 2, false);
        } else if is_intermediate(s[i + 1]) {
            lemma_intermediate_end_range(s, i + 2);
        }
    }
}

/// The text replay keeps from index `i` on, appended to `acc`: elements are kept in order until
/// the next kept one would leave no room for the closing reset.
pub open spec fn kept_from(s: Seq<char>, i: int, acc: Seq<char>) -> Seq<char>
    decreases s.len() - i,
{
    if i < 0 || i >= s.len() {
        acc
    } else {
        let (keep, next) = token(s, i);
        proof {
            lemma_token_advances(s, i);
        }
        match keep {
            Some(t) => if utf8_len(acc) + utf8_len(t) + 4 > MAX_BYTES {
                acc
            } else {
                kept_from(s, next, acc + t)
            },
            None => kept_from(s, next, acc),
        }
    }
}

/// The replay of a rendered history: `None` above the per-terminal budget, otherwise the kept
/// text between two resets.
pub open spec fn spec_replay(s: Seq<char>) -> Option<Seq<char>> {
    if utf8_len(s) > MAX_BYTES {
        None
    } else {
        Some(kept_from(s, 0, reset()) + reset())
    }
}

/// Find the end of a control sequence that starts at `k`; report whether all its parameters
/// are numeric.
fn scan_csi(v: &Vec<char>, k: usize) -> (r: (usize, bool))
    requires
        k <= v@.len(),
    ensures
        r.0 == csi_final(v@, k as int),
        r.0 < v@.len() ==> (r.1 <==> all_params(v@, k as int, r.0 as int)),
{
    let mut j = k;
    let mut numeric = true;
    while j < v.len() && !(v[j] >= '@' && v[j] <= '~')
        invariant
            k <= j <= v@.len(),
            csi_final(v@, k as int) == csi_final(v@, j as int),
            numeric <==> all_params(v@, k as int, j as int),
        decreases v@.len() - j,
    {
        let c = v[j];
        numeric = numeric && ((c >= '0' && c <= '9') || c == ';' || c == ':');
        j = j + 1;
    }
    (j, numeric)
}

/// Find the end of a control string whose body starts at `k`.
fn scan_string(v: &Vec<char>, k: usize) -> (j: usize)
    requires
        k <= v@.len(),
    ensures
        j == string_end(v@, k as int, false),
{
    let mut j = k;
    let mut escaped = false;
    while j < v.len() && !(v[j] == '\x07' || (escaped && v[j] == '\\'))
        invariant
            k <= j <= v@.len(),
            string_end(v@, k as int, false) == string_end(v@, j as int, escaped),
        decreases v@.len() - j,
    {
        escaped = v[j] == '\x1b';
        j = j + 1;
    }
    j
}

/// Find the first non-intermediate byte at or after `k`.
fn scan_intermediate(v: &Vec<char>, k: usize) -> (j: usize)
    requires
        k <= v@.len(),
    ensures
        j == intermediate_end(v@, k as int),
{
    let mut j = k;
    while j < v.len() && v[j] >= ' ' && v[j] <= '/'
        invariant
            k <= j <= v@.len(),
            intermediate_end(v@, k as int) == intermediate_end(v@, j as int),
        decreases v@.len() - j,
    {
        j = j + 1;
    }
    j
}

/// The element starting at `i`: the range of characters kept of it, and the index after it.
fn next_token(v: &Vec<char>, i: usize) -> (r: (Option<(usize, usize)>, usize))
    requires
        i < v@.len(),
        v@.len() <= MAX_BYTES,
    ensures
        r.1 == token(v@, i as int).1,
        r.0 is Some <==> token(v@, i as int).0 is Some,
        r.0 matches Some((a, b)) ==> {
            &&& a <= b <= v@.len()
            &&& b - a <= 257
            &&& v@.subrange(a as int, b as int) == token(v@, i as int).0.unwrap()
            &&& (b - a > 1 ==> vstd::utf8::is_ascii_chars(v@.subrange(a as int, b as int)))
        },
{
    let c = v[i];
    if c == '\x1b' {
        if i + 1 >= v.len() {
            return (None, v.len());
        }
        let d = v[i + 1];
        if d == '[' {
            let (j, numeric) = scan_csi(v, i + 2);
            proof {
                lemma_csi_final_range(v@, i + 2);
            }
            if j >= v.len() {
                return (None, v.len());
            }
            if v[j] == 'm' && numeric && j - i <= 256 {
                proof {
                    let t = v@.subrange(i as int, j + 1);
                    assert forall|m: int| 0 <= m < t.len() implies '\0' <= #[trigger] t[m]
                        <= '\u{7f}' by {
                        if m >= 2 && m < t.len() - 1 {
                            assert(sgr_param(v@[i + m]));
                        }
                    }
                }
                return (Some((i, j + 1)), j + 1);
            }
            (None, j + 1)
        } else if d == ']' || d == 'P' || d == '_' || d == '^' || d == 'X' {
            let j = scan_string(v, i + 2);
            proof {
                lemma_string_end_range(v@, i + 2, false);
            }
            if j >= v.len() {
                (None, v.len())
            } else {
                (None, j + 1)
            }
        } else if d >= ' ' && d <= '/' {
            let j = scan_intermediate(v, i + 2);
            proof {
                lemma_intermediate_end_range(v@, i + 2);
            }
            if j >= v.len() {
                (None, v.len())
            } else {
                (None, j + 1)
            }
        } else {
            (None, i + 2)
        }
    } else {
        let n: u32 = c as u32;
        if !(n <= 0x1f || (0x7f <= n && n <= 0x9f)) || c == '\r' || c == '\n' || c == '\t' {
            proof {
                assert(v@.subrange(i as int, i + 1) =~= seq![c]);
            }
            (Some((i, i + 1)), i + 1)
        } else {
            (None, i + 1)
        }
    }
}

/// Retain printable Unicode, whitespace and complete numeric SGR sequences only.
/// OSC/DCS/APC/PM/SOS and other terminal commands are removed, including incomplete frames.
/// Returns None for oversized source data; never truncate in the middle of UTF-8 or an escape.
pub fn replay_text(source: &str) -> (r: Option<String>)
    ensures
        r matches Some(t) ==> spec_replay(source@) == Some(t@),
        r is None ==> spec_replay(source@) is None,
        r matches Some(t) ==> utf8_len(t@) <= MAX_BYTES,
{
    if utf8_size(source) > MAX_BYTES {
        return None;
    }
    let v = chars_of(source);
    let ghost s = v@;
    proof {
        lemma_utf8_len_bound(s);
    }
    let mut output = String::new();
    output.append("\x1b[0m");
    proof {
        reveal_strlit("\x1b[0m");
        assert(output@ =~= reset());
        lemma_utf8_len_ascii(reset());
    }
    let mut bytes: usize = 4;
    let mut i: usize = 0;
    let mut full = false;
    while i < v.len() && !full
        invariant
            v@ == s,
            s == source@,
            i <= s.len(),
            s.len() <= MAX_BYTES,
            bytes == utf8_len(output@),
            bytes + 4 <= MAX_BYTES,
            !full ==> kept_from(s, 0, reset()) == kept_from(s, i as int, output@),
            full ==> kept_from(s, 0, reset()) == output@,
        decreases s.len() - i + (if full { 0int } else { 1int }),
    {
        let (keep, next) = next_token(&v, i);
        proof {
            lemma_token_advances(s, i as int);
        }
        match keep {
            Some((a, b)) => {
                let ghost t = s.subrange(a as int, b as int);
                let mut width: usize = 0;
                if b - a == 1 {
                    width = char_utf8_len(v[a]);
                    proof {
                        assert(t =~= Seq::<char>::empty().push(v@[a as int]));
                        lemma_utf8_len_push(Seq::<char>::empty(), v@[a as int]);
                        assert(utf8_len(Seq::<char>::empty()) == 0);
                    }
                } else {
                    width = b - a;
                    proof {
                        lemma_utf8_len_ascii(t);
                    }
                }
                if bytes + width + 4 > MAX_BYTES {
                    full = true;
                } else {
                    let ghost before = output@;
                    let mut k = a;
                    while k < b
                        invariant
                            a <= k <= b,
                            b <= v@.len(),
                            v@ == s,
                            output@ == before + s.subrange(a as int, k as int),
                        decreases b - k,
                    {
                        push_char(&mut output, v[k]);
                        assert(s.subrange(a as int, k + 1) =~= s.subrange(a as int, k as int).push(
                            s[k as int],
                        ));
                        k = k + 1;
                    }
                    proof {
                        lemma_utf8_len_concat(before, t);
                    }
                    bytes = bytes + width;
                }
            },
            None => {},
        }
        if !full {
            i = next;
        }
    }
    let ghost body = output@;
    output.append("\x1b[0m");
    proof {
        assert(output@ =~= body + reset());
        lemma_utf8_len_concat(body, reset());
        lemma_utf8_len_ascii(reset());
    }
    Some(output)
}

/// A saved layout, reduced to what history validation reads: the terminal histories of each pane,
/// in tab order.
pub enum HistoryTree {
    /// A leaf from the oldest session format, which holds no history.
    Leaf,
    /// A pane of tabs; `None` for a terminal without saved history.
    Pane { histories: Vec<Option<String>> },
    /// Two subtrees.
    Split { start: Box<HistoryTree>, end: Box<HistoryTree> },
}

/// The mathematical form of a history tree.
pub enum HistoryModel {
    Leaf,
    Pane(Seq<Option<Seq<char>>>),
    Split(Box<HistoryModel>, Box<HistoryModel>),
}

/// The characters of an optional history.
pub open spec fn history_view(h: Option<String>) -> Option<Seq<char>> {
    match h {
        Some(t) => Some(t@),
        None => None,
    }
}

impl HistoryTree {
    /// The tree with each history by its characters.
    pub open spec fn model(&self) -> HistoryModel
        decreases self,
    {
        match self {
            HistoryTree::Leaf => HistoryModel::Leaf,
            HistoryTree::Pane { histories } => HistoryModel::Pane(
                histories@.map_values(|h: Option<String>| history_view(h)),
            ),
            HistoryTree::Split { start, end } => HistoryModel::Split(
                Box::new(start.model()),
                Box::new(end.model()),
            ),
        }
    }
}

/// One loaded history after validation: its replay, if that fits the remaining budget.
pub open spec fn clean(h: Option<Seq<char>>, budget: nat) -> Option<Seq<char>> {
    match h {
        Some(t) => match spec_replay(t) {
            Some(r) => if utf8_len(r) <= budget {
                Some(r)
            } else {
                None
            },
            None => None,
        },
        None => None,
    }
}

/// The size a validated history takes from the budget.
pub open spec fn cost(h: Option<Seq<char>>) -> nat {
    match h {
        Some(t) => utf8_len(t),
        None => 0,
    }
}

/// Histories validated in order against one shared budget, and the budget left.
pub open spec fn clean_all(hs: Seq<Option<Seq<char>>>, budget: nat) -> (Seq<Option<Seq<char>>>, nat)
    decreases hs.len(),
{
    if hs.len() == 0 {
        (Seq::empty(), budget)
    } else {
        let (done, left) = clean_all(hs.drop_last(), budget);
        let c = clean(hs.last(), left);
        (done.push(c), (left - cost(c)) as nat)
    }
}

/// A tree validated in pre-order against `budget`, at nesting `depth`, and the budget left;
/// subtrees deeper than the restore limit are left as they are.
pub open spec fn validated(m: HistoryModel, budget: nat, depth: nat) -> (HistoryModel, nat)
    decreases m,
{
    if depth > MAX_DEPTH {
        (m, budget)
    } else {
        match m {
            HistoryModel::Leaf => (m, budget),
            HistoryModel::Pane(hs) => {
                let (done, left) = clean_all(hs, budget);
                (HistoryModel::Pane(done), left)
            },
            HistoryModel::Split(start, end) => {
                let (s1, b1) = validated(*start, budget, depth + 1);
                let (e1, b2) = validated(*end, b1, depth + 1);
                (HistoryModel::Split(Box::new(s1), Box::new(e1)), b2)
            },
        }
    }
}

/// Layouts validated in order against one shared budget, and the budget left.
pub open spec fn validated_all(ms: Seq<HistoryModel>, budget: nat) -> (Seq<HistoryModel>, nat)
    decreases ms.len(),
{
    if ms.len() == 0 {
        (Seq::empty(), budget)
    } else {
        let (done, left) = validated_all(ms.drop_last(), budget);
        let (m, rest) = validated(ms.last(), left, 0);
        (done.push(m), rest)
    }
}

proof fn lemma_clean_all_budget(hs: Seq<Option<Seq<char>>>, budget: nat)
    ensures
        clean_all(hs, budget).1 <= budget,
        clean_all(hs, budget).0.len() == hs.len(),
    decreases hs.len(),
{
    if hs.len() > 0 {
        lemma_clean_all_budget(hs.drop_last(), budget);
    }
}

/// Validate the histories of a pane against the shared budget.
fn clean_histories(histories: &Vec<Option<String>>, budget: &mut usize) -> (out: Vec<Option<String>>)
    ensures
        out@.map_values(|h: Option<String>| history_view(h)) == clean_all(
            histories@.map_values(|h: Option<String>| history_view(h)),
            *old(budget) as nat,
        ).0,
        *final(budget) == clean_all(
            histories@.map_values(|h: Option<String>| history_view(h)),
            *old(budget) as nat,
        ).1,
{
    let ghost hs = histories@.map_values(|h: Option<String>| history_view(h));
    let ghost start = *budget as nat;
    let mut out: Vec<Option<String>> = Vec::new();
    let mut k: usize = 0;
    while k < histories.len()
        invariant
            k <= histories@.len(),
            hs == histories@.map_values(|h: Option<String>| history_view(h)),
            (out@.map_values(|h: Option<String>| history_view(h)), *budget as nat) == clean_all(
                hs.take(k as int),
                start,
            ),
        decreases histories@.len() - k,
    {
        assert(hs.take(k + 1).drop_last() =~= hs.take(k as int));
        assert(hs.take(k + 1).last() == history_view(histories@[k as int]));
        let ghost left = *budget as nat;
        let mut c: Option<String> = None;
        match &histories[k] {
            Some(text) => {
                match replay_text(text.as_str()) {
                    Some(r) => {
                        if utf8_size(r.as_str()) <= *budget {
                            c = Some(r);
                        }
                    },
                    None => {},
                }
            },
            None => {},
        }
        assert(history_view(c) == clean(hs[k as int], left));
        let n = match &c {
            Some(r) => utf8_size(r.as_str()),
            None => 0,
        };
        *budget = *budget - n;
        out.push(c);
        assert(out@.map_values(|h: Option<String>| history_view(h)) =~= clean_all(
            hs.take(k as int),
            start,
        ).0.push(history_view(c)));
        k = k + 1;
    }
    assert(hs.take(k as int) =~= hs);
    out
}

/// Visit the bounded restore depth; discard oversized history without rejecting unrelated layout state.
pub fn validate_tree(tree: &mut HistoryTree, budget: &mut usize, depth: usize)
    ensures
        (final(tree).model(), *final(budget) as nat) == validated(old(tree).model(), *old(budget) as nat, depth as nat),
    decreases *old(tree),
{
    if depth > MAX_DEPTH {
        return;
    }
    match tree {
        HistoryTree::Pane { histories } => {
            let cleaned = clean_histories(histories, budget);
            *histories = cleaned;
        },
        HistoryTree::Split { start, end } => {
            validate_tree(start, budget, depth + 1);
            validate_tree(end, budget, depth + 1);
        },
        HistoryTree::Leaf => {},
    }
}

/// The models of some layouts.
pub open spec fn models(trees: Seq<HistoryTree>) -> Seq<HistoryModel> {
    trees.map_values(|t: HistoryTree| t.model())
}

/// Validate loaded replay text and enforce one aggregate budget before GTK owns restored state.
/// `layouts` holds the layout of each saved workspace, in order.
pub fn validate_session(layouts: &mut Vec<HistoryTree>)
    ensures
        models(final(layouts)@) == validated_all(models(old(layouts)@), SESSION_MAX_BYTES as nat).0,
{
    let mut pending: Vec<HistoryTree> = Vec::new();
    std::mem::swap(&mut pending, layouts);
    let ghost all = models(pending@);
    assert(all.len() == pending.len());
    let mut budget: usize = SESSION_MAX_BYTES;
    let mut k: usize = 0;
    while pending.len() > 0
        invariant
            k + pending@.len() == all.len(),
            all.len() <= usize::MAX,
            models(pending@) == all.skip(k as int),
            (models(layouts@), budget as nat) == validated_all(all.take(k as int), SESSION_MAX_BYTES as nat),
        decreases pending@.len(),
    {
        let ghost rest = pending@;
        let mut tree = pending.remove(0);
        assert(all.take(k + 1).drop_last() =~= all.take(k as int));
        assert(all.take(k + 1).last() == tree.model()) by {
            assert(models(rest)[0] == tree.model());
            assert(all.skip(k as int)[0] == all[k as int]);
        }
        validate_tree(&mut tree, &mut budget, 0);
        let ghost before = models(layouts@);
        layouts.push(tree);
        assert(models(layouts@) =~= before.push(tree.model()));
        assert(pending@ =~= rest.drop_first());
        assert forall|i: int| 0 <= i < models(pending@).len() implies models(pending@)[i]
            == all.skip(k + 1)[i] by {
            assert(models(rest)[i + 1] == all.skip(k as int)[i + 1]);
        }
        assert(models(pending@) =~= all.skip(k + 1));
        k = k + 1;
    }
    assert(all.take(k as int) =~= all);
}

/// Validation only spends budget: the budget left after validating a layout is at most the
/// budget it started with.
pub proof fn law_tree_budget_never_grows(m: HistoryModel, budget: nat, depth: nat)
    ensures
        validated(m, budget, depth).1 <= budget,
    decreases m,
{
    if depth <= MAX_DEPTH {
        match m {
            HistoryModel::Pane(hs) => {
                lemma_clean_all_budget(hs, budget);
            },
            HistoryModel::Split(start, end) => {
                law_tree_budget_never_grows(*start, budget, depth + 1);
                let b1 = validated(*start, budget, depth + 1).1;
                law_tree_budget_never_grows(*end, b1, depth + 1);
            },
            HistoryModel::Leaf => {},
        }
    }
}

/// The workspaces of a session share one budget: what is left after all of them is at most
/// what they started with.
pub proof fn law_session_budget_shared(ms: Seq<HistoryModel>, budget: nat)
    ensures
        validated_all(ms, budget).1 <= budget,
        validated_all(ms, budget).0.len() == ms.len(),
    decreases ms.len(),
{
    if ms.len() > 0 {
        law_session_budget_shared(ms.drop_last(), budget);
        let left = validated_all(ms.drop_last(), budget).1;
        law_tree_budget_never_grows(ms.last(), left, 0);
    }
}

/// Text without controls but line breaks and tabs is kept whole while it fits.
proof fn lemma_plain_kept(s: Seq<char>, i: int)
    requires
        0 <= i <= s.len(),
        forall|k: int| 0 <= k < s.len() ==> kept_char(#[trigger] s[k]),
        utf8_len(s) + 8 <= MAX_BYTES,
    ensures
        kept_from(s, i, reset() + s.take(i)) == reset() + s,
    decreases s.len() - i,
{
    if i < s.len() {
        let c = s[i];
        assert(kept_char(c));
        assert(c != '\x1b');
        let t = seq![c];
        assert(token(s, i) == (Some(t), i + 1));
        let acc = reset() + s.take(i);
        assert(s.take(i + 1) =~= s.take(i) + t);
        assert(s =~= s.take(i + 1) + s.skip(i + 1));
        lemma_utf8_len_concat(s.take(i + 1), s.skip(i + 1));
        lemma_utf8_len_concat(s.take(i), t);
        lemma_utf8_len_concat(reset(), s.take(i));
        assert(vstd::utf8::is_ascii_chars(reset()));
        lemma_utf8_len_ascii(reset());
        assert(acc + t =~= reset() + s.take(i + 1));
        lemma_plain_kept(s, i + 1);
    } else {
        assert(s.take(i) =~= s);
    }
}

/// Text whose only controls are line breaks and tabs, with room for both resets, replays
/// unchanged between the resets.
pub proof fn law_plain_text_replays_unchanged(s: Seq<char>)
    requires
        forall|k: int| 0 <= k < s.len() ==> kept_char(#[trigger] s[k]),
        utf8_len(s) + 8 <= MAX_BYTES,
    ensures
        spec_replay(s) == Some(reset() + s + reset()),
{
    lemma_plain_kept(s, 0);
    assert(reset() + s.take(0) =~= reset());
}

/// What replay keeps extends what it started with.
proof fn lemma_kept_extends(s: Seq<char>, i: int, acc: Seq<char>)
    ensures
        kept_from(s, i, acc).len() >= acc.len(),
        kept_from(s, i, acc).take(acc.len() as int) == acc,
    decreases s.len() - i,
{
    if 0 <= i < s.len() {
        lemma_token_advances(s, i);
        let (keep, next) = token(s, i);
        match keep {
            Some(t) => {
                if !(utf8_len(acc) + utf8_len(t) + 4 > MAX_BYTES) {
                    lemma_kept_extends(s, next, acc + t);
                    let r = kept_from(s, next, acc + t);
                    assert(r.take(acc.len() as int) =~= r.take((acc + t).len() as int).take(acc.len() as int));
                    assert((acc + t).take(acc.len() as int) =~= acc);
                } else {
                    assert(acc.take(acc.len() as int) =~= acc);
                }
            },
            None => {
                lemma_kept_extends(s, next, acc);
            },
        }
    } else {
        assert(acc.take(acc.len() as int) =~= acc);
    }
}

/// Replay is refused exactly above the budget, and a replay opens and closes with the reset.
pub proof fn law_replay_framed(s: Seq<char>)
    ensures
        spec_replay(s) is None <==> utf8_len(s) > MAX_BYTES,
        spec_replay(s) matches Some(o) ==> o.len() >= 8 && o.take(4) == reset() && o.skip(o.len() - 4)
            == reset(),
{
    if utf8_len(s) <= MAX_BYTES {
        lemma_kept_extends(s, 0, reset());
        let k = kept_from(s, 0, reset());
        let o = k + reset();
        assert(o.take(4) =~= k.take(4));
        assert(o.skip(o.len() - 4) =~= reset());
    }
}

} // verus!
