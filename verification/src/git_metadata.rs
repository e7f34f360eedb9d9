//! Bounded local Git discovery, independent of agent-published sidebar metadata.
use crate::registry::{spec_directory, Registry};
use crate::scrollback::is_control;
use crate::text::{
    chars_of, find_char, find_from, lemma_find_from, lemma_find_from_skip, opt_view, slice_chars,
    string_of, utf8_len, utf8_size, utf8_string,
};
use vstd::prelude::*;
use vstd::string::{StrSliceExecFns, StringExecFns};
use vstd::utf8::{decode_utf8, valid_utf8};

verus! {

/// Latest successful local repository observation; never persisted as authoritative session state.
#[derive(Clone, Debug, PartialEq)]
pub struct GitMetadata {
    pub branch: String,
    pub dirty: bool,
}

/// A line without the `\r` of a CRLF ending.
pub open spec fn strip_cr(line: Seq<char>) -> Seq<char> {
    if line.len() > 0 && line.last() == '\r' {
        line.drop_last()
    } else {
        line
    }
}

/// The lines of a text (`str::lines`): split at `\n` or `\r\n`, with an optional final ending.
pub open spec fn lines(s: Seq<char>) -> Seq<Seq<char>>
    decreases s.len(),
{
    if s.len() == 0 {
        Seq::empty()
    } else {
        let j = find_from(s, 0, '\n');
        if j >= s.len() {
            seq![s]
        } else {
            proof {
                lemma_find_from(s, 0, '\n');
            }
            seq![strip_cr(s.take(j))] + lines(s.skip(j + 1))
        }
    }
}

/// The porcelain-v2 branch header prefix.
pub open spec fn head_prefix() -> Seq<char> {
    "# branch.head "@
}

/// Whether a record line marks a change: ordinary, renamed, unmerged or untracked.
pub open spec fn change_record(line: Seq<char>) -> bool {
    line.len() > 0 && (line[0] == '1' || line[0] == '2' || line[0] == 'u' || line[0] == '?')
}

/// A branch name Git may report: at most 1024 bytes without control characters.
pub open spec fn branch_ok(value: Seq<char>) -> bool {
    utf8_len(value) <= 1024 && forall|i: int| 0 <= i < value.len() ==> !is_control(#[trigger] value[i])
}

/// Status lines read in order, given the branch and dirtiness seen so far: the last branch
/// header names the branch; a bad branch header fails the whole parse.
pub open spec fn scan(ls: Seq<Seq<char>>, branch: Option<Seq<char>>, dirty: bool) -> Option<(Seq<char>, bool)>
    decreases ls.len(),
{
    if ls.len() == 0 {
        match branch {
            Some(b) => Some((b, dirty)),
            None => None,
        }
    } else {
        let line = ls[0];
        if line.len() >= head_prefix().len() && line.take(head_prefix().len() as int) == head_prefix() {
            let value = line.skip(head_prefix().len() as int);
            if !branch_ok(value) {
                None
            } else {
                scan(ls.drop_first(), Some(value), dirty)
            }
        } else if change_record(line) {
            scan(ls.drop_first(), branch, true)
        } else {
            scan(ls.drop_first(), branch, dirty)
        }
    }
}

/// The metadata Git's porcelain-v2 status output gives: `None` for non-UTF-8 output, a bad
/// branch header or no branch header.
pub open spec fn spec_parse(bytes: Seq<u8>) -> Option<(Seq<char>, bool)> {
    if !valid_utf8(bytes) {
        None
    } else {
        scan(lines(decode_utf8(bytes)), None, false)
    }
}

/// The lines of a suffix: its first line, then the lines after the next newline.
proof fn lemma_lines_step(s: Seq<char>, pos: int)
    requires
        0 <= pos < s.len(),
    ensures
        ({
            let j = find_from(s, pos, '\n');
            &&& pos <= j <= s.len()
            &&& j >= s.len() ==> lines(s.skip(pos)) == seq![s.subrange(pos, s.len() as int)]
            &&& j < s.len() ==> lines(s.skip(pos)) == seq![strip_cr(s.subrange(pos, j))] + lines(
                s.skip(j + 1),
            )
        }),
{
    lemma_find_from(s, pos, '\n');
    lemma_find_from_skip(s, pos, 0, '\n');
    let j = find_from(s, pos, '\n');
    let t = s.skip(pos);
    assert(find_from(t, 0, '\n') == j - pos);
    if j < s.len() {
        assert(t.take(j - pos) =~= s.subrange(pos, j));
        assert(t.skip(j - pos + 1) =~= s.skip(j + 1));
    } else {
        assert(t =~= s.subrange(pos, s.len() as int));
    }
}

/// Whether a line starts with the branch header prefix.
fn starts_with_head(line: &Vec<char>) -> (r: bool)
    ensures
        r == (line@.len() >= head_prefix().len() && line@.take(head_prefix().len() as int)
            == head_prefix()),
{
    let p = chars_of("# branch.head ");
    if line.len() < p.len() {
        return false;
    }
    let mut i: usize = 0;
    while i < p.len()
        invariant
            p@ == head_prefix(),
            p@.len() <= line@.len(),
            i <= p@.len(),
            forall|j: int| 0 <= j < i ==> line@[j] == p@[j],
        decreases p@.len() - i,
    {
        if line[i] != p[i] {
            return false;
        }
        i = i + 1;
    }
    assert(line@.take(p@.len() as int) =~= p@);
    true
}

/// Whether a reported branch name is acceptable.
fn is_branch_ok(value: &Vec<char>) -> (r: bool)
    ensures
        r == branch_ok(value@),
{
    let s = string_of(value.as_slice());
    if utf8_size(s.as_str()) > 1024 {
        return false;
    }
    let mut i: usize = 0;
    while i < value.len()
        invariant
            i <= value@.len(),
            utf8_len(value@) <= 1024,
            forall|j: int| 0 <= j < i ==> !is_control(#[trigger] value@[j]),
        decreases value@.len() - i,
    {
        let n: u32 = value[i] as u32;
        if n <= 0x1f || (0x7f <= n && n <= 0x9f) {
            return false;
        }
        i = i + 1;
    }
    true
}

/// Parse Git's stable porcelain-v2 branch headers without retaining filenames.
#[verifier::loop_isolation(false)]
pub fn parse(bytes: Vec<u8>) -> (r: Option<GitMetadata>)
    ensures
        r matches Some(m) ==> spec_parse(bytes@) == Some((m.branch@, m.dirty)),
        r is None ==> spec_parse(bytes@) is None,
{
    let ghost raw = bytes@;
    let text = match utf8_string(bytes) {
        Some(t) => t,
        None => {
            return None;
        },
    };
    let v = chars_of(text.as_str());
    let mut branch: Option<Vec<char>> = None;
    let mut dirty = false;
    let mut pos: usize = 0;
    assert(v@.skip(0) =~= v@);
    while pos < v.len()
        invariant
            pos <= v@.len(),
            v@ == decode_utf8(raw),
            valid_utf8(raw),
            scan(lines(v@), None, false) == scan(
                lines(v@.skip(pos as int)),
                match branch {
                    Some(b) => Some(b@),
                    None => None,
                },
                dirty,
            ),
        decreases v@.len() - pos,
    {
        let j = find_char(&v, pos, '\n');
        proof {
            lemma_lines_step(v@, pos as int);
        }
        let mut end = j;
        if j < v.len() && j > pos && v[j - 1] == '\r' {
            end = j - 1;
        }
        let line = slice_chars(&v, pos, end);
        let ghost ls = lines(v@.skip(pos as int));
        assert(ls[0] == line@) by {
            if j < v@.len() {
                let full = v@.subrange(pos as int, j as int);
                if j > pos && v@[j - 1] == '\r' {
                    assert(full.drop_last() =~= v@.subrange(pos as int, j - 1));
                    assert(full.last() == '\r');
                } else {
                    assert(full.len() == 0 || full.last() != '\r');
                }
            }
        }
        proof {
            reveal_strlit("# branch.head ");
        }
        if starts_with_head(&line) {
            let value = slice_chars(&line, 14, line.len());
            assert(value@ =~= line@.skip(14));
            if !is_branch_ok(&value) {
                assert(head_prefix().len() == 14);
                assert(ls.len() > 0);
                assert(scan(ls, match branch {
                    Some(b) => Some(b@),
                    None => None,
                }, dirty) is None);
                return None;
            }
            branch = Some(value);
        } else if line.len() > 0 && (line[0] == '1' || line[0] == '2' || line[0] == 'u' || line[0]
            == '?') {
            dirty = true;
        }
        if j >= v.len() {
            assert(ls.drop_first() =~= lines(v@.skip(v@.len() as int))) by {
                assert(v@.skip(v@.len() as int) =~= Seq::<char>::empty());
            }
            pos = v.len();
        } else {
            assert(ls.drop_first() =~= lines(v@.skip(j + 1)));
            pos = j + 1;
        }
    }
    assert(v@.skip(pos as int) =~= Seq::<char>::empty());
    match branch {
        Some(b) => Some(GitMetadata { branch: string_of(b.as_slice()), dirty }),
        None => None,
    }
}

/// The sidebar label of an observation: the branch, with ` •` when the worktree is dirty; empty
/// when no repository was observed.
pub fn label_text(value: Option<&GitMetadata>) -> (s: String)
    ensures
        s@ == match value {
            Some(m) => if m.dirty {
                m.branch@ + " •"@
            } else {
                m.branch@
            },
            None => Seq::<char>::empty(),
        },
{
    match value {
        Some(m) => {
            let mut s = m.branch.clone();
            if m.dirty {
                s.append(" •");
            }
            s
        },
        None => String::new(),
    }
}

/// The directory a workspace's Git metadata is observed in: none for a remote workspace;
/// otherwise the directory the focused pane's terminal (`surface`, when it has a live one)
/// last reported, and failing a report, the workspace's launch directory.
pub fn directory(remote: bool, registry: &Registry, surface: Option<usize>, launch: Option<&str>) -> (r: Option<String>)
    ensures
        r matches Some(d) ==> Some(d@) == spec_observed_directory(remote, registry@, surface, opt_view(launch)),
        r is None <==> spec_observed_directory(remote, registry@, surface, opt_view(launch)) is None,
{
    if remote {
        return None;
    }
    if let Some(s) = surface {
        let current = registry.working_directory(s);
        if current.as_str().unicode_len() > 0 {
            return Some(current);
        }
    }
    match launch {
        Some(l) => Some(l.to_string()),
        None => None,
    }
}

/// The directory Git metadata is observed in, by characters.
pub open spec fn spec_observed_directory(
    remote: bool,
    registry: Map<usize, (u64, Seq<char>)>,
    surface: Option<usize>,
    launch: Option<Seq<char>>,
) -> Option<Seq<char>> {
    if remote {
        None
    } else if surface matches Some(s) && spec_directory(registry, s).len() > 0 {
        Some(spec_directory(registry, surface->Some_0))
    } else {
        launch
    }
}

} // verus!
