//! Bounded notification history and validated operations shared by native and socket delivery.
use crate::ids::{parse_uuid, uuid_value};
use crate::json::{get, Json};
use crate::text::{chars_equal, chars_of, contains_char, lemma_utf8_len_bound, utf8_len, utf8_size};
use vstd::prelude::*;
use vstd::string::StringExecFns;

verus! {

/// Most records a history retains.
pub const MAX_RECORDS: usize = 256;

/// Most bytes a history retains, counting a fixed 128 per record for its routing identities.
pub const MAX_BYTES: usize = 1048576;

/// Longest creation timestamp a restored record may carry.
pub const MAX_TIMESTAMP_BYTES: usize = 64;

/// User-visible notification content, validated before admission to GTK.
#[derive(Clone, Debug, PartialEq)]
pub struct Content {
    pub title: String,
    pub subtitle: String,
    pub body: String,
}

/// A field fits its limit and holds no NUL.
pub open spec fn field_ok(s: Seq<char>, limit: nat) -> bool {
    utf8_len(s) <= limit && !s.contains('\0')
}

/// Notification text as title, subtitle and body.
pub type ContentModel = (Seq<char>, Seq<char>, Seq<char>);

/// Whether title, subtitle and body are within 512, 1024 and 8192 bytes and free of NUL.
pub open spec fn content_valid(c: ContentModel) -> bool {
    field_ok(c.0, 512) && field_ok(c.1, 1024) && field_ok(c.2, 8192)
}

impl Content {
    /// The title, subtitle and body by their characters.
    pub open spec fn model(&self) -> ContentModel {
        (self.title@, self.subtitle@, self.body@)
    }

    /// Whether each field is within its limit (title 512, subtitle 1024, body 8192 bytes) and
    /// free of NUL.
    pub open spec fn is_valid(&self) -> bool {
        &&& field_ok(self.title@, 512)
        &&& field_ok(self.subtitle@, 1024)
        &&& field_ok(self.body@, 8192)
    }

    /// Retained content bytes.
    pub open spec fn size(&self) -> nat {
        utf8_len(self.title@) + utf8_len(self.subtitle@) + utf8_len(self.body@)
    }

    /// Bound each field and reject NUL without logging potentially private message text.
    pub fn validate(&self) -> (r: Result<(), &'static str>)
        ensures
            r is Ok <==> self.is_valid(),
            r matches Err(e) ==> e@ == "notification fields exceed limits or contain NUL"@,
    {
        if utf8_size(self.title.as_str()) > 512 || contains_char(self.title.as_str(), '\0')
            || utf8_size(self.subtitle.as_str()) > 1024 || contains_char(
            self.subtitle.as_str(),
            '\0',
        ) || utf8_size(self.body.as_str()) > 8192 || contains_char(self.body.as_str(), '\0') {
            let e = "notification fields exceed limits or contain NUL";
            proof {
                reveal_strlit("notification fields exceed limits or contain NUL");
            }
            return Err(e);
        }
        Ok(())
    }

    /// Retained content bytes, excluding the fixed-size routing identities.
    pub fn bytes(&self) -> (n: usize)
        requires
            self.size() <= usize::MAX,
        ensures
            n == self.size(),
    {
        utf8_size(self.title.as_str()) + utf8_size(self.subtitle.as_str()) + utf8_size(
            self.body.as_str(),
        )
    }

    /// A copy of this content.
    pub fn duplicate(&self) -> (c: Content)
        ensures
            c == *self,
    {
        Content {
            title: self.title.clone(),
            subtitle: self.subtitle.clone(),
            body: self.body.clone(),
        }
    }
}

impl Default for Content {
    /// Empty title, subtitle and body.
    fn default() -> (c: Content)
        ensures
            c.title@.len() == 0,
            c.subtitle@.len() == 0,
            c.body@.len() == 0,
    {
        Content { title: String::new(), subtitle: String::new(), body: String::new() }
    }
}

/// Supply the protocol title when callers omit it.
pub fn default_title() -> (s: String)
    ensures
        s@ == "Notification"@,
{
    let t = "Notification";
    proof {
        reveal_strlit("Notification");
    }
    String::from_str(t)
}

/// A stable message identity keeps its exact routing target even after that terminal closes.
/// Identities are UUIDs, held by their 128-bit value.
pub struct Record {
    pub id: u128,
    pub workspace_id: u128,
    pub surface_id: u128,
    pub content: Content,
    pub created_at: String,
    pub is_read: bool,
}

impl Record {
    /// Bytes one record counts against the history's budget.
    pub open spec fn size(&self) -> nat {
        self.content.size() + utf8_len(self.created_at@) + 128
    }

    /// Whether a restored record may be kept: valid content and a short timestamp.
    pub open spec fn restorable(&self) -> bool {
        self.content.is_valid() && utf8_len(self.created_at@) <= MAX_TIMESTAMP_BYTES
    }
}

/// Total bytes some records count against the budget.
pub open spec fn total_size(rs: Seq<Record>) -> nat
    decreases rs.len(),
{
    if rs.len() == 0 {
        0
    } else {
        total_size(rs.drop_last()) + rs.last().size()
    }
}

/// Whether records exceed either retention limit.
pub open spec fn over_limits(rs: Seq<Record>) -> bool {
    rs.len() > MAX_RECORDS || total_size(rs) > MAX_BYTES
}

/// Index of the first read record, or 0 when every record is unread.
pub open spec fn eviction_index(rs: Seq<Record>) -> int {
    if exists|i: int| 0 <= i < rs.len() && (#[trigger] rs[i]).is_read {
        choose|i: int|
            0 <= i < rs.len() && (#[trigger] rs[i]).is_read && forall|j: int|
                0 <= j < i ==> !(#[trigger] rs[j]).is_read
    } else {
        0
    }
}

/// Records after bounded retention, and how many were evicted: while over a limit, the first
/// read record goes, or the oldest when none is read.
pub open spec fn trimmed(rs: Seq<Record>) -> (Seq<Record>, nat)
    decreases rs.len(),
{
    if rs.len() > 0 && over_limits(rs) {
        proof {
            lemma_eviction_index(rs);
        }
        let (t, n) = trimmed(rs.remove(eviction_index(rs)));
        (t, n + 1)
    } else {
        (rs, 0)
    }
}

pub proof fn lemma_total_size_push(rs: Seq<Record>, r: Record)
    ensures
        total_size(rs.push(r)) == total_size(rs) + r.size(),
{
    assert(rs.push(r).drop_last() =~= rs);
}

proof fn lemma_total_size_remove(rs: Seq<Record>, i: int)
    requires
        0 <= i < rs.len(),
    ensures
        total_size(rs.remove(i)) + rs[i].size() == total_size(rs),
    decreases rs.len(),
{
    if i == rs.len() - 1 {
        assert(rs.remove(i) =~= rs.drop_last());
    } else {
        lemma_total_size_remove(rs.drop_last(), i);
        assert(rs.remove(i) =~= rs.drop_last().remove(i).push(rs.last()));
        lemma_total_size_push(rs.drop_last().remove(i), rs.last());
    }
}

pub proof fn lemma_eviction_index(rs: Seq<Record>)
    requires
        rs.len() > 0,
    ensures
        0 <= eviction_index(rs) < rs.len(),
        (exists|i: int| 0 <= i < rs.len() && (#[trigger] rs[i]).is_read) ==> rs[eviction_index(rs)].is_read,
        forall|j: int| 0 <= j < eviction_index(rs) ==> !(#[trigger] rs[j]).is_read,
{
    if exists|i: int| 0 <= i < rs.len() && (#[trigger] rs[i]).is_read {
        let i = choose|i: int| 0 <= i < rs.len() && (#[trigger] rs[i]).is_read;
        lemma_first_read(rs, i);
    }
}

pub proof fn lemma_first_read(rs: Seq<Record>, i: int)
    requires
        0 <= i < rs.len(),
        rs[i].is_read,
    ensures
        exists|k: int|
            0 <= k < rs.len() && (#[trigger] rs[k]).is_read && forall|j: int|
                0 <= j < k ==> !(#[trigger] rs[j]).is_read,
    decreases i,
{
    if exists|j: int| 0 <= j < i && (#[trigger] rs[j]).is_read {
        let j = choose|j: int| 0 <= j < i && (#[trigger] rs[j]).is_read;
        lemma_first_read(rs, j);
    } else {
        assert(0 <= i < rs.len() && rs[i].is_read && forall|j: int|
            0 <= j < i ==> !(#[trigger] rs[j]).is_read);
    }
}

/// Session-owned history; evict read messages first, then the oldest unread message under pressure.
pub struct Inbox {
    pub records: Vec<Record>,
}

impl Default for Inbox {
    /// An empty history.
    fn default() -> (i: Inbox)
        ensures
            i.records@.len() == 0,
    {
        Inbox { records: Vec::new() }
    }
}

impl Inbox {
    /// Validate restored content and enforce the same retained-memory bounds as live delivery.
    pub fn validated(self) -> (r: Self)
        requires
            total_size(self.records@) <= usize::MAX,
        ensures
            r.records@ == trimmed(self.records@.filter(|x: Record| x.restorable())).0,
    {
        let ghost all = self.records@;
        let mut kept: Vec<Record> = Vec::new();
        let mut source = self.records;
        let mut k: usize = 0;
        while k < source.len()
            invariant
                source@ == all,
                k <= all.len(),
                kept@ == all.take(k as int).filter(|x: Record| x.restorable()),
                total_size(all) <= usize::MAX,
            decreases all.len() - k,
        {
            proof {
                reveal_with_fuel(Seq::<_>::filter, 1);
                assert(all.take(k + 1).drop_last() =~= all.take(k as int));
            }
            let r = &source[k];
            let ok = r.content.validate().is_ok() && utf8_size(r.created_at.as_str())
                <= MAX_TIMESTAMP_BYTES;
            if ok {
                let copy = Record {
                    id: r.id,
                    workspace_id: r.workspace_id,
                    surface_id: r.surface_id,
                    content: r.content.duplicate(),
                    created_at: r.created_at.clone(),
                    is_read: r.is_read,
                };
                kept.push(copy);
            }
            k = k + 1;
        }
        assert(all.take(k as int) =~= all);
        proof {
            lemma_filter_size(all);
        }
        let mut inbox = Inbox { records: kept };
        inbox.trim();
        inbox
    }

    /// Append one validated message and report the number evicted by bounded retention.
    pub fn push(&mut self, record: Record) -> (evicted: usize)
        requires
            total_size(old(self).records@.push(record)) <= usize::MAX,
        ensures
            (final(self).records@, evicted as nat) == trimmed(old(self).records@.push(record)),
    {
        self.records.push(record);
        self.trim()
    }

    /// Enforce both record and byte limits without keeping a second content copy.
    fn trim(&mut self) -> (evicted: usize)
        requires
            total_size(old(self).records@) <= usize::MAX,
        ensures
            (final(self).records@, evicted as nat) == trimmed(old(self).records@),
    {
        let ghost start = self.records@;
        let mut bytes: usize = 0;
        let mut k: usize = 0;
        while k < self.records.len()
            invariant
                self.records@ == start,
                k <= start.len(),
                bytes == total_size(start.take(k as int)),
                total_size(start) <= usize::MAX,
            decreases start.len() - k,
        {
            proof {
                assert(start.take(k + 1).drop_last() =~= start.take(k as int));
                lemma_prefix_size(start, k + 1);
                lemma_record_size(start[k as int]);
            }
            let r = &self.records[k];
            bytes = bytes + r.content.bytes() + utf8_size(r.created_at.as_str()) + 128;
            k = k + 1;
        }
        assert(start.take(k as int) =~= start);
        let mut evicted: usize = 0;
        while self.records.len() > MAX_RECORDS || bytes > MAX_BYTES
            invariant
                bytes == total_size(self.records@),
                evicted + self.records@.len() == start.len(),
                start.len() <= usize::MAX,
                trimmed(start).0 == trimmed(self.records@).0,
                trimmed(start).1 == trimmed(self.records@).1 + evicted,
            decreases self.records@.len(),
        {
            proof {
                if self.records@.len() == 0 {
                    assert(total_size(self.records@) == 0);
                }
                lemma_eviction_index(self.records@);
            }
            let ghost before = self.records@;
            let mut index: usize = 0;
            let mut found = false;
            while index < self.records.len() && !self.records[index].is_read
                invariant
                    self.records@ == before,
                    index <= before.len(),
                    forall|j: int| 0 <= j < index ==> !(#[trigger] before[j]).is_read,
                decreases before.len() - index,
            {
                index = index + 1;
            }
            if index == self.records.len() {
                index = 0;
                assert(!exists|i: int| 0 <= i < before.len() && (#[trigger] before[i]).is_read);
            } else {
                found = true;
            }
            assert(index == eviction_index(before)) by {
                lemma_eviction_index(before);
            }
            let removed = self.records.remove(index);
            proof {
                lemma_total_size_remove(before, index as int);
                lemma_record_size(removed);
            }
            bytes = bytes - (removed.content.bytes() + utf8_size(removed.created_at.as_str()) + 128);
            evicted = evicted + 1;
        }
        evicted
    }
}

proof fn lemma_record_size(r: Record)
    ensures
        r.size() == r.content.size() + utf8_len(r.created_at@) + 128,
{
}

proof fn lemma_prefix_size(rs: Seq<Record>, k: int)
    requires
        0 <= k <= rs.len(),
    ensures
        total_size(rs.take(k)) <= total_size(rs),
    decreases rs.len() - k,
{
    if k < rs.len() {
        lemma_prefix_size(rs, k + 1);
        assert(rs.take(k + 1).drop_last() =~= rs.take(k));
    } else {
        assert(rs.take(k) =~= rs);
    }
}

proof fn lemma_filter_size(rs: Seq<Record>)
    ensures
        total_size(rs.filter(|x: Record| x.restorable())) <= total_size(rs),
    decreases rs.len(),
{
    reveal_with_fuel(Seq::<_>::filter, 1);
    if rs.len() > 0 {
        lemma_filter_size(rs.drop_last());
        let f = rs.drop_last().filter(|x: Record| x.restorable());
        if rs.last().restorable() {
            lemma_total_size_push(f, rs.last());
        }
    }
}

/// A scope never silently substitutes another terminal for an explicit missing identity.
#[derive(Debug)]
pub struct Scope {
    pub workspace_id: Option<u128>,
    pub surface_id: Option<u128>,
}

/// Fully validated worker-side intent, independent of widgets and transport buffers.
#[derive(Debug)]
pub enum Action {
    Create { scope: Scope, content: Content },
    Clear(Scope),
    MarkRead { id: Option<u128>, scope: Scope, all: bool },
    Dismiss { id: Option<u128>, all_read: bool },
    Open(u128),
    JumpToUnread,
}

/// A scope as workspace and surface identities.
pub type ScopeModel = (Option<u128>, Option<u128>);

/// An action with its content by characters.
pub enum ActionModel {
    Create(ScopeModel, ContentModel),
    Clear(ScopeModel),
    MarkRead(Option<u128>, ScopeModel, bool),
    Dismiss(Option<u128>, bool),
    Open(u128),
    JumpToUnread,
}

impl Action {
    /// This action with its content by characters.
    pub open spec fn model(&self) -> ActionModel {
        match self {
            Action::Create { scope, content } => ActionModel::Create(
                (scope.workspace_id, scope.surface_id),
                content.model(),
            ),
            Action::Clear(scope) => ActionModel::Clear((scope.workspace_id, scope.surface_id)),
            Action::MarkRead { id, scope, all } => ActionModel::MarkRead(
                *id,
                (scope.workspace_id, scope.surface_id),
                *all,
            ),
            Action::Dismiss { id, all_read } => ActionModel::Dismiss(*id, *all_read),
            Action::Open(id) => ActionModel::Open(*id),
            Action::JumpToUnread => ActionModel::JumpToUnread,
        }
    }
}

/// An optional UUID field: missing or `null` is `None`; anything but a UUID string fails.
pub open spec fn uuid_field(v: Option<Json>) -> Option<Option<u128>> {
    match v {
        None => Some(None),
        Some(Json::Null) => Some(None),
        Some(Json::Str(s)) => match uuid_value(s@) {
            Some(u) => Some(Some(u)),
            None => None,
        },
        Some(_) => None,
    }
}

/// An optional boolean field: missing is `false`; anything but a boolean fails.
pub open spec fn flag_field(v: Option<Json>) -> Option<bool> {
    match v {
        None => Some(false),
        Some(Json::Bool(b)) => Some(b),
        Some(_) => None,
    }
}

/// The message selectors of an object: `id`, `all` and `all_read`.
pub open spec fn selectors(p: Json) -> Option<(Option<u128>, bool, bool)> {
    if !(p is Object) {
        None
    } else {
        match (uuid_field(get(p, "id"@)), flag_field(get(p, "all"@)), flag_field(get(p, "all_read"@))) {
            (Some(id), Some(all), Some(all_read)) => Some((id, all, all_read)),
            _ => None,
        }
    }
}

/// The target scope of an object: `workspace_id` (also spelled `tab_id`, not both) and
/// `surface_id`.
pub open spec fn scope_of(p: Json) -> Option<ScopeModel> {
    if !(p is Object) || (get(p, "workspace_id"@) is Some && get(p, "tab_id"@) is Some) {
        None
    } else {
        let w = if get(p, "workspace_id"@) is Some {
            get(p, "workspace_id"@)
        } else {
            get(p, "tab_id"@)
        };
        match (uuid_field(w), uuid_field(get(p, "surface_id"@))) {
            (Some(w), Some(s)) => Some((w, s)),
            _ => None,
        }
    }
}

/// Whether a content field, when given, is a string within `limit` bytes without NUL; `None`
/// when it is given but not a string.
pub open spec fn content_field_ok(p: Json, key: Seq<char>, limit: nat) -> Option<bool> {
    match get(p, key) {
        None => Some(true),
        Some(Json::Str(t)) => Some(field_ok(t@, limit)),
        Some(_) => None,
    }
}

/// The text of a content field, or `default` when it is missing.
pub open spec fn content_text(p: Json, key: Seq<char>, default: Seq<char>) -> Seq<char> {
    match get(p, key) {
        Some(Json::Str(t)) => t@,
        _ => default,
    }
}

/// The content of a create request; an omitted title is the protocol title.
pub open spec fn request_content(p: Json) -> Result<ContentModel, Seq<char>> {
    if content_field_ok(p, "title"@, 512) is None || content_field_ok(p, "subtitle"@, 1024) is None
        || content_field_ok(p, "body"@, 8192) is None {
        Err("notification content must be strings"@)
    } else if content_field_ok(p, "title"@, 512) == Some(false) || content_field_ok(
        p,
        "subtitle"@,
        1024,
    ) == Some(false) || content_field_ok(p, "body"@, 8192) == Some(false) {
        Err("notification fields exceed limits or contain NUL"@)
    } else {
        Ok(
            (
                content_text(p, "title"@, "Notification"@),
                content_text(p, "subtitle"@, Seq::empty()),
                content_text(p, "body"@, Seq::empty()),
            ),
        )
    }
}

/// How many of three conditions hold.
pub open spec fn count3(a: bool, b: bool, c: bool) -> int {
    (if a { 1int } else { 0int }) + (if b { 1int } else { 0int }) + (if c { 1int } else { 0int })
}

/// The action a notification request asks for, or the first problem found.
pub open spec fn spec_parse(method: Seq<char>, p: Json) -> Result<ActionModel, Seq<char>> {
    match selectors(p) {
        None => Err("invalid notification selector"@),
        Some((id, all, all_read)) => match scope_of(p) {
            None => Err("invalid notification target UUID"@),
            Some((ws, surface)) => if method == "notification.create"@ || method
                == "notification.create_for_surface"@ || method == "notification.create_for_target"@ {
                if method != "notification.create"@ && surface is None {
                    Err("surface_id is required"@)
                } else if method == "notification.create_for_target"@ && ws is None {
                    Err("workspace_id is required"@)
                } else {
                    match request_content(p) {
                        Err(m) => Err(m),
                        Ok(c) => Ok(ActionModel::Create((ws, surface), c)),
                    }
                }
            } else if method == "notification.clear"@ {
                if get(p, "caller"@) matches Some(v) && !(v is Null) && v != Json::Bool(false) {
                    Err("caller resolution is not supported; pass explicit workspace_id/surface_id"@)
                } else if id is Some && ws is Some {
                    Err("use id or workspace_id, not both"@)
                } else {
                    Ok(ActionModel::Clear((if ws is Some { ws } else { id }, surface)))
                }
            } else if method == "notification.mark_read"@ {
                if count3(id is Some, ws is Some, all) != 1 || (surface is Some && ws is None) {
                    Err("select id, workspace_id (with optional surface_id), or all"@)
                } else {
                    Ok(ActionModel::MarkRead(id, (ws, surface), all))
                }
            } else if method == "notification.dismiss"@ {
                if count3(id is Some, all_read, false) != 1 {
                    Err("select id or all_read"@)
                } else {
                    Ok(ActionModel::Dismiss(id, all_read))
                }
            } else if method == "notification.open"@ {
                match id {
                    Some(i) => Ok(ActionModel::Open(i)),
                    None => Err("id is required"@),
                }
            } else if method == "notification.jump_to_unread"@ {
                Ok(ActionModel::JumpToUnread)
            } else {
                Err("unknown notification operation"@)
            },
        },
    }
}

/// Read an optional UUID field.
fn read_uuid(v: Option<&Json>) -> (r: Option<Option<u128>>)
    ensures
        r == uuid_field(match v {
            Some(x) => Some(*x),
            None => None,
        }),
{
    match v {
        None => Some(None),
        Some(Json::Null) => Some(None),
        Some(Json::Str(s)) => match parse_uuid(s.as_str()) {
            Some(u) => Some(Some(u)),
            None => None,
        },
        Some(_) => None,
    }
}

/// Read an optional boolean field.
fn read_flag(v: Option<&Json>) -> (r: Option<bool>)
    ensures
        r == flag_field(match v {
            Some(x) => Some(*x),
            None => None,
        }),
{
    match v {
        None => Some(false),
        Some(Json::Bool(b)) => Some(*b),
        Some(_) => None,
    }
}

/// Check one content field.
fn check_content_field(p: &Json, key: &str, limit: usize) -> (r: Option<bool>)
    ensures
        r == content_field_ok(*p, key@, limit as nat),
{
    match p.get(key) {
        None => Some(true),
        Some(Json::Str(t)) => Some(utf8_size(t.as_str()) <= limit && !contains_char(t.as_str(), '\0')),
        Some(_) => None,
    }
}

/// The text of a content field, or `default`.
fn read_content_text(p: &Json, key: &str, default: &str) -> (s: String)
    ensures
        s@ == content_text(*p, key@, default@),
{
    match p.get(key) {
        Some(Json::Str(t)) => t.clone(),
        _ => String::from_str(default),
    }
}

/// Decode strict selector types before crossing the bounded GTK bridge.
pub fn parse(method: &str, params: &Json) -> (r: Result<Action, &'static str>)
    ensures
        match r {
            Ok(a) => spec_parse(method@, *params) == Ok::<ActionModel, Seq<char>>(a.model()),
            Err(e) => spec_parse(method@, *params) == Err::<ActionModel, Seq<char>>(e@),
        },
{
    let bad_selector = "invalid notification selector";
    proof {
        reveal_strlit("invalid notification selector");
    }
    if !params.is_object() {
        return Err(bad_selector);
    }
    let id = match read_uuid(params.get("id")) {
        Some(x) => x,
        None => {
            return Err(bad_selector);
        },
    };
    let all = match read_flag(params.get("all")) {
        Some(x) => x,
        None => {
            return Err(bad_selector);
        },
    };
    let all_read = match read_flag(params.get("all_read")) {
        Some(x) => x,
        None => {
            return Err(bad_selector);
        },
    };
    let bad_target = "invalid notification target UUID";
    proof {
        reveal_strlit("invalid notification target UUID");
    }
    let w = params.get("workspace_id");
    let t = params.get("tab_id");
    if w.is_some() && t.is_some() {
        return Err(bad_target);
    }
    let w = if w.is_some() {
        w
    } else {
        t
    };
    let workspace_id = match read_uuid(w) {
        Some(x) => x,
        None => {
            return Err(bad_target);
        },
    };
    let surface_id = match read_uuid(params.get("surface_id")) {
        Some(x) => x,
        None => {
            return Err(bad_target);
        },
    };
    let m = chars_of(method);
    let create = chars_equal(&m, "notification.create");
    let for_surface = chars_equal(&m, "notification.create_for_surface");
    let for_target = chars_equal(&m, "notification.create_for_target");
    if create || for_surface || for_target {
        if !create && surface_id.is_none() {
            proof {
                reveal_strlit("surface_id is required");
            }
            return Err("surface_id is required");
        }
        if for_target && workspace_id.is_none() {
            proof {
                reveal_strlit("workspace_id is required");
            }
            return Err("workspace_id is required");
        }
        let title_ok = check_content_field(params, "title", 512);
        let subtitle_ok = check_content_field(params, "subtitle", 1024);
        let body_ok = check_content_field(params, "body", 8192);
        if title_ok.is_none() || subtitle_ok.is_none() || body_ok.is_none() {
            proof {
                reveal_strlit("notification content must be strings");
            }
            return Err("notification content must be strings");
        }
        if title_ok == Some(false) || subtitle_ok == Some(false) || body_ok == Some(false) {
            proof {
                reveal_strlit("notification fields exceed limits or contain NUL");
            }
            return Err("notification fields exceed limits or contain NUL");
        }
        let content = Content {
            title: read_content_text(params, "title", "Notification"),
            subtitle: read_content_text(params, "subtitle", ""),
            body: read_content_text(params, "body", ""),
        };
        proof {
            reveal_strlit("");
            assert(""@ =~= Seq::<char>::empty());
            assert(request_content(*params) == Ok::<ContentModel, Seq<char>>(content.model()));
            assert(selectors(*params) == Some((id, all, all_read)));
            assert(scope_of(*params) == Some((workspace_id, surface_id)));
        }
        return Ok(Action::Create { scope: Scope { workspace_id, surface_id }, content });
    }
    if chars_equal(&m, "notification.clear") {
        let caller_set = match params.get("caller") {
            Some(Json::Null) => false,
            Some(Json::Bool(false)) => false,
            Some(_) => true,
            None => false,
        };
        if caller_set {
            proof {
                reveal_strlit("caller resolution is not supported; pass explicit workspace_id/surface_id");
            }
            return Err("caller resolution is not supported; pass explicit workspace_id/surface_id");
        }
        if id.is_some() && workspace_id.is_some() {
            proof {
                reveal_strlit("use id or workspace_id, not both");
            }
            return Err("use id or workspace_id, not both");
        }
        let ws = if workspace_id.is_some() {
            workspace_id
        } else {
            id
        };
        return Ok(Action::Clear(Scope { workspace_id: ws, surface_id }));
    }
    if chars_equal(&m, "notification.mark_read") {
        let count: usize = (if id.is_some() { 1 } else { 0 }) + (if workspace_id.is_some() { 1 } else { 0 }) + (if all { 1 } else { 0 });
        if count != 1 || (surface_id.is_some() && workspace_id.is_none()) {
            proof {
                reveal_strlit("select id, workspace_id (with optional surface_id), or all");
            }
            return Err("select id, workspace_id (with optional surface_id), or all");
        }
        return Ok(Action::MarkRead { id, scope: Scope { workspace_id, surface_id }, all });
    }
    if chars_equal(&m, "notification.dismiss") {
        let count: usize = (if id.is_some() { 1 } else { 0 }) + (if all_read { 1 } else { 0 });
        if count != 1 {
            proof {
                reveal_strlit("select id or all_read");
            }
            return Err("select id or all_read");
        }
        return Ok(Action::Dismiss { id, all_read });
    }
    if chars_equal(&m, "notification.open") {
        return match id {
            Some(i) => Ok(Action::Open(i)),
            None => {
                proof {
                    reveal_strlit("id is required");
                }
                Err("id is required")
            },
        };
    }
    if chars_equal(&m, "notification.jump_to_unread") {
        return Ok(Action::JumpToUnread);
    }
    proof {
        reveal_strlit("unknown notification operation");
    }
    Err("unknown notification operation")
}

/// Bounded retention: after trimming, a history is within both limits.
pub proof fn law_trimmed_within_limits(rs: Seq<Record>)
    ensures
        !over_limits(trimmed(rs).0),
        trimmed(rs).0.len() + trimmed(rs).1 == rs.len(),
    decreases rs.len(),
{
    if rs.len() > 0 && over_limits(rs) {
        lemma_eviction_index(rs);
        law_trimmed_within_limits(rs.remove(eviction_index(rs)));
    } else if rs.len() == 0 {
        assert(total_size(rs) == 0);
    }
}

/// Eviction prefers read messages: when a history over its limits holds a read message, the
/// message evicted next is a read one.
pub proof fn law_unread_outlive_read(rs: Seq<Record>)
    requires
        rs.len() > 0,
        over_limits(rs),
        exists|i: int| 0 <= i < rs.len() && (#[trigger] rs[i]).is_read,
    ensures
        rs[eviction_index(rs)].is_read,
{
    lemma_eviction_index(rs);
}

/// `a` is `b` with some records left out, in order: `f` places each record of `a` in `b`.
pub open spec fn embeds(a: Seq<Record>, b: Seq<Record>, f: spec_fn(int) -> int) -> bool {
    &&& forall|i: int| 0 <= i < a.len() ==> 0 <= #[trigger] f(i) < b.len() && a[i] == b[f(i)]
    &&& forall|i: int, j: int| 0 <= i < j < a.len() ==> #[trigger] f(i) < #[trigger] f(j)
}

/// Whether `a` is `b` with some records left out, keeping their order.
pub open spec fn subsequence(a: Seq<Record>, b: Seq<Record>) -> bool {
    exists|f: spec_fn(int) -> int| embeds(a, b, f)
}

proof fn lemma_trimmed_subsequence(rs: Seq<Record>)
    ensures
        subsequence(trimmed(rs).0, rs),
    decreases rs.len(),
{
    if rs.len() > 0 && over_limits(rs) {
        lemma_eviction_index(rs);
        let k = eviction_index(rs);
        let rem = rs.remove(k);
        lemma_trimmed_subsequence(rem);
        let t = trimmed(rem).0;
        let f = choose|f: spec_fn(int) -> int| embeds(t, rem, f);
        let g = |i: int| if f(i) < k { f(i) } else { f(i) + 1 };
        assert forall|i: int| 0 <= i < t.len() implies 0 <= #[trigger] g(i) < rs.len() && t[i] == rs[g(i)] by {
            assert(0 <= f(i) < rem.len() && t[i] == rem[f(i)]);
        }
        assert forall|i: int, j: int| 0 <= i < j < t.len() implies #[trigger] g(i) < #[trigger] g(j) by {
            assert(f(i) < f(j));
        }
        assert(embeds(t, rs, g));
    } else {
        let f = |i: int| i;
        assert(embeds(rs, rs, f));
    }
}

/// Retention keeps order and only removes: after trimming, a history is the original with the
/// evicted records left out, in their order, within both limits, with the count evicted
/// reported.
pub proof fn law_trim_keeps_order(rs: Seq<Record>)
    ensures
        subsequence(trimmed(rs).0, rs),
        !over_limits(trimmed(rs).0),
        trimmed(rs).0.len() + trimmed(rs).1 == rs.len(),
{
    lemma_trimmed_subsequence(rs);
    law_trimmed_within_limits(rs);
}

} // verus!
