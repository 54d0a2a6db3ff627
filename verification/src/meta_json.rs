//! Version metadata as a JSON document.
//!
//! The metadata is stored as a JSON object with `label`, `logs`, `changes`
//! (the file operations, each an object with an `operation` and its fields;
//! a written file gives its `hash`, its size as `length`, `modified` and `offset`)
//! and, when there are any, `delete-by-hash` (the content-checked deletions,
//! which older clients ignore). A document is held here as a `JsonNode`; the
//! program reads and writes the text with a JSON library.
use vstd::prelude::*;

use crate::text::{copy_string, str_eq};
use crate::version_meta::{ClientHashDeletion, ExternalSource, FileChange, VersionMeta};

verus! {

/// A JSON value. Object members keep their order; a document read from text
/// has each key once.
#[derive(Debug)]
pub enum JsonNode {
    Null,
    Bool(bool),
    /// A number, with its value when it is a whole number from 0 to
    /// `u64::MAX` (what `as_u64` gives), else `None`.
    Number(Option<u64>),
    Str(String),
    Array(Vec<JsonNode>),
    Object(Vec<(String, JsonNode)>),
}

// ---------------------------------------------------------------------------
// Reading values
// ---------------------------------------------------------------------------

/// The value of the first member named `key`.
pub open spec fn lookup(pairs: Seq<(String, JsonNode)>, key: Seq<char>) -> Option<JsonNode>
    decreases pairs.len(),
{
    if pairs.len() == 0 {
        None
    } else if pairs[0].0@ == key {
        Some(pairs[0].1)
    } else {
        lookup(pairs.drop_first(), key)
    }
}

/// `v[key]`: the member's value, or `Null` when `v` is not an object or has
/// no such member.
pub open spec fn field(v: JsonNode, key: Seq<char>) -> JsonNode {
    match v {
        JsonNode::Object(pairs) => match lookup(pairs@, key) {
            Some(x) => x,
            None => JsonNode::Null,
        },
        _ => JsonNode::Null,
    }
}

/// `as_str`.
pub open spec fn text_of(v: JsonNode) -> Option<String> {
    match v {
        JsonNode::Str(s) => Some(s),
        _ => None,
    }
}

/// `as_u64`.
pub open spec fn count_of(v: JsonNode) -> Option<u64> {
    match v {
        JsonNode::Number(n) => n,
        _ => None,
    }
}

/// `as_bool`.
pub open spec fn flag_of(v: JsonNode) -> Option<bool> {
    match v {
        JsonNode::Bool(b) => Some(b),
        _ => None,
    }
}

/// `members`: the elements of an array, none for any other value.
pub open spec fn members(v: JsonNode) -> Seq<JsonNode> {
    match v {
        JsonNode::Array(a) => a@,
        _ => Seq::empty(),
    }
}

fn get_field<'a>(v: &'a JsonNode, key: &str) -> (r: Option<&'a JsonNode>)
    ensures
        match r {
            Some(x) => *x == field(*v, key@),
            None => field(*v, key@) == JsonNode::Null,
        },
{
    match v {
        JsonNode::Object(pairs) => {
            let ghost all = pairs@;
            assert(all.skip(0) =~= all);
            assert(field(*v, key@) == match lookup(all, key@) {
                Some(x) => x,
                None => JsonNode::Null,
            });
            for i in 0..pairs.len()
                invariant
                    all == pairs@,
                    field(*v, key@) == match lookup(all, key@) {
                        Some(x) => x,
                        None => JsonNode::Null,
                    },
                    lookup(all, key@) == lookup(all.skip(i as int), key@),
            {
                assert(all.skip(i as int).drop_first() =~= all.skip(i + 1));
                assert(all.skip(i as int)[0] == all[i as int]);
                if str_eq(pairs[i].0.as_str(), key) {
                    assert(lookup(all.skip(i as int), key@) == Some(all[i as int].1));
                    assert(field(*v, key@) == all[i as int].1);
                    return Some(&pairs[i].1);
                }
            }
            assert(all.skip(all.len() as int) =~= Seq::<(String, JsonNode)>::empty());
            None
        },
        _ => None,
    }
}

fn get_text(v: &JsonNode, key: &str) -> (r: Option<String>)
    ensures
        r == text_of(field(*v, key@)),
{
    match get_field(v, key) {
        Some(JsonNode::Str(s)) => Some(copy_string(s)),
        _ => None,
    }
}

fn get_count(v: &JsonNode, key: &str) -> (r: Option<u64>)
    ensures
        r == count_of(field(*v, key@)),
{
    match get_field(v, key) {
        Some(JsonNode::Number(n)) => *n,
        _ => None,
    }
}

fn get_flag(v: &JsonNode, key: &str) -> (r: Option<bool>)
    ensures
        r == flag_of(field(*v, key@)),
{
    match get_field(v, key) {
        Some(JsonNode::Bool(b)) => Some(*b),
        _ => None,
    }
}

fn get_members<'a>(v: &'a JsonNode, key: &str) -> (r: &'a [JsonNode])
    ensures
        r@ == members(field(*v, key@)),
{
    match get_field(v, key) {
        Some(JsonNode::Array(a)) => a.as_slice(),
        _ => &[],
    }
}

// ---------------------------------------------------------------------------
// Loading
// ---------------------------------------------------------------------------

/// The external source an `external-source` value describes: it needs a
/// provider and an address; the fallback defaults to allowed.
pub open spec fn parsed_source(v: JsonNode) -> Option<ExternalSource> {
    match (text_of(field(v, "provider"@)), text_of(field(v, "url"@))) {
        (Some(provider), Some(url)) => Some(
            ExternalSource {
                provider,
                url,
                fallback_to_mcpatch: match flag_of(field(v, "fallback-to-mcpatch"@)) {
                    Some(b) => b,
                    None => true,
                },
            },
        ),
        _ => None,
    }
}

/// Can `v` be read as a file operation: a known `operation` with the fields
/// that operation needs?
pub open spec fn change_readable(v: JsonNode) -> bool {
    match text_of(field(v, "operation"@)) {
        Some(op) => if op@ == "create-directory"@ {
            text_of(field(v, "path"@)) is Some
        } else if op@ == "update-file"@ {
            &&& text_of(field(v, "path"@)) is Some
            &&& text_of(field(v, "hash"@)) is Some
            &&& count_of(field(v, "length"@)) is Some
            &&& count_of(field(v, "modified"@)) is Some
            &&& count_of(field(v, "offset"@)) is Some
        } else if op@ == "delete-directory"@ {
            text_of(field(v, "path"@)) is Some
        } else if op@ == "delete-file"@ {
            text_of(field(v, "path"@)) is Some
        } else if op@ == "move-file"@ {
            text_of(field(v, "from"@)) is Some && text_of(field(v, "to"@)) is Some
        } else {
            false
        },
        None => false,
    }
}

/// The file operation that a readable `v` describes.
pub open spec fn parsed_change(v: JsonNode) -> FileChange {
    let op = text_of(field(v, "operation"@))->Some_0@;
    let path = text_of(field(v, "path"@))->Some_0;
    if op == "create-directory"@ {
        FileChange::CreateFolder { path }
    } else if op == "update-file"@ {
        FileChange::UpdateFile {
            path,
            hash: text_of(field(v, "hash"@))->Some_0,
            len: count_of(field(v, "length"@))->Some_0,
            modified: count_of(field(v, "modified"@))->Some_0,
            offset: count_of(field(v, "offset"@))->Some_0,
            external_source: parsed_source(field(v, "external-source"@)),
        }
    } else if op == "delete-directory"@ {
        FileChange::DeleteFolder { path }
    } else if op == "delete-file"@ {
        FileChange::DeleteFile { path }
    } else {
        FileChange::MoveFile {
            from: text_of(field(v, "from"@))->Some_0,
            to: text_of(field(v, "to"@))->Some_0,
        }
    }
}

/// The content-checked deletions among `vs`; an entry without a text `path`
/// and `sha256` and a whole `len` is skipped.
pub open spec fn parsed_hash_deletions(vs: Seq<JsonNode>) -> Seq<ClientHashDeletion>
    decreases vs.len(),
{
    if vs.len() == 0 {
        Seq::empty()
    } else {
        let rest = parsed_hash_deletions(vs.drop_last());
        let v = vs.last();
        match (text_of(field(v, "path"@)), text_of(field(v, "sha256"@)), count_of(field(v, "len"@))) {
            (Some(path), Some(sha256), Some(len)) => rest.push(ClientHashDeletion { path, sha256, len }),
            _ => rest,
        }
    }
}

/// Can `obj` be read as version metadata: a text `label` and `logs`, and
/// readable operations?
pub open spec fn meta_readable(obj: JsonNode) -> bool {
    &&& text_of(field(obj, "label"@)) is Some
    &&& text_of(field(obj, "logs"@)) is Some
    &&& forall|i: int|
        0 <= i < members(field(obj, "changes"@)).len() ==> change_readable(
            #[trigger] members(field(obj, "changes"@))[i],
        )
}

/// `m` is the metadata that `obj` describes.
pub open spec fn loaded_meta(obj: JsonNode, m: VersionMeta) -> bool {
    &&& m.label == text_of(field(obj, "label"@))->Some_0
    &&& m.logs == text_of(field(obj, "logs"@))->Some_0
    &&& m.changes@ == members(field(obj, "changes"@)).map_values(|v: JsonNode| parsed_change(v))
    &&& m.client_hash_deletions@ == parsed_hash_deletions(members(field(obj, "delete-by-hash"@)))
}

fn load_source(v: Option<&JsonNode>) -> (r: Option<ExternalSource>)
    ensures
        r == parsed_source(
            match v {
                Some(x) => *x,
                None => JsonNode::Null,
            },
        ),
{
    let x = match v {
        Some(x) => x,
        None => {
            return None;
        },
    };
    let provider = match get_text(x, "provider") {
        Some(p) => p,
        None => {
            return None;
        },
    };
    let url = match get_text(x, "url") {
        Some(u) => u,
        None => {
            return None;
        },
    };
    let fallback_to_mcpatch = match get_flag(x, "fallback-to-mcpatch") {
        Some(b) => b,
        None => true,
    };
    Some(ExternalSource { provider, url, fallback_to_mcpatch })
}

fn load_change(v: &JsonNode) -> (r: FileChange)
    requires
        change_readable(*v),
    ensures
        r == parsed_change(*v),
{
    let op = get_text(v, "operation").unwrap();
    if str_eq(op.as_str(), "create-directory") {
        FileChange::CreateFolder { path: get_text(v, "path").unwrap() }
    } else if str_eq(op.as_str(), "update-file") {
        FileChange::UpdateFile {
            path: get_text(v, "path").unwrap(),
            hash: get_text(v, "hash").unwrap(),
            len: get_count(v, "length").unwrap(),
            modified: get_count(v, "modified").unwrap(),
            offset: get_count(v, "offset").unwrap(),
            external_source: load_source(get_field(v, "external-source")),
        }
    } else if str_eq(op.as_str(), "delete-directory") {
        FileChange::DeleteFolder { path: get_text(v, "path").unwrap() }
    } else if str_eq(op.as_str(), "delete-file") {
        FileChange::DeleteFile { path: get_text(v, "path").unwrap() }
    } else {
        FileChange::MoveFile { from: get_text(v, "from").unwrap(), to: get_text(v, "to").unwrap() }
    }
}

fn change_is_readable(v: &JsonNode) -> (r: bool)
    ensures
        r == change_readable(*v),
{
    let op = match get_text(v, "operation") {
        Some(op) => op,
        None => {
            return false;
        },
    };
    if str_eq(op.as_str(), "create-directory") {
        get_text(v, "path").is_some()
    } else if str_eq(op.as_str(), "update-file") {
        get_text(v, "path").is_some() && get_text(v, "hash").is_some() && get_count(v, "length").is_some()
            && get_count(v, "modified").is_some() && get_count(v, "offset").is_some()
    } else if str_eq(op.as_str(), "delete-directory") {
        get_text(v, "path").is_some()
    } else if str_eq(op.as_str(), "delete-file") {
        get_text(v, "path").is_some()
    } else if str_eq(op.as_str(), "move-file") {
        get_text(v, "from").is_some() && get_text(v, "to").is_some()
    } else {
        false
    }
}

impl VersionMeta {
    /// Can `obj` be read as version metadata (`meta_readable`)?
    pub fn readable(obj: &JsonNode) -> (r: bool)
        ensures
            r == meta_readable(*obj),
    {
        if get_text(obj, "label").is_none() || get_text(obj, "logs").is_none() {
            return false;
        }
        let items = get_members(obj, "changes");
        for i in 0..items.len()
            invariant
                items@ == members(field(*obj, "changes"@)),
                forall|k: int| 0 <= k < i ==> change_readable(#[trigger] items@[k]),
        {
            if !change_is_readable(&items[i]) {
                return false;
            }
        }
        true
    }

    /// Reads version metadata from its JSON object.
    pub fn load(obj: &JsonNode) -> (r: VersionMeta)
        requires
            meta_readable(*obj),
        ensures
            loaded_meta(*obj, r),
    {
        let label = get_text(obj, "label").unwrap();
        let logs = get_text(obj, "logs").unwrap();
        let items = get_members(obj, "changes");
        let mut changes: Vec<FileChange> = Vec::new();
        for i in 0..items.len()
            invariant
                items@ == members(field(*obj, "changes"@)),
                meta_readable(*obj),
                changes@ == items@.take(i as int).map_values(|v: JsonNode| parsed_change(v)),
        {
            assert(change_readable(items@[i as int]));
            changes.push(load_change(&items[i]));
            assert(items@.take(i + 1).map_values(|v: JsonNode| parsed_change(v)) =~= items@.take(
                i as int,
            ).map_values(|v: JsonNode| parsed_change(v)).push(parsed_change(items@[i as int])));
        }
        assert(items@.take(items@.len() as int) =~= items@);
        let entries = get_members(obj, "delete-by-hash");
        let mut deletions: Vec<ClientHashDeletion> = Vec::new();
        for i in 0..entries.len()
            invariant
                deletions@ == parsed_hash_deletions(entries@.take(i as int)),
        {
            assert(entries@.take(i + 1).drop_last() =~= entries@.take(i as int));
            let e = &entries[i];
            match (get_text(e, "path"), get_text(e, "sha256"), get_count(e, "len")) {
                (Some(path), Some(sha256), Some(len)) => {
                    deletions.push(ClientHashDeletion { path, sha256, len });
                },
                _ => {},
            }
        }
        assert(entries@.take(entries@.len() as int) =~= entries@);
        VersionMeta { label, logs, changes, client_hash_deletions: deletions }
    }
}

// ---------------------------------------------------------------------------
// Writing
// ---------------------------------------------------------------------------

/// Is `p` the member `key` with the value `value`?
pub open spec fn member_is(p: (String, JsonNode), key: Seq<char>, value: JsonNode) -> bool {
    p.0@ == key && p.1 == value
}

/// Is `p` the member `key` with a text value that reads `text`?
pub open spec fn member_reads(p: (String, JsonNode), key: Seq<char>, text: Seq<char>) -> bool {
    &&& p.0@ == key
    &&& p.1 matches JsonNode::Str(s)
    &&& s@ == text
}

/// Is `v` the object written for the external source `s`?
pub open spec fn source_written(s: ExternalSource, v: JsonNode) -> bool {
    v matches JsonNode::Object(ps) && {
        &&& ps@.len() == 3
        &&& member_is(ps@[0], "provider"@, JsonNode::Str(s.provider))
        &&& member_is(ps@[1], "url"@, JsonNode::Str(s.url))
        &&& member_is(ps@[2], "fallback-to-mcpatch"@, JsonNode::Bool(s.fallback_to_mcpatch))
    }
}

/// Is `v` the object written for the file operation `c`?
pub open spec fn change_written(c: FileChange, v: JsonNode) -> bool {
    v matches JsonNode::Object(ps) && match c {
        FileChange::CreateFolder { path } => {
            &&& ps@.len() == 2
            &&& member_reads(ps@[0], "operation"@, "create-directory"@)
            &&& member_is(ps@[1], "path"@, JsonNode::Str(path))
        },
        FileChange::UpdateFile { path, hash, len, modified, offset, external_source } => {
            &&& ps@.len() == if external_source is Some {
                7int
            } else {
                6int
            }
            &&& member_reads(ps@[0], "operation"@, "update-file"@)
            &&& member_is(ps@[1], "path"@, JsonNode::Str(path))
            &&& member_is(ps@[2], "hash"@, JsonNode::Str(hash))
            &&& member_is(ps@[3], "length"@, JsonNode::Number(Some(len)))
            &&& member_is(ps@[4], "modified"@, JsonNode::Number(Some(modified)))
            &&& member_is(ps@[5], "offset"@, JsonNode::Number(Some(offset)))
            &&& external_source matches Some(s) ==> ps@[6].0@ == "external-source"@ && source_written(
                s,
                ps@[6].1,
            )
        },
        FileChange::DeleteFolder { path } => {
            &&& ps@.len() == 2
            &&& member_reads(ps@[0], "operation"@, "delete-directory"@)
            &&& member_is(ps@[1], "path"@, JsonNode::Str(path))
        },
        FileChange::DeleteFile { path } => {
            &&& ps@.len() == 2
            &&& member_reads(ps@[0], "operation"@, "delete-file"@)
            &&& member_is(ps@[1], "path"@, JsonNode::Str(path))
        },
        FileChange::MoveFile { from, to } => {
            &&& ps@.len() == 3
            &&& member_reads(ps@[0], "operation"@, "move-file"@)
            &&& member_is(ps@[1], "from"@, JsonNode::Str(from))
            &&& member_is(ps@[2], "to"@, JsonNode::Str(to))
        },
    }
}

/// Is `v` the object written for the deletion `d`?
pub open spec fn deletion_written(d: ClientHashDeletion, v: JsonNode) -> bool {
    v matches JsonNode::Object(ps) && {
        &&& ps@.len() == 3
        &&& member_is(ps@[0], "path"@, JsonNode::Str(d.path))
        &&& member_is(ps@[1], "sha256"@, JsonNode::Str(d.sha256))
        &&& member_is(ps@[2], "len"@, JsonNode::Number(Some(d.len)))
    }
}

/// Is `v` the object written for the metadata `m`: `label`, `logs`,
/// `changes`, and `delete-by-hash` only when there are deletions?
pub open spec fn meta_written(m: VersionMeta, v: JsonNode) -> bool {
    v matches JsonNode::Object(ps) && {
        &&& ps@.len() == if m.client_hash_deletions@.len() > 0 {
            4int
        } else {
            3int
        }
        &&& member_is(ps@[0], "label"@, JsonNode::Str(m.label))
        &&& member_is(ps@[1], "logs"@, JsonNode::Str(m.logs))
        &&& ps@[2].0@ == "changes"@
        &&& ps@[2].1 matches JsonNode::Array(items) && items@.len() == m.changes@.len() && forall|i: int|
            0 <= i < items@.len() ==> change_written(m.changes@[i], #[trigger] items@[i])
        &&& m.client_hash_deletions@.len() > 0 ==> {
            &&& ps@[3].0@ == "delete-by-hash"@
            &&& ps@[3].1 matches JsonNode::Array(items) && items@.len() == m.client_hash_deletions@.len()
                && forall|i: int|
                0 <= i < items@.len() ==> deletion_written(m.client_hash_deletions@[i], #[trigger] items@[i])
        }
    }
}

fn member(key: &str, value: JsonNode) -> (r: (String, JsonNode))
    ensures
        r.0@ == key@,
        r.1 == value,
{
    (key.to_owned(), value)
}

fn text_node(s: &String) -> (r: JsonNode)
    ensures
        r == JsonNode::Str(*s),
{
    JsonNode::Str(copy_string(s))
}

fn operation_member(op: &str) -> (r: (String, JsonNode))
    ensures
        r.0@ == "operation"@,
        r.1 matches JsonNode::Str(s) && s@ == op@,
{
    member("operation", JsonNode::Str(op.to_owned()))
}

fn write_change(c: &FileChange) -> (r: JsonNode)
    ensures
        change_written(*c, r),
{
    let mut ps: Vec<(String, JsonNode)> = Vec::new();
    match c {
        FileChange::CreateFolder { path } => {
            ps.push(operation_member("create-directory"));
            ps.push(member("path", text_node(path)));
        },
        FileChange::UpdateFile { path, hash, len, modified, offset, external_source } => {
            ps.push(operation_member("update-file"));
            ps.push(member("path", text_node(path)));
            ps.push(member("hash", text_node(hash)));
            ps.push(member("length", JsonNode::Number(Some(*len))));
            ps.push(member("modified", JsonNode::Number(Some(*modified))));
            ps.push(member("offset", JsonNode::Number(Some(*offset))));
            match external_source {
                Some(s) => {
                    let mut es: Vec<(String, JsonNode)> = Vec::new();
                    es.push(member("provider", text_node(&s.provider)));
                    es.push(member("url", text_node(&s.url)));
                    es.push(member("fallback-to-mcpatch", JsonNode::Bool(s.fallback_to_mcpatch)));
                    ps.push(member("external-source", JsonNode::Object(es)));
                },
                None => {},
            }
        },
        FileChange::DeleteFolder { path } => {
            ps.push(operation_member("delete-directory"));
            ps.push(member("path", text_node(path)));
        },
        FileChange::DeleteFile { path } => {
            ps.push(operation_member("delete-file"));
            ps.push(member("path", text_node(path)));
        },
        FileChange::MoveFile { from, to } => {
            ps.push(operation_member("move-file"));
            ps.push(member("from", text_node(from)));
            ps.push(member("to", text_node(to)));
        },
    }
    JsonNode::Object(ps)
}

impl VersionMeta {
    /// Writes the metadata as its JSON object.
    pub fn serialize(&self) -> (r: JsonNode)
        ensures
            meta_written(*self, r),
    {
        let mut changes: Vec<JsonNode> = Vec::new();
        for i in 0..self.changes.len()
            invariant
                changes@.len() == i,
                forall|k: int| 0 <= k < i ==> change_written(self.changes@[k], #[trigger] changes@[k]),
        {
            changes.push(write_change(&self.changes[i]));
        }
        let mut ps: Vec<(String, JsonNode)> = Vec::new();
        ps.push(member("label", text_node(&self.label)));
        ps.push(member("logs", text_node(&self.logs)));
        ps.push(member("changes", JsonNode::Array(changes)));
        if self.client_hash_deletions.len() > 0 {
            let mut items: Vec<JsonNode> = Vec::new();
            for i in 0..self.client_hash_deletions.len()
                invariant
                    items@.len() == i,
                    forall|k: int|
                        0 <= k < i ==> deletion_written(self.client_hash_deletions@[k], #[trigger] items@[k]),
            {
                let d = &self.client_hash_deletions[i];
                let mut es: Vec<(String, JsonNode)> = Vec::new();
                es.push(member("path", text_node(&d.path)));
                es.push(member("sha256", text_node(&d.sha256)));
                es.push(member("len", JsonNode::Number(Some(d.len))));
                items.push(JsonNode::Object(es));
            }
            ps.push(member("delete-by-hash", JsonNode::Array(items)));
        }
        JsonNode::Object(ps)
    }
}

// ---------------------------------------------------------------------------
// Reading back what was written
// ---------------------------------------------------------------------------

proof fn lemma_lookup_at(ps: Seq<(String, JsonNode)>, k: int, key: Seq<char>)
    requires
        0 <= k < ps.len(),
        ps[k].0@ == key,
        forall|j: int| 0 <= j < k ==> (#[trigger] ps[j]).0@ != key,
    ensures
        lookup(ps, key) == Some(ps[k].1),
    decreases k,
{
    if k > 0 {
        assert forall|j: int| 0 <= j < k - 1 implies (#[trigger] ps.drop_first()[j]).0@ != key by {
            assert(ps.drop_first()[j] == ps[j + 1]);
        }
        lemma_lookup_at(ps.drop_first(), k - 1, key);
    }
}

proof fn lemma_lookup_none(ps: Seq<(String, JsonNode)>, key: Seq<char>)
    requires
        forall|j: int| 0 <= j < ps.len() ==> (#[trigger] ps[j]).0@ != key,
    ensures
        lookup(ps, key) is None,
    decreases ps.len(),
{
    if ps.len() > 0 {
        assert forall|j: int| 0 <= j < ps.len() - 1 implies (#[trigger] ps.drop_first()[j]).0@ != key by {
            assert(ps.drop_first()[j] == ps[j + 1]);
        }
        lemma_lookup_none(ps.drop_first(), key);
    }
}

proof fn lemma_keys_differ()
    ensures
        "operation"@ != "path"@,
        "operation"@ != "hash"@,
        "path"@ != "hash"@,
        "operation"@ != "len"@,
        "path"@ != "len"@,
        "hash"@ != "len"@,
        "operation"@ != "length"@,
        "path"@ != "length"@,
        "hash"@ != "length"@,
        "length"@ != "modified"@,
        "length"@ != "offset"@,
        "length"@ != "external-source"@,
        "operation"@ != "modified"@,
        "path"@ != "modified"@,
        "hash"@ != "modified"@,
        "len"@ != "modified"@,
        "operation"@ != "offset"@,
        "path"@ != "offset"@,
        "hash"@ != "offset"@,
        "len"@ != "offset"@,
        "modified"@ != "offset"@,
        "operation"@ != "external-source"@,
        "path"@ != "external-source"@,
        "hash"@ != "external-source"@,
        "len"@ != "external-source"@,
        "modified"@ != "external-source"@,
        "offset"@ != "external-source"@,
        "operation"@ != "from"@,
        "operation"@ != "to"@,
        "from"@ != "to"@,
        "provider"@ != "url"@,
        "provider"@ != "fallback-to-mcpatch"@,
        "url"@ != "fallback-to-mcpatch"@,
        "path"@ != "sha256"@,
        "sha256"@ != "len"@,
        "label"@ != "logs"@,
        "label"@ != "changes"@,
        "logs"@ != "changes"@,
        "label"@ != "delete-by-hash"@,
        "logs"@ != "delete-by-hash"@,
        "changes"@ != "delete-by-hash"@,
        "update-file"@ != "create-directory"@,
        "delete-directory"@ != "create-directory"@,
        "delete-directory"@ != "update-file"@,
        "delete-file"@ != "create-directory"@,
        "delete-file"@ != "update-file"@,
        "delete-file"@ != "delete-directory"@,
        "move-file"@ != "create-directory"@,
        "move-file"@ != "update-file"@,
        "move-file"@ != "delete-directory"@,
        "move-file"@ != "delete-file"@,
{
    reveal_strlit("operation");
    reveal_strlit("path");
    reveal_strlit("hash");
    reveal_strlit("len");
    reveal_strlit("length");
    reveal_strlit("modified");
    reveal_strlit("offset");
    reveal_strlit("external-source");
    reveal_strlit("from");
    reveal_strlit("to");
    reveal_strlit("provider");
    reveal_strlit("url");
    reveal_strlit("fallback-to-mcpatch");
    reveal_strlit("sha256");
    reveal_strlit("label");
    reveal_strlit("logs");
    reveal_strlit("changes");
    reveal_strlit("delete-by-hash");
    reveal_strlit("create-directory");
    reveal_strlit("update-file");
    reveal_strlit("delete-directory");
    reveal_strlit("delete-file");
    reveal_strlit("move-file");
    assert("operation"@.len() == 9);
    assert("path"@.len() == 4);
    assert("hash"@.len() == 4);
    assert("len"@.len() == 3);
    assert("length"@.len() == 6);
    assert("length"@[0] != "offset"@[0]);
    assert("modified"@.len() == 8);
    assert("offset"@.len() == 6);
    assert("external-source"@.len() == 15);
    assert("from"@.len() == 4);
    assert("to"@.len() == 2);
    assert("provider"@.len() == 8);
    assert("url"@.len() == 3);
    assert("fallback-to-mcpatch"@.len() == 19);
    assert("sha256"@.len() == 6);
    assert("label"@.len() == 5);
    assert("logs"@.len() == 4);
    assert("changes"@.len() == 7);
    assert("delete-by-hash"@.len() == 14);
    assert("create-directory"@.len() == 16);
    assert("update-file"@.len() == 11);
    assert("delete-directory"@.len() == 16);
    assert("delete-file"@.len() == 11);
    assert("move-file"@.len() == 9);
    assert("path"@[0] != "hash"@[0]);
    assert("delete-directory"@[0] != "create-directory"@[0]);
    assert("delete-file"@[0] != "update-file"@[0]);
}

proof fn lemma_source_round_trip(s: ExternalSource, v: JsonNode)
    requires
        source_written(s, v),
    ensures
        parsed_source(v) == Some(s),
{
    lemma_keys_differ();
    let ps = v->Object_0@;
    lemma_lookup_at(ps, 0, "provider"@);
    lemma_lookup_at(ps, 1, "url"@);
    lemma_lookup_at(ps, 2, "fallback-to-mcpatch"@);
}

proof fn lemma_change_round_trip(c: FileChange, v: JsonNode)
    requires
        change_written(c, v),
    ensures
        change_readable(v),
        parsed_change(v) == c,
{
    lemma_keys_differ();
    let ps = v->Object_0@;
    lemma_lookup_at(ps, 0, "operation"@);
    match c {
        FileChange::UpdateFile { path, hash, len, modified, offset, external_source } => {
            lemma_lookup_at(ps, 1, "path"@);
            lemma_lookup_at(ps, 2, "hash"@);
            lemma_lookup_at(ps, 3, "length"@);
            lemma_lookup_at(ps, 4, "modified"@);
            lemma_lookup_at(ps, 5, "offset"@);
            match external_source {
                Some(s) => {
                    lemma_lookup_at(ps, 6, "external-source"@);
                    lemma_source_round_trip(s, ps[6].1);
                },
                None => {
                    lemma_lookup_none(ps, "external-source"@);
                },
            }
        },
        FileChange::MoveFile { from, to } => {
            lemma_lookup_at(ps, 1, "from"@);
            lemma_lookup_at(ps, 2, "to"@);
        },
        _ => {
            lemma_lookup_at(ps, 1, "path"@);
        },
    }
}

proof fn lemma_deletions_round_trip(ds: Seq<ClientHashDeletion>, items: Seq<JsonNode>)
    requires
        items.len() == ds.len(),
        forall|i: int| 0 <= i < items.len() ==> deletion_written(ds[i], #[trigger] items[i]),
    ensures
        parsed_hash_deletions(items) == ds,
    decreases items.len(),
{
    if items.len() > 0 {
        lemma_keys_differ();
        let n = items.len() - 1;
        lemma_deletions_round_trip(ds.drop_last(), items.drop_last());
        assert(deletion_written(ds[n], items[n]));
        let ps = items[n]->Object_0@;
        lemma_lookup_at(ps, 0, "path"@);
        lemma_lookup_at(ps, 1, "sha256"@);
        lemma_lookup_at(ps, 2, "len"@);
        assert(ds =~= ds.drop_last().push(ds[n]));
    }
}

/// Metadata written as JSON reads back as the same metadata: its label,
/// release notes, every file operation (with its external source, if any)
/// and every content-checked deletion.
pub proof fn law_metadata_round_trip(m: VersionMeta, v: JsonNode)
    requires
        meta_written(m, v),
    ensures
        meta_readable(v),
        loaded_meta(v, m),
{
    lemma_keys_differ();
    let ps = v->Object_0@;
    lemma_lookup_at(ps, 0, "label"@);
    lemma_lookup_at(ps, 1, "logs"@);
    lemma_lookup_at(ps, 2, "changes"@);
    let items = ps[2].1->Array_0@;
    assert forall|i: int| 0 <= i < items.len() implies change_readable(#[trigger] items[i]) && parsed_change(
        items[i],
    ) == m.changes@[i] by {
        lemma_change_round_trip(m.changes@[i], items[i]);
    }
    assert(m.changes@ =~= items.map_values(|x: JsonNode| parsed_change(x)));
    if m.client_hash_deletions@.len() > 0 {
        lemma_lookup_at(ps, 3, "delete-by-hash"@);
        lemma_deletions_round_trip(m.client_hash_deletions@, ps[3].1->Array_0@);
    } else {
        lemma_lookup_none(ps, "delete-by-hash"@);
        assert(m.client_hash_deletions@ =~= Seq::<ClientHashDeletion>::empty());
    }
}

} // verus!
