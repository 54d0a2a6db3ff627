//! What the manager shows of a published version: every operation it holds
//! and how many there are of each kind.
use vstd::prelude::*;
use vstd::utf8::encode_utf8;

use crate::pending_changes::opt_view;
use crate::text::{chars_of, copy_string, string_of, trim, trim_chars};
use crate::version_meta::{ClientHashDeletion, FileChange, VersionMeta};

verus! {

/// The request for one version's history.
#[derive(Clone, Debug)]
pub struct RequestBody {
    pub label: String,
}

/// How many operations of each kind a version holds.
#[derive(Clone, Debug)]
pub struct ChangeCounts {
    pub total: usize,
    pub files: usize,
    pub deletions: usize,
    pub moves: usize,
    pub directories: usize,
    pub hash_deletions: usize,
}

impl Default for ChangeCounts {
    fn default() -> (r: Self)
        ensures
            r.total == 0 && r.files == 0 && r.deletions == 0 && r.moves == 0 && r.directories == 0
                && r.hash_deletions == 0,
    {
        ChangeCounts { total: 0, files: 0, deletions: 0, moves: 0, directories: 0, hash_deletions: 0 }
    }
}

/// One operation of a version as the manager shows it.
#[derive(Clone, Debug)]
pub struct HistoryChange {
    pub operation: String,
    pub path: Option<String>,
    pub from: Option<String>,
    pub to: Option<String>,
    pub hash: Option<String>,
    pub len: Option<u64>,
    pub modified: Option<u64>,
    pub external_provider: Option<String>,
}

/// The history of one version.
#[derive(Clone, Debug)]
pub struct ResponseBody {
    pub label: String,
    pub filename: String,
    pub package_hash: String,
    pub archive_size: u64,
    pub payload_size: u64,
    pub change_logs: String,
    pub counts: ChangeCounts,
    pub changes: Vec<HistoryChange>,
}

/// A history line as a value.
pub struct ChangeView {
    pub operation: Seq<char>,
    pub path: Option<Seq<char>>,
    pub from: Option<Seq<char>>,
    pub to: Option<Seq<char>>,
    pub hash: Option<Seq<char>>,
    pub len: Option<u64>,
    pub modified: Option<u64>,
    pub external_provider: Option<Seq<char>>,
}

impl View for HistoryChange {
    type V = ChangeView;

    open spec fn view(&self) -> ChangeView {
        ChangeView {
            operation: self.operation@,
            path: opt_view(self.path),
            from: opt_view(self.from),
            to: opt_view(self.to),
            hash: opt_view(self.hash),
            len: self.len,
            modified: self.modified,
            external_provider: opt_view(self.external_provider),
        }
    }
}

pub open spec fn simple_view(operation: Seq<char>, path: Seq<char>) -> ChangeView {
    ChangeView {
        operation,
        path: Some(path),
        from: None,
        to: None,
        hash: None,
        len: None,
        modified: None,
        external_provider: None,
    }
}

/// The history line of an operation.
pub open spec fn change_view_of(c: FileChange) -> ChangeView {
    match c {
        FileChange::CreateFolder { path } => simple_view("create-directory"@, path@),
        FileChange::UpdateFile { path, hash, len, modified, external_source, .. } => ChangeView {
            operation: "update-file"@,
            path: Some(path@),
            from: None,
            to: None,
            hash: Some(hash@),
            len: Some(len),
            modified: Some(modified),
            external_provider: match external_source {
                Some(s) => Some(s.provider@),
                None => None,
            },
        },
        FileChange::DeleteFolder { path } => simple_view("delete-directory"@, path@),
        FileChange::DeleteFile { path } => simple_view("delete-file"@, path@),
        FileChange::MoveFile { from, to } => ChangeView {
            operation: "move-file"@,
            path: None,
            from: Some(from@),
            to: Some(to@),
            hash: None,
            len: None,
            modified: None,
            external_provider: None,
        },
    }
}

pub open spec fn hash_view_of(d: ClientHashDeletion) -> ChangeView {
    ChangeView {
        operation: "delete-file-by-hash"@,
        path: Some(d.path@),
        from: None,
        to: None,
        hash: Some(d.sha256@),
        len: Some(d.len),
        modified: None,
        external_provider: None,
    }
}

/// The counter an operation adds to.
pub open spec fn counted(before: ChangeCounts, after: ChangeCounts, c: FileChange) -> bool {
    &&& after.total == before.total
    &&& after.hash_deletions == before.hash_deletions
    &&& after.files == before.files + if c is UpdateFile {
        1int
    } else {
        0int
    }
    &&& after.deletions == before.deletions + if c is DeleteFile {
        1int
    } else {
        0int
    }
    &&& after.moves == before.moves + if c is MoveFile {
        1int
    } else {
        0int
    }
    &&& after.directories == before.directories + if c is CreateFolder || c is DeleteFolder {
        1int
    } else {
        0int
    }
}

pub fn simple_change(operation: &str, path: &str) -> (r: HistoryChange)
    ensures
        r@ == simple_view(operation@, path@),
{
    HistoryChange {
        operation: operation.to_owned(),
        path: Some(path.to_owned()),
        from: None,
        to: None,
        hash: None,
        len: None,
        modified: None,
        external_provider: None,
    }
}

/// The history line of an operation; the counter of its kind grows by one.
pub fn history_change(change: &FileChange, counts: &mut ChangeCounts) -> (r: HistoryChange)
    requires
        old(counts).files < usize::MAX,
        old(counts).deletions < usize::MAX,
        old(counts).moves < usize::MAX,
        old(counts).directories < usize::MAX,
    ensures
        r@ == change_view_of(*change),
        counted(*old(counts), *final(counts), *change),
{
    match change {
        FileChange::CreateFolder { path } => {
            counts.directories = counts.directories + 1;
            simple_change("create-directory", path.as_str())
        },
        FileChange::UpdateFile { path, hash, len, modified, external_source, .. } => {
            counts.files = counts.files + 1;
            HistoryChange {
                operation: "update-file".to_owned(),
                path: Some(copy_string(path)),
                from: None,
                to: None,
                hash: Some(copy_string(hash)),
                len: Some(*len),
                modified: Some(*modified),
                external_provider: match external_source {
                    Some(s) => Some(copy_string(&s.provider)),
                    None => None,
                },
            }
        },
        FileChange::DeleteFolder { path } => {
            counts.directories = counts.directories + 1;
            simple_change("delete-directory", path.as_str())
        },
        FileChange::DeleteFile { path } => {
            counts.deletions = counts.deletions + 1;
            simple_change("delete-file", path.as_str())
        },
        FileChange::MoveFile { from, to } => {
            counts.moves = counts.moves + 1;
            HistoryChange {
                operation: "move-file".to_owned(),
                path: None,
                from: Some(copy_string(from)),
                to: Some(copy_string(to)),
                hash: None,
                len: None,
                modified: None,
                external_provider: None,
            }
        },
    }
}

/// The history line of a content-checked deletion; its counter grows by one.
pub fn hash_deletion(deletion: &ClientHashDeletion, counts: &mut ChangeCounts) -> (r: HistoryChange)
    requires
        old(counts).hash_deletions < usize::MAX,
    ensures
        r@ == hash_view_of(*deletion),
        *final(counts) == (ChangeCounts {
            hash_deletions: (old(counts).hash_deletions + 1) as usize,
            ..*old(counts)
        }),
{
    counts.hash_deletions = counts.hash_deletions + 1;
    HistoryChange {
        operation: "delete-file-by-hash".to_owned(),
        path: Some(copy_string(&deletion.path)),
        from: None,
        to: None,
        hash: Some(copy_string(&deletion.sha256)),
        len: Some(deletion.len),
        modified: None,
        external_provider: None,
    }
}

/// How many operations of a kind a list holds.
pub open spec fn count_kind(s: Seq<FileChange>, kind: int) -> nat
    decreases s.len(),
{
    if s.len() == 0 {
        0
    } else {
        count_kind(s.drop_last(), kind) + if kind_of(s.last()) == kind {
            1nat
        } else {
            0nat
        }
    }
}

/// 0 for directories, 1 for written files, 2 for deletions, 3 for moves.
pub open spec fn kind_of(c: FileChange) -> int {
    match c {
        FileChange::CreateFolder { .. } => 0,
        FileChange::DeleteFolder { .. } => 0,
        FileChange::UpdateFile { .. } => 1,
        FileChange::DeleteFile { .. } => 2,
        FileChange::MoveFile { .. } => 3,
    }
}

proof fn lemma_count_kind_bound(s: Seq<FileChange>, kind: int)
    ensures
        count_kind(s, kind) <= s.len(),
    decreases s.len(),
{
    if s.len() > 0 {
        lemma_count_kind_bound(s.drop_last(), kind);
    }
}

/// The bytes of file content a version carries.
pub open spec fn payload_of(s: Seq<FileChange>) -> int
    decreases s.len(),
{
    if s.len() == 0 {
        0
    } else {
        payload_of(s.drop_last()) + match s.last() {
            FileChange::UpdateFile { len, .. } => len as int,
            _ => 0int,
        }
    }
}

proof fn lemma_payload_prefix(s: Seq<FileChange>, m: int)
    requires
        0 <= m <= s.len(),
    ensures
        payload_of(s.take(m)) <= payload_of(s),
    decreases s.len(),
{
    if m < s.len() {
        assert(s.drop_last().take(m) =~= s.take(m));
        lemma_payload_prefix(s.drop_last(), m);
    } else {
        assert(s.take(m) =~= s);
    }
}

pub open spec fn history_views(s: Seq<HistoryChange>) -> Seq<ChangeView> {
    s.map_values(|c: HistoryChange| c@)
}

/// The history of a version: every operation in order, then every
/// content-checked deletion, with their counts and the content size.
pub fn history_response(
    filename: String,
    package_hash: String,
    archive_size: u64,
    meta: VersionMeta,
) -> (r: ResponseBody)
    requires
        payload_of(meta.changes@) <= u64::MAX,
        meta.changes@.len() + meta.client_hash_deletions@.len() <= usize::MAX,
    ensures
        r.label == meta.label,
        r.filename == filename,
        r.package_hash == package_hash,
        r.archive_size == archive_size,
        r.change_logs == meta.logs,
        history_views(r.changes@) == meta.changes@.map_values(|c: FileChange| change_view_of(c))
            + meta.client_hash_deletions@.map_values(|d: ClientHashDeletion| hash_view_of(d)),
        r.counts.total == meta.changes@.len() + meta.client_hash_deletions@.len(),
        r.counts.directories == count_kind(meta.changes@, 0),
        r.counts.files == count_kind(meta.changes@, 1),
        r.counts.deletions == count_kind(meta.changes@, 2),
        r.counts.moves == count_kind(meta.changes@, 3),
        r.counts.hash_deletions == meta.client_hash_deletions@.len(),
        r.payload_size == payload_of(meta.changes@),
{
    let mut counts = ChangeCounts::default();
    let mut changes: Vec<HistoryChange> = Vec::new();
    let mut payload: u64 = 0;
    let cs = &meta.changes;
    for i in 0..cs.len()
        invariant
            payload_of(cs@) <= u64::MAX,
            cs@ == meta.changes@,
            changes@.len() == i,
            forall|k: int| 0 <= k < i ==> #[trigger] changes@[k]@ == change_view_of(cs@[k]),
            counts.total == 0,
            counts.hash_deletions == 0,
            counts.directories == count_kind(cs@.take(i as int), 0),
            counts.files == count_kind(cs@.take(i as int), 1),
            counts.deletions == count_kind(cs@.take(i as int), 2),
            counts.moves == count_kind(cs@.take(i as int), 3),
            payload == payload_of(cs@.take(i as int)),
    {
        assert(cs@.take(i + 1).drop_last() =~= cs@.take(i as int));
        proof {
            lemma_count_kind_bound(cs@.take(i as int), 0);
            lemma_count_kind_bound(cs@.take(i as int), 1);
            lemma_count_kind_bound(cs@.take(i as int), 2);
            lemma_count_kind_bound(cs@.take(i as int), 3);
            lemma_payload_prefix(cs@, i + 1);
        }
        let c = &cs[i];
        changes.push(history_change(c, &mut counts));
        match c {
            FileChange::UpdateFile { len, .. } => {
                payload = payload + *len;
            },
            _ => {},
        }
    }
    assert(cs@.take(cs@.len() as int) =~= cs@);
    let n = cs.len();
    let ds = &meta.client_hash_deletions;
    for j in 0..ds.len()
        invariant
            n == meta.changes@.len(),
            ds@ == meta.client_hash_deletions@,
            n + ds@.len() <= usize::MAX,
            changes@.len() == n + j,
            forall|k: int| 0 <= k < n ==> #[trigger] changes@[k]@ == change_view_of(meta.changes@[k]),
            forall|k: int| 0 <= k < j ==> #[trigger] changes@[n + k]@ == hash_view_of(ds@[k]),
            counts.hash_deletions == j,
            counts.total == 0,
            counts.directories == count_kind(meta.changes@, 0),
            counts.files == count_kind(meta.changes@, 1),
            counts.deletions == count_kind(meta.changes@, 2),
            counts.moves == count_kind(meta.changes@, 3),
    {
        changes.push(hash_deletion(&ds[j], &mut counts));
        assert(changes@[n + j]@ == hash_view_of(ds@[j as int]));
    }
    counts.total = changes.len();
    assert(history_views(changes@) =~= meta.changes@.map_values(|c: FileChange| change_view_of(c))
        + meta.client_hash_deletions@.map_values(|d: ClientHashDeletion| hash_view_of(d))) by {
        assert forall|k: int| 0 <= k < changes@.len() implies #[trigger] history_views(changes@)[k]
            == (meta.changes@.map_values(|c: FileChange| change_view_of(c))
            + meta.client_hash_deletions@.map_values(|d: ClientHashDeletion| hash_view_of(d)))[k] by {
            if k >= n {
                assert(changes@[n + (k - n)]@ == hash_view_of(ds@[k - n]));
            }
        }
    }
    ResponseBody {
        label: meta.label,
        filename,
        package_hash,
        archive_size,
        payload_size: payload,
        change_logs: meta.logs,
        counts,
        changes,
    }
}

/// A control character (Unicode category Cc), as `char::is_control` tests.
pub open spec fn is_control(c: char) -> bool {
    c <= '\u{1f}' || ('\u{7f}' <= c && c <= '\u{9f}')
}

/// A requested label: trimmed, not empty, at most 240 UTF-8 bytes, without
/// control characters.
pub open spec fn history_label_ok(label: Seq<char>) -> bool {
    let t = trim(label);
    t.len() > 0 && encode_utf8(t).len() <= 240 && forall|i: int|
        0 <= i < t.len() ==> !is_control(#[trigger] t[i])
}

/// Checks the label of a history request and returns it trimmed.
pub fn history_label(label: &str) -> (r: Result<String, String>)
    ensures
        r is Ok <==> history_label_ok(label@),
        r matches Ok(l) ==> l@ == trim(label@),
        r matches Err(e) ==> e@ == "版本号无效"@,
{
    let t = string_of(&trim_chars(&chars_of(label)));
    let cs = chars_of(t.as_str());
    if cs.len() == 0 || t.as_str().as_bytes().len() > 240 {
        return Err("版本号无效".to_owned());
    }
    for i in 0..cs.len()
        invariant
            cs@ == t@,
            t@ == trim(label@),
            forall|k: int| 0 <= k < i ==> !is_control(#[trigger] cs@[k]),
    {
        let c = cs[i];
        if c <= '\u{1f}' || ('\u{7f}' <= c && c <= '\u{9f}') {
            assert(is_control(cs@[i as int]));
            return Err("版本号无效".to_owned());
        }
    }
    Ok(t)
}

/// The path an operation acts on, where it acts on one path.
pub open spec fn acted_path(c: FileChange) -> Option<Seq<char>> {
    match c {
        FileChange::CreateFolder { path } => Some(path@),
        FileChange::UpdateFile { path, .. } => Some(path@),
        FileChange::DeleteFolder { path } => Some(path@),
        FileChange::DeleteFile { path } => Some(path@),
        FileChange::MoveFile { .. } => None,
    }
}

/// A version's history reports each operation where it acts: a move from its
/// source path to its destination path (and with no single path), any other
/// operation at its path; each content-checked deletion at its path with its
/// fingerprint. `lines` is the history that `history_response` reports.
pub proof fn law_history_reports_paths(
    changes: Seq<FileChange>,
    deletions: Seq<ClientHashDeletion>,
    lines: Seq<ChangeView>,
)
    requires
        lines == changes.map_values(|c: FileChange| change_view_of(c)) + deletions.map_values(
            |d: ClientHashDeletion| hash_view_of(d),
        ),
    ensures
        lines.len() == changes.len() + deletions.len(),
        forall|k: int|
            0 <= k < changes.len() ==> match #[trigger] changes[k] {
                FileChange::MoveFile { from, to } => lines[k].from == Some(from@) && lines[k].to == Some(to@)
                    && lines[k].path is None,
                _ => lines[k].path == acted_path(changes[k]) && lines[k].from is None && lines[k].to is None,
            },
        forall|j: int|
            0 <= j < deletions.len() ==> lines[changes.len() + j].path == Some((#[trigger] deletions[j]).path@)
                && lines[changes.len() + j].hash == Some(deletions[j].sha256@) && lines[changes.len()
                + j].len == Some(deletions[j].len),
{
    let n = changes.len();
    assert forall|k: int| 0 <= k < changes.len() implies match #[trigger] changes[k] {
        FileChange::MoveFile { from, to } => lines[k].from == Some(from@) && lines[k].to == Some(to@)
            && lines[k].path is None,
        _ => lines[k].path == acted_path(changes[k]) && lines[k].from is None && lines[k].to is None,
    } by {
        assert(lines[k] == change_view_of(changes[k]));
    }
    assert forall|j: int| 0 <= j < deletions.len() implies lines[n + j].path == Some(
        (#[trigger] deletions[j]).path@,
    ) && lines[n + j].hash == Some(deletions[j].sha256@) && lines[n + j].len == Some(deletions[j].len) by {
        assert(lines[n + j] == hash_view_of(deletions[j]));
    }
}

} // verus!
