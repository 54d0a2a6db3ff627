//! Planning a pack: which file operations and content-checked deletions the
//! next version publishes, how the administrator previews them, and which of
//! them a confirmed selection keeps.
use vstd::prelude::*;
use vstd::utf8::encode_utf8;

use crate::digest::{flatten, hex_lower, sha256_chunks, sha256_hex, sha256_of};
use crate::order::{is_permutation, keeps_ties_in_order, lex_lt, sort_by_key, sorted_by_key, Keyed};
use crate::pending_changes::{listed, listed_exec, opt_view};
use crate::text::{
    all_hex, bytes_of, chars_all_hex, chars_eq, chars_of, char_is_ws, copy_string, dec, decimal,
    eq_ignore_case, has_char, is_ws, push_str, str_eq, str_eq_ignore_case, string_of, trim,
    trim_chars,
};
use crate::version_meta::{ClientHashDeletion, FileChange};

verus! {

/// The updater the administrator places in the workspace; it is never published itself.
pub const UPDATER_SOURCE_PATH: &'static str = ".minecraft/autoupdate/AutoUpdateClient.exe";

/// The list of updater executables a client may start, newest first.
pub const UPDATER_STARTLIST_PATH: &'static str = ".minecraft/autoupdate/startlist.txt";

pub const UPDATER_BASE_NAME: &'static str = "AutoUpdateClient.exe";

pub const UPDATER_VERSION_PREFIX: &'static str = "AutoUpdateClient-";

/// One line of the pack preview.
#[derive(Clone, Debug)]
pub struct PackChangePreview {
    pub id: String,
    pub operation: String,
    pub path: Option<String>,
    pub from: Option<String>,
    pub to: Option<String>,
    pub hash: Option<String>,
    pub len: Option<u64>,
    pub explicit: bool,
}

/// How many previewed operations there are of each kind.
#[derive(Clone, Debug)]
pub struct PackChangeCounts {
    pub create_directory: usize,
    pub add_file: usize,
    pub update_file: usize,
    pub move_file: usize,
    pub delete_file: usize,
    pub delete_directory: usize,
    pub delete_by_hash: usize,
}

impl Default for PackChangeCounts {
    fn default() -> (r: Self)
        ensures
            r.create_directory == 0 && r.add_file == 0 && r.update_file == 0 && r.move_file == 0
                && r.delete_file == 0 && r.delete_directory == 0 && r.delete_by_hash == 0,
    {
        PackChangeCounts {
            create_directory: 0,
            add_file: 0,
            update_file: 0,
            move_file: 0,
            delete_file: 0,
            delete_directory: 0,
            delete_by_hash: 0,
        }
    }
}

/// What the administrator confirms before a pack.
#[derive(Clone, Debug)]
pub struct PackPreview {
    pub confirmation_required: bool,
    pub fingerprint: String,
    pub changes: Vec<PackChangePreview>,
    pub counts: PackChangeCounts,
}

/// A planned pack. The path lists hold each path once.
pub struct PackPlan {
    pub preview: PackPreview,
    pub changes: Vec<FileChange>,
    pub pending_deletions: Vec<String>,
    pub hash_deletions: Vec<ClientHashDeletion>,
    pub pending_hash_deletions: Vec<String>,
    pub required_change_ids: Vec<String>,
}

/// What a confirmed pack publishes.
pub struct PackSelection {
    pub changes: Vec<FileChange>,
    pub hash_deletions: Vec<ClientHashDeletion>,
    pub emitted_pending_deletions: Vec<String>,
    pub emitted_pending_hash_deletions: Vec<String>,
}

// ---------------------------------------------------------------------------
// Version labels and updater names
// ---------------------------------------------------------------------------

pub open spec fn has_ws(s: Seq<char>) -> bool {
    exists|i: int| 0 <= i < s.len() && #[trigger] is_ws(s[i])
}

/// Why a version label is refused, if it is.
pub open spec fn version_label_error(label: Seq<char>) -> Option<Seq<char>> {
    if trim(label).len() == 0 {
        Some("版本号不能为空"@)
    } else if has_ws(trim(label)) {
        Some("版本号不能包含内部空白字符"@)
    } else {
        None
    }
}

/// Trims a version label and refuses one that is empty or holds white space.
pub fn normalize_version_label(version_label: &str) -> (r: Result<String, String>)
    ensures
        match version_label_error(version_label@) {
            Some(e) => r is Err && r->Err_0@ == e,
            None => r is Ok && r->Ok_0@ == trim(version_label@),
        },
{
    let t = trim_chars(&chars_of(version_label));
    if t.len() == 0 {
        return Err("版本号不能为空".to_owned());
    }
    for i in 0..t.len()
        invariant
            t@ == trim(version_label@),
            forall|k: int| 0 <= k < i ==> !is_ws(#[trigger] t@[k]),
    {
        if char_is_ws(t[i]) {
            assert(is_ws(t@[i as int]));
            return Err("版本号不能包含内部空白字符".to_owned());
        }
    }
    Ok(string_of(&t))
}

/// `AutoUpdateClient.exe` in any ASCII case, or `AutoUpdateClient-<hex>.exe`
/// with 7 to 64 hexadecimal digits.
pub open spec fn safe_updater_entry(e: Seq<char>) -> bool {
    let p = UPDATER_VERSION_PREFIX@;
    let s = ".exe"@;
    ||| eq_ignore_case(e, UPDATER_BASE_NAME@)
    ||| (p.len() + s.len() <= e.len() && e.subrange(0, p.len() as int) == p && e.subrange(
        e.len() - s.len(),
        e.len() as int,
    ) == s && 7 <= e.len() - p.len() - s.len() <= 64 && all_hex(
        e.subrange(p.len() as int, e.len() - s.len()),
    ))
}

/// May a client start this entry of the startlist?
pub fn is_safe_updater_entry(entry: &str) -> (r: bool)
    ensures
        r == safe_updater_entry(entry@),
{
    if str_eq_ignore_case(entry, UPDATER_BASE_NAME) {
        return true;
    }
    let e = chars_of(entry);
    let p = chars_of(UPDATER_VERSION_PREFIX);
    let s = chars_of(".exe");
    let n = e.len();
    if n < p.len() || n - p.len() < s.len() {
        return false;
    }
    let head = crate::text::slice_chars(&e, 0, p.len());
    let tail = crate::text::slice_chars(&e, n - s.len(), n);
    let middle = crate::text::slice_chars(&e, p.len(), n - s.len());
    chars_eq(&head, &p) && chars_eq(&tail, &s) && 7 <= middle.len() && middle.len() <= 64
        && chars_all_hex(&middle)
}

// ---------------------------------------------------------------------------
// File operations
// ---------------------------------------------------------------------------

/// Does the operation write `expected` (create it, write it, or move onto it)?
pub open spec fn writes_path(c: FileChange, expected: Seq<char>) -> bool {
    match c {
        FileChange::CreateFolder { path } => path@ == expected,
        FileChange::UpdateFile { path, .. } => path@ == expected,
        FileChange::MoveFile { to, .. } => to@ == expected,
        _ => false,
    }
}

pub fn change_writes_path(change: &FileChange, expected: &str) -> (r: bool)
    ensures
        r == writes_path(*change, expected@),
{
    match change {
        FileChange::CreateFolder { path } => str_eq(path.as_str(), expected),
        FileChange::UpdateFile { path, .. } => str_eq(path.as_str(), expected),
        FileChange::MoveFile { to, .. } => str_eq(to.as_str(), expected),
        _ => false,
    }
}

/// The one path an operation concerns; a move has two and gives none.
pub open spec fn path_of(c: FileChange) -> Option<Seq<char>> {
    match c {
        FileChange::CreateFolder { path } => Some(path@),
        FileChange::UpdateFile { path, .. } => Some(path@),
        FileChange::DeleteFolder { path } => Some(path@),
        FileChange::DeleteFile { path } => Some(path@),
        FileChange::MoveFile { .. } => None,
    }
}

pub fn change_path(change: &FileChange) -> (r: Option<&str>)
    ensures
        match r {
            Some(p) => path_of(*change) == Some(p@),
            None => path_of(*change) is None,
        },
{
    match change {
        FileChange::CreateFolder { path } => Some(path.as_str()),
        FileChange::UpdateFile { path, .. } => Some(path.as_str()),
        FileChange::DeleteFolder { path } => Some(path.as_str()),
        FileChange::DeleteFile { path } => Some(path.as_str()),
        FileChange::MoveFile { .. } => None,
    }
}

/// Does the operation concern `expected`, without ASCII case?
pub open spec fn touches_path(c: FileChange, expected: Seq<char>) -> bool {
    match c {
        FileChange::MoveFile { from, to } => eq_ignore_case(from@, expected) || eq_ignore_case(
            to@,
            expected,
        ),
        FileChange::CreateFolder { path } => eq_ignore_case(path@, expected),
        FileChange::UpdateFile { path, .. } => eq_ignore_case(path@, expected),
        FileChange::DeleteFolder { path } => eq_ignore_case(path@, expected),
        FileChange::DeleteFile { path } => eq_ignore_case(path@, expected),
    }
}

pub fn change_touches_path(change: &FileChange, expected: &str) -> (r: bool)
    ensures
        r == touches_path(*change, expected@),
{
    match change {
        FileChange::MoveFile { from, to } => str_eq_ignore_case(from.as_str(), expected)
            || str_eq_ignore_case(to.as_str(), expected),
        FileChange::CreateFolder { path } => str_eq_ignore_case(path.as_str(), expected),
        FileChange::UpdateFile { path, .. } => str_eq_ignore_case(path.as_str(), expected),
        FileChange::DeleteFolder { path } => str_eq_ignore_case(path.as_str(), expected),
        FileChange::DeleteFile { path } => str_eq_ignore_case(path.as_str(), expected),
    }
}

/// The text that identifies an operation; its leading digit is the order in
/// which a client replays operations of different kinds.
pub open spec fn canonical_of(c: FileChange) -> Seq<char> {
    match c {
        FileChange::DeleteFile { path } => "1|delete-file|"@ + path@,
        FileChange::CreateFolder { path } => "2|create-directory|"@ + path@,
        FileChange::MoveFile { from, to } => "3|move-file|"@ + from@ + "|"@ + to@,
        FileChange::UpdateFile { path, hash, len, .. } => "4|update-file|"@ + path@ + "|"@
            + hash@ + "|"@ + dec(len as nat),
        FileChange::DeleteFolder { path } => "5|delete-directory|"@ + path@,
    }
}

pub fn canonical_change(change: &FileChange) -> (r: String)
    ensures
        r@ == canonical_of(*change),
{
    match change {
        FileChange::DeleteFile { path } => {
            let mut s = "1|delete-file|".to_owned();
            push_str(&mut s, path.as_str());
            s
        },
        FileChange::CreateFolder { path } => {
            let mut s = "2|create-directory|".to_owned();
            push_str(&mut s, path.as_str());
            s
        },
        FileChange::MoveFile { from, to } => {
            let mut s = "3|move-file|".to_owned();
            push_str(&mut s, from.as_str());
            push_str(&mut s, "|");
            push_str(&mut s, to.as_str());
            s
        },
        FileChange::UpdateFile { path, hash, len, .. } => {
            let mut s = "4|update-file|".to_owned();
            push_str(&mut s, path.as_str());
            push_str(&mut s, "|");
            push_str(&mut s, hash.as_str());
            push_str(&mut s, "|");
            let n = decimal(*len);
            push_str(&mut s, n.as_str());
            s
        },
        FileChange::DeleteFolder { path } => {
            let mut s = "5|delete-directory|".to_owned();
            push_str(&mut s, path.as_str());
            s
        },
    }
}

pub open spec fn canonical_hash_deletion_of(d: ClientHashDeletion) -> Seq<char> {
    "6|delete-file-by-hash|"@ + d.path@ + "|"@ + d.sha256@ + "|"@ + dec(d.len as nat)
}

pub fn canonical_hash_deletion(deletion: &ClientHashDeletion) -> (r: String)
    ensures
        r@ == canonical_hash_deletion_of(*deletion),
{
    let mut s = "6|delete-file-by-hash|".to_owned();
    push_str(&mut s, deletion.path.as_str());
    push_str(&mut s, "|");
    push_str(&mut s, deletion.sha256.as_str());
    push_str(&mut s, "|");
    let n = decimal(deletion.len);
    push_str(&mut s, n.as_str());
    s
}

/// The identifier of an operation: the SHA-256 of its canonical text.
pub open spec fn change_id_of(c: FileChange) -> Seq<char> {
    hex_lower(sha256_of(encode_utf8(canonical_of(c))))
}

pub open spec fn hash_deletion_id_of(d: ClientHashDeletion) -> Seq<char> {
    hex_lower(sha256_of(encode_utf8(canonical_hash_deletion_of(d))))
}

pub fn change_id(change: &FileChange) -> (r: String)
    ensures
        r@ == change_id_of(*change),
{
    let text = canonical_change(change);
    let bytes = bytes_of(text.as_str());
    sha256_hex(bytes.as_slice())
}

pub fn hash_deletion_id(deletion: &ClientHashDeletion) -> (r: String)
    ensures
        r@ == hash_deletion_id_of(*deletion),
{
    let text = canonical_hash_deletion(deletion);
    let bytes = bytes_of(text.as_str());
    sha256_hex(bytes.as_slice())
}

/// The bytes a fingerprint covers: the label, the notes, and each operation
/// and hash deletion in canonical form, separated by zero bytes.
pub open spec fn fingerprint_input(
    label: Seq<char>,
    logs: Seq<char>,
    changes: Seq<FileChange>,
    deletions: Seq<ClientHashDeletion>,
) -> Seq<u8> {
    encode_utf8(label) + seq![0u8] + encode_utf8(logs) + changes_input(changes) + deletions_input(
        deletions,
    )
}

pub open spec fn changes_input(changes: Seq<FileChange>) -> Seq<u8>
    decreases changes.len(),
{
    if changes.len() == 0 {
        Seq::empty()
    } else {
        changes_input(changes.drop_last()) + seq![0u8] + encode_utf8(canonical_of(changes.last()))
    }
}

pub open spec fn deletions_input(deletions: Seq<ClientHashDeletion>) -> Seq<u8>
    decreases deletions.len(),
{
    if deletions.len() == 0 {
        Seq::empty()
    } else {
        deletions_input(deletions.drop_last()) + seq![0u8] + encode_utf8(
            canonical_hash_deletion_of(deletions.last()),
        )
    }
}

fn push_chunk(chunks: &mut Vec<Vec<u8>>, chunk: Vec<u8>)
    ensures
        flatten(final(chunks)@) == flatten(old(chunks)@) + chunk@,
        final(chunks)@ == old(chunks)@.push(chunk),
{
    let ghost before = chunks@;
    chunks.push(chunk);
    assert(chunks@.drop_last() =~= before);
}

/// The SHA-256 of everything a pack publishes, in lowercase hexadecimal.
pub fn fingerprint(
    version_label: &str,
    change_logs: &str,
    changes: &Vec<FileChange>,
    hash_deletions: &Vec<ClientHashDeletion>,
) -> (r: String)
    ensures
        r@ == hex_lower(
            sha256_of(fingerprint_input(version_label@, change_logs@, changes@, hash_deletions@)),
        ),
{
    let mut chunks: Vec<Vec<u8>> = Vec::new();
    assert(flatten(chunks@) =~= Seq::<u8>::empty());
    push_chunk(&mut chunks, bytes_of(version_label));
    push_chunk(&mut chunks, vec![0u8]);
    push_chunk(&mut chunks, bytes_of(change_logs));
    let ghost head = flatten(chunks@);
    assert(head =~= encode_utf8(version_label@) + seq![0u8] + encode_utf8(change_logs@));
    for i in 0..changes.len()
        invariant
            flatten(chunks@) == head + changes_input(changes@.take(i as int)),
    {
        let text = canonical_change(&changes[i]);
        push_chunk(&mut chunks, vec![0u8]);
        push_chunk(&mut chunks, bytes_of(text.as_str()));
        assert(changes@.take(i + 1).drop_last() =~= changes@.take(i as int));
        assert(flatten(chunks@) =~= head + changes_input(changes@.take(i + 1)));
    }
    assert(changes@.take(changes@.len() as int) =~= changes@);
    let ghost mid = flatten(chunks@);
    for i in 0..hash_deletions.len()
        invariant
            flatten(chunks@) == mid + deletions_input(hash_deletions@.take(i as int)),
    {
        let text = canonical_hash_deletion(&hash_deletions[i]);
        push_chunk(&mut chunks, vec![0u8]);
        push_chunk(&mut chunks, bytes_of(text.as_str()));
        assert(hash_deletions@.take(i + 1).drop_last() =~= hash_deletions@.take(i as int));
        assert(flatten(chunks@) =~= mid + deletions_input(hash_deletions@.take(i + 1)));
    }
    assert(hash_deletions@.take(hash_deletions@.len() as int) =~= hash_deletions@);
    assert(flatten(chunks@) =~= fingerprint_input(
        version_label@,
        change_logs@,
        changes@,
        hash_deletions@,
    ));
    let digest = sha256_chunks(&chunks);
    crate::digest::hex_string(&digest)
}

// ---------------------------------------------------------------------------
// Previews
// ---------------------------------------------------------------------------

/// A preview line as a value.
pub struct PreviewView {
    pub id: Seq<char>,
    pub operation: Seq<char>,
    pub path: Option<Seq<char>>,
    pub from: Option<Seq<char>>,
    pub to: Option<Seq<char>>,
    pub hash: Option<Seq<char>>,
    pub len: Option<u64>,
    pub explicit: bool,
}

impl View for PackChangePreview {
    type V = PreviewView;

    open spec fn view(&self) -> PreviewView {
        PreviewView {
            id: self.id@,
            operation: self.operation@,
            path: opt_view(self.path),
            from: opt_view(self.from),
            to: opt_view(self.to),
            hash: opt_view(self.hash),
            len: self.len,
            explicit: self.explicit,
        }
    }
}

pub open spec fn previews_view(s: Seq<PackChangePreview>) -> Seq<PreviewView> {
    s.map_values(|p: PackChangePreview| p@)
}

/// The name of an operation in the preview; a written file is an addition
/// unless the path already existed.
pub open spec fn operation_of(c: FileChange, existed_before: bool) -> Seq<char> {
    match c {
        FileChange::CreateFolder { .. } => "create-directory"@,
        FileChange::UpdateFile { .. } => if existed_before {
            "update-file"@
        } else {
            "add-file"@
        },
        FileChange::DeleteFolder { .. } => "delete-directory"@,
        FileChange::DeleteFile { .. } => "delete-file"@,
        FileChange::MoveFile { .. } => "move-file"@,
    }
}

/// The preview line of an operation.
pub open spec fn preview_of(
    c: FileChange,
    explicit_paths: Seq<String>,
    existed_before: bool,
) -> PreviewView {
    PreviewView {
        id: change_id_of(c),
        operation: operation_of(c, existed_before),
        path: path_of(c),
        from: match c {
            FileChange::MoveFile { from, .. } => Some(from@),
            _ => None,
        },
        to: match c {
            FileChange::MoveFile { to, .. } => Some(to@),
            _ => None,
        },
        hash: match c {
            FileChange::UpdateFile { hash, .. } => Some(hash@),
            _ => None,
        },
        len: match c {
            FileChange::UpdateFile { len, .. } => Some(len),
            _ => None,
        },
        explicit: match path_of(c) {
            Some(p) => listed(explicit_paths, p),
            None => false,
        },
    }
}

pub fn preview_change(
    change: &FileChange,
    explicit_paths: &Vec<String>,
    existed_before: bool,
) -> (r: PackChangePreview)
    ensures
        r@ == preview_of(*change, explicit_paths@, existed_before),
{
    let id = change_id(change);
    match change {
        FileChange::CreateFolder { path } => PackChangePreview {
            id,
            operation: "create-directory".to_owned(),
            path: Some(copy_string(path)),
            from: None,
            to: None,
            hash: None,
            len: None,
            explicit: listed_exec(explicit_paths, path),
        },
        FileChange::UpdateFile { path, hash, len, .. } => PackChangePreview {
            id,
            operation: if existed_before {
                "update-file".to_owned()
            } else {
                "add-file".to_owned()
            },
            path: Some(copy_string(path)),
            from: None,
            to: None,
            hash: Some(copy_string(hash)),
            len: Some(*len),
            explicit: listed_exec(explicit_paths, path),
        },
        FileChange::DeleteFolder { path } => PackChangePreview {
            id,
            operation: "delete-directory".to_owned(),
            path: Some(copy_string(path)),
            from: None,
            to: None,
            hash: None,
            len: None,
            explicit: listed_exec(explicit_paths, path),
        },
        FileChange::DeleteFile { path } => PackChangePreview {
            id,
            operation: "delete-file".to_owned(),
            path: Some(copy_string(path)),
            from: None,
            to: None,
            hash: None,
            len: None,
            explicit: listed_exec(explicit_paths, path),
        },
        FileChange::MoveFile { from, to } => PackChangePreview {
            id,
            operation: "move-file".to_owned(),
            path: None,
            from: Some(copy_string(from)),
            to: Some(copy_string(to)),
            hash: None,
            len: None,
            explicit: false,
        },
    }
}

/// The preview line of a content-checked deletion; it is always explicit.
pub open spec fn hash_preview_of(d: ClientHashDeletion) -> PreviewView {
    PreviewView {
        id: hash_deletion_id_of(d),
        operation: "delete-file-by-hash"@,
        path: Some(d.path@),
        from: None,
        to: None,
        hash: Some(d.sha256@),
        len: Some(d.len),
        explicit: true,
    }
}

pub fn preview_hash_deletion(deletion: &ClientHashDeletion) -> (r: PackChangePreview)
    ensures
        r@ == hash_preview_of(*deletion),
{
    PackChangePreview {
        id: hash_deletion_id(deletion),
        operation: "delete-file-by-hash".to_owned(),
        path: Some(copy_string(&deletion.path)),
        from: None,
        to: None,
        hash: Some(copy_string(&deletion.sha256)),
        len: Some(deletion.len),
        explicit: true,
    }
}

/// How many previews name the operation `op`.
pub open spec fn count_op(s: Seq<PackChangePreview>, op: Seq<char>) -> nat
    decreases s.len(),
{
    if s.len() == 0 {
        0
    } else {
        count_op(s.drop_last(), op) + if s.last().operation@ == op {
            1nat
        } else {
            0nat
        }
    }
}

proof fn lemma_count_op_bound(s: Seq<PackChangePreview>, op: Seq<char>)
    ensures
        count_op(s, op) <= s.len(),
    decreases s.len(),
{
    if s.len() > 0 {
        lemma_count_op_bound(s.drop_last(), op);
    }
}

pub open spec fn counts_of(s: Seq<PackChangePreview>, c: PackChangeCounts) -> bool {
    &&& c.create_directory == count_op(s, "create-directory"@)
    &&& c.add_file == count_op(s, "add-file"@)
    &&& c.update_file == count_op(s, "update-file"@)
    &&& c.move_file == count_op(s, "move-file"@)
    &&& c.delete_file == count_op(s, "delete-file"@)
    &&& c.delete_directory == count_op(s, "delete-directory"@)
    &&& c.delete_by_hash == count_op(s, "delete-file-by-hash"@)
}

proof fn lemma_count_step(s: Seq<PackChangePreview>, i: int, op: Seq<char>)
    requires
        0 <= i < s.len(),
    ensures
        count_op(s.take(i + 1), op) == count_op(s.take(i), op) + if s[i].operation@ == op {
            1nat
        } else {
            0nat
        },
        count_op(s.take(i), op) <= i,
{
    assert(s.take(i + 1).drop_last() =~= s.take(i));
    lemma_count_op_bound(s.take(i), op);
}

fn count_step(c: usize, op: &str, name: &str) -> (r: usize)
    requires
        c < usize::MAX,
    ensures
        r == c + if op@ == name@ {
            1nat
        } else {
            0nat
        },
{
    if str_eq(op, name) {
        c + 1
    } else {
        c
    }
}

/// Counts the previewed operations of each kind.
pub fn count_changes(changes: &[PackChangePreview]) -> (r: PackChangeCounts)
    ensures
        counts_of(changes@, r),
{
    let mut counts = PackChangeCounts::default();
    for i in 0..changes.len()
        invariant
            counts_of(changes@.take(i as int), counts),
    {
        let op = changes[i].operation.as_str();
        proof {
            lemma_count_step(changes@, i as int, "create-directory"@);
            lemma_count_step(changes@, i as int, "add-file"@);
            lemma_count_step(changes@, i as int, "update-file"@);
            lemma_count_step(changes@, i as int, "move-file"@);
            lemma_count_step(changes@, i as int, "delete-file"@);
            lemma_count_step(changes@, i as int, "delete-directory"@);
            lemma_count_step(changes@, i as int, "delete-file-by-hash"@);
        }
        counts.create_directory = count_step(counts.create_directory, op, "create-directory");
        counts.add_file = count_step(counts.add_file, op, "add-file");
        counts.update_file = count_step(counts.update_file, op, "update-file");
        counts.move_file = count_step(counts.move_file, op, "move-file");
        counts.delete_file = count_step(counts.delete_file, op, "delete-file");
        counts.delete_directory = count_step(counts.delete_directory, op, "delete-directory");
        counts.delete_by_hash = count_step(counts.delete_by_hash, op, "delete-file-by-hash");
    }
    assert(changes@.take(changes@.len() as int) =~= changes@);
    counts
}

// ---------------------------------------------------------------------------
// Selection
// ---------------------------------------------------------------------------

pub open spec fn ids_of(s: Seq<PackChangePreview>) -> Seq<Seq<char>> {
    s.map_values(|p: PackChangePreview| p.id@)
}

/// The first excluded identifier that the preview does not hold.
pub open spec fn first_unknown(excluded: Seq<String>, ids: Seq<Seq<char>>) -> Option<Seq<char>>
    decreases excluded.len(),
{
    if excluded.len() == 0 {
        None
    } else {
        match first_unknown(excluded.drop_last(), ids) {
            Some(x) => Some(x),
            None => if ids.contains(excluded.last()@) {
                None
            } else {
                Some(excluded.last()@)
            },
        }
    }
}

pub open spec fn any_listed(excluded: Seq<String>, required: Seq<String>) -> bool {
    exists|k: int| 0 <= k < excluded.len() && listed(required, #[trigger] excluded[k]@)
}

pub open spec fn kept_changes(changes: Seq<FileChange>, excluded: Seq<String>) -> Seq<FileChange> {
    changes.filter(|c: FileChange| !listed(excluded, change_id_of(c)))
}

pub open spec fn kept_hash_deletions(
    deletions: Seq<ClientHashDeletion>,
    excluded: Seq<String>,
) -> Seq<ClientHashDeletion> {
    deletions.filter(|d: ClientHashDeletion| !listed(excluded, hash_deletion_id_of(d)))
}

pub open spec fn strings_view(v: Seq<String>) -> Seq<Seq<char>> {
    v.map_values(|s: String| s@)
}

/// The pending forced deletions that the selected operations delete, each once.
pub open spec fn emitted_deletions(s: Seq<FileChange>, pending: Seq<String>) -> Seq<Seq<char>>
    decreases s.len(),
{
    if s.len() == 0 {
        Seq::empty()
    } else {
        let rest = emitted_deletions(s.drop_last(), pending);
        match s.last() {
            FileChange::DeleteFile { path } => if listed(pending, path@) && !rest.contains(
                path@,
            ) {
                rest.push(path@)
            } else {
                rest
            },
            _ => rest,
        }
    }
}

/// The pending hash deletions that the selection publishes, each once.
pub open spec fn emitted_hash_deletions(
    s: Seq<ClientHashDeletion>,
    pending: Seq<String>,
) -> Seq<Seq<char>>
    decreases s.len(),
{
    if s.len() == 0 {
        Seq::empty()
    } else {
        let rest = emitted_hash_deletions(s.drop_last(), pending);
        let p = s.last().path@;
        if listed(pending, p) && !rest.contains(p) {
            rest.push(p)
        } else {
            rest
        }
    }
}

fn contains_view(v: &Vec<String>, x: &String) -> (r: bool)
    ensures
        r == strings_view(v@).contains(x@),
{
    let r = listed_exec(v, x);
    proof {
        if r {
            let k = choose|k: int| 0 <= k < v@.len() && #[trigger] v@[k]@ == x@;
            assert(strings_view(v@)[k] == x@);
        }
        if strings_view(v@).contains(x@) {
            let k = choose|k: int| 0 <= k < strings_view(v@).len() && strings_view(v@)[k] == x@;
            assert(v@[k]@ == x@);
        }
    }
    r
}

proof fn lemma_first_unknown_prefix(s: Seq<String>, ids: Seq<Seq<char>>, m: int)
    requires
        0 <= m <= s.len(),
        first_unknown(s.take(m), ids) is Some,
    ensures
        first_unknown(s, ids) == first_unknown(s.take(m), ids),
    decreases s.len(),
{
    if m < s.len() {
        assert(s.drop_last().take(m) =~= s.take(m));
        lemma_first_unknown_prefix(s.drop_last(), ids, m);
    } else {
        assert(s.take(m) =~= s);
    }
}

fn unknown_exclusion(excluded: &[String], previews: &Vec<PackChangePreview>) -> (r: Option<
    String,
>)
    ensures
        opt_view(r) == first_unknown(excluded@, ids_of(previews@)),
{
    let ghost ids = ids_of(previews@);
    let mut i: usize = 0;
    while i < excluded.len()
        invariant
            i <= excluded@.len(),
            ids == ids_of(previews@),
            first_unknown(excluded@.take(i as int), ids) is None,
        decreases excluded@.len() - i,
    {
        let x = &excluded[i];
        let mut found = false;
        for j in 0..previews.len()
            invariant
                ids == ids_of(previews@),
                found == exists|k: int| 0 <= k < j && #[trigger] ids[k] == x@,
        {
            assert(ids[j as int] == previews@[j as int].id@);
            if previews[j].id == *x {
                found = true;
            }
        }
        assert(found == ids.contains(x@)) by {
            if ids.contains(x@) {
                let k = choose|k: int| 0 <= k < ids.len() && ids[k] == x@;
                assert(ids[k] == x@);
            }
        }
        assert(excluded@.take(i + 1).drop_last() =~= excluded@.take(i as int));
        if !found {
            proof {
                lemma_first_unknown_prefix(excluded@, ids, i + 1);
            }
            return Some(copy_string(x));
        }
        i = i + 1;
    }
    assert(excluded@.take(excluded@.len() as int) =~= excluded@);
    None
}

fn excludes_required(excluded: &[String], required: &Vec<String>) -> (r: bool)
    ensures
        r == any_listed(excluded@, required@),
{
    for i in 0..excluded.len()
        invariant
            forall|k: int| 0 <= k < i ==> !listed(required@, #[trigger] excluded@[k]@),
    {
        if listed_exec(required, &excluded[i]) {
            return true;
        }
    }
    false
}

fn listed_in(v: &[String], x: &String) -> (r: bool)
    ensures
        r == listed(v@, x@),
{
    for i in 0..v.len()
        invariant
            forall|k: int| 0 <= k < i ==> #[trigger] v@[k]@ != x@,
    {
        if v[i] == *x {
            return true;
        }
    }
    false
}

/// Keeps the planned operations that the administrator did not exclude.
/// Excluding an unknown identifier, or one of the updater's self-update
/// operations, is refused, and so is a selection that keeps nothing.
pub fn select_pack_changes(plan: PackPlan, excluded_ids: &[String]) -> (r: Result<
    PackSelection,
    String,
>)
    ensures
        ({
            let unknown = first_unknown(excluded_ids@, ids_of(plan.preview.changes@));
            let kept = kept_changes(plan.changes@, excluded_ids@);
            let kept_hash = kept_hash_deletions(plan.hash_deletions@, excluded_ids@);
            if unknown is Some {
                r is Err && r->Err_0@ == "待排除的变更不存在或预览已过期: "@ + unknown->Some_0
            } else if any_listed(excluded_ids@, plan.required_change_ids@) {
                r is Err && r->Err_0@ == "更新器自更新文件与启动清单必须一起发布，不能单独排除"@
            } else if kept.len() == 0 && kept_hash.len() == 0 {
                r is Err && r->Err_0@ == "没有选中任何可打包变更"@
            } else {
                r is Ok && r->Ok_0.changes@ == kept && r->Ok_0.hash_deletions@ == kept_hash
                    && strings_view(r->Ok_0.emitted_pending_deletions@) == emitted_deletions(
                    kept,
                    plan.pending_deletions@,
                ) && strings_view(r->Ok_0.emitted_pending_hash_deletions@)
                    == emitted_hash_deletions(kept_hash, plan.pending_hash_deletions@)
            }
        }),
{
    match unknown_exclusion(excluded_ids, &plan.preview.changes) {
        Some(unknown) => {
            let mut msg = "待排除的变更不存在或预览已过期: ".to_owned();
            push_str(&mut msg, unknown.as_str());
            return Err(msg);
        },
        None => {},
    }
    if excludes_required(excluded_ids, &plan.required_change_ids) {
        return Err("更新器自更新文件与启动清单必须一起发布，不能单独排除".to_owned());
    }
    let PackPlan { changes, pending_deletions, hash_deletions, pending_hash_deletions, .. } = plan;
    let mut list = changes;
    let ghost initial = list@;
    let mut selected: Vec<FileChange> = Vec::new();
    let mut emitted: Vec<String> = Vec::new();
    let mut i: usize = 0;
    let n = list.len();
    assert(initial.take(0) =~= Seq::<FileChange>::empty());
    while list.len() > 0
        invariant
            n == initial.len(),
            i + list@.len() == n,
            list@ == initial.skip(i as int),
            selected@ == kept_changes(initial.take(i as int), excluded_ids@),
            strings_view(emitted@) == emitted_deletions(selected@, pending_deletions@),
        decreases list@.len(),
    {
        let c = list.remove(0);
        assert(c == initial[i as int]);
        assert(list@ =~= initial.skip(i + 1));
        assert(initial.take(i + 1) =~= initial.take(i as int).push(c));
        proof {
            initial.take(i as int).lemma_filter_push(
                c,
                |x: FileChange| !listed(excluded_ids@, change_id_of(x)),
            );
        }
        let id = change_id(&c);
        if !listed_in(excluded_ids, &id) {
            let ghost before = selected@;
            let mut add: Option<String> = None;
            match &c {
                FileChange::DeleteFile { path } => {
                    if listed_exec(&pending_deletions, path) && !contains_view(&emitted, path) {
                        add = Some(copy_string(path));
                    }
                },
                _ => {},
            }
            selected.push(c);
            assert(selected@.drop_last() =~= before);
            match add {
                Some(p) => {
                    let ghost eb = strings_view(emitted@);
                    emitted.push(p);
                    assert(strings_view(emitted@) =~= eb.push(p@));
                },
                None => {},
            }
        }
        i = i + 1;
    }
    assert(initial.take(i as int) =~= initial);
    let mut hlist = hash_deletions;
    let ghost horiginal = hlist@;
    let mut hselected: Vec<ClientHashDeletion> = Vec::new();
    let mut hemitted: Vec<String> = Vec::new();
    let mut k: usize = 0;
    let hn = hlist.len();
    assert(horiginal.take(0) =~= Seq::<ClientHashDeletion>::empty());
    while hlist.len() > 0
        invariant
            hn == horiginal.len(),
            k + hlist@.len() == hn,
            hlist@ == horiginal.skip(k as int),
            hselected@ == kept_hash_deletions(horiginal.take(k as int), excluded_ids@),
            strings_view(hemitted@) == emitted_hash_deletions(
                hselected@,
                pending_hash_deletions@,
            ),
        decreases hlist@.len(),
    {
        let d = hlist.remove(0);
        assert(d == horiginal[k as int]);
        assert(hlist@ =~= horiginal.skip(k + 1));
        assert(horiginal.take(k + 1) =~= horiginal.take(k as int).push(d));
        proof {
            horiginal.take(k as int).lemma_filter_push(
                d,
                |x: ClientHashDeletion| !listed(excluded_ids@, hash_deletion_id_of(x)),
            );
        }
        let id = hash_deletion_id(&d);
        if !listed_in(excluded_ids, &id) {
            let ghost before = hselected@;
            let add = listed_exec(&pending_hash_deletions, &d.path) && !contains_view(
                &hemitted,
                &d.path,
            );
            let p = copy_string(&d.path);
            hselected.push(d);
            assert(hselected@.drop_last() =~= before);
            if add {
                let ghost eb = strings_view(hemitted@);
                hemitted.push(p);
                assert(strings_view(hemitted@) =~= eb.push(p@));
            }
        }
        k = k + 1;
    }
    assert(horiginal.take(k as int) =~= horiginal);
    if selected.len() == 0 && hselected.len() == 0 {
        return Err("没有选中任何可打包变更".to_owned());
    }
    Ok(
        PackSelection {
            changes: selected,
            hash_deletions: hselected,
            emitted_pending_deletions: emitted,
            emitted_pending_hash_deletions: hemitted,
        },
    )
}

// ---------------------------------------------------------------------------
// Planning
// ---------------------------------------------------------------------------

/// A path of the version history and whether it is a directory.
#[derive(Clone, Debug)]
pub struct HistoryEntry {
    pub path: String,
    pub is_dir: bool,
}

/// Whether the history holds `path` and, if so, whether it is a directory
/// (the first entry for the path counts).
pub open spec fn history_find(h: Seq<HistoryEntry>, path: Seq<char>) -> Option<bool>
    decreases h.len(),
{
    if h.len() == 0 {
        None
    } else {
        match history_find(h.drop_last(), path) {
            Some(b) => Some(b),
            None => if h.last().path@ == path {
                Some(h.last().is_dir)
            } else {
                None
            },
        }
    }
}

pub fn find_in_history(h: &Vec<HistoryEntry>, path: &String) -> (r: Option<bool>)
    ensures
        r == history_find(h@, path@),
{
    let mut i: usize = 0;
    while i < h.len()
        invariant
            i <= h@.len(),
            history_find(h@.take(i as int), path@) is None,
        decreases h@.len() - i,
    {
        assert(h@.take(i + 1).drop_last() =~= h@.take(i as int));
        if h[i].path == *path {
            proof {
                lemma_history_prefix(h@, path@, i + 1);
            }
            return Some(h[i].is_dir);
        }
        i = i + 1;
    }
    assert(h@.take(h@.len() as int) =~= h@);
    None
}

proof fn lemma_history_prefix(h: Seq<HistoryEntry>, path: Seq<char>, m: int)
    requires
        0 <= m <= h.len(),
        history_find(h.take(m), path) is Some,
    ensures
        history_find(h, path) == history_find(h.take(m), path),
    decreases h.len(),
{
    if m < h.len() {
        assert(h.drop_last().take(m) =~= h.take(m));
        lemma_history_prefix(h.drop_last(), path, m);
    } else {
        assert(h.take(m) =~= h);
    }
}

/// Is the operation a move from or to `path`?
pub open spec fn moves_path(c: FileChange, path: Seq<char>) -> bool {
    match c {
        FileChange::MoveFile { from, to } => from@ == path || to@ == path,
        _ => false,
    }
}

pub open spec fn deletes_file(c: FileChange, path: Seq<char>) -> bool {
    match c {
        FileChange::DeleteFile { path: p } => p@ == path,
        _ => false,
    }
}

/// The operations and path lists while the forced deletions are applied.
pub struct ForcedPlan {
    pub changes: Seq<FileChange>,
    pub explicit: Seq<Seq<char>>,
    pub pending: Seq<Seq<char>>,
}

/// Applies one forced deletion: a path that a move concerns is refused;
/// every write of the path is dropped; a directory of the history is
/// refused; a path that is pending or known to the history is deleted (once)
/// and shown as explicit.
pub open spec fn forced_step(
    st: ForcedPlan,
    d: crate::pending_changes::ForcedDeletion,
    history: Seq<HistoryEntry>,
) -> Result<ForcedPlan, Seq<char>> {
    let path = d.path@;
    if exists|k: int| 0 <= k < st.changes.len() && moves_path(#[trigger] st.changes[k], path) {
        Err("显式删除路径与文件移动冲突，请先处理工作区中的移动: "@ + path)
    } else {
        let kept = st.changes.filter(|c: FileChange| !writes_path(c, path));
        let entry = history_find(history, path);
        if entry == Some(true) {
            Err("显式文件删除不能用于目录: "@ + path)
        } else {
            let emit = d.pending || entry is Some;
            let has_delete = exists|k: int| 0 <= k < kept.len() && deletes_file(#[trigger] kept[k], path);
            Ok(
                ForcedPlan {
                    changes: if emit && !has_delete {
                        kept.push(FileChange::DeleteFile { path: d.path })
                    } else {
                        kept
                    },
                    explicit: if emit {
                        st.explicit.push(path)
                    } else {
                        st.explicit
                    },
                    pending: if d.pending && !st.pending.contains(path) {
                        st.pending.push(path)
                    } else {
                        st.pending
                    },
                },
            )
        }
    }
}

pub open spec fn forced_fold(
    init: ForcedPlan,
    ds: Seq<crate::pending_changes::ForcedDeletion>,
    history: Seq<HistoryEntry>,
) -> Result<ForcedPlan, Seq<char>>
    decreases ds.len(),
{
    if ds.len() == 0 {
        Ok(init)
    } else {
        match forced_fold(init, ds.drop_last(), history) {
            Ok(st) => forced_step(st, ds.last(), history),
            Err(e) => Err(e),
        }
    }
}

fn message_with(prefix: &str, detail: &str) -> (r: String)
    ensures
        r@ == prefix@ + detail@,
{
    let mut m = prefix.to_owned();
    push_str(&mut m, detail);
    m
}

fn has_move_of(changes: &Vec<FileChange>, path: &String) -> (r: bool)
    ensures
        r == exists|k: int| 0 <= k < changes@.len() && moves_path(#[trigger] changes@[k], path@),
{
    for i in 0..changes.len()
        invariant
            forall|k: int| 0 <= k < i ==> !moves_path(#[trigger] changes@[k], path@),
    {
        match &changes[i] {
            FileChange::MoveFile { from, to } => {
                if *from == *path || *to == *path {
                    assert(moves_path(changes@[i as int], path@));
                    return true;
                }
            },
            _ => {},
        }
    }
    false
}

fn has_delete_of(changes: &Vec<FileChange>, path: &String) -> (r: bool)
    ensures
        r == exists|k: int| 0 <= k < changes@.len() && deletes_file(#[trigger] changes@[k], path@),
{
    for i in 0..changes.len()
        invariant
            forall|k: int| 0 <= k < i ==> !deletes_file(#[trigger] changes@[k], path@),
    {
        match &changes[i] {
            FileChange::DeleteFile { path: p } => {
                if *p == *path {
                    assert(deletes_file(changes@[i as int], path@));
                    return true;
                }
            },
            _ => {},
        }
    }
    false
}

fn without_writes_of(changes: Vec<FileChange>, path: &String) -> (r: Vec<FileChange>)
    ensures
        r@ == changes@.filter(|c: FileChange| !writes_path(c, path@)),
{
    let mut list = changes;
    let ghost initial = list@;
    let mut kept: Vec<FileChange> = Vec::new();
    let n = list.len();
    let mut i: usize = 0;
    assert(initial.take(0) =~= Seq::<FileChange>::empty());
    while list.len() > 0
        invariant
            n == initial.len(),
            i + list@.len() == n,
            list@ == initial.skip(i as int),
            kept@ == initial.take(i as int).filter(|c: FileChange| !writes_path(c, path@)),
        decreases list@.len(),
    {
        let c = list.remove(0);
        assert(c == initial[i as int]);
        assert(list@ =~= initial.skip(i + 1));
        assert(initial.take(i + 1) =~= initial.take(i as int).push(c));
        proof {
            initial.take(i as int).lemma_filter_push(
                c,
                |x: FileChange| !writes_path(x, path@),
            );
        }
        if !change_writes_path(&c, path.as_str()) {
            kept.push(c);
        }
        i = i + 1;
    }
    assert(initial.take(i as int) =~= initial);
    kept
}

fn contains_str(v: &Vec<String>, x: &String) -> (r: bool)
    ensures
        r == strings_view(v@).contains(x@),
{
    contains_view(v, x)
}

/// Applies the forced deletions in order to the operations of the diff.
pub fn apply_forced_deletions(
    changes: Vec<FileChange>,
    forced: &Vec<crate::pending_changes::ForcedDeletion>,
    history: &Vec<HistoryEntry>,
) -> (r: Result<(Vec<FileChange>, Vec<String>, Vec<String>), String>)
    ensures
        match forced_fold(
            ForcedPlan { changes: changes@, explicit: Seq::empty(), pending: Seq::empty() },
            forced@,
            history@,
        ) {
            Ok(st) => r is Ok && r->Ok_0.0@ == st.changes && strings_view(r->Ok_0.1@)
                == st.explicit && strings_view(r->Ok_0.2@) == st.pending,
            Err(e) => r is Err && r->Err_0@ == e,
        },
{
    let ghost init = ForcedPlan { changes: changes@, explicit: Seq::empty(), pending: Seq::empty() };
    let mut cur = changes;
    let mut explicit: Vec<String> = Vec::new();
    let mut pending: Vec<String> = Vec::new();
    assert(strings_view(explicit@) =~= Seq::<Seq<char>>::empty());
    assert(strings_view(pending@) =~= Seq::<Seq<char>>::empty());
    for i in 0..forced.len()
        invariant
            init == (ForcedPlan { changes: changes@, explicit: Seq::empty(), pending: Seq::empty() }),
            forced_fold(init, forced@.take(i as int), history@) == Ok::<ForcedPlan, Seq<char>>(
                ForcedPlan {
                    changes: cur@,
                    explicit: strings_view(explicit@),
                    pending: strings_view(pending@),
                },
            ),
    {
        let d = &forced[i];
        let ghost st = ForcedPlan {
            changes: cur@,
            explicit: strings_view(explicit@),
            pending: strings_view(pending@),
        };
        assert(forced@.take(i + 1).drop_last() =~= forced@.take(i as int));
        assert(forced@.take(i + 1).last() == *d);
        if has_move_of(&cur, &d.path) {
            let ghost e = "显式删除路径与文件移动冲突，请先处理工作区中的移动: "@ + d.path@;
            assert(forced_step(st, *d, history@) == Err::<ForcedPlan, Seq<char>>(e));
            assert(forced_fold(init, forced@.take(i + 1), history@) == Err::<ForcedPlan, Seq<char>>(e));
            proof {
                lemma_fold_error_sticks(init, forced@, history@, i + 1);
            }
            let m = message_with("显式删除路径与文件移动冲突，请先处理工作区中的移动: ", d.path.as_str());
            assert(m@ == e);
            return Err(m);
        }
        let kept = without_writes_of(cur, &d.path);
        let entry = find_in_history(history, &d.path);
        if entry == Some(true) {
            proof {
                lemma_fold_error_sticks(init, forced@, history@, i + 1);
            }
            return Err(message_with("显式文件删除不能用于目录: ", d.path.as_str()));
        }
        let emit = d.pending || entry.is_some();
        let has_delete = has_delete_of(&kept, &d.path);
        let mut next = kept;
        if emit && !has_delete {
            next.push(FileChange::DeleteFile { path: copy_string(&d.path) });
        }
        if emit {
            let ghost eb = strings_view(explicit@);
            explicit.push(copy_string(&d.path));
            assert(strings_view(explicit@) =~= eb.push(d.path@));
        }
        if d.pending && !contains_str(&pending, &d.path) {
            let ghost pb = strings_view(pending@);
            pending.push(copy_string(&d.path));
            assert(strings_view(pending@) =~= pb.push(d.path@));
        }
        cur = next;
    }
    assert(forced@.take(forced@.len() as int) =~= forced@);
    Ok((cur, explicit, pending))
}

proof fn lemma_fold_error_sticks(
    init: ForcedPlan,
    ds: Seq<crate::pending_changes::ForcedDeletion>,
    history: Seq<HistoryEntry>,
    m: int,
)
    requires
        0 <= m <= ds.len(),
        forced_fold(init, ds.take(m), history) is Err,
    ensures
        forced_fold(init, ds, history) == forced_fold(init, ds.take(m), history),
    decreases ds.len(),
{
    if m < ds.len() {
        assert(ds.drop_last().take(m) =~= ds.take(m));
        lemma_fold_error_sticks(init, ds.drop_last(), history, m);
    } else {
        assert(ds.take(m) =~= ds);
    }
}

/// The pending hash deletions, in order: a target that still exists in the
/// workspace, or that the history holds, is refused.
pub open spec fn hash_fold(
    ds: Seq<crate::pending_changes::PendingHashDeletion>,
    present: Seq<String>,
    history: Seq<HistoryEntry>,
) -> Result<(Seq<ClientHashDeletion>, Seq<Seq<char>>), Seq<char>>
    decreases ds.len(),
{
    if ds.len() == 0 {
        Ok((Seq::empty(), Seq::empty()))
    } else {
        match hash_fold(ds.drop_last(), present, history) {
            Err(e) => Err(e),
            Ok(st) => {
                let d = ds.last();
                if !d.pending {
                    Ok(st)
                } else if listed(present, d.path@) {
                    Err("客户端哈希删除目标仍存在于当前工作区，拒绝打包: "@ + d.path@)
                } else if history_find(history, d.path@) is Some {
                    Err("客户端哈希删除目标已属于更新历史，应使用普通删除: "@ + d.path@)
                } else {
                    Ok(
                        (
                            st.0.push(
                                ClientHashDeletion { path: d.path, sha256: d.sha256, len: d.len },
                            ),
                            if st.1.contains(d.path@) {
                                st.1
                            } else {
                                st.1.push(d.path@)
                            },
                        ),
                    )
                }
            },
        }
    }
}

proof fn lemma_hash_fold_error_sticks(
    ds: Seq<crate::pending_changes::PendingHashDeletion>,
    present: Seq<String>,
    history: Seq<HistoryEntry>,
    m: int,
)
    requires
        0 <= m <= ds.len(),
        hash_fold(ds.take(m), present, history) is Err,
    ensures
        hash_fold(ds, present, history) == hash_fold(ds.take(m), present, history),
    decreases ds.len(),
{
    if m < ds.len() {
        assert(ds.drop_last().take(m) =~= ds.take(m));
        lemma_hash_fold_error_sticks(ds.drop_last(), present, history, m);
    } else {
        assert(ds.take(m) =~= ds);
    }
}

/// Turns the pending hash deletions into the content-checked deletions of the pack.
pub fn collect_hash_deletions(
    pending: &Vec<crate::pending_changes::PendingHashDeletion>,
    present_in_workspace: &Vec<String>,
    history: &Vec<HistoryEntry>,
) -> (r: Result<(Vec<ClientHashDeletion>, Vec<String>), String>)
    ensures
        match hash_fold(pending@, present_in_workspace@, history@) {
            Ok(st) => r is Ok && r->Ok_0.0@ == st.0 && strings_view(r->Ok_0.1@) == st.1,
            Err(e) => r is Err && r->Err_0@ == e,
        },
{
    let mut out: Vec<ClientHashDeletion> = Vec::new();
    let mut paths: Vec<String> = Vec::new();
    assert(strings_view(paths@) =~= Seq::<Seq<char>>::empty());
    for i in 0..pending.len()
        invariant
            hash_fold(pending@.take(i as int), present_in_workspace@, history@) == Ok::<
                (Seq<ClientHashDeletion>, Seq<Seq<char>>),
                Seq<char>,
            >((out@, strings_view(paths@))),
    {
        let d = &pending[i];
        assert(pending@.take(i + 1).drop_last() =~= pending@.take(i as int));
        assert(pending@.take(i + 1).last() == *d);
        if d.pending {
            if listed_exec(present_in_workspace, &d.path) {
                proof {
                    lemma_hash_fold_error_sticks(pending@, present_in_workspace@, history@, i + 1);
                }
                return Err(message_with("客户端哈希删除目标仍存在于当前工作区，拒绝打包: ", d.path.as_str()));
            }
            if find_in_history(history, &d.path).is_some() {
                proof {
                    lemma_hash_fold_error_sticks(pending@, present_in_workspace@, history@, i + 1);
                }
                return Err(message_with("客户端哈希删除目标已属于更新历史，应使用普通删除: ", d.path.as_str()));
            }
            out.push(
                ClientHashDeletion {
                    path: copy_string(&d.path),
                    sha256: copy_string(&d.sha256),
                    len: d.len,
                },
            );
            if !contains_str(&paths, &d.path) {
                let ghost pb = strings_view(paths@);
                paths.push(copy_string(&d.path));
                assert(strings_view(paths@) =~= pb.push(d.path@));
            }
        }
    }
    assert(pending@.take(pending@.len() as int) =~= pending@);
    Ok((out, paths))
}

/// Operations are ordered by whether they write the startlist (those come
/// last, so a client starts a new updater only once everything else is in
/// place), then by canonical text.
impl Keyed for FileChange {
    open spec fn key(&self) -> Seq<char> {
        seq![
            if writes_path(*self, UPDATER_STARTLIST_PATH@) {
                '1'
            } else {
                '0'
            },
        ] + canonical_of(*self)
    }

    fn key_chars(&self) -> (k: Vec<char>) {
        let mut k: Vec<char> = Vec::new();
        k.push(
            if change_writes_path(self, UPDATER_STARTLIST_PATH) {
                '1'
            } else {
                '0'
            },
        );
        let c = canonical_change(self);
        let cs = chars_of(c.as_str());
        crate::text::concat_chars(&k, &cs)
    }
}

/// The sort key of an operation: whether it writes the startlist, then its canonical text.
pub fn change_sort_key(change: &FileChange) -> (r: (bool, String))
    ensures
        r.0 == writes_path(*change, UPDATER_STARTLIST_PATH@),
        r.1@ == canonical_of(*change),
{
    (change_writes_path(change, UPDATER_STARTLIST_PATH), canonical_change(change))
}

/// Consecutive operations with the same canonical text, kept once (`Vec::dedup_by`).
pub open spec fn dedup_canonical(s: Seq<FileChange>) -> Seq<FileChange>
    decreases s.len(),
{
    if s.len() == 0 {
        Seq::empty()
    } else {
        let r = dedup_canonical(s.drop_last());
        if r.len() > 0 && canonical_of(r.last()) == canonical_of(s.last()) {
            r
        } else {
            r.push(s.last())
        }
    }
}

/// Is `out` the operations of `changes` ordered by key, those with equal keys
/// in the order they came, with repeated canonical texts dropped (the first
/// of a run kept)?
pub open spec fn ordered_from(out: Seq<FileChange>, changes: Seq<FileChange>) -> bool {
    exists|idx: Seq<int>, sorted: Seq<FileChange>|
        #![trigger is_permutation(idx, changes, sorted)]
        {
            &&& is_permutation(idx, changes, sorted)
            &&& keeps_ties_in_order(idx, sorted)
            &&& sorted_by_key(sorted)
            &&& sorted.to_multiset() == changes.to_multiset()
            &&& out == dedup_canonical(sorted)
        }
}

fn dedup_changes(v: Vec<FileChange>) -> (r: Vec<FileChange>)
    ensures
        r@ == dedup_canonical(v@),
{
    let mut list = v;
    let ghost initial = list@;
    let mut out: Vec<FileChange> = Vec::new();
    let mut last_key: Option<String> = None;
    let n = list.len();
    let mut i: usize = 0;
    assert(initial.take(0) =~= Seq::<FileChange>::empty());
    while list.len() > 0
        invariant
            n == initial.len(),
            i + list@.len() == n,
            list@ == initial.skip(i as int),
            out@ == dedup_canonical(initial.take(i as int)),
            match last_key {
                Some(k) => out@.len() > 0 && k@ == canonical_of(out@.last()),
                None => out@.len() == 0,
            },
        decreases list@.len(),
    {
        let c = list.remove(0);
        assert(c == initial[i as int]);
        assert(list@ =~= initial.skip(i + 1));
        assert(initial.take(i + 1).drop_last() =~= initial.take(i as int));
        assert(initial.take(i + 1).last() == c);
        let key = canonical_change(&c);
        let same = match &last_key {
            Some(k) => *k == key,
            None => false,
        };
        if !same {
            out.push(c);
            last_key = Some(key);
        }
        i = i + 1;
    }
    assert(initial.take(i as int) =~= initial);
    out
}

/// Orders the operations (the startlist last) and drops repeated ones.
pub fn order_changes(changes: Vec<FileChange>) -> (r: Vec<FileChange>)
    ensures
        ordered_from(r@, changes@),
{
    let ghost c = changes@;
    let sorted = sort_by_key(changes);
    let ghost s = sorted@;
    let ghost idx = choose|idx: Seq<int>| is_permutation(idx, c, s) && keeps_ties_in_order(idx, s);
    let r = dedup_changes(sorted);
    assert(is_permutation(idx, c, s) && keeps_ties_in_order(idx, s) && sorted_by_key(s) && s.to_multiset()
        == c.to_multiset() && r@ == dedup_canonical(s));
    r
}

/// The identifiers of the operations on the updater's self-update paths, each once.
pub open spec fn required_ids_of(s: Seq<FileChange>, required_paths: Seq<String>) -> Seq<Seq<char>>
    decreases s.len(),
{
    if s.len() == 0 {
        Seq::empty()
    } else {
        let rest = required_ids_of(s.drop_last(), required_paths);
        let c = s.last();
        if path_of(c) matches Some(p) && listed(required_paths, p) && !rest.contains(
            change_id_of(c),
        ) {
            rest.push(change_id_of(c))
        } else {
            rest
        }
    }
}

fn required_change_ids(changes: &Vec<FileChange>, required_paths: &Vec<String>) -> (r: Vec<String>)
    ensures
        strings_view(r@) == required_ids_of(changes@, required_paths@),
{
    let mut out: Vec<String> = Vec::new();
    assert(strings_view(out@) =~= Seq::<Seq<char>>::empty());
    for i in 0..changes.len()
        invariant
            strings_view(out@) == required_ids_of(changes@.take(i as int), required_paths@),
    {
        let c = &changes[i];
        assert(changes@.take(i + 1).drop_last() =~= changes@.take(i as int));
        assert(changes@.take(i + 1).last() == *c);
        match change_path(c) {
            Some(p) => {
                let ps = p.to_owned();
                if listed_exec(required_paths, &ps) {
                    let id = change_id(c);
                    if !contains_str(&out, &id) {
                        let ghost ob = strings_view(out@);
                        out.push(id);
                        assert(strings_view(out@) =~= ob.push(change_id_of(*c)));
                    }
                }
            },
            None => {},
        }
    }
    assert(changes@.take(changes@.len() as int) =~= changes@);
    out
}

/// Was the path of a written file already in the history?
pub open spec fn existed_before(c: FileChange, history: Seq<HistoryEntry>) -> bool {
    match c {
        FileChange::UpdateFile { path, .. } => history_find(history, path@) is Some,
        _ => false,
    }
}

/// The preview lines of the operations, then of the hash deletions.
pub open spec fn plan_previews(
    changes: Seq<FileChange>,
    explicit: Seq<String>,
    history: Seq<HistoryEntry>,
    deletions: Seq<ClientHashDeletion>,
) -> Seq<PreviewView> {
    Seq::new(changes.len(), |i: int| preview_of(changes[i], explicit, existed_before(changes[i], history)))
        + deletions.map_values(|d: ClientHashDeletion| hash_preview_of(d))
}

fn previews_for(
    changes: &Vec<FileChange>,
    explicit: &Vec<String>,
    history: &Vec<HistoryEntry>,
    deletions: &Vec<ClientHashDeletion>,
) -> (r: Vec<PackChangePreview>)
    ensures
        previews_view(r@) == plan_previews(changes@, explicit@, history@, deletions@),
{
    let mut out: Vec<PackChangePreview> = Vec::new();
    for i in 0..changes.len()
        invariant
            out@.len() == i,
            forall|k: int| 0 <= k < i ==> #[trigger] out@[k]@ == preview_of(
                changes@[k],
                explicit@,
                existed_before(changes@[k], history@),
            ),
    {
        let c = &changes[i];
        let existed = match c {
            FileChange::UpdateFile { path, .. } => find_in_history(history, path).is_some(),
            _ => false,
        };
        out.push(preview_change(c, explicit, existed));
    }
    let n = changes.len();
    for j in 0..deletions.len()
        invariant
            n == changes@.len(),
            out@.len() == n + j,
            forall|k: int| 0 <= k < n ==> #[trigger] out@[k]@ == preview_of(
                changes@[k],
                explicit@,
                existed_before(changes@[k], history@),
            ),
            forall|k: int| 0 <= k < j ==> #[trigger] out@[n + k]@ == hash_preview_of(deletions@[k]),
    {
        out.push(preview_hash_deletion(&deletions[j]));
        assert(out@[n + j]@ == hash_preview_of(deletions@[j as int]));
    }
    assert(previews_view(out@) =~= plan_previews(changes@, explicit@, history@, deletions@)) by {
        assert forall|k: int| 0 <= k < out@.len() implies previews_view(out@)[k] == plan_previews(
            changes@,
            explicit@,
            history@,
            deletions@,
        )[k] by {
            if k >= n {
                assert(out@[n + (k - n)]@ == hash_preview_of(deletions@[k - n]));
            }
        }
    }
    out
}

/// The operations of the diff that a pack may publish: none that concerns
/// the updater's source file.
pub open spec fn publishable(changes: Seq<FileChange>) -> Seq<FileChange> {
    changes.filter(|c: FileChange| !touches_path(c, UPDATER_SOURCE_PATH@))
}

fn without_updater_source(changes: Vec<FileChange>) -> (r: Vec<FileChange>)
    ensures
        r@ == publishable(changes@),
{
    let mut list = changes;
    let ghost initial = list@;
    let mut kept: Vec<FileChange> = Vec::new();
    let n = list.len();
    let mut i: usize = 0;
    assert(initial.take(0) =~= Seq::<FileChange>::empty());
    while list.len() > 0
        invariant
            n == initial.len(),
            i + list@.len() == n,
            list@ == initial.skip(i as int),
            kept@ == publishable(initial.take(i as int)),
        decreases list@.len(),
    {
        let c = list.remove(0);
        assert(c == initial[i as int]);
        assert(list@ =~= initial.skip(i + 1));
        assert(initial.take(i + 1) =~= initial.take(i as int).push(c));
        proof {
            initial.take(i as int).lemma_filter_push(
                c,
                |x: FileChange| !touches_path(x, UPDATER_SOURCE_PATH@),
            );
        }
        if !change_touches_path(&c, UPDATER_SOURCE_PATH) {
            kept.push(c);
        }
        i = i + 1;
    }
    assert(initial.take(i as int) =~= initial);
    kept
}

/// Is `p` the plan of these operations and deletions?
pub open spec fn plan_matches(
    p: PackPlan,
    label: Seq<char>,
    logs: Seq<char>,
    required_paths: Seq<String>,
    history: Seq<HistoryEntry>,
    forced: ForcedPlan,
    hashes: (Seq<ClientHashDeletion>, Seq<Seq<char>>),
) -> bool {
    &&& ordered_from(p.changes@, forced.changes)
    &&& p.hash_deletions@ == hashes.0
    &&& strings_view(p.pending_deletions@) == forced.pending
    &&& strings_view(p.pending_hash_deletions@) == hashes.1
    &&& strings_view(p.required_change_ids@) == required_ids_of(p.changes@, required_paths)
    &&& exists|explicit: Seq<String>|
        #![trigger plan_previews(p.changes@, explicit, history, p.hash_deletions@)]
        strings_view(explicit) == forced.explicit && previews_view(p.preview.changes@)
            == plan_previews(p.changes@, explicit, history, p.hash_deletions@)
    &&& p.preview.fingerprint@ == hex_lower(
        sha256_of(fingerprint_input(label, logs, p.changes@, p.hash_deletions@)),
    )
    &&& counts_of(p.preview.changes@, p.preview.counts)
    &&& p.preview.confirmation_required
}

/// Checks the label of the next version before anything is written for it:
/// trimmed, it must be valid and not among the labels already published.
pub fn new_version_label(version_label: &str, existing_labels: &Vec<String>) -> (r: Result<String, String>)
    ensures
        version_label_error(version_label@) matches Some(e) ==> r is Err && r->Err_0@ == e,
        version_label_error(version_label@) is None && listed(existing_labels@, trim(version_label@)) ==> r is Err
            && r->Err_0@ == "版本号已经存在: "@ + trim(version_label@),
        version_label_error(version_label@) is None && !listed(existing_labels@, trim(version_label@)) ==> r is Ok
            && r->Ok_0@ == trim(version_label@),
{
    let label = match normalize_version_label(version_label) {
        Ok(l) => l,
        Err(e) => return Err(e),
    };
    if listed_exec(existing_labels, &label) {
        return Err(message_with("版本号已经存在: ", label.as_str()));
    }
    Ok(label)
}

/// Plans the next pack from the operations of the diff, the version history
/// (`history`), the deletion rules and the labels already published.
/// `required_paths` are the updater's self-update paths and
/// `present_in_workspace` the hash deletion targets that exist in the
/// workspace.
pub fn build_pack_plan(
    version_label: &str,
    change_logs: &str,
    existing_labels: &Vec<String>,
    required_paths: &Vec<String>,
    diff_changes: Vec<FileChange>,
    history: &Vec<HistoryEntry>,
    pending: &crate::pending_changes::PendingChanges,
    present_in_workspace: &Vec<String>,
) -> (r: Result<PackPlan, String>)
    ensures
        ({
            let label = trim(version_label@);
            let forced = forced_fold(
                ForcedPlan {
                    changes: publishable(diff_changes@),
                    explicit: Seq::empty(),
                    pending: Seq::empty(),
                },
                pending.forced_deletions@,
                history@,
            );
            let hashes = hash_fold(pending.hash_deletions@, present_in_workspace@, history@);
            if version_label_error(version_label@) is Some {
                r is Err && r->Err_0@ == version_label_error(version_label@)->Some_0
            } else if listed(existing_labels@, label) {
                r is Err && r->Err_0@ == "版本号已经存在: "@ + label
            } else if forced is Err {
                r is Err && r->Err_0@ == forced->Err_0
            } else if hashes is Err {
                r is Err && r->Err_0@ == hashes->Err_0
            } else {
                r is Ok && plan_matches(
                    r->Ok_0,
                    label,
                    change_logs@,
                    required_paths@,
                    history@,
                    forced->Ok_0,
                    hashes->Ok_0,
                )
            }
        }),
{
    let label = match new_version_label(version_label, existing_labels) {
        Ok(l) => l,
        Err(e) => return Err(e),
    };
    let base = without_updater_source(diff_changes);
    let (forced_changes, explicit, pending_deletions) = match apply_forced_deletions(
        base,
        &pending.forced_deletions,
        history,
    ) {
        Ok(t) => t,
        Err(e) => return Err(e),
    };
    let (hash_deletions, pending_hash_deletions) = match collect_hash_deletions(
        &pending.hash_deletions,
        present_in_workspace,
        history,
    ) {
        Ok(t) => t,
        Err(e) => return Err(e),
    };
    let changes = order_changes(forced_changes);
    let required_change_ids = required_change_ids(&changes, required_paths);
    let previews = previews_for(&changes, &explicit, history, &hash_deletions);
    let fingerprint = fingerprint(label.as_str(), change_logs, &changes, &hash_deletions);
    let counts = count_changes(previews.as_slice());
    let ghost ex = explicit@;
    let plan = PackPlan {
        preview: PackPreview { confirmation_required: true, fingerprint, changes: previews, counts },
        changes,
        pending_deletions,
        hash_deletions,
        pending_hash_deletions,
        required_change_ids,
    };
    assert(previews_view(plan.preview.changes@) == plan_previews(
        plan.changes@,
        ex,
        history@,
        plan.hash_deletions@,
    ));
    Ok(plan)
}

// ---------------------------------------------------------------------------
// The updater's self-update
// ---------------------------------------------------------------------------

/// `AutoUpdateClient-<first 16 digits of the SHA-256>.exe`.
pub open spec fn versioned_name_of(sha256: Seq<char>) -> Seq<char> {
    UPDATER_VERSION_PREFIX@ + sha256.subrange(0, 16) + ".exe"@
}

/// The immutable name under which an updater build is published.
pub fn versioned_updater_name(source_sha256: &str) -> (r: String)
    requires
        source_sha256@.len() >= 16,
        all_hex(source_sha256@.subrange(0, 16)),
    ensures
        r@ == versioned_name_of(source_sha256@),
{
    let cs = chars_of(source_sha256);
    let head = crate::text::slice_chars(&cs, 0, 16);
    let mut name = UPDATER_VERSION_PREFIX.to_owned();
    push_str(&mut name, string_of(&head).as_str());
    push_str(&mut name, ".exe");
    name
}

/// `list` with `e` appended, unless it already holds `e` without ASCII case.
pub open spec fn add_unique_ci(list: Seq<Seq<char>>, e: Seq<char>) -> Seq<Seq<char>> {
    if exists|k: int| 0 <= k < list.len() && eq_ignore_case(#[trigger] list[k], e) {
        list
    } else {
        list.push(e)
    }
}

/// The safe entries of the old startlist lines, trimmed, after `init`.
pub open spec fn entries_fold(init: Seq<Seq<char>>, lines: Seq<Seq<char>>) -> Seq<Seq<char>>
    decreases lines.len(),
{
    if lines.len() == 0 {
        init
    } else {
        let acc = entries_fold(init, lines.drop_last());
        let t = trim(lines.last());
        if safe_updater_entry(t) {
            add_unique_ci(acc, t)
        } else {
            acc
        }
    }
}

/// The new startlist: the new build first, then the old list's safe entries
/// (each once, without ASCII case, where they stood), and the fixed name last
/// unless it is listed already.
pub open spec fn startlist_of(versioned: Seq<char>, previous: Option<Seq<char>>) -> Seq<Seq<char>> {
    let lines = match previous {
        Some(text) => crate::text::split_on(text, '\n'),
        None => Seq::empty(),
    };
    add_unique_ci(entries_fold(seq![versioned], lines), UPDATER_BASE_NAME@)
}

fn push_unique_ci(list: &mut Vec<String>, e: String)
    ensures
        strings_view(final(list)@) == add_unique_ci(strings_view(old(list)@), e@),
{
    let mut found = false;
    for k in 0..list.len()
        invariant
            found == exists|j: int| 0 <= j < k && eq_ignore_case(#[trigger] strings_view(list@)[j], e@),
    {
        assert(strings_view(list@)[k as int] == list@[k as int]@);
        if str_eq_ignore_case(list[k].as_str(), e.as_str()) {
            found = true;
        }
    }
    if !found {
        let ghost before = strings_view(list@);
        list.push(e);
        assert(strings_view(list@) =~= before.push(e@));
    }
}

/// Computes the new startlist from the new build's name and the old list's text.
pub fn startlist_entries(versioned_name: &str, previous: Option<&str>) -> (r: Vec<String>)
    ensures
        strings_view(r@) == startlist_of(versioned_name@, match previous {
            Some(t) => Some(t@),
            None => None,
        }),
{
    let mut entries: Vec<String> = Vec::new();
    entries.push(versioned_name.to_owned());
    assert(strings_view(entries@) =~= seq![versioned_name@]);
    let ghost init = strings_view(entries@);
    match previous {
        Some(text) => {
            let parts = crate::text::split_chars(&chars_of(text), '\n');
            let ghost ls = crate::text::split_on(text@, '\n');
            for i in 0..parts.len()
                invariant
                    crate::text::views(parts@) == ls,
                    strings_view(entries@) == entries_fold(init, ls.take(i as int)),
            {
                assert(ls.take(i + 1).drop_last() =~= ls.take(i as int));
                assert(ls.take(i + 1).last() == parts@[i as int]@);
                let t = string_of(&trim_chars(&parts[i]));
                if is_safe_updater_entry(t.as_str()) {
                    push_unique_ci(&mut entries, t);
                }
            }
            assert(ls.take(ls.len() as int) =~= ls);
        },
        None => {},
    }
    push_unique_ci(&mut entries, UPDATER_BASE_NAME.to_owned());
    entries
}

/// The entries joined by `\n`.
pub open spec fn join_lines(s: Seq<Seq<char>>) -> Seq<char>
    decreases s.len(),
{
    if s.len() == 0 {
        Seq::empty()
    } else if s.len() == 1 {
        s[0]
    } else {
        join_lines(s.drop_last()) + seq!['\n'] + s.last()
    }
}

/// The startlist file: each entry on a line of its own.
pub fn startlist_content(entries: &Vec<String>) -> (r: String)
    ensures
        r@ == join_lines(strings_view(entries@)) + seq!['\n'],
{
    let mut out = String::new();
    for i in 0..entries.len()
        invariant
            out@ == join_lines(strings_view(entries@.take(i as int))),
    {
        assert(strings_view(entries@.take(i + 1)).drop_last() =~= strings_view(entries@.take(i as int)));
        if i > 0 {
            crate::text::push_char(&mut out, '\n');
        }
        push_str(&mut out, entries[i].as_str());
        assert(strings_view(entries@.take(i + 1)).last() == entries@[i as int]@);
        if i == 0 {
            assert(strings_view(entries@.take(1)) =~= seq![entries@[0]@]);
        }
    }
    assert(entries@.take(entries@.len() as int) =~= entries@);
    crate::text::push_char(&mut out, '\n');
    out
}

/// The paths a pack must publish together for the updater to update itself.
pub fn self_update_paths(versioned_name: &str) -> (r: Vec<String>)
    ensures
        strings_view(r@) == seq![".minecraft/autoupdate/"@ + versioned_name@, UPDATER_STARTLIST_PATH@],
{
    let mut binary = ".minecraft/autoupdate/".to_owned();
    push_str(&mut binary, versioned_name);
    let mut out: Vec<String> = Vec::new();
    out.push(binary);
    out.push(UPDATER_STARTLIST_PATH.to_owned());
    assert(strings_view(out@) =~= seq![".minecraft/autoupdate/"@ + versioned_name@, UPDATER_STARTLIST_PATH@]);
    out
}

// ---------------------------------------------------------------------------
// Laws
// ---------------------------------------------------------------------------

/// No two entries are equal without ASCII case.
pub open spec fn distinct_ci(s: Seq<Seq<char>>) -> bool {
    forall|i: int, j: int| 0 <= i < j < s.len() ==> !eq_ignore_case(#[trigger] s[i], #[trigger] s[j])
}

proof fn lemma_add_unique_ci(list: Seq<Seq<char>>, e: Seq<char>)
    requires
        distinct_ci(list),
    ensures
        distinct_ci(add_unique_ci(list, e)),
        add_unique_ci(list, e).len() >= list.len(),
        forall|k: int| 0 <= k < list.len() ==> #[trigger] add_unique_ci(list, e)[k] == list[k],
        exists|k: int| 0 <= k < add_unique_ci(list, e).len() && eq_ignore_case(
            #[trigger] add_unique_ci(list, e)[k],
            e,
        ),
{
    if exists|k: int| 0 <= k < list.len() && eq_ignore_case(#[trigger] list[k], e) {
    } else {
        let r = list.push(e);
        assert(eq_ignore_case(r[list.len() as int], e));
        assert forall|i: int, j: int| 0 <= i < j < r.len() implies !eq_ignore_case(
            #[trigger] r[i],
            #[trigger] r[j],
        ) by {
            if j == list.len() {
                assert(r[i] == list[i]);
            }
        }
    }
}

proof fn lemma_entries_fold(init: Seq<Seq<char>>, lines: Seq<Seq<char>>)
    requires
        distinct_ci(init),
    ensures
        distinct_ci(entries_fold(init, lines)),
        entries_fold(init, lines).len() >= init.len(),
        forall|k: int| 0 <= k < init.len() ==> #[trigger] entries_fold(init, lines)[k] == init[k],
        forall|k: int|
            init.len() <= k < entries_fold(init, lines).len() ==> {
                &&& safe_updater_entry(#[trigger] entries_fold(init, lines)[k])
                &&& exists|j: int| 0 <= j < lines.len() && trim(#[trigger] lines[j]) == entries_fold(init, lines)[k]
            },
    decreases lines.len(),
{
    if lines.len() > 0 {
        let p = lines.drop_last();
        lemma_entries_fold(init, p);
        let acc = entries_fold(init, p);
        let t = trim(lines.last());
        lemma_add_unique_ci(acc, t);
        let r = entries_fold(init, lines);
        assert forall|k: int| init.len() <= k < r.len() implies {
            &&& safe_updater_entry(#[trigger] r[k])
            &&& exists|j: int| 0 <= j < lines.len() && trim(#[trigger] lines[j]) == r[k]
        } by {
            if k < acc.len() {
                assert(r[k] == acc[k]);
                let j = choose|j: int| 0 <= j < p.len() && trim(#[trigger] p[j]) == acc[k];
                assert(lines[j] == p[j]);
            } else {
                assert(r[k] == t);
                assert(lines[lines.len() - 1] == lines.last());
            }
        }
    }
}

/// The updater's startlist: the new build comes first; the fixed name
/// `AutoUpdateClient.exe` is always listed (without ASCII case), last when no
/// earlier entry names it; every other entry is a safe entry of the old list, trimmed; and no
/// name is listed twice without ASCII case.
pub proof fn law_startlist_shape(versioned: Seq<char>, previous: Option<Seq<char>>)
    ensures
        startlist_of(versioned, previous).len() > 0,
        startlist_of(versioned, previous)[0] == versioned,
        exists|k: int| 0 <= k < startlist_of(versioned, previous).len() && eq_ignore_case(
            #[trigger] startlist_of(versioned, previous)[k],
            UPDATER_BASE_NAME@,
        ),
        (forall|k: int|
            0 <= k < startlist_of(versioned, previous).len() - 1 ==> !eq_ignore_case(
                #[trigger] startlist_of(versioned, previous)[k],
                UPDATER_BASE_NAME@,
            )) ==> eq_ignore_case(startlist_of(versioned, previous).last(), UPDATER_BASE_NAME@),
        forall|k: int|
            1 <= k < startlist_of(versioned, previous).len() && !eq_ignore_case(
                #[trigger] startlist_of(versioned, previous)[k],
                UPDATER_BASE_NAME@,
            ) ==> safe_updater_entry(startlist_of(versioned, previous)[k]),
        distinct_ci(startlist_of(versioned, previous)),
{
    let lines = match previous {
        Some(text) => crate::text::split_on(text, '\n'),
        None => Seq::empty(),
    };
    let init = seq![versioned];
    assert(distinct_ci(init));
    lemma_entries_fold(init, lines);
    let acc = entries_fold(init, lines);
    lemma_add_unique_ci(acc, UPDATER_BASE_NAME@);
    let r = add_unique_ci(acc, UPDATER_BASE_NAME@);
    if exists|k: int| 0 <= k < acc.len() && eq_ignore_case(#[trigger] acc[k], UPDATER_BASE_NAME@) {
        assert(r == acc);
    } else {
        assert(r == acc.push(UPDATER_BASE_NAME@));
    }
    assert forall|k: int|
        1 <= k < r.len() && !eq_ignore_case(#[trigger] r[k], UPDATER_BASE_NAME@) implies safe_updater_entry(r[k]) by {
        if k < acc.len() {
            assert(r[k] == acc[k]);
        } else {
            assert(r[k] == UPDATER_BASE_NAME@);
            assert(eq_ignore_case(r[k], UPDATER_BASE_NAME@));
        }
    }
}

proof fn lemma_dedup_members(s: Seq<FileChange>)
    ensures
        forall|i: int| #![trigger dedup_canonical(s)[i]] 0 <= i < dedup_canonical(s).len() ==> exists|k: int|
            0 <= k < s.len() && s[k] == dedup_canonical(s)[i],
        dedup_canonical(s).len() <= s.len(),
    decreases s.len(),
{
    if s.len() > 0 {
        lemma_dedup_members(s.drop_last());
        let r = dedup_canonical(s.drop_last());
        assert forall|i: int| #![trigger dedup_canonical(s)[i]] 0 <= i < dedup_canonical(s).len() implies exists|k: int|
            0 <= k < s.len() && s[k] == dedup_canonical(s)[i] by {
            if i < r.len() {
                assert(dedup_canonical(s)[i] == r[i]);
                let k = choose|k: int| 0 <= k < s.drop_last().len() && s.drop_last()[k] == r[i];
                assert(s[k] == s.drop_last()[k]);
            } else {
                assert(s[s.len() - 1] == dedup_canonical(s)[i]);
            }
        }
    }
}

proof fn lemma_dedup_sorted(s: Seq<FileChange>)
    requires
        sorted_by_key(s),
    ensures
        sorted_by_key(dedup_canonical(s)),
    decreases s.len(),
{
    if s.len() > 0 {
        let p = s.drop_last();
        assert(sorted_by_key(p)) by {
            assert forall|i: int, j: int| 0 <= i < j < p.len() implies !lex_lt(
                #[trigger] p[j].key(),
                #[trigger] p[i].key(),
            ) by {
                assert(p[i] == s[i] && p[j] == s[j]);
            }
        }
        lemma_dedup_sorted(p);
        lemma_dedup_members(p);
        let r = dedup_canonical(p);
        let d = dedup_canonical(s);
        assert forall|i: int, j: int| 0 <= i < j < d.len() implies !lex_lt(
            #[trigger] d[j].key(),
            #[trigger] d[i].key(),
        ) by {
            if j < r.len() {
                assert(d[i] == r[i] && d[j] == r[j]);
            } else {
                assert(d[j] == s.last());
                assert(d[i] == r[i]);
                let k = choose|k: int| 0 <= k < p.len() && p[k] == r[i];
                assert(s[k] == p[k]);
                assert(!lex_lt(s[s.len() - 1].key(), s[k].key()));
            }
        }
    }
}

/// A planned pack writes the updater's startlist after every other
/// operation: once an operation writes the startlist, every later one does too.
pub proof fn law_startlist_written_last(out: Seq<FileChange>, changes: Seq<FileChange>)
    requires
        ordered_from(out, changes),
    ensures
        forall|i: int, j: int|
            0 <= i < j < out.len() && writes_path(#[trigger] out[i], UPDATER_STARTLIST_PATH@)
                ==> writes_path(#[trigger] out[j], UPDATER_STARTLIST_PATH@),
{
    let (idx, sorted) = choose|idx: Seq<int>, sorted: Seq<FileChange>|
        #![trigger is_permutation(idx, changes, sorted)]
        {
            &&& is_permutation(idx, changes, sorted)
            &&& keeps_ties_in_order(idx, sorted)
            &&& sorted_by_key(sorted)
            &&& sorted.to_multiset() == changes.to_multiset()
            &&& out == dedup_canonical(sorted)
        };
    lemma_dedup_sorted(sorted);
    assert forall|i: int, j: int|
        0 <= i < j < out.len() && writes_path(#[trigger] out[i], UPDATER_STARTLIST_PATH@)
            implies writes_path(#[trigger] out[j], UPDATER_STARTLIST_PATH@) by {
        if !writes_path(out[j], UPDATER_STARTLIST_PATH@) {
            let kj = out[j].key();
            let ki = out[i].key();
            assert(kj[0] == '0' && ki[0] == '1');
            assert(lex_lt(kj, ki));
        }
    }
}

/// The operations a selection keeps are the planned ones, in order, minus
/// those whose identifier was excluded.
pub proof fn law_selection_respects_exclusions(changes: Seq<FileChange>, excluded: Seq<String>)
    ensures
        forall|i: int| 0 <= i < kept_changes(changes, excluded).len() ==> !listed(
            excluded,
            change_id_of(#[trigger] kept_changes(changes, excluded)[i]),
        ),
        forall|c: FileChange| changes.contains(c) && !listed(excluded, change_id_of(c))
            ==> #[trigger] kept_changes(changes, excluded).contains(c),
{
    let f = |c: FileChange| !listed(excluded, change_id_of(c));
    assert forall|i: int| 0 <= i < kept_changes(changes, excluded).len() implies !listed(
        excluded,
        change_id_of(#[trigger] kept_changes(changes, excluded)[i]),
    ) by {
        changes.lemma_filter_pred(f, i);
    }
    assert forall|c: FileChange| changes.contains(c) && !listed(excluded, change_id_of(c))
        implies #[trigger] kept_changes(changes, excluded).contains(c) by {
        let k = choose|k: int| 0 <= k < changes.len() && changes[k] == c;
        changes.lemma_filter_contains(f, k);
    }
}

/// Why a selection of changes cannot be packed under `version_label`, before
/// any file is read, if it cannot.
pub open spec fn pack_selection_error(
    version_label: Seq<char>,
    existing_labels: Seq<String>,
    change_count: nat,
    hash_deletion_count: nat,
) -> Option<Seq<char>> {
    match version_label_error(version_label) {
        Some(e) => Some(e),
        None => if listed(existing_labels, trim(version_label)) {
            Some("版本号已经存在: "@ + trim(version_label))
        } else if change_count == 0 && hash_deletion_count == 0 {
            Some("目前没有任何已选择的文件修改"@)
        } else {
            None
        },
    }
}

/// Checks a selection before it is packed and returns the normalized label:
/// the label must be valid and new, and something must be selected.
pub fn check_pack_selection(
    version_label: &str,
    existing_labels: &Vec<String>,
    changes: &Vec<FileChange>,
    hash_deletions: &Vec<ClientHashDeletion>,
) -> (r: Result<String, String>)
    ensures
        match pack_selection_error(
            version_label@,
            existing_labels@,
            changes@.len(),
            hash_deletions@.len(),
        ) {
            Some(e) => r is Err && r->Err_0@ == e,
            None => r is Ok && r->Ok_0@ == trim(version_label@),
        },
{
    let label = match normalize_version_label(version_label) {
        Ok(l) => l,
        Err(e) => return Err(e),
    };
    if listed_exec(existing_labels, &label) {
        return Err(message_with("版本号已经存在: ", label.as_str()));
    }
    if changes.len() == 0 && hash_deletions.len() == 0 {
        return Err("目前没有任何已选择的文件修改".to_owned());
    }
    Ok(label)
}

/// The refusal when a file to pack no longer has the length and hash that
/// the preview showed, or `None` when it still has them.
pub fn previewed_file_changed(
    path: &str,
    len: u64,
    hash: &str,
    actual_len: u64,
    actual_hash: &str,
) -> (r: Option<String>)
    ensures
        (actual_len == len && actual_hash@ == hash@) ==> r is None,
        !(actual_len == len && actual_hash@ == hash@) ==> r is Some && r->Some_0@
            == "预览后文件发生变化，请重新确认: "@ + path@,
{
    if actual_len != len || !str_eq(actual_hash, hash) {
        return Some(message_with("预览后文件发生变化，请重新确认: ", path));
    }
    None
}

/// Does a preview have exactly the operation `op`?
pub open spec fn names_operation(op: Seq<char>) -> spec_fn(PackChangePreview) -> bool {
    |q: PackChangePreview| q.operation@ == op
}

/// How many of the previews have exactly the operation `op`.
pub open spec fn previews_named(s: Seq<PackChangePreview>, op: Seq<char>) -> nat {
    s.filter(names_operation(op)).len()
}

/// The operations a preview can name.
pub open spec fn known_operation(op: Seq<char>) -> bool {
    ||| op == "create-directory"@
    ||| op == "add-file"@
    ||| op == "update-file"@
    ||| op == "move-file"@
    ||| op == "delete-file"@
    ||| op == "delete-directory"@
    ||| op == "delete-file-by-hash"@
}

proof fn lemma_count_is_filter(s: Seq<PackChangePreview>, op: Seq<char>)
    ensures
        count_op(s, op) == previews_named(s, op),
    decreases s.len(),
{
    if s.len() > 0 {
        let p = s.drop_last();
        lemma_count_is_filter(p, op);
        assert(p.push(s.last()) =~= s);
        p.lemma_filter_push(s.last(), names_operation(op));
    } else {
        assert(s.filter(names_operation(op)) =~= Seq::<PackChangePreview>::empty());
    }
}

proof fn lemma_operation_names_differ()
    ensures
        "create-directory"@ != "add-file"@,
        "create-directory"@ != "update-file"@,
        "create-directory"@ != "move-file"@,
        "create-directory"@ != "delete-file"@,
        "create-directory"@ != "delete-directory"@,
        "create-directory"@ != "delete-file-by-hash"@,
        "add-file"@ != "update-file"@,
        "add-file"@ != "move-file"@,
        "add-file"@ != "delete-file"@,
        "add-file"@ != "delete-directory"@,
        "add-file"@ != "delete-file-by-hash"@,
        "update-file"@ != "move-file"@,
        "update-file"@ != "delete-file"@,
        "update-file"@ != "delete-directory"@,
        "update-file"@ != "delete-file-by-hash"@,
        "move-file"@ != "delete-file"@,
        "move-file"@ != "delete-directory"@,
        "move-file"@ != "delete-file-by-hash"@,
        "delete-file"@ != "delete-directory"@,
        "delete-file"@ != "delete-file-by-hash"@,
        "delete-directory"@ != "delete-file-by-hash"@,
{
    reveal_strlit("create-directory");
    reveal_strlit("add-file");
    reveal_strlit("update-file");
    reveal_strlit("move-file");
    reveal_strlit("delete-file");
    reveal_strlit("delete-directory");
    reveal_strlit("delete-file-by-hash");
    assert("create-directory"@.len() == 16);
    assert("add-file"@.len() == 8);
    assert("update-file"@.len() == 11);
    assert("move-file"@.len() == 9);
    assert("delete-file"@.len() == 11);
    assert("delete-directory"@.len() == 16);
    assert("delete-file-by-hash"@.len() == 19);
    assert("create-directory"@[0] != "delete-directory"@[0]);
    assert("update-file"@[0] != "delete-file"@[0]);
}

proof fn lemma_counts_sum(s: Seq<PackChangePreview>)
    ensures
        count_op(s, "create-directory"@) + count_op(s, "add-file"@) + count_op(s, "update-file"@)
            + count_op(s, "move-file"@) + count_op(s, "delete-file"@) + count_op(s, "delete-directory"@)
            + count_op(s, "delete-file-by-hash"@) == s.filter(
            |p: PackChangePreview| known_operation(p.operation@),
        ).len(),
    decreases s.len(),
{
    if s.len() > 0 {
        let p = s.drop_last();
        lemma_counts_sum(p);
        lemma_operation_names_differ();
        assert(p.push(s.last()) =~= s);
        p.lemma_filter_push(s.last(), |x: PackChangePreview| known_operation(x.operation@));
    } else {
        assert(s.filter(|x: PackChangePreview| known_operation(x.operation@)) =~= Seq::<PackChangePreview>::empty());
    }
}

/// The counts of a pack preview count its lines by operation: each count is
/// the number of previews whose operation is exactly its name
/// (`delete_file` counts `delete-file` lines, and so on), and together they
/// count every preview with a known operation once.
pub proof fn law_counts_count_operations(s: Seq<PackChangePreview>, c: PackChangeCounts)
    requires
        counts_of(s, c),
    ensures
        c.create_directory == previews_named(s, "create-directory"@),
        c.add_file == previews_named(s, "add-file"@),
        c.update_file == previews_named(s, "update-file"@),
        c.move_file == previews_named(s, "move-file"@),
        c.delete_file == previews_named(s, "delete-file"@),
        c.delete_directory == previews_named(s, "delete-directory"@),
        c.delete_by_hash == previews_named(s, "delete-file-by-hash"@),
        c.create_directory + c.add_file + c.update_file + c.move_file + c.delete_file + c.delete_directory
            + c.delete_by_hash == s.filter(|p: PackChangePreview| known_operation(p.operation@)).len(),
{
    lemma_count_is_filter(s, "create-directory"@);
    lemma_count_is_filter(s, "add-file"@);
    lemma_count_is_filter(s, "update-file"@);
    lemma_count_is_filter(s, "move-file"@);
    lemma_count_is_filter(s, "delete-file"@);
    lemma_count_is_filter(s, "delete-directory"@);
    lemma_count_is_filter(s, "delete-file-by-hash"@);
    lemma_counts_sum(s);
}

/// Where an operation falls in the order clients replay a version: deleted
/// files, then created directories, moves, written files, and deleted
/// directories last.
pub open spec fn replay_rank(c: FileChange) -> int {
    match c {
        FileChange::DeleteFile { .. } => 1,
        FileChange::CreateFolder { .. } => 2,
        FileChange::MoveFile { .. } => 3,
        FileChange::UpdateFile { .. } => 4,
        FileChange::DeleteFolder { .. } => 5,
    }
}

proof fn lemma_key_rank(c: FileChange)
    requires
        !writes_path(c, UPDATER_STARTLIST_PATH@),
    ensures
        c.key().len() >= 2,
        c.key()[0] == '0',
        c.key()[1] as int == '0' as int + replay_rank(c),
{
    reveal_strlit("1|delete-file|");
    reveal_strlit("2|create-directory|");
    reveal_strlit("3|move-file|");
    reveal_strlit("4|update-file|");
    reveal_strlit("5|delete-directory|");
    let k = c.key();
    assert(k[0] == '0');
    match c {
        FileChange::DeleteFile { path } => {
            assert(k[1] == "1|delete-file|"@[0]);
        },
        FileChange::CreateFolder { path } => {
            assert(k[1] == "2|create-directory|"@[0]);
        },
        FileChange::MoveFile { from, to } => {
            assert(k[1] == "3|move-file|"@[0]);
        },
        FileChange::UpdateFile { path, .. } => {
            assert(k[1] == "4|update-file|"@[0]);
        },
        FileChange::DeleteFolder { path } => {
            assert(k[1] == "5|delete-directory|"@[0]);
        },
    }
}

/// The operations of a planned pack come in the order clients must replay
/// them: apart from the updater's startlist, which is written last, no
/// operation comes after one that is replayed later. So files are deleted,
/// directories created, files moved and written before any directory is
/// deleted.
pub proof fn law_replay_order(out: Seq<FileChange>, changes: Seq<FileChange>)
    requires
        ordered_from(out, changes),
    ensures
        forall|i: int, j: int|
            0 <= i < j < out.len() && !writes_path(#[trigger] out[i], UPDATER_STARTLIST_PATH@) && !writes_path(
                #[trigger] out[j],
                UPDATER_STARTLIST_PATH@,
            ) ==> replay_rank(out[i]) <= replay_rank(out[j]),
        forall|i: int, j: int|
            0 <= i < j < out.len() && (#[trigger] out[i]) is DeleteFolder ==> (#[trigger] out[j]) is DeleteFolder
                || writes_path(out[j], UPDATER_STARTLIST_PATH@),
{
    let (idx, sorted) = choose|idx: Seq<int>, sorted: Seq<FileChange>|
        #![trigger is_permutation(idx, changes, sorted)]
        {
            &&& is_permutation(idx, changes, sorted)
            &&& keeps_ties_in_order(idx, sorted)
            &&& sorted_by_key(sorted)
            &&& sorted.to_multiset() == changes.to_multiset()
            &&& out == dedup_canonical(sorted)
        };
    lemma_dedup_sorted(sorted);
    assert forall|i: int, j: int|
        0 <= i < j < out.len() && !writes_path(#[trigger] out[i], UPDATER_STARTLIST_PATH@) && !writes_path(
            #[trigger] out[j],
            UPDATER_STARTLIST_PATH@,
        ) implies replay_rank(out[i]) <= replay_rank(out[j]) by {
        lemma_key_rank(out[i]);
        lemma_key_rank(out[j]);
        if replay_rank(out[i]) > replay_rank(out[j]) {
            let ki = out[i].key();
            let kj = out[j].key();
            assert(kj[1] < ki[1]);
            reveal_with_fuel(lex_lt, 2);
            assert(kj.drop_first()[0] == kj[1]);
            assert(ki.drop_first()[0] == ki[1]);
            assert(lex_lt(kj, ki));
        }
    }
    assert forall|i: int, j: int|
        0 <= i < j < out.len() && (#[trigger] out[i]) is DeleteFolder implies (#[trigger] out[j]) is DeleteFolder
            || writes_path(out[j], UPDATER_STARTLIST_PATH@) by {
        if !writes_path(out[j], UPDATER_STARTLIST_PATH@) {
            assert(!writes_path(out[i], UPDATER_STARTLIST_PATH@));
            assert(replay_rank(out[i]) <= replay_rank(out[j]));
        }
    }
}

} // verus!
