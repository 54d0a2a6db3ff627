//! Deletion rules that the administrator registers between two packs.
//!
//! A client path is either deleted unconditionally (a forced deletion) or only
//! when its content has a given SHA-256 and length (a hash deletion). A path is
//! never registered twice, nor in both lists, compared without ASCII case.
use vstd::prelude::*;

use crate::order::{is_permutation, lex_lt, sort_by_key, sorted_by_key, Keyed};
use crate::text::{
    all_hex, chars_all_hex, chars_eq, chars_eq_ignore_case, chars_has, chars_of, eq_ignore_case,
    has_char, is_alnum, lower, lower_chars, lower_seq, slash_chars, slash_seq, split_chars, split_on,
    string_of, trim, trim_chars, views, char_is_alnum, copy_string, dec, decimal, push_str,
};

verus! {

broadcast use vstd::seq_lib::group_to_multiset_ensures;

/// The version of the stored rule file.
pub const SCHEMA_VERSION: u8 = 2;

/// A client path that the next pack deletes whatever its content.
#[derive(Clone, Debug)]
pub struct ForcedDeletion {
    pub path: String,
    pub pending: bool,
}

/// A client path that the next pack deletes only when its content matches.
#[derive(Clone, Debug)]
pub struct PendingHashDeletion {
    pub path: String,
    pub sha256: String,
    pub len: u64,
    pub staged_file: Option<String>,
    pub pending: bool,
}

/// The registered deletion rules.
#[derive(Clone, Debug)]
pub struct PendingChanges {
    pub schema: u8,
    pub forced_deletions: Vec<ForcedDeletion>,
    pub hash_deletions: Vec<PendingHashDeletion>,
}

impl Keyed for ForcedDeletion {
    open spec fn key(&self) -> Seq<char> {
        self.path@
    }

    fn key_chars(&self) -> (k: Vec<char>) {
        chars_of(self.path.as_str())
    }
}

impl Keyed for PendingHashDeletion {
    open spec fn key(&self) -> Seq<char> {
        self.path@
    }

    fn key_chars(&self) -> (k: Vec<char>) {
        chars_of(self.path.as_str())
    }
}

impl Default for PendingChanges {
    fn default() -> (r: Self)
        ensures
            r.schema == SCHEMA_VERSION,
            r.forced_deletions@.len() == 0,
            r.hash_deletions@.len() == 0,
            rules_invariant(r),
    {
        PendingChanges { schema: SCHEMA_VERSION, forced_deletions: Vec::new(), hash_deletions: Vec::new() }
    }
}

// ---------------------------------------------------------------------------
// Client paths
// ---------------------------------------------------------------------------

/// A `/`-separated part that must not appear in a client path.
pub open spec fn unsafe_part(p: Seq<char>) -> bool {
    p.len() == 0 || p == seq!['.'] || p == seq!['.', '.']
}

/// The path as it is compared and stored: trimmed, with `/` separators.
pub open spec fn client_path_form(path: Seq<char>) -> Seq<char> {
    slash_seq(trim(path))
}

pub open spec fn client_path_absolute(p: Seq<char>) -> bool {
    (p.len() > 0 && p[0] == '/') || has_char(p, ':')
}

pub open spec fn client_path_has_unsafe_part(p: Seq<char>) -> bool {
    exists|i: int| 0 <= i < split_on(p, '/').len() && unsafe_part(#[trigger] split_on(p, '/')[i])
}

/// Is `path` a safe path relative to the client root?
pub open spec fn valid_client_path(path: Seq<char>) -> bool {
    let p = client_path_form(path);
    p.len() > 0 && !client_path_absolute(p) && !client_path_has_unsafe_part(p)
}

pub fn has_unsafe_part(p: &Vec<char>) -> (r: bool)
    ensures
        r == client_path_has_unsafe_part(p@),
{
    let parts = split_chars(p, '/');
    for i in 0..parts.len()
        invariant
            views(parts@) == split_on(p@, '/'),
            forall|k: int| 0 <= k < i ==> !unsafe_part(#[trigger] split_on(p@, '/')[k]),
    {
        let part = &parts[i];
        assert(split_on(p@, '/')[i as int] == part@);
        if part.len() == 0 {
            return true;
        }
        if part.len() == 1 && part[0] == '.' {
            assert(part@ =~= seq!['.']);
            return true;
        }
        if part.len() == 2 && part[0] == '.' && part[1] == '.' {
            assert(part@ =~= seq!['.', '.']);
            return true;
        }
        assert(part@ != seq!['.']) by {
            if part@.len() == 1 {
                assert(part@[0] != seq!['.'][0]);
            }
        }
        assert(part@ != seq!['.', '.']) by {
            if part@.len() == 2 {
                assert(part@[0] != '.' || part@[1] != '.');
            }
        }
    }
    assert forall|k: int| 0 <= k < split_on(p@, '/').len() implies !unsafe_part(
        #[trigger] split_on(p@, '/')[k],
    ) by {
        assert(views(parts@).len() == parts@.len());
    }
    false
}

/// The message with which an unsafe client path is refused.
pub open spec fn client_path_error(path: Seq<char>) -> Seq<char> {
    if client_path_form(path).len() == 0 {
        "客户端路径不能为空"@
    } else if client_path_absolute(client_path_form(path)) {
        "客户端路径必须是相对路径"@
    } else {
        "客户端路径包含不安全的目录片段"@
    }
}

/// A path in its stored form is its own stored form, and a valid path stays
/// valid once stored: normalizing a normalized path changes nothing.
pub proof fn law_client_path_form_is_stable(path: Seq<char>)
    ensures
        client_path_form(client_path_form(path)) == client_path_form(path),
        valid_client_path(path) ==> valid_client_path(client_path_form(path)),
{
    let t = trim(path);
    let p = slash_seq(t);
    crate::text::lemma_trim_ends(path);
    if p.len() > 0 {
        assert(p[0] == if t[0] == '\\' { '/' } else { t[0] });
        assert(p.last() == if t.last() == '\\' { '/' } else { t.last() });
    }
    crate::text::lemma_trim_fixed(p);
    assert(slash_seq(p) =~= p);
}

/// Checks that `path` is a safe client-relative path and returns it trimmed,
/// with `\` replaced by `/`.
pub fn normalize_client_path(path: &str) -> (r: Result<String, String>)
    ensures
        r is Ok <==> valid_client_path(path@),
        r matches Ok(s) ==> s@ == client_path_form(path@),
        r matches Err(e) ==> e@ == client_path_error(path@),
{
    let raw = chars_of(path);
    let trimmed = trim_chars(&raw);
    let p = slash_chars(&trimmed);
    if p.len() == 0 {
        return Err("客户端路径不能为空".to_owned());
    }
    if p[0] == '/' || chars_has(&p, ':') {
        return Err("客户端路径必须是相对路径".to_owned());
    }
    if has_unsafe_part(&p) {
        return Err("客户端路径包含不安全的目录片段".to_owned());
    }
    Ok(string_of(&p))
}

/// The key under which a path is deduplicated (`to_ascii_lowercase`).
pub fn path_key(path: &str) -> (r: String)
    ensures
        r@ == lower_seq(path@),
{
    let cs = chars_of(path);
    let low = lower_chars(&cs);
    string_of(&low)
}

/// Are two paths equal without ASCII case?
pub fn paths_equal(left: &str, right: &str) -> (r: bool)
    ensures
        r == eq_ignore_case(left@, right@),
{
    let a = chars_of(left);
    let b = chars_of(right);
    chars_eq_ignore_case(&a, &b)
}

// ---------------------------------------------------------------------------
// Content fingerprints and staged files
// ---------------------------------------------------------------------------

/// A SHA-256 in the stored form: trimmed, lower case.
pub open spec fn sha256_form(value: Seq<char>) -> Seq<char> {
    lower_seq(trim(value))
}

/// Is `value` a 64-digit hexadecimal SHA-256 once trimmed?
pub open spec fn valid_sha256(value: Seq<char>) -> bool {
    sha256_form(value).len() == 64 && all_hex(sha256_form(value))
}

/// Checks a SHA-256 and returns it trimmed and lower-cased.
pub fn normalize_sha256(value: &str) -> (r: Result<String, String>)
    ensures
        r is Ok <==> valid_sha256(value@),
        r matches Ok(s) ==> s@ == sha256_form(value@),
        r matches Err(e) ==> e@ == "客户端删除哈希必须是 64 位 SHA-256"@,
{
    let raw = chars_of(value);
    let trimmed = trim_chars(&raw);
    let v = lower_chars(&trimmed);
    if v.len() != 64 || !chars_all_hex(&v) {
        return Err("客户端删除哈希必须是 64 位 SHA-256".to_owned());
    }
    Ok(string_of(&v))
}

/// A fingerprint in its stored form is its own stored form, and a valid one
/// stays valid once stored.
pub proof fn lemma_sha256_form_stable(value: Seq<char>)
    ensures
        sha256_form(sha256_form(value)) == sha256_form(value),
        valid_sha256(value) ==> valid_sha256(sha256_form(value)),
{
    let t = trim(value);
    let l = lower_seq(t);
    crate::text::lemma_trim_ends(value);
    if l.len() > 0 {
        assert(l[0] == lower(t[0]));
        assert(l.last() == lower(t.last()));
    }
    crate::text::lemma_trim_fixed(l);
    assert(lower_seq(l) =~= l);
}

pub open spec fn staged_char(c: char) -> bool {
    is_alnum(c) || c == '-' || c == '_' || c == '.'
}

/// Is `value` an acceptable name for a staged fingerprint file?
pub open spec fn valid_staged_file(value: Seq<char>) -> bool {
    0 < value.len() <= 128 && forall|i: int| 0 <= i < value.len() ==> staged_char(#[trigger] value[i])
}

/// Checks the name of a staged fingerprint file and returns it unchanged.
pub fn normalize_staged_file(value: &str) -> (r: Result<String, String>)
    ensures
        r is Ok <==> valid_staged_file(value@),
        r matches Ok(s) ==> s@ == value@,
        r matches Err(e) ==> e@ == "哈希删除暂存文件名无效"@,
{
    let v = chars_of(value);
    if v.len() == 0 || v.len() > 128 {
        return Err("哈希删除暂存文件名无效".to_owned());
    }
    for i in 0..v.len()
        invariant
            v@ == value@,
            forall|k: int| 0 <= k < i ==> staged_char(#[trigger] v@[k]),
    {
        let c = v[i];
        if !(char_is_alnum(c) || c == '-' || c == '_' || c == '.') {
            assert(!staged_char(v@[i as int]));
            return Err("哈希删除暂存文件名无效".to_owned());
        }
    }
    Ok(string_of(&v))
}

// ---------------------------------------------------------------------------
// The rule lists
// ---------------------------------------------------------------------------

/// Does any forced deletion name `path`, without ASCII case?
pub open spec fn forced_names(s: Seq<ForcedDeletion>, path: Seq<char>) -> bool {
    exists|i: int| 0 <= i < s.len() && eq_ignore_case(#[trigger] s[i].path@, path)
}

/// Does any hash deletion name `path`, without ASCII case?
pub open spec fn hash_names(s: Seq<PendingHashDeletion>, path: Seq<char>) -> bool {
    exists|i: int| 0 <= i < s.len() && eq_ignore_case(#[trigger] s[i].path@, path)
}

/// The first forced deletion that names `path`, or the length if none does.
pub open spec fn first_forced(s: Seq<ForcedDeletion>, path: Seq<char>) -> int
    decreases s.len(),
{
    if s.len() == 0 {
        0
    } else if eq_ignore_case(s[0].path@, path) {
        0
    } else {
        1 + first_forced(s.drop_first(), path)
    }
}

/// The first hash deletion that names `path`, or the length if none does.
pub open spec fn first_hash(s: Seq<PendingHashDeletion>, path: Seq<char>) -> int
    decreases s.len(),
{
    if s.len() == 0 {
        0
    } else if eq_ignore_case(s[0].path@, path) {
        0
    } else {
        1 + first_hash(s.drop_first(), path)
    }
}

proof fn lemma_first_forced(s: Seq<ForcedDeletion>, path: Seq<char>)
    ensures
        0 <= first_forced(s, path) <= s.len(),
        forall|k: int| 0 <= k < first_forced(s, path) ==> !eq_ignore_case(#[trigger] s[k].path@, path),
        first_forced(s, path) < s.len() ==> eq_ignore_case(s[first_forced(s, path)].path@, path),
        forced_names(s, path) <==> first_forced(s, path) < s.len(),
    decreases s.len(),
{
    if s.len() > 0 && !eq_ignore_case(s[0].path@, path) {
        lemma_first_forced(s.drop_first(), path);
        assert forall|k: int| 0 <= k < first_forced(s, path) implies !eq_ignore_case(
            #[trigger] s[k].path@,
            path,
        ) by {
            if k > 0 {
                assert(s[k] == s.drop_first()[k - 1]);
            }
        }
        if forced_names(s, path) {
            let i = choose|i: int| 0 <= i < s.len() && eq_ignore_case(#[trigger] s[i].path@, path);
            assert(s.drop_first()[i - 1] == s[i]);
        }
        if first_forced(s, path) < s.len() {
            assert(s[first_forced(s, path)] == s.drop_first()[first_forced(s.drop_first(), path)]);
        }
    }
}

proof fn lemma_first_hash(s: Seq<PendingHashDeletion>, path: Seq<char>)
    ensures
        0 <= first_hash(s, path) <= s.len(),
        forall|k: int| 0 <= k < first_hash(s, path) ==> !eq_ignore_case(#[trigger] s[k].path@, path),
        first_hash(s, path) < s.len() ==> eq_ignore_case(s[first_hash(s, path)].path@, path),
        hash_names(s, path) <==> first_hash(s, path) < s.len(),
    decreases s.len(),
{
    if s.len() > 0 && !eq_ignore_case(s[0].path@, path) {
        lemma_first_hash(s.drop_first(), path);
        assert forall|k: int| 0 <= k < first_hash(s, path) implies !eq_ignore_case(
            #[trigger] s[k].path@,
            path,
        ) by {
            if k > 0 {
                assert(s[k] == s.drop_first()[k - 1]);
            }
        }
        if hash_names(s, path) {
            let i = choose|i: int| 0 <= i < s.len() && eq_ignore_case(#[trigger] s[i].path@, path);
            assert(s.drop_first()[i - 1] == s[i]);
        }
        if first_hash(s, path) < s.len() {
            assert(s[first_hash(s, path)] == s.drop_first()[first_hash(s.drop_first(), path)]);
        }
    }
}

fn find_forced(s: &Vec<ForcedDeletion>, path: &Vec<char>) -> (r: usize)
    ensures
        r == first_forced(s@, path@),
{
    proof {
        lemma_first_forced(s@, path@);
    }
    for i in 0..s.len()
        invariant
            forall|k: int| 0 <= k < i ==> !eq_ignore_case(#[trigger] s@[k].path@, path@),
            0 <= first_forced(s@, path@) <= s@.len(),
            forall|k: int| 0 <= k < first_forced(s@, path@) ==> !eq_ignore_case(#[trigger] s@[k].path@, path@),
            first_forced(s@, path@) < s@.len() ==> eq_ignore_case(s@[first_forced(s@, path@)].path@, path@),
    {
        let other = chars_of(s[i].path.as_str());
        if chars_eq_ignore_case(&other, path) {
            return i;
        }
    }
    s.len()
}

fn find_hash(s: &Vec<PendingHashDeletion>, path: &Vec<char>) -> (r: usize)
    ensures
        r == first_hash(s@, path@),
{
    proof {
        lemma_first_hash(s@, path@);
    }
    for i in 0..s.len()
        invariant
            forall|k: int| 0 <= k < i ==> !eq_ignore_case(#[trigger] s@[k].path@, path@),
            0 <= first_hash(s@, path@) <= s@.len(),
            forall|k: int| 0 <= k < first_hash(s@, path@) ==> !eq_ignore_case(#[trigger] s@[k].path@, path@),
            first_hash(s@, path@) < s@.len() ==> eq_ignore_case(s@[first_hash(s@, path@)].path@, path@),
    {
        let other = chars_of(s[i].path.as_str());
        if chars_eq_ignore_case(&other, path) {
            return i;
        }
    }
    s.len()
}

/// The forced deletions after re-arming the entry at `i`.
pub open spec fn rearm_forced(s: Seq<ForcedDeletion>, i: int) -> Seq<ForcedDeletion> {
    s.update(i, ForcedDeletion { path: s[i].path, pending: true })
}

/// The entries whose path differs from `path` without ASCII case, in order.
pub open spec fn forced_without(s: Seq<ForcedDeletion>, path: Seq<char>) -> Seq<ForcedDeletion> {
    s.filter(|e: ForcedDeletion| !eq_ignore_case(e.path@, path))
}

/// Is `path` among `paths`, exactly?
pub open spec fn listed(paths: Seq<String>, path: Seq<char>) -> bool {
    exists|i: int| 0 <= i < paths.len() && #[trigger] paths[i]@ == path
}

pub fn listed_exec(paths: &Vec<String>, path: &String) -> (r: bool)
    ensures
        r == listed(paths@, path@),
{
    for i in 0..paths.len()
        invariant
            forall|k: int| 0 <= k < i ==> #[trigger] paths@[k]@ != path@,
    {
        if paths[i] == *path {
            return true;
        }
    }
    false
}

/// The staged files of the hash deletions that `paths` names, in order.
pub open spec fn staged_of_emitted(s: Seq<PendingHashDeletion>, paths: Seq<String>) -> Seq<String>
    decreases s.len(),
{
    if s.len() == 0 {
        Seq::empty()
    } else {
        let rest = staged_of_emitted(s.drop_last(), paths);
        let e = s.last();
        if listed(paths, e.path@) && e.staged_file is Some {
            rest.push(e.staged_file->Some_0)
        } else {
            rest
        }
    }
}

// ---------------------------------------------------------------------------
// The invariant of the rules
// ---------------------------------------------------------------------------

/// No two records have keys equal without ASCII case.
pub open spec fn keys_distinct<T: Keyed>(s: Seq<T>) -> bool {
    forall|i: int, j: int|
        0 <= i < j < s.len() ==> !eq_ignore_case(#[trigger] s[i].key(), #[trigger] s[j].key())
}

/// No record of `a` has a key equal to one of `b` without ASCII case.
pub open spec fn keys_apart<A: Keyed, B: Keyed>(a: Seq<A>, b: Seq<B>) -> bool {
    forall|i: int, j: int|
        0 <= i < a.len() && 0 <= j < b.len() ==> !eq_ignore_case(#[trigger] a[i].key(), #[trigger] b[j].key())
}

impl PendingChanges {
    /// No path is registered twice, nor in both lists, compared without ASCII case.
    pub open spec fn rules_wf(&self) -> bool {
        &&& keys_distinct(self.forced_deletions@)
        &&& keys_distinct(self.hash_deletions@)
        &&& keys_apart(self.forced_deletions@, self.hash_deletions@)
    }
}

proof fn lemma_perm_keeps_rules<T: Keyed, B: Keyed>(idx: Seq<int>, v: Seq<T>, out: Seq<T>, other: Seq<B>)
    requires
        is_permutation(idx, v, out),
        keys_distinct(v),
    ensures
        keys_distinct(out),
        keys_apart(v, other) ==> keys_apart(out, other),
        keys_apart(other, v) ==> keys_apart(other, out),
{
    assert forall|i: int, j: int| 0 <= i < j < out.len() implies !eq_ignore_case(
        #[trigger] out[i].key(),
        #[trigger] out[j].key(),
    ) by {
        assert(out[i] == v[idx[i]] && out[j] == v[idx[j]]);
        assert(idx[i] != idx[j]);
        if idx[i] < idx[j] {
        } else {
            assert(!eq_ignore_case(v[idx[j]].key(), v[idx[i]].key()));
        }
    }
    if keys_apart(v, other) {
        assert forall|i: int, j: int| 0 <= i < out.len() && 0 <= j < other.len() implies !eq_ignore_case(
            #[trigger] out[i].key(),
            #[trigger] other[j].key(),
        ) by {
            assert(out[i] == v[idx[i]]);
        }
    }
    if keys_apart(other, v) {
        assert forall|i: int, j: int| 0 <= i < other.len() && 0 <= j < out.len() implies !eq_ignore_case(
            #[trigger] other[i].key(),
            #[trigger] out[j].key(),
        ) by {
            assert(out[j] == v[idx[j]]);
        }
    }
}

/// A filtered sequence maps into the one it was filtered from.
proof fn lemma_filter_permutation<T>(s: Seq<T>, pred: spec_fn(T) -> bool) -> (idx: Seq<int>)
    ensures
        is_permutation(idx, s, s.filter(pred)),
        forall|k: int| 0 <= k < idx.len() ==> #[trigger] idx[k] < s.len(),
        forall|a: int, b: int| 0 <= a < b < idx.len() ==> #[trigger] idx[a] < #[trigger] idx[b],
    decreases s.len(),
{
    if s.len() == 0 {
        assert(s.filter(pred) =~= Seq::<T>::empty()) by {
            s.lemma_filter_len(pred);
        }
        Seq::empty()
    } else {
        let p = s.drop_last();
        let pi = lemma_filter_permutation(p, pred);
        assert(p.push(s.last()) =~= s);
        p.lemma_filter_push(s.last(), pred);
        if pred(s.last()) {
            let idx = pi.push(s.len() - 1);
            assert forall|k: int| 0 <= k < idx.len() implies 0 <= #[trigger] idx[k] < s.len()
                && s.filter(pred)[k] == s[idx[k]] by {
                if k < pi.len() {
                    assert(p[pi[k]] == s[pi[k]]);
                }
            }
            idx
        } else {
            assert forall|k: int| 0 <= k < pi.len() implies 0 <= #[trigger] pi[k] < s.len()
                && s.filter(pred)[k] == s[pi[k]] by {
                assert(p[pi[k]] == s[pi[k]]);
            }
            pi
        }
    }
}

/// Removing one record maps into the sequence it was removed from.
proof fn lemma_remove_permutation<T>(s: Seq<T>, i: int) -> (idx: Seq<int>)
    requires
        0 <= i < s.len(),
    ensures
        is_permutation(idx, s, s.remove(i)),
        forall|a: int, b: int| 0 <= a < b < idx.len() ==> #[trigger] idx[a] < #[trigger] idx[b],
{
    let idx = Seq::new((s.len() - 1) as nat, |k: int| if k < i { k } else { k + 1 });
    idx
}

/// Records placed in increasing positions of a sorted sequence stay sorted.
proof fn lemma_increasing_keeps_sorted<T: Keyed>(idx: Seq<int>, v: Seq<T>, out: Seq<T>)
    requires
        is_permutation(idx, v, out),
        forall|a: int, b: int| 0 <= a < b < idx.len() ==> #[trigger] idx[a] < #[trigger] idx[b],
        sorted_by_key(v),
    ensures
        sorted_by_key(out),
{
    assert forall|i: int, j: int| 0 <= i < j < out.len() implies !lex_lt(
        #[trigger] out[j].key(),
        #[trigger] out[i].key(),
    ) by {
        assert(out[i] == v[idx[i]] && out[j] == v[idx[j]]);
        assert(idx[i] < idx[j]);
    }
}

/// Changing records without changing their keys keeps them sorted.
proof fn lemma_same_keys_sorted<T: Keyed>(a: Seq<T>, b: Seq<T>)
    requires
        a.len() == b.len(),
        forall|k: int| 0 <= k < a.len() ==> #[trigger] a[k].key() == b[k].key(),
        sorted_by_key(a),
    ensures
        sorted_by_key(b),
{
    assert forall|i: int, j: int| 0 <= i < j < b.len() implies !lex_lt(
        #[trigger] b[j].key(),
        #[trigger] b[i].key(),
    ) by {
        assert(a[i].key() == b[i].key() && a[j].key() == b[j].key());
    }
}

/// Changing records without changing their keys keeps the rules.
proof fn lemma_same_keys<T: Keyed, B: Keyed>(a: Seq<T>, b: Seq<T>, other: Seq<B>)
    requires
        a.len() == b.len(),
        forall|k: int| 0 <= k < a.len() ==> #[trigger] a[k].key() == b[k].key(),
        keys_distinct(a),
    ensures
        keys_distinct(b),
        keys_apart(a, other) ==> keys_apart(b, other),
        keys_apart(other, a) ==> keys_apart(other, b),
{
    assert forall|i: int, j: int| 0 <= i < j < b.len() implies !eq_ignore_case(
        #[trigger] b[i].key(),
        #[trigger] b[j].key(),
    ) by {
        assert(a[i].key() == b[i].key() && a[j].key() == b[j].key());
    }
    if keys_apart(a, other) {
        assert forall|i: int, j: int| 0 <= i < b.len() && 0 <= j < other.len() implies !eq_ignore_case(
            #[trigger] b[i].key(),
            #[trigger] other[j].key(),
        ) by {
            assert(a[i].key() == b[i].key());
        }
    }
    if keys_apart(other, a) {
        assert forall|i: int, j: int| 0 <= i < other.len() && 0 <= j < b.len() implies !eq_ignore_case(
            #[trigger] other[i].key(),
            #[trigger] b[j].key(),
        ) by {
            assert(a[j].key() == b[j].key());
        }
    }
}

/// Adding a record whose key no record shares keeps the keys distinct.
proof fn lemma_push_new_key<T: Keyed, B: Keyed>(s: Seq<T>, e: T, other: Seq<B>)
    requires
        keys_distinct(s),
        forall|k: int| 0 <= k < s.len() ==> !eq_ignore_case(#[trigger] s[k].key(), e.key()),
    ensures
        keys_distinct(s.push(e)),
        keys_apart(s, other) && (forall|k: int| 0 <= k < other.len() ==> !eq_ignore_case(
            e.key(),
            #[trigger] other[k].key(),
        )) ==> keys_apart(s.push(e), other),
        keys_apart(other, s) && (forall|k: int| 0 <= k < other.len() ==> !eq_ignore_case(
            #[trigger] other[k].key(),
            e.key(),
        )) ==> keys_apart(other, s.push(e)),
{
    let t = s.push(e);
    assert forall|i: int, j: int| 0 <= i < j < t.len() implies !eq_ignore_case(
        #[trigger] t[i].key(),
        #[trigger] t[j].key(),
    ) by {
        if j == s.len() {
            assert(t[i] == s[i]);
        } else {
            assert(t[i] == s[i] && t[j] == s[j]);
        }
    }
    if keys_apart(s, other) && (forall|k: int| 0 <= k < other.len() ==> !eq_ignore_case(
        e.key(),
        #[trigger] other[k].key(),
    )) {
        assert forall|i: int, j: int| 0 <= i < t.len() && 0 <= j < other.len() implies !eq_ignore_case(
            #[trigger] t[i].key(),
            #[trigger] other[j].key(),
        ) by {
            if i < s.len() {
                assert(t[i] == s[i]);
            }
        }
    }
    if keys_apart(other, s) && (forall|k: int| 0 <= k < other.len() ==> !eq_ignore_case(
        #[trigger] other[k].key(),
        e.key(),
    )) {
        assert forall|i: int, j: int| 0 <= i < other.len() && 0 <= j < t.len() implies !eq_ignore_case(
            #[trigger] other[i].key(),
            #[trigger] t[j].key(),
        ) by {
            if j < s.len() {
                assert(t[j] == s[j]);
            }
        }
    }
}

impl PendingChanges {
    /// Registers a forced deletion of `path`. A path already registered (without
    /// ASCII case) is armed again instead of added twice; a new path is added and
    /// the list is sorted by path. A path registered as a hash deletion is refused.
    pub fn add_forced_deletion(&mut self, path: &str) -> (r: Result<String, String>)
        ensures
            old(self).rules_wf() ==> final(self).rules_wf(),
            in_stored_form(*old(self)) ==> in_stored_form(*final(self)),
            rules_invariant(*old(self)) ==> rules_invariant(*final(self)),
            !valid_client_path(path@) ==> *final(self) == *old(self) && r is Err && r->Err_0@
                == client_path_error(path@),
            valid_client_path(path@) && hash_names(old(self).hash_deletions@, client_path_form(path@))
                ==> *final(self) == *old(self) && r is Err && r->Err_0@ == "该路径已登记为哈希删除: "@
                + client_path_form(path@),
            valid_client_path(path@) && !hash_names(old(self).hash_deletions@, client_path_form(path@))
                ==> {
                &&& r matches Ok(s) && s@ == client_path_form(path@)
                &&& final(self).schema == old(self).schema
                &&& final(self).hash_deletions == old(self).hash_deletions
                &&& if forced_names(old(self).forced_deletions@, client_path_form(path@)) {
                    final(self).forced_deletions@ == rearm_forced(
                        old(self).forced_deletions@,
                        first_forced(old(self).forced_deletions@, client_path_form(path@)),
                    )
                } else {
                    &&& sorted_by_key(final(self).forced_deletions@)
                    &&& final(self).forced_deletions@.to_multiset() == old(
                        self,
                    ).forced_deletions@.to_multiset().insert(
                        ForcedDeletion { path: r->Ok_0, pending: true },
                    )
                }
            },
    {
        let ghost input = path@;
        let path = match normalize_client_path(path) {
            Ok(p) => p,
            Err(e) => return Err(e),
        };
        proof {
            law_client_path_form_is_stable(input);
        }
        let key = chars_of(path.as_str());
        let h = find_hash(&self.hash_deletions, &key);
        proof {
            lemma_first_hash(self.hash_deletions@, key@);
        }
        if h < self.hash_deletions.len() {
            let mut msg = "该路径已登记为哈希删除: ".to_owned();
            crate::text::push_str(&mut msg, path.as_str());
            return Err(msg);
        }
        let f = find_forced(&self.forced_deletions, &key);
        proof {
            lemma_first_forced(self.forced_deletions@, key@);
        }
        if f < self.forced_deletions.len() {
            let ghost before = self.forced_deletions@;
            let existing = copy_string(&self.forced_deletions[f].path);
            self.forced_deletions.set(f, ForcedDeletion { path: existing, pending: true });
            proof {
                if old(self).rules_wf() {
                    lemma_same_keys(before, self.forced_deletions@, self.hash_deletions@);
                }
                if sorted_by_key(before) {
                    lemma_same_keys_sorted(before, self.forced_deletions@);
                }
                if in_stored_form(*old(self)) {
                    assert(forced_in_stored_form(before[f as int]));
                    assert forall|k: int| 0 <= k < self.forced_deletions@.len() implies forced_in_stored_form(
                        #[trigger] self.forced_deletions@[k],
                    ) by {
                        if k != f {
                            assert(forced_in_stored_form(before[k]));
                        }
                    }
                }
            }
            return Ok(path);
        }
        let mut list: Vec<ForcedDeletion> = Vec::new();
        std::mem::swap(&mut list, &mut self.forced_deletions);
        let entry = ForcedDeletion { path: copy_string(&path), pending: true };
        let ghost before = list@;
        list.push(entry);
        proof {
            assert(list@.to_multiset() =~= before.to_multiset().insert(entry));
            if old(self).rules_wf() {
                assert forall|k: int| 0 <= k < before.len() implies !eq_ignore_case(
                    #[trigger] before[k].key(),
                    entry.key(),
                ) by {}
                lemma_push_new_key(before, entry, self.hash_deletions@);
            }
        }
        let ghost pushed = list@;
        self.forced_deletions = sort_by_key(list);
        proof {
            let idx = choose|idx: Seq<int>| is_permutation(idx, pushed, self.forced_deletions@);
            if old(self).rules_wf() {
                lemma_perm_keeps_rules(idx, pushed, self.forced_deletions@, self.hash_deletions@);
            }
            if in_stored_form(*old(self)) {
                assert forall|k: int| 0 <= k < pushed.len() implies #[trigger] forced_in_stored_form(pushed[k]) by {
                    if k < before.len() {
                        assert(forced_in_stored_form(before[k]));
                    }
                }
                assert forall|k: int| 0 <= k < self.forced_deletions@.len() implies forced_in_stored_form(
                    #[trigger] self.forced_deletions@[k],
                ) by {
                    assert(self.forced_deletions@[k] == pushed[idx[k]]);
                }
            }
        }
        Ok(path)
    }

    /// Removes the forced deletions of `path` (without ASCII case) and says
    /// whether there was one.
    pub fn remove_forced_deletion(&mut self, path: &str) -> (r: Result<bool, String>)
        ensures
            old(self).rules_wf() ==> final(self).rules_wf(),
            in_stored_form(*old(self)) ==> in_stored_form(*final(self)),
            rules_invariant(*old(self)) ==> rules_invariant(*final(self)),
            !valid_client_path(path@) ==> *final(self) == *old(self) && r is Err && r->Err_0@
                == client_path_error(path@),
            valid_client_path(path@) ==> {
                &&& final(self).schema == old(self).schema
                &&& final(self).hash_deletions == old(self).hash_deletions
                &&& final(self).forced_deletions@ == forced_without(
                    old(self).forced_deletions@,
                    client_path_form(path@),
                )
                &&& r == Ok::<bool, String>(
                    forced_names(old(self).forced_deletions@, client_path_form(path@)),
                )
            },
    {
        let path = match normalize_client_path(path) {
            Ok(p) => p,
            Err(e) => return Err(e),
        };
        let key = chars_of(path.as_str());
        let mut kept: Vec<ForcedDeletion> = Vec::new();
        let mut list: Vec<ForcedDeletion> = Vec::new();
        std::mem::swap(&mut list, &mut self.forced_deletions);
        let ghost initial = list@;
        let n = list.len();
        let mut removed = false;
        let mut i: usize = 0;
        assert(initial.take(0) =~= Seq::<ForcedDeletion>::empty());
        while list.len() > 0
            invariant
                n == initial.len(),
                i + list@.len() == n,
                list@ == initial.skip(i as int),
                kept@ == forced_without(initial.take(i as int), key@),
                removed == forced_names(initial.take(i as int), key@),
            decreases list@.len(),
        {
            let e = list.remove(0);
            assert(e == initial[i as int]);
            assert(list@ =~= initial.skip(i + 1));
            let ec = chars_of(e.path.as_str());
            let same = chars_eq_ignore_case(&ec, &key);
            assert(initial.take(i + 1) =~= initial.take(i as int).push(e));
            proof {
                initial.take(i as int).lemma_filter_push(
                    e,
                    |x: ForcedDeletion| !eq_ignore_case(x.path@, key@),
                );
            }
            if same {
                removed = true;
                assert(forced_names(initial.take(i + 1), key@)) by {
                    assert(initial.take(i + 1)[i as int] == e);
                }
            } else {
                kept.push(e);
                assert(forced_names(initial.take(i + 1), key@) == forced_names(
                    initial.take(i as int),
                    key@,
                )) by {
                    if forced_names(initial.take(i + 1), key@) {
                        let j = choose|j: int| 0 <= j < initial.take(i + 1).len() && eq_ignore_case(
                            #[trigger] initial.take(i + 1)[j].path@,
                            key@,
                        );
                        assert(j < i);
                        assert(initial.take(i as int)[j] == initial.take(i + 1)[j]);
                    }
                    if forced_names(initial.take(i as int), key@) {
                        let j = choose|j: int| 0 <= j < initial.take(i as int).len() && eq_ignore_case(
                            #[trigger] initial.take(i as int)[j].path@,
                            key@,
                        );
                        assert(initial.take(i as int)[j] == initial.take(i + 1)[j]);
                    }
                }
            }
            i = i + 1;
        }
        assert(initial.take(i as int) =~= initial);
        self.forced_deletions = kept;
        proof {
            let idx = lemma_filter_permutation(initial, |x: ForcedDeletion| !eq_ignore_case(x.path@, key@));
            if old(self).rules_wf() {
                lemma_perm_keeps_rules(idx, initial, self.forced_deletions@, self.hash_deletions@);
            }
            if sorted_by_key(initial) {
                lemma_increasing_keeps_sorted(idx, initial, self.forced_deletions@);
            }
            if in_stored_form(*old(self)) {
                assert forall|k: int| 0 <= k < self.forced_deletions@.len() implies forced_in_stored_form(
                    #[trigger] self.forced_deletions@[k],
                ) by {
                    assert(self.forced_deletions@[k] == initial[idx[k]]);
                }
            }
        }
        Ok(removed)
    }
}

/// The forced deletions once the ones that `paths` names are marked emitted.
pub open spec fn marked_forced(s: Seq<ForcedDeletion>, paths: Seq<String>) -> Seq<ForcedDeletion> {
    s.map_values(
        |e: ForcedDeletion|
            ForcedDeletion { path: e.path, pending: e.pending && !listed(paths, e.path@) },
    )
}

/// The hash deletions once the ones that `paths` names are marked emitted.
pub open spec fn marked_hash(s: Seq<PendingHashDeletion>, paths: Seq<String>) -> Seq<PendingHashDeletion> {
    s.map_values(
        |e: PendingHashDeletion|
            if listed(paths, e.path@) {
                PendingHashDeletion {
                    path: e.path,
                    sha256: e.sha256,
                    len: e.len,
                    staged_file: None,
                    pending: false,
                }
            } else {
                e
            },
    )
}

/// Why `add_hash_deletion` refuses its input, if it does.
pub open spec fn hash_deletion_error(
    path: Seq<char>,
    sha256: Seq<char>,
    staged_file: Option<Seq<char>>,
) -> Option<Seq<char>> {
    if !valid_client_path(path) {
        Some(client_path_error(path))
    } else if !valid_sha256(sha256) {
        Some("客户端删除哈希必须是 64 位 SHA-256"@)
    } else if staged_file matches Some(f) && !valid_staged_file(f) {
        Some("哈希删除暂存文件名无效"@)
    } else {
        None
    }
}

pub open spec fn opt_view(o: Option<String>) -> Option<Seq<char>> {
    match o {
        Some(s) => Some(s@),
        None => None,
    }
}

/// What registering a hash deletion of `path` makes of the rules `old` when it
/// is accepted: a path already registered gets the new fingerprint and is armed
/// again in place; a new path is inserted, and the list stays sorted.
#[verifier::opaque]
pub open spec fn hash_added(
    old: PendingChanges,
    new: PendingChanges,
    path: Seq<char>,
    sha256: Seq<char>,
    len: u64,
    staged_file: Option<String>,
) -> bool {
    let key = client_path_form(path);
    &&& new.schema == old.schema
    &&& new.forced_deletions == old.forced_deletions
    &&& new.hash_deletions@.len() >= 1
    &&& if hash_names(old.hash_deletions@, key) {
        let i = first_hash(old.hash_deletions@, key);
        let nh = new.hash_deletions@;
        let oh = old.hash_deletions@;
        let e = nh[i];
        &&& nh.len() == oh.len()
        &&& forall|k: int| 0 <= k < oh.len() && k != i ==> #[trigger] nh[k] == oh[k]
        &&& e.path == oh[i].path
        &&& e.sha256@ == sha256_form(sha256)
        &&& e.len == len
        &&& e.staged_file == staged_file
        &&& e.pending
    } else {
        &&& sorted_by_key(new.hash_deletions@)
        &&& exists|e: PendingHashDeletion| {
            &&& e.path@ == key
            &&& e.sha256@ == sha256_form(sha256)
            &&& e.len == len
            &&& e.staged_file == staged_file
            &&& e.pending
            &&& new.hash_deletions@.to_multiset() == #[trigger] old.hash_deletions@.to_multiset().insert(e)
        }
    }
}

impl PendingChanges {
    /// Registers a hash deletion of `path`. A path already registered as a hash
    /// deletion gets the new fingerprint and is armed again; a path registered as
    /// a forced deletion is refused; a new path is added and the list is sorted.
    pub fn add_hash_deletion(
        &mut self,
        path: &str,
        sha256: &str,
        len: u64,
        staged_file: Option<String>,
    ) -> (r: Result<String, String>)
        ensures
            old(self).rules_wf() ==> final(self).rules_wf(),
            in_stored_form(*old(self)) ==> in_stored_form(*final(self)),
            rules_invariant(*old(self)) ==> rules_invariant(*final(self)),
            final(self).schema == old(self).schema,
            final(self).forced_deletions == old(self).forced_deletions,
            hash_deletion_error(path@, sha256@, opt_view(staged_file)) matches Some(e) ==> {
                &&& *final(self) == *old(self)
                &&& r is Err && r->Err_0@ == e
            },
            hash_deletion_error(path@, sha256@, opt_view(staged_file)) is None && forced_names(
                old(self).forced_deletions@,
                client_path_form(path@),
            ) ==> {
                &&& *final(self) == *old(self)
                &&& r is Err && r->Err_0@ == "该路径已登记为强制删除: "@ + client_path_form(path@)
            },
            hash_deletion_error(path@, sha256@, opt_view(staged_file)) is None && !forced_names(
                old(self).forced_deletions@,
                client_path_form(path@),
            ) ==> {
                &&& r is Ok && r->Ok_0@ == client_path_form(path@)
                &&& hash_added(*old(self), *final(self), path@, sha256@, len, staged_file)
            },
    {
        proof {
            reveal(hash_added);
        }
        let ghost input_path = path@;
        let ghost input_sha = sha256@;
        let path = match normalize_client_path(path) {
            Ok(p) => p,
            Err(e) => return Err(e),
        };
        let sha256 = match normalize_sha256(sha256) {
            Ok(h) => h,
            Err(e) => return Err(e),
        };
        proof {
            law_client_path_form_is_stable(input_path);
            lemma_sha256_form_stable(input_sha);
        }
        match &staged_file {
            Some(f) => {
                match normalize_staged_file(f.as_str()) {
                    Ok(_) => {},
                    Err(e) => return Err(e),
                }
            },
            None => {},
        }
        let key = chars_of(path.as_str());
        proof {
            lemma_first_forced(self.forced_deletions@, key@);
            lemma_first_hash(self.hash_deletions@, key@);
        }
        let f = find_forced(&self.forced_deletions, &key);
        if f < self.forced_deletions.len() {
            let mut msg = "该路径已登记为强制删除: ".to_owned();
            crate::text::push_str(&mut msg, path.as_str());
            return Err(msg);
        }
        let h = find_hash(&self.hash_deletions, &key);
        if h < self.hash_deletions.len() {
            let ghost hb = self.hash_deletions@;
            let existing = copy_string(&self.hash_deletions[h].path);
            self.hash_deletions.set(
                h,
                PendingHashDeletion { path: existing, sha256, len, staged_file, pending: true },
            );
            proof {
                if old(self).rules_wf() {
                    lemma_same_keys(hb, self.hash_deletions@, self.forced_deletions@);
                }
                if sorted_by_key(hb) {
                    lemma_same_keys_sorted(hb, self.hash_deletions@);
                }
                if in_stored_form(*old(self)) {
                    assert(hash_in_stored_form(hb[h as int]));
                    assert forall|k: int| 0 <= k < self.hash_deletions@.len() implies hash_in_stored_form(
                        #[trigger] self.hash_deletions@[k],
                    ) by {
                        if k != h {
                            assert(hash_in_stored_form(hb[k]));
                        }
                    }
                }
            }
            return Ok(path);
        }
        let mut list: Vec<PendingHashDeletion> = Vec::new();
        std::mem::swap(&mut list, &mut self.hash_deletions);
        let entry = PendingHashDeletion { path: copy_string(&path), sha256, len, staged_file, pending: true };
        let ghost before = list@;
        let ghost e = entry;
        list.push(entry);
        proof {
            assert(list@.to_multiset() =~= before.to_multiset().insert(e));
            if old(self).rules_wf() {
                assert forall|k: int| 0 <= k < before.len() implies !eq_ignore_case(
                    #[trigger] before[k].key(),
                    e.key(),
                ) by {}
                assert forall|k: int| 0 <= k < self.forced_deletions@.len() implies !eq_ignore_case(
                    #[trigger] self.forced_deletions@[k].key(),
                    e.key(),
                ) by {}
                lemma_push_new_key(before, e, self.forced_deletions@);
            }
        }
        let ghost pushed = list@;
        self.hash_deletions = sort_by_key(list);
        proof {
            let idx = choose|idx: Seq<int>| is_permutation(idx, pushed, self.hash_deletions@);
            if old(self).rules_wf() {
                lemma_perm_keeps_rules(idx, pushed, self.hash_deletions@, self.forced_deletions@);
            }
            if in_stored_form(*old(self)) {
                assert forall|k: int| 0 <= k < pushed.len() implies #[trigger] hash_in_stored_form(pushed[k]) by {
                    if k < before.len() {
                        assert(hash_in_stored_form(before[k]));
                    }
                }
                assert forall|k: int| 0 <= k < self.hash_deletions@.len() implies hash_in_stored_form(
                    #[trigger] self.hash_deletions@[k],
                ) by {
                    assert(self.hash_deletions@[k] == pushed[idx[k]]);
                }
            }
        }
        assert(self.hash_deletions@.to_multiset().contains(e));
        assert(self.hash_deletions@.len() >= 1);
        Ok(path)
    }

    /// Removes the first hash deletion of `path` (without ASCII case) and
    /// returns it.
    pub fn remove_hash_deletion(&mut self, path: &str) -> (r: Result<Option<PendingHashDeletion>, String>)
        ensures
            old(self).rules_wf() ==> final(self).rules_wf(),
            in_stored_form(*old(self)) ==> in_stored_form(*final(self)),
            rules_invariant(*old(self)) ==> rules_invariant(*final(self)),
            !valid_client_path(path@) ==> *final(self) == *old(self) && r is Err && r->Err_0@
                == client_path_error(path@),
            valid_client_path(path@) ==> {
                let i = first_hash(old(self).hash_deletions@, client_path_form(path@));
                &&& final(self).schema == old(self).schema
                &&& final(self).forced_deletions == old(self).forced_deletions
                &&& if i < old(self).hash_deletions@.len() {
                    &&& final(self).hash_deletions@ == old(self).hash_deletions@.remove(i)
                    &&& r == Ok::<Option<PendingHashDeletion>, String>(Some(old(self).hash_deletions@[i]))
                } else {
                    &&& final(self).hash_deletions == old(self).hash_deletions
                    &&& r == Ok::<Option<PendingHashDeletion>, String>(None)
                }
            },
    {
        let path = match normalize_client_path(path) {
            Ok(p) => p,
            Err(e) => return Err(e),
        };
        let key = chars_of(path.as_str());
        let h = find_hash(&self.hash_deletions, &key);
        if h < self.hash_deletions.len() {
            let ghost hb = self.hash_deletions@;
            let removed = self.hash_deletions.remove(h);
            proof {
                let idx = lemma_remove_permutation(hb, h as int);
                if old(self).rules_wf() {
                    lemma_perm_keeps_rules(idx, hb, self.hash_deletions@, self.forced_deletions@);
                }
                if sorted_by_key(hb) {
                    lemma_increasing_keeps_sorted(idx, hb, self.hash_deletions@);
                }
                if in_stored_form(*old(self)) {
                    assert forall|k: int| 0 <= k < self.hash_deletions@.len() implies hash_in_stored_form(
                        #[trigger] self.hash_deletions@[k],
                    ) by {
                        assert(self.hash_deletions@[k] == hb[idx[k]]);
                    }
                }
            }
            return Ok(Some(removed));
        }
        Ok(None)
    }

    /// Marks the forced deletions whose path is among `paths` as emitted.
    pub fn mark_emitted(&mut self, paths: &Vec<String>)
        ensures
            old(self).rules_wf() ==> final(self).rules_wf(),
            in_stored_form(*old(self)) ==> in_stored_form(*final(self)),
            rules_invariant(*old(self)) ==> rules_invariant(*final(self)),
            final(self).schema == old(self).schema,
            final(self).hash_deletions == old(self).hash_deletions,
            final(self).forced_deletions@ == marked_forced(old(self).forced_deletions@, paths@),
    {
        let ghost start = self.forced_deletions@;
        let n = self.forced_deletions.len();
        for i in 0..n
            invariant
                n == start.len(),
                self.forced_deletions@.len() == n,
                self.schema == old(self).schema,
                self.hash_deletions == old(self).hash_deletions,
                start == old(self).forced_deletions@,
                forall|k: int| 0 <= k < i ==> #[trigger] self.forced_deletions@[k] == marked_forced(start, paths@)[k],
                forall|k: int| i <= k < n ==> #[trigger] self.forced_deletions@[k] == start[k],
        {
            if listed_exec(paths, &self.forced_deletions[i].path) {
                let p = copy_string(&self.forced_deletions[i].path);
                self.forced_deletions.set(i, ForcedDeletion { path: p, pending: false });
            }
        }
        assert(self.forced_deletions@ =~= marked_forced(start, paths@));
        proof {
            if old(self).rules_wf() {
                lemma_same_keys(start, self.forced_deletions@, self.hash_deletions@);
            }
            if sorted_by_key(start) {
                lemma_same_keys_sorted(start, self.forced_deletions@);
            }
            if in_stored_form(*old(self)) {
                assert forall|k: int| 0 <= k < self.forced_deletions@.len() implies forced_in_stored_form(
                    #[trigger] self.forced_deletions@[k],
                ) by {
                    assert(forced_in_stored_form(start[k]));
                    assert(self.forced_deletions@[k].path == start[k].path);
                }
            }
        }
    }

    /// Marks the hash deletions whose path is among `paths` as emitted and
    /// returns their staged files, which they no longer hold.
    pub fn mark_hash_emitted(&mut self, paths: &Vec<String>) -> (staged: Vec<String>)
        ensures
            old(self).rules_wf() ==> final(self).rules_wf(),
            in_stored_form(*old(self)) ==> in_stored_form(*final(self)),
            rules_invariant(*old(self)) ==> rules_invariant(*final(self)),
            final(self).schema == old(self).schema,
            final(self).forced_deletions == old(self).forced_deletions,
            final(self).hash_deletions@ == marked_hash(old(self).hash_deletions@, paths@),
            staged@ == staged_of_emitted(old(self).hash_deletions@, paths@),
    {
        let ghost start = self.hash_deletions@;
        let n = self.hash_deletions.len();
        let mut staged: Vec<String> = Vec::new();
        assert(start.take(0) =~= Seq::<PendingHashDeletion>::empty());
        for i in 0..n
            invariant
                n == start.len(),
                self.hash_deletions@.len() == n,
                self.schema == old(self).schema,
                self.forced_deletions == old(self).forced_deletions,
                start == old(self).hash_deletions@,
                staged@ == staged_of_emitted(start.take(i as int), paths@),
                forall|k: int| 0 <= k < i ==> #[trigger] self.hash_deletions@[k] == marked_hash(start, paths@)[k],
                forall|k: int| i <= k < n ==> #[trigger] self.hash_deletions@[k] == start[k],
        {
            assert(start.take(i + 1).drop_last() =~= start.take(i as int));
            if listed_exec(paths, &self.hash_deletions[i].path) {
                let p = copy_string(&self.hash_deletions[i].path);
                let h = copy_string(&self.hash_deletions[i].sha256);
                let l = self.hash_deletions[i].len;
                let old_staged = match &self.hash_deletions[i].staged_file {
                    Some(f) => Some(copy_string(f)),
                    None => None,
                };
                self.hash_deletions.set(
                    i,
                    PendingHashDeletion { path: p, sha256: h, len: l, staged_file: None, pending: false },
                );
                match old_staged {
                    Some(f) => staged.push(f),
                    None => {},
                }
            }
        }
        assert(self.hash_deletions@ =~= marked_hash(start, paths@));
        assert(start.take(n as int) =~= start);
        proof {
            if old(self).rules_wf() {
                lemma_same_keys(start, self.hash_deletions@, self.forced_deletions@);
            }
            if sorted_by_key(start) {
                lemma_same_keys_sorted(start, self.hash_deletions@);
            }
            if in_stored_form(*old(self)) {
                assert forall|k: int| 0 <= k < self.hash_deletions@.len() implies hash_in_stored_form(
                    #[trigger] self.hash_deletions@[k],
                ) by {
                    assert(hash_in_stored_form(start[k]));
                    assert(self.hash_deletions@[k] == marked_hash(start, paths@)[k]);
                }
            }
        }
        staged
    }
}

// ---------------------------------------------------------------------------
// Loading a stored rule file
// ---------------------------------------------------------------------------

/// The refusal of a rule file in the first format that still holds hash
/// deletions, which named no path.
pub open spec fn legacy_refusal() -> Seq<char> {
    "检测到旧版无路径哈希删除规则；为避免误删，必须先在旧版管理端撤销这些规则"@
}

/// What a stored file's `schema` (when it is a number) and the length of its
/// `hash-deletions` array (when it is one) say before it is read: a file of
/// the first format is read as the current one (`Ok(true)`) only when it
/// holds no hash deletion; any other file is read as it is (`Ok(false)`).
pub fn legacy_migration(schema: Option<u64>, hash_deletion_count: Option<usize>) -> (r: Result<bool, String>)
    ensures
        schema == Some(1u64) && (hash_deletion_count matches Some(n) && n > 0) ==> r is Err && r->Err_0@
            == legacy_refusal(),
        schema == Some(1u64) && !(hash_deletion_count matches Some(n) && n > 0) ==> r == Ok::<bool, String>(true),
        schema != Some(1u64) ==> r == Ok::<bool, String>(false),
{
    match schema {
        Some(1) => match hash_deletion_count {
            Some(n) if n > 0 => Err("检测到旧版无路径哈希删除规则；为避免误删，必须先在旧版管理端撤销这些规则".to_owned()),
            _ => Ok(true),
        },
        _ => Ok(false),
    }
}

/// The key under which a stored rule's path must be unique.
pub open spec fn rule_key(path: Seq<char>) -> Seq<char> {
    lower_seq(client_path_form(path))
}

/// Why the stored forced deletion `k` is refused, if it is.
pub open spec fn stored_forced_error(fs: Seq<ForcedDeletion>, k: int) -> Option<Seq<char>> {
    if !valid_client_path(fs[k].path@) {
        Some(client_path_error(fs[k].path@))
    } else if exists|j: int| 0 <= j < k && #[trigger] rule_key(fs[j].path@) == rule_key(fs[k].path@) {
        Some("重复的客户端删除路径: "@ + client_path_form(fs[k].path@))
    } else {
        None
    }
}

/// Why the stored hash deletion `k` is refused, if it is.
pub open spec fn stored_hash_error(
    fs: Seq<ForcedDeletion>,
    hs: Seq<PendingHashDeletion>,
    k: int,
) -> Option<Seq<char>> {
    match hash_deletion_error(hs[k].path@, hs[k].sha256@, opt_view(hs[k].staged_file)) {
        Some(e) => Some(e),
        None => if (exists|j: int| 0 <= j < fs.len() && #[trigger] rule_key(fs[j].path@) == rule_key(hs[k].path@))
            || (exists|j: int| 0 <= j < k && #[trigger] rule_key(hs[j].path@) == rule_key(hs[k].path@)) {
            Some("客户端路径存在重复或冲突的删除规则: "@ + client_path_form(hs[k].path@))
        } else {
            None
        },
    }
}

/// `g` is the stored forced deletion `f` in normalized form.
pub open spec fn normalized_forced(f: ForcedDeletion, g: ForcedDeletion) -> bool {
    g.path@ == client_path_form(f.path@) && g.pending == f.pending
}

/// `g` is the stored hash deletion `h` in normalized form.
pub open spec fn normalized_hash(h: PendingHashDeletion, g: PendingHashDeletion) -> bool {
    &&& g.path@ == client_path_form(h.path@)
    &&& g.sha256@ == sha256_form(h.sha256@)
    &&& g.len == h.len
    &&& g.staged_file == h.staged_file
    &&& g.pending == h.pending
}

fn key_listed(seen: &Vec<Vec<char>>, key: &Vec<char>) -> (r: bool)
    ensures
        r == exists|j: int| 0 <= j < seen@.len() && (#[trigger] seen@[j])@ == key@,
{
    for j in 0..seen.len()
        invariant
            forall|k: int| 0 <= k < j ==> (#[trigger] seen@[k])@ != key@,
    {
        if chars_eq(&seen[j], key) {
            return true;
        }
    }
    false
}

impl PendingChanges {
    /// Checks rules read from storage and returns them in normalized form:
    /// the schema must be the current one, every path must be a safe client
    /// path, every fingerprint a SHA-256 and every staged file name valid, and
    /// no path may be registered twice, in either list, without ASCII case.
    /// The first refused entry, forced deletions first, gives the error.
    pub fn checked(self) -> (r: Result<PendingChanges, String>)
        ensures
            self.schema != SCHEMA_VERSION ==> r is Err && r->Err_0@ == "不支持的待处理变更版本: "@ + dec(
                self.schema as nat,
            ),
            self.schema == SCHEMA_VERSION ==> match r {
                Ok(p) => {
                    &&& forall|k: int|
                        0 <= k < self.forced_deletions@.len() ==> #[trigger] stored_forced_error(
                            self.forced_deletions@,
                            k,
                        ) is None
                    &&& forall|k: int|
                        0 <= k < self.hash_deletions@.len() ==> #[trigger] stored_hash_error(
                            self.forced_deletions@,
                            self.hash_deletions@,
                            k,
                        ) is None
                    &&& p.schema == SCHEMA_VERSION
                    &&& p.forced_deletions@.len() == self.forced_deletions@.len()
                    &&& forall|k: int|
                        0 <= k < self.forced_deletions@.len() ==> normalized_forced(
                            self.forced_deletions@[k],
                            #[trigger] p.forced_deletions@[k],
                        )
                    &&& p.hash_deletions@.len() == self.hash_deletions@.len()
                    &&& forall|k: int|
                        0 <= k < self.hash_deletions@.len() ==> normalized_hash(
                            self.hash_deletions@[k],
                            #[trigger] p.hash_deletions@[k],
                        )
                    &&& p.rules_wf()
                    &&& in_stored_form(p)
                },
                Err(e) => {
                    ||| exists|k: int|
                        {
                            &&& 0 <= k < self.forced_deletions@.len()
                            &&& forall|j: int| 0 <= j < k ==> #[trigger] stored_forced_error(self.forced_deletions@, j) is None
                            &&& #[trigger] stored_forced_error(self.forced_deletions@, k) == Some(e@)
                        }
                    ||| {
                        &&& forall|j: int|
                            0 <= j < self.forced_deletions@.len() ==> #[trigger] stored_forced_error(
                                self.forced_deletions@,
                                j,
                            ) is None
                        &&& exists|k: int|
                            {
                                &&& 0 <= k < self.hash_deletions@.len()
                                &&& forall|j: int|
                                    0 <= j < k ==> #[trigger] stored_hash_error(
                                        self.forced_deletions@,
                                        self.hash_deletions@,
                                        j,
                                    ) is None
                                &&& #[trigger] stored_hash_error(self.forced_deletions@, self.hash_deletions@, k)
                                    == Some(e@)
                            }
                    }
                },
            },
    {
        if self.schema != SCHEMA_VERSION {
            let mut m = "不支持的待处理变更版本: ".to_owned();
            push_str(&mut m, decimal(self.schema as u64).as_str());
            return Err(m);
        }
        let fs = &self.forced_deletions;
        let hs = &self.hash_deletions;
        let mut seen: Vec<Vec<char>> = Vec::new();
        let mut forced: Vec<ForcedDeletion> = Vec::new();
        for i in 0..fs.len()
            invariant
                self.schema == SCHEMA_VERSION,
                fs == &self.forced_deletions,
                seen@.len() == i,
                forall|j: int| 0 <= j < i ==> (#[trigger] seen@[j])@ == rule_key(fs@[j].path@),
                forced@.len() == i,
                forall|j: int| 0 <= j < i ==> normalized_forced(fs@[j], #[trigger] forced@[j]),
                forall|j: int| 0 <= j < i ==> #[trigger] stored_forced_error(fs@, j) is None,
        {
            let p = match normalize_client_path(fs[i].path.as_str()) {
                Ok(p) => p,
                Err(e) => {
                    assert(stored_forced_error(fs@, i as int) == Some(e@));
                    return Err(e);
                },
            };
            let key = lower_chars(&chars_of(p.as_str()));
            let repeated = key_listed(&seen, &key);
            assert(repeated == exists|j: int| 0 <= j < i && #[trigger] rule_key(fs@[j].path@) == rule_key(
                fs@[i as int].path@,
            )) by {
                assert(key@ == rule_key(fs@[i as int].path@));
                if repeated {
                    let j = choose|j: int| 0 <= j < seen@.len() && (#[trigger] seen@[j])@ == key@;
                    assert(rule_key(fs@[j].path@) == rule_key(fs@[i as int].path@));
                }
                if exists|j: int| 0 <= j < i && #[trigger] rule_key(fs@[j].path@) == rule_key(fs@[i as int].path@) {
                    let j = choose|j: int| 0 <= j < i && #[trigger] rule_key(fs@[j].path@) == rule_key(
                        fs@[i as int].path@,
                    );
                    assert(seen@[j]@ == key@);
                }
            }
            if repeated {
                let mut m = "重复的客户端删除路径: ".to_owned();
                push_str(&mut m, p.as_str());
                assert(stored_forced_error(fs@, i as int) == Some(m@));
                return Err(m);
            }
            seen.push(key);
            forced.push(ForcedDeletion { path: p, pending: fs[i].pending });
        }
        let nf = fs.len();
        let mut hashes: Vec<PendingHashDeletion> = Vec::new();
        for i in 0..hs.len()
            invariant
                self.schema == SCHEMA_VERSION,
                fs == &self.forced_deletions,
                hs == &self.hash_deletions,
                nf == fs@.len(),
                seen@.len() == nf + i,
                forall|j: int| 0 <= j < nf ==> (#[trigger] seen@[j])@ == rule_key(fs@[j].path@),
                forall|j: int| 0 <= j < i ==> (#[trigger] seen@[nf + j])@ == rule_key(hs@[j].path@),
                forall|j: int| 0 <= j < nf ==> #[trigger] stored_forced_error(fs@, j) is None,
                hashes@.len() == i,
                forall|j: int| 0 <= j < i ==> normalized_hash(hs@[j], #[trigger] hashes@[j]),
                forall|j: int| 0 <= j < i ==> #[trigger] stored_hash_error(fs@, hs@, j) is None,
        {
            let h = &hs[i];
            let p = match normalize_client_path(h.path.as_str()) {
                Ok(p) => p,
                Err(e) => {
                    assert(stored_hash_error(fs@, hs@, i as int) == Some(e@));
                    return Err(e);
                },
            };
            let sha = match normalize_sha256(h.sha256.as_str()) {
                Ok(v) => v,
                Err(e) => {
                    assert(stored_hash_error(fs@, hs@, i as int) == Some(e@));
                    return Err(e);
                },
            };
            match &h.staged_file {
                Some(f) => match normalize_staged_file(f.as_str()) {
                    Ok(_) => {},
                    Err(e) => {
                        assert(stored_hash_error(fs@, hs@, i as int) == Some(e@));
                        return Err(e);
                    },
                },
                None => {},
            }
            let key = lower_chars(&chars_of(p.as_str()));
            let repeated = key_listed(&seen, &key);
            assert(key@ == rule_key(hs@[i as int].path@));
            assert(repeated == ((exists|j: int| 0 <= j < fs@.len() && #[trigger] rule_key(fs@[j].path@)
                == rule_key(hs@[i as int].path@)) || (exists|j: int| 0 <= j < i && #[trigger] rule_key(
                hs@[j].path@,
            ) == rule_key(hs@[i as int].path@)))) by {
                if repeated {
                    let j = choose|j: int| 0 <= j < seen@.len() && (#[trigger] seen@[j])@ == key@;
                    if j < nf {
                        assert(rule_key(fs@[j].path@) == rule_key(hs@[i as int].path@));
                    } else {
                        assert(seen@[nf + (j - nf)] == seen@[j]);
                        assert(rule_key(hs@[j - nf].path@) == rule_key(hs@[i as int].path@));
                    }
                }
                if exists|j: int| 0 <= j < fs@.len() && #[trigger] rule_key(fs@[j].path@) == rule_key(
                    hs@[i as int].path@,
                ) {
                    let j = choose|j: int| 0 <= j < fs@.len() && #[trigger] rule_key(fs@[j].path@) == rule_key(
                        hs@[i as int].path@,
                    );
                    assert(seen@[j]@ == key@);
                }
                if exists|j: int| 0 <= j < i && #[trigger] rule_key(hs@[j].path@) == rule_key(hs@[i as int].path@) {
                    let j = choose|j: int| 0 <= j < i && #[trigger] rule_key(hs@[j].path@) == rule_key(
                        hs@[i as int].path@,
                    );
                    assert(seen@[nf + j]@ == key@);
                }
            }
            if repeated {
                let mut m = "客户端路径存在重复或冲突的删除规则: ".to_owned();
                push_str(&mut m, p.as_str());
                assert(stored_hash_error(fs@, hs@, i as int) == Some(m@));
                return Err(m);
            }
            let ghost before = seen@;
            seen.push(key);
            assert(forall|j: int| 0 <= j < nf + i ==> seen@[j] == before[j]);
            hashes.push(
                PendingHashDeletion {
                    path: p,
                    sha256: sha,
                    len: h.len,
                    staged_file: match &h.staged_file {
                        Some(f) => Some(copy_string(f)),
                        None => None,
                    },
                    pending: h.pending,
                },
            );
        }
        let out = PendingChanges { schema: SCHEMA_VERSION, forced_deletions: forced, hash_deletions: hashes };
        proof {
            assert forall|k: int| 0 <= k < out.forced_deletions@.len() implies forced_in_stored_form(
                #[trigger] out.forced_deletions@[k],
            ) by {
                assert(stored_forced_error(fs@, k) is None);
                assert(normalized_forced(fs@[k], out.forced_deletions@[k]));
                law_client_path_form_is_stable(fs@[k].path@);
            }
            assert forall|k: int| 0 <= k < out.hash_deletions@.len() implies hash_in_stored_form(
                #[trigger] out.hash_deletions@[k],
            ) by {
                assert(stored_hash_error(fs@, hs@, k) is None);
                assert(normalized_hash(hs@[k], out.hash_deletions@[k]));
                law_client_path_form_is_stable(hs@[k].path@);
                lemma_sha256_form_stable(hs@[k].sha256@);
                assert(opt_view(hs@[k].staged_file) matches Some(f) ==> valid_staged_file(f));
            }
            assert forall|a: int, b: int| 0 <= a < b < out.forced_deletions@.len() implies !eq_ignore_case(
                #[trigger] out.forced_deletions@[a].key(),
                #[trigger] out.forced_deletions@[b].key(),
            ) by {
                assert(stored_forced_error(fs@, b) is None);
                assert(normalized_forced(fs@[a], out.forced_deletions@[a]));
                assert(normalized_forced(fs@[b], out.forced_deletions@[b]));
                if rule_key(fs@[a].path@) == rule_key(fs@[b].path@) {
                    assert(exists|j: int| 0 <= j < b && #[trigger] rule_key(fs@[j].path@) == rule_key(fs@[b].path@));
                }
            }
            assert forall|a: int, b: int| 0 <= a < b < out.hash_deletions@.len() implies !eq_ignore_case(
                #[trigger] out.hash_deletions@[a].key(),
                #[trigger] out.hash_deletions@[b].key(),
            ) by {
                assert(stored_hash_error(fs@, hs@, b) is None);
                assert(normalized_hash(hs@[a], out.hash_deletions@[a]));
                assert(normalized_hash(hs@[b], out.hash_deletions@[b]));
                if rule_key(hs@[a].path@) == rule_key(hs@[b].path@) {
                    assert(exists|j: int| 0 <= j < b && #[trigger] rule_key(hs@[j].path@) == rule_key(hs@[b].path@));
                }
            }
            assert forall|a: int, b: int|
                0 <= a < out.forced_deletions@.len() && 0 <= b < out.hash_deletions@.len() implies !eq_ignore_case(
                #[trigger] out.forced_deletions@[a].key(),
                #[trigger] out.hash_deletions@[b].key(),
            ) by {
                assert(stored_hash_error(fs@, hs@, b) is None);
                assert(normalized_forced(fs@[a], out.forced_deletions@[a]));
                assert(normalized_hash(hs@[b], out.hash_deletions@[b]));
                if rule_key(fs@[a].path@) == rule_key(hs@[b].path@) {
                    assert(exists|j: int| 0 <= j < fs@.len() && #[trigger] rule_key(fs@[j].path@) == rule_key(hs@[b].path@));
                }
            }
        }
        Ok(out)
    }
}

/// A forced deletion in the form the operations store: a safe path,
/// trimmed and with `/`.
pub open spec fn forced_in_stored_form(f: ForcedDeletion) -> bool {
    valid_client_path(f.path@) && client_path_form(f.path@) == f.path@
}

/// A hash deletion in the form the operations store: a safe path, trimmed
/// and with `/`; a fingerprint trimmed and in lower case; a valid staged
/// file name.
pub open spec fn hash_in_stored_form(h: PendingHashDeletion) -> bool {
    &&& valid_client_path(h.path@) && client_path_form(h.path@) == h.path@
    &&& valid_sha256(h.sha256@) && sha256_form(h.sha256@) == h.sha256@
    &&& h.staged_file matches Some(f) ==> valid_staged_file(f@)
}

/// Every rule is in the form the operations store.
pub open spec fn in_stored_form(p: PendingChanges) -> bool {
    &&& forall|k: int| 0 <= k < p.forced_deletions@.len() ==> forced_in_stored_form(#[trigger] p.forced_deletions@[k])
    &&& forall|k: int| 0 <= k < p.hash_deletions@.len() ==> hash_in_stored_form(#[trigger] p.hash_deletions@[k])
}

/// Rules in their stored form, with no path twice, load back unchanged:
/// every entry passes the checks of `checked` and is its own normalized form.
pub proof fn law_stored_rules_load_back(p: PendingChanges)
    requires
        p.schema == SCHEMA_VERSION,
        p.rules_wf(),
        in_stored_form(p),
    ensures
        forall|k: int|
            0 <= k < p.forced_deletions@.len() ==> #[trigger] stored_forced_error(p.forced_deletions@, k) is None
                && normalized_forced(p.forced_deletions@[k], p.forced_deletions@[k]),
        forall|k: int|
            0 <= k < p.hash_deletions@.len() ==> #[trigger] stored_hash_error(
                p.forced_deletions@,
                p.hash_deletions@,
                k,
            ) is None && normalized_hash(p.hash_deletions@[k], p.hash_deletions@[k]),
{
    let fs = p.forced_deletions@;
    let hs = p.hash_deletions@;
    assert forall|k: int| 0 <= k < fs.len() implies #[trigger] stored_forced_error(fs, k) is None
        && normalized_forced(fs[k], fs[k]) by {
        assert(valid_client_path(fs[k].path@) && client_path_form(fs[k].path@) == fs[k].path@);
        if exists|j: int| 0 <= j < k && #[trigger] rule_key(fs[j].path@) == rule_key(fs[k].path@) {
            let j = choose|j: int| 0 <= j < k && #[trigger] rule_key(fs[j].path@) == rule_key(fs[k].path@);
            assert(valid_client_path(fs[j].path@) && client_path_form(fs[j].path@) == fs[j].path@);
            assert(!eq_ignore_case(fs[j].key(), fs[k].key()));
        }
    }
    assert forall|k: int| 0 <= k < hs.len() implies #[trigger] stored_hash_error(fs, hs, k) is None
        && normalized_hash(hs[k], hs[k]) by {
        let h = hs[k];
        assert(valid_client_path(h.path@) && client_path_form(h.path@) == h.path@);
        assert(valid_sha256(h.sha256@) && sha256_form(h.sha256@) == h.sha256@);
        assert(h.staged_file matches Some(f) ==> valid_staged_file(f@));
        assert(opt_view(h.staged_file) matches Some(f) ==> valid_staged_file(f));
        if exists|j: int| 0 <= j < fs.len() && #[trigger] rule_key(fs[j].path@) == rule_key(h.path@) {
            let j = choose|j: int| 0 <= j < fs.len() && #[trigger] rule_key(fs[j].path@) == rule_key(h.path@);
            assert(valid_client_path(fs[j].path@) && client_path_form(fs[j].path@) == fs[j].path@);
            assert(!eq_ignore_case(fs[j].key(), hs[k].key()));
        }
        if exists|j: int| 0 <= j < k && #[trigger] rule_key(hs[j].path@) == rule_key(h.path@) {
            let j = choose|j: int| 0 <= j < k && #[trigger] rule_key(hs[j].path@) == rule_key(h.path@);
            assert(valid_client_path(hs[j].path@) && client_path_form(hs[j].path@) == hs[j].path@);
            assert(!eq_ignore_case(hs[j].key(), hs[k].key()));
        }
    }
}


/// The invariant of the rules as every operation leaves them: no path twice
/// (without ASCII case, across both lists), every rule in stored form, and
/// each list sorted by path.
pub open spec fn rules_invariant(p: PendingChanges) -> bool {
    &&& p.rules_wf()
    &&& in_stored_form(p)
    &&& sorted_by_key(p.forced_deletions@)
    &&& sorted_by_key(p.hash_deletions@)
}

/// Under the invariant, each list is strictly ascending by path, its paths
/// are safe client paths in stored form and no path of one list equals one
/// of the other without ASCII case.
pub proof fn law_rules_strictly_ordered(p: PendingChanges)
    requires
        rules_invariant(p),
    ensures
        forall|i: int, j: int|
            0 <= i < j < p.forced_deletions@.len() ==> lex_lt(
                #[trigger] p.forced_deletions@[i].path@,
                #[trigger] p.forced_deletions@[j].path@,
            ),
        forall|i: int, j: int|
            0 <= i < j < p.hash_deletions@.len() ==> lex_lt(
                #[trigger] p.hash_deletions@[i].path@,
                #[trigger] p.hash_deletions@[j].path@,
            ),
        forall|i: int, j: int|
            0 <= i < p.forced_deletions@.len() && 0 <= j < p.hash_deletions@.len() ==> !eq_ignore_case(
                #[trigger] p.forced_deletions@[i].path@,
                #[trigger] p.hash_deletions@[j].path@,
            ),
        forall|k: int|
            0 <= k < p.forced_deletions@.len() ==> forced_in_stored_form(#[trigger] p.forced_deletions@[k]),
        forall|k: int| 0 <= k < p.hash_deletions@.len() ==> hash_in_stored_form(#[trigger] p.hash_deletions@[k]),
{
    lemma_strictly_ascending(p.forced_deletions@);
    lemma_strictly_ascending(p.hash_deletions@);
    assert forall|i: int, j: int| 0 <= i < j < p.forced_deletions@.len() implies lex_lt(
        #[trigger] p.forced_deletions@[i].path@,
        #[trigger] p.forced_deletions@[j].path@,
    ) by {
        assert(lex_lt(p.forced_deletions@[i].key(), p.forced_deletions@[j].key()));
    }
    assert forall|i: int, j: int| 0 <= i < j < p.hash_deletions@.len() implies lex_lt(
        #[trigger] p.hash_deletions@[i].path@,
        #[trigger] p.hash_deletions@[j].path@,
    ) by {
        assert(lex_lt(p.hash_deletions@[i].key(), p.hash_deletions@[j].key()));
    }
    assert forall|i: int, j: int|
        0 <= i < p.forced_deletions@.len() && 0 <= j < p.hash_deletions@.len() implies !eq_ignore_case(
        #[trigger] p.forced_deletions@[i].path@,
        #[trigger] p.hash_deletions@[j].path@,
    ) by {
        assert(p.forced_deletions@[i].key() == p.forced_deletions@[i].path@);
        assert(p.hash_deletions@[j].key() == p.hash_deletions@[j].path@);
    }
}

/// Sorted records whose keys differ without ASCII case have strictly
/// ascending keys.
proof fn lemma_strictly_ascending<T: Keyed>(s: Seq<T>)
    requires
        sorted_by_key(s),
        keys_distinct(s),
    ensures
        forall|i: int, j: int| 0 <= i < j < s.len() ==> lex_lt(#[trigger] s[i].key(), #[trigger] s[j].key()),
{
    assert forall|i: int, j: int| 0 <= i < j < s.len() implies lex_lt(#[trigger] s[i].key(), #[trigger] s[j].key()) by {
        assert(!eq_ignore_case(s[i].key(), s[j].key()));
        assert(!lex_lt(s[j].key(), s[i].key()));
        if s[i].key() == s[j].key() {
            assert(eq_ignore_case(s[i].key(), s[j].key()));
        }
        crate::order::lemma_lex_total(s[i].key(), s[j].key());
    }
}

/// Each key comes strictly before the next.
pub open spec fn strictly_ascending<T: Keyed>(s: Seq<T>) -> bool {
    forall|i: int, j: int| 0 <= i < j < s.len() ==> lex_lt(#[trigger] s[i].key(), #[trigger] s[j].key())
}

/// Two sequences with strictly ascending keys and the same records are equal.
proof fn lemma_same_ascending<T: Keyed>(a: Seq<T>, b: Seq<T>)
    requires
        strictly_ascending(a),
        strictly_ascending(b),
        forall|x: T| a.contains(x) <==> b.contains(x),
    ensures
        a == b,
    decreases a.len(),
{
    if a.len() == 0 {
        if b.len() > 0 {
            assert(b.contains(b[0]));
        }
        assert(a =~= b);
    } else if b.len() == 0 {
        assert(a.contains(a[0]));
    } else {
        let a0 = a[0];
        let b0 = b[0];
        assert(b.contains(b0));
        assert(a.contains(a0));
        let k = choose|k: int| 0 <= k < a.len() && a[k] == b0;
        let m = choose|m: int| 0 <= m < b.len() && b[m] == a0;
        crate::order::lemma_lex_irreflexive(a0.key());
        crate::order::lemma_lex_irreflexive(b0.key());
        if k > 0 && m > 0 {
            assert(lex_lt(a[0].key(), a[k].key()));
            assert(lex_lt(b[0].key(), b[m].key()));
            crate::order::lemma_lex_transitive(a0.key(), b0.key(), a0.key());
        } else if k > 0 {
            assert(lex_lt(a[0].key(), a[k].key()));
        }
        assert(a0 == b0);
        let ra = a.drop_first();
        let rb = b.drop_first();
        assert forall|i: int, j: int| 0 <= i < j < ra.len() implies lex_lt(
            #[trigger] ra[i].key(),
            #[trigger] ra[j].key(),
        ) by {
            assert(ra[i] == a[i + 1] && ra[j] == a[j + 1]);
        }
        assert forall|i: int, j: int| 0 <= i < j < rb.len() implies lex_lt(
            #[trigger] rb[i].key(),
            #[trigger] rb[j].key(),
        ) by {
            assert(rb[i] == b[i + 1] && rb[j] == b[j + 1]);
        }
        assert forall|x: T| ra.contains(x) <==> rb.contains(x) by {
            if ra.contains(x) {
                let i = choose|i: int| 0 <= i < ra.len() && ra[i] == x;
                assert(a[i + 1] == x);
                assert(lex_lt(a[0].key(), a[i + 1].key()));
                assert(a.contains(x));
                assert(b.contains(x));
                let j = choose|j: int| 0 <= j < b.len() && b[j] == x;
                assert(j != 0);
                assert(rb[j - 1] == x);
            }
            if rb.contains(x) {
                let i = choose|i: int| 0 <= i < rb.len() && rb[i] == x;
                assert(b[i + 1] == x);
                assert(lex_lt(b[0].key(), b[i + 1].key()));
                assert(b.contains(x));
                assert(a.contains(x));
                let j = choose|j: int| 0 <= j < a.len() && a[j] == x;
                assert(j != 0);
                assert(ra[j - 1] == x);
            }
        }
        lemma_same_ascending(ra, rb);
        assert(a =~= seq![a0] + ra);
        assert(b =~= seq![b0] + rb);
    }
}

/// Registering a forced deletion of a path that no rule names, then removing
/// the forced deletions of the same path, finds the new rule and gives back
/// the rules as they were, when they kept their invariant. `after_add` is
/// what `add_forced_deletion(path)` leaves, as its `ensures` states it for
/// such a path: the hash deletions unchanged and the forced ones sorted, the
/// old ones plus `added`, which names the path in stored form and is armed.
pub proof fn law_forced_add_then_remove(
    before: PendingChanges,
    after_add: PendingChanges,
    path: Seq<char>,
    added: ForcedDeletion,
)
    requires
        rules_invariant(before),
        valid_client_path(path),
        !forced_names(before.forced_deletions@, client_path_form(path)),
        !hash_names(before.hash_deletions@, client_path_form(path)),
        after_add.rules_wf(),
        after_add.schema == before.schema,
        after_add.hash_deletions == before.hash_deletions,
        added.path@ == client_path_form(path),
        added.pending,
        sorted_by_key(after_add.forced_deletions@),
        after_add.forced_deletions@.to_multiset() == before.forced_deletions@.to_multiset().insert(added),
    ensures
        forced_names(after_add.forced_deletions@, client_path_form(path)),
        forced_without(after_add.forced_deletions@, client_path_form(path)) == before.forced_deletions@,
{
    let key = client_path_form(path);
    let a = after_add.forced_deletions@;
    let b = before.forced_deletions@;
    let pred = |x: ForcedDeletion| !eq_ignore_case(x.path@, key);
    let f = a.filter(pred);
    assert(b.to_multiset().insert(added).count(added) > 0);
    assert(a.to_multiset().count(added) > 0);
    assert(a.contains(added));
    let i = choose|i: int| 0 <= i < a.len() && a[i] == added;
    assert(eq_ignore_case(a[i].path@, key));
    lemma_strictly_ascending(b);
    lemma_strictly_ascending(a);
    let idx = lemma_filter_permutation(a, pred);
    assert forall|p: int, q: int| 0 <= p < q < f.len() implies lex_lt(#[trigger] f[p].key(), #[trigger] f[q].key()) by {
        assert(f[p] == a[idx[p]] && f[q] == a[idx[q]]);
        assert(idx[p] < idx[q]);
    }
    assert forall|x: ForcedDeletion| f.contains(x) <==> b.contains(x) by {
        if f.contains(x) {
            a.lemma_filter_contains_rev(pred, x);
            let k = choose|k: int| 0 <= k < f.len() && f[k] == x;
            a.lemma_filter_pred(pred, k);
            assert(a.to_multiset().count(x) > 0);
            assert(x != added);
            assert(b.to_multiset().count(x) > 0);
        }
        if b.contains(x) {
            let k = choose|k: int| 0 <= k < b.len() && b[k] == x;
            assert(!eq_ignore_case(b[k].path@, key));
            assert(a.to_multiset().count(x) > 0);
            let j = choose|j: int| 0 <= j < a.len() && a[j] == x;
            a.lemma_filter_contains(pred, j);
        }
    }
    lemma_same_ascending(f, b);
}

} // verus!
