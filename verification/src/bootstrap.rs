//! The modpack initialization manifest that a client may find beside the
//! updater: which mod jars to fetch from external CDNs on first start.
use vstd::prelude::*;

use crate::path_model::{components, path_components, Component, PathComponent};
use crate::text::{
    all_hex, chars_all_hex, chars_ends_with, chars_eq, chars_of, chars_starts_with, decimal, dec,
    ends_with, eq_ignore_case, lower_chars, lower_seq, push_str, slash_chars, slash_seq,
    starts_with, str_eq, str_eq_ignore_case, copy_string, join_strings, joined, string_views,
};

verus! {

/// The most files one manifest may list.
pub const MAX_MANIFEST_FILES: usize = 2000;

/// The most bytes one download segment covers.
pub const FILE_PIECE_LIMIT: u64 = 262144;

/// How many downloads run at once.
pub const DOWNLOAD_CONCURRENCY: usize = 5;

/// A CDN location of a file.
#[derive(Clone, Debug)]
pub struct ExternalSource {
    pub provider: String,
    pub url: String,
}

/// One file of the manifest.
#[derive(Clone, Debug)]
pub struct BootstrapFile {
    pub path: String,
    pub length: u64,
    pub sha256: String,
    pub external_source: Option<ExternalSource>,
    pub external_sources: Vec<ExternalSource>,
}

/// The manifest.
#[derive(Clone, Debug)]
pub struct BootstrapManifest {
    pub schema: u32,
    pub initialize: bool,
    pub files: Vec<BootstrapFile>,
}

/// What the client records once a manifest is fully applied.
#[derive(Clone, Debug)]
pub struct BootstrapState {
    pub initialize: bool,
    pub manifest_sha256: String,
}

/// A manifest that does not say otherwise asks for initialization.
pub fn default_true() -> (r: bool)
    ensures
        r,
{
    true
}

/// The sources with their URLs seen first kept, in order.
pub open spec fn dedup_by_url(s: Seq<ExternalSource>) -> Seq<ExternalSource>
    decreases s.len(),
{
    if s.len() == 0 {
        Seq::empty()
    } else {
        let rest = dedup_by_url(s.drop_last());
        if exists|k: int| 0 <= k < rest.len() && #[trigger] rest[k].url@ == s.last().url@ {
            rest
        } else {
            rest.push(s.last())
        }
    }
}

/// The sources of a file: the listed ones, then the single one, each URL once.
pub open spec fn sources_of(f: BootstrapFile) -> Seq<ExternalSource> {
    dedup_by_url(all_sources(f))
}

pub open spec fn all_sources(f: BootstrapFile) -> Seq<ExternalSource> {
    match f.external_source {
        Some(s) => f.external_sources@.push(s),
        None => f.external_sources@,
    }
}

fn url_listed(v: &Vec<ExternalSource>, url: &String) -> (r: bool)
    ensures
        r == exists|k: int| 0 <= k < v@.len() && #[trigger] v@[k].url@ == url@,
{
    for i in 0..v.len()
        invariant
            forall|k: int| 0 <= k < i ==> #[trigger] v@[k].url@ != url@,
    {
        if v[i].url == *url {
            return true;
        }
    }
    false
}

fn copy_source(s: &ExternalSource) -> (r: ExternalSource)
    ensures
        r == *s,
{
    ExternalSource {
        provider: crate::text::copy_string(&s.provider),
        url: crate::text::copy_string(&s.url),
    }
}

impl BootstrapFile {
    /// Where the file can be downloaded from, without repeated URLs.
    pub fn sources(&self) -> (r: Vec<ExternalSource>)
        ensures
            r@ == sources_of(*self),
    {
        let mut out: Vec<ExternalSource> = Vec::new();
        for i in 0..self.external_sources.len()
            invariant
                out@ == dedup_by_url(self.external_sources@.take(i as int)),
        {
            let s = &self.external_sources[i];
            assert(self.external_sources@.take(i + 1).drop_last() =~= self.external_sources@.take(
                i as int,
            ));
            if !url_listed(&out, &s.url) {
                out.push(copy_source(s));
            }
        }
        assert(self.external_sources@.take(self.external_sources@.len() as int)
            =~= self.external_sources@);
        match &self.external_source {
            Some(s) => {
                assert(all_sources(*self).drop_last() =~= self.external_sources@);
                if !url_listed(&out, &s.url) {
                    out.push(copy_source(s));
                }
            },
            None => {},
        }
        out
    }
}

/// A path of the form `.minecraft/mods/<name>.jar` (`\` read as `/`, the
/// extension in any ASCII case).
pub open spec fn mod_path_ok(path: Seq<char>) -> bool {
    let n = slash_seq(path);
    let cs = components(n);
    &&& cs.len() == 3
    &&& cs[0] == Component::Normal(".minecraft"@)
    &&& cs[1] == Component::Normal("mods"@)
    &&& cs[2] is Normal
    &&& ends_with(lower_seq(n), ".jar"@)
}

fn is_normal_named(c: &PathComponent, name: &str) -> (r: bool)
    ensures
        r == (c.model() == Component::Normal(name@)),
{
    match c {
        PathComponent::Normal(n) => chars_eq(n, &chars_of(name)),
        _ => false,
    }
}

/// Refuses a manifest path that is not a mod jar directly in `.minecraft/mods`.
pub fn validate_relative_mod_path(path: &str) -> (r: Result<(), String>)
    ensures
        r is Ok <==> mod_path_ok(path@),
        r matches Err(e) ==> e@ == "拒绝不安全的整合包初始化路径："@ + path@,
{
    let n = slash_chars(&chars_of(path));
    let cs = path_components(&n);
    let safe = cs.len() == 3 && is_normal_named(&cs[0], ".minecraft") && is_normal_named(
        &cs[1],
        "mods",
    ) && match &cs[2] {
        PathComponent::Normal(_) => true,
        _ => false,
    } && chars_ends_with(&lower_chars(&n), &chars_of(".jar"));
    proof {
        if cs@.len() == 3 {
            assert(crate::path_model::models(cs@)[0] == cs@[0].model());
            assert(crate::path_model::models(cs@)[1] == cs@[1].model());
            assert(crate::path_model::models(cs@)[2] == cs@[2].model());
        }
    }
    if !safe {
        let mut m = "拒绝不安全的整合包初始化路径：".to_owned();
        push_str(&mut m, path);
        return Err(m);
    }
    Ok(())
}

/// A source a client may download from: Modrinth or CurseForge over HTTPS.
pub open spec fn source_ok(s: ExternalSource) -> bool {
    (s.provider@ == "modrinth"@ || s.provider@ == "curseforge"@) && starts_with(s.url@, "https://"@)
}

/// A file record the client accepts.
pub open spec fn file_ok(f: BootstrapFile) -> bool {
    &&& f.length != 0
    &&& f.sha256@.len() == 64
    &&& all_hex(f.sha256@)
    &&& sources_of(f).len() > 0
    &&& forall|k: int| 0 <= k < sources_of(f).len() ==> source_ok(#[trigger] sources_of(f)[k])
}

/// Why a manifest is refused, if it is: the files are checked in order, the
/// path of each before its record.
pub open spec fn manifest_error(m: BootstrapManifest) -> Option<Seq<char>> {
    if m.schema != 1 {
        Some("不支持的整合包初始化清单版本："@ + dec(m.schema as nat))
    } else if m.files@.len() > MAX_MANIFEST_FILES {
        Some("整合包初始化清单文件数量超过安全上限"@)
    } else {
        files_error(m.files@)
    }
}

pub open spec fn files_error(files: Seq<BootstrapFile>) -> Option<Seq<char>>
    decreases files.len(),
{
    if files.len() == 0 {
        None
    } else {
        match files_error(files.drop_last()) {
            Some(e) => Some(e),
            None => {
                let f = files.last();
                if !mod_path_ok(f.path@) {
                    Some("拒绝不安全的整合包初始化路径："@ + f.path@)
                } else if !file_ok(f) {
                    Some("整合包初始化清单含有无效文件记录："@ + f.path@)
                } else {
                    None
                }
            },
        }
    }
}

proof fn lemma_files_error_prefix(files: Seq<BootstrapFile>, m: int)
    requires
        0 <= m <= files.len(),
        files_error(files.take(m)) is Some,
    ensures
        files_error(files) == files_error(files.take(m)),
    decreases files.len(),
{
    if m < files.len() {
        assert(files.drop_last().take(m) =~= files.take(m));
        lemma_files_error_prefix(files.drop_last(), m);
    } else {
        assert(files.take(m) =~= files);
    }
}

fn file_record_ok(f: &BootstrapFile) -> (r: bool)
    ensures
        r == file_ok(*f),
{
    if f.length == 0 {
        return false;
    }
    let sha = chars_of(f.sha256.as_str());
    if sha.len() != 64 || !chars_all_hex(&sha) {
        return false;
    }
    let sources = f.sources();
    if sources.len() == 0 {
        return false;
    }
    for i in 0..sources.len()
        invariant
            sources@ == sources_of(*f),
            forall|k: int| 0 <= k < i ==> source_ok(#[trigger] sources_of(*f)[k]),
    {
        let s = &sources[i];
        let provider_ok = str_eq(s.provider.as_str(), "modrinth") || str_eq(
            s.provider.as_str(),
            "curseforge",
        );
        if !provider_ok || !chars_starts_with(&chars_of(s.url.as_str()), &chars_of("https://")) {
            return false;
        }
    }
    true
}

/// Checks the manifest: its version, its size, and each file's path, length,
/// SHA-256 and sources.
pub fn validate_manifest(manifest: &BootstrapManifest) -> (r: Result<(), String>)
    ensures
        match manifest_error(*manifest) {
            Some(e) => r is Err && r->Err_0@ == e,
            None => r is Ok,
        },
{
    if manifest.schema != 1 {
        let mut m = "不支持的整合包初始化清单版本：".to_owned();
        let n = decimal(manifest.schema as u64);
        push_str(&mut m, n.as_str());
        return Err(m);
    }
    if manifest.files.len() > MAX_MANIFEST_FILES {
        return Err("整合包初始化清单文件数量超过安全上限".to_owned());
    }
    let files = &manifest.files;
    for i in 0..files.len()
        invariant
            manifest.schema == 1,
            manifest.files@.len() <= MAX_MANIFEST_FILES,
            files@ == manifest.files@,
            files_error(files@.take(i as int)) is None,
    {
        let f = &files[i];
        assert(files@.take(i + 1).drop_last() =~= files@.take(i as int));
        assert(files@.take(i + 1).last() == *f);
        match validate_relative_mod_path(f.path.as_str()) {
            Err(e) => {
                proof {
                    lemma_files_error_prefix(files@, i + 1);
                }
                return Err(e);
            },
            Ok(()) => {},
        }
        if !file_record_ok(f) {
            proof {
                lemma_files_error_prefix(files@, i + 1);
            }
            let mut m = "整合包初始化清单含有无效文件记录：".to_owned();
            push_str(&mut m, f.path.as_str());
            return Err(m);
        }
    }
    assert(files@.take(files@.len() as int) =~= files@);
    Ok(())
}

/// How many segments a file of `length` bytes is fetched in: one per started
/// 256 KiB, at most `max_segments` (at least one).
pub open spec fn segments_for(length: u64, max_segments: usize) -> int {
    let pieces = (length as int + FILE_PIECE_LIMIT - 1) / (FILE_PIECE_LIMIT as int);
    let cap = if max_segments == 0 {
        1
    } else {
        max_segments as int
    };
    let m = if pieces < cap {
        pieces
    } else {
        cap
    };
    if m < 1 {
        1
    } else {
        m
    }
}

pub fn segment_count(length: u64, max_segments: usize) -> (r: usize)
    ensures
        r == segments_for(length, max_segments),
{
    let pieces = length / FILE_PIECE_LIMIT + if length % FILE_PIECE_LIMIT == 0 {
        0
    } else {
        1
    };
    assert(pieces == (length as int + FILE_PIECE_LIMIT - 1) / (FILE_PIECE_LIMIT as int))
        by (nonlinear_arith)
        requires
            pieces == length / FILE_PIECE_LIMIT + if length % FILE_PIECE_LIMIT == 0 {
                0int
            } else {
                1int
            },
            FILE_PIECE_LIMIT == 262144,
    ;
    let cap: usize = if max_segments == 0 {
        1
    } else {
        max_segments
    };
    let m: u64 = if pieces < cap as u64 {
        pieces
    } else {
        cap as u64
    };
    if m < 1 {
        1
    } else {
        m as usize
    }
}

/// How many segments each download may use: the threads shared among the
/// files still queued (`remaining` of them, the current one included).
pub open spec fn segments_per_file(remaining: usize) -> int {
    let shared = if remaining < DOWNLOAD_CONCURRENCY {
        remaining as int
    } else {
        DOWNLOAD_CONCURRENCY as int
    };
    let per = DOWNLOAD_CONCURRENCY as int / shared;
    if per < 1 {
        1
    } else {
        per
    }
}

pub fn max_segments_for(remaining: usize) -> (r: usize)
    requires
        remaining > 0,
    ensures
        r == segments_per_file(remaining),
{
    let shared = if remaining < DOWNLOAD_CONCURRENCY {
        remaining
    } else {
        DOWNLOAD_CONCURRENCY
    };
    let per = DOWNLOAD_CONCURRENCY / shared;
    if per < 1 {
        1
    } else {
        per
    }
}

/// Has the client already applied this manifest? The recorded state must no
/// longer ask for initialization and name the same manifest digest.
pub open spec fn state_matches_spec(state: BootstrapState, manifest_hash: Seq<char>) -> bool {
    !state.initialize && eq_ignore_case(state.manifest_sha256@, manifest_hash)
}

pub fn state_matches(state: &BootstrapState, manifest_hash: &str) -> (r: bool)
    ensures
        r == state_matches_spec(*state, manifest_hash@),
{
    !state.initialize && str_eq_ignore_case(state.manifest_sha256.as_str(), manifest_hash)
}

/// Does a readable manifest still need to be applied?
pub fn needs_initialization(
    manifest: &BootstrapManifest,
    manifest_hash: &str,
    state: Option<&BootstrapState>,
) -> (r: bool)
    ensures
        r == (manifest.initialize && !(match state {
            Some(s) => state_matches_spec(*s, manifest_hash@),
            None => false,
        })),
{
    if !manifest.initialize {
        return false;
    }
    match state {
        Some(s) => !state_matches(s, manifest_hash),
        None => true,
    }
}

/// The total size of the manifest's files.
pub open spec fn total_length(files: Seq<BootstrapFile>) -> int
    decreases files.len(),
{
    if files.len() == 0 {
        0
    } else {
        total_length(files.drop_last()) + files.last().length
    }
}

pub fn total_bytes(manifest: &BootstrapManifest) -> (r: u64)
    requires
        total_length(manifest.files@) <= u64::MAX,
    ensures
        r == total_length(manifest.files@),
{
    let files = &manifest.files;
    let mut sum: u64 = 0;
    for i in 0..files.len()
        invariant
            total_length(files@) <= u64::MAX,
            sum == total_length(files@.take(i as int)),
    {
        assert(files@.take(i + 1).drop_last() =~= files@.take(i as int));
        proof {
            lemma_total_prefix(files@, i + 1);
        }
        sum = sum + files[i].length;
    }
    assert(files@.take(files@.len() as int) =~= files@);
    sum
}

proof fn lemma_total_prefix(files: Seq<BootstrapFile>, m: int)
    requires
        0 <= m <= files.len(),
    ensures
        total_length(files.take(m)) <= total_length(files),
    decreases files.len(),
{
    if m < files.len() {
        assert(files.drop_last().take(m) =~= files.take(m));
        lemma_total_prefix(files.drop_last(), m);
    } else {
        assert(files.take(m) =~= files);
    }
}

// ---------------------------------------------------------------------------
// Segments of a download
// ---------------------------------------------------------------------------

/// The size of each segment when `length` bytes are fetched in `count`
/// segments: the length divided by the count, rounded up.
pub open spec fn segment_size(length: u64, count: usize) -> int {
    length as int / count as int + if length as int % count as int == 0 {
        0int
    } else {
        1int
    }
}

proof fn lemma_segments_cover(length: u64, count: usize)
    requires
        count >= 1,
    ensures
        count * segment_size(length, count) >= length,
        segment_size(length, count) <= length,
        length > 0 ==> segment_size(length, count) >= 1,
{
    let q = length as int / count as int;
    let r = length as int % count as int;
    vstd::arithmetic::div_mod::lemma_fundamental_div_mod(length as int, count as int);
    assert(count * q + r == length);
    if r == 0 {
        assert(count * segment_size(length, count) == count * q);
    } else {
        assert(count * segment_size(length, count) == count * q + count) by (nonlinear_arith)
            requires
                segment_size(length, count) == q + 1,
        ;
    }
    assert(q <= length) by (nonlinear_arith)
        requires
            count * q + r == length,
            count >= 1,
            0 <= r,
            q >= 0,
    ;
    if r == 0 && length > 0 {
        assert(q >= 1) by (nonlinear_arith)
            requires
                count * q == length,
                length > 0,
                count >= 1,
        ;
    }
    if r != 0 {
        assert(q + 1 <= length) by (nonlinear_arith)
            requires
                count * q + r == length,
                count >= 1,
                0 < r < count,
                q >= 0,
        ;
    }
}

/// The segments `(index, start, end)` of a file of `length` bytes fetched in
/// `segment_count` segments, as byte ranges `start..end`. They follow one
/// another without gap or overlap and together cover the whole file; there
/// may be fewer than `segment_count` of them when the rounded-up size
/// already covers the file.
pub fn segment_ranges(length: u64, segment_count: usize) -> (r: Vec<(usize, u64, u64)>)
    requires
        segment_count >= 1,
    ensures
        length == 0 ==> r@.len() == 0,
        length > 0 ==> 1 <= r@.len() <= segment_count,
        forall|k: int|
            0 <= k < r@.len() ==> {
                &&& (#[trigger] r@[k]).0 == k
                &&& r@[k].1 == k * segment_size(length, segment_count)
                &&& r@[k].1 < r@[k].2
                &&& r@[k].2 - r@[k].1 <= segment_size(length, segment_count)
            },
        r@.len() > 0 ==> r@[0].1 == 0 && r@[r@.len() - 1].2 == length,
        forall|k: int| 0 <= k < r@.len() - 1 ==> #[trigger] r@[k].2 == r@[k + 1].1,
        forall|k: int| 0 <= k < r@.len() - 1 ==> #[trigger] r@[k].2 - r@[k].1 == segment_size(length, segment_count),
{
    proof {
        lemma_segments_cover(length, segment_count);
    }
    let size: u64 = length / (segment_count as u64) + if length % (segment_count as u64) == 0 {
        0
    } else {
        1
    };
    assert(size == segment_size(length, segment_count));
    let mut parts: Vec<(usize, u64, u64)> = Vec::new();
    if length == 0 {
        return parts;
    }
    let mut index: usize = 0;
    let mut start: u64 = 0;
    loop
        invariant_except_break
            start == index * size,
            start < length,
            parts@.len() == index,
        invariant
            size == segment_size(length, segment_count),
            size >= 1,
            size <= length,
            segment_count * size >= length,
            segment_count >= 1,
            parts@.len() <= index + 1,
            index < segment_count,
            forall|k: int|
                0 <= k < index ==> {
                    &&& (#[trigger] parts@[k]).0 == k
                    &&& parts@[k].1 == k * size
                    &&& parts@[k].2 == parts@[k].1 + size
                },
        ensures
            1 <= parts@.len() <= segment_count,
            forall|k: int|
                0 <= k < parts@.len() - 1 ==> {
                    &&& (#[trigger] parts@[k]).0 == k
                    &&& parts@[k].1 == k * size
                    &&& parts@[k].2 == parts@[k].1 + size
                },
            parts@[parts@.len() - 1].0 == parts@.len() - 1,
            parts@[parts@.len() - 1].1 == (parts@.len() - 1) * size,
            parts@[parts@.len() - 1].1 < parts@[parts@.len() - 1].2 == length,
            parts@[parts@.len() - 1].2 - parts@[parts@.len() - 1].1 <= size,
        decreases length - start,
    {
        let remaining = length - start;
        if remaining <= size {
            parts.push((index, start, length));
            break;
        }
        let end = start + size;
        parts.push((index, start, end));
        assert(end == (index + 1) * size) by (nonlinear_arith)
            requires
                start == index * size,
                end == start + size,
        ;
        assert(index + 1 < segment_count) by (nonlinear_arith)
            requires
                end == (index + 1) * size,
                end < length,
                segment_count * size >= length,
                size >= 1,
        ;
        start = end;
        index = index + 1;
    }
    proof {
        assert forall|k: int| 0 <= k < parts@.len() - 1 implies #[trigger] parts@[k].2 == parts@[k
            + 1].1 by {
            assert((k + 1) * size == k * size + size) by (nonlinear_arith);
        }
    }
    parts
}

// ---------------------------------------------------------------------------
// Which files to fetch
// ---------------------------------------------------------------------------

/// The bytes of the first `n` files that are already installed.
pub open spec fn installed_length(files: Seq<BootstrapFile>, installed: Seq<bool>, n: int) -> int
    decreases n,
{
    if n <= 0 {
        0
    } else {
        installed_length(files, installed, n - 1) + if installed[n - 1] {
            files[n - 1].length as int
        } else {
            0int
        }
    }
}

/// The positions among the first `n` files of those still to fetch, in order.
pub open spec fn to_fetch(installed: Seq<bool>, n: int) -> Seq<usize>
    decreases n,
{
    if n <= 0 {
        Seq::empty()
    } else if installed[n - 1] {
        to_fetch(installed, n - 1)
    } else {
        to_fetch(installed, n - 1).push((n - 1) as usize)
    }
}

proof fn lemma_installed_bounded(files: Seq<BootstrapFile>, installed: Seq<bool>, n: int)
    requires
        0 <= n <= files.len(),
        installed.len() == files.len(),
    ensures
        0 <= installed_length(files, installed, n) <= total_length(files.take(n)),
    decreases n,
{
    if n > 0 {
        lemma_installed_bounded(files, installed, n - 1);
        assert(files.take(n).drop_last() =~= files.take(n - 1));
    }
}

/// Splits the manifest's files into those already installed with the right
/// content (`installed[i]`) and those to fetch: returns the bytes and the
/// number of installed files, and the positions of the others in order.
pub fn plan_downloads(files: &Vec<BootstrapFile>, installed: &Vec<bool>) -> (r: (u64, usize, Vec<usize>))
    requires
        installed@.len() == files@.len(),
        total_length(files@) <= u64::MAX,
    ensures
        r.0 == installed_length(files@, installed@, files@.len() as int),
        r.1 + r.2@.len() == files@.len(),
        r.2@ == to_fetch(installed@, files@.len() as int),
{
    let mut bytes: u64 = 0;
    let mut done: usize = 0;
    let mut pending: Vec<usize> = Vec::new();
    for i in 0..files.len()
        invariant
            installed@.len() == files@.len(),
            total_length(files@) <= u64::MAX,
            bytes == installed_length(files@, installed@, i as int),
            done + pending@.len() == i,
            pending@ == to_fetch(installed@, i as int),
    {
        if installed[i] {
            proof {
                lemma_installed_bounded(files@, installed@, i + 1);
                lemma_total_prefix(files@, i + 1);
            }
            bytes = bytes + files[i].length;
            done = done + 1;
        } else {
            pending.push(i);
        }
    }
    (bytes, done, pending)
}

/// The decimal form of `n` with leading zeros up to four digits
/// (`format!("{:04}", n)`).
pub open spec fn four_digits(n: nat) -> Seq<char> {
    let d = dec(n);
    if d.len() >= 4 {
        d
    } else {
        Seq::new((4 - d.len()) as nat, |i: int| '0') + d
    }
}

/// The name of the temporary file that the download of file `index` goes to.
pub fn download_temp_name(index: usize) -> (r: String)
    ensures
        r@ == four_digits(index as nat) + ".download"@,
{
    let digits = decimal(index as u64);
    let mut out = String::new();
    let mut k = digits.unicode_len();
    let ghost zeros: Seq<char> = Seq::empty();
    while k < 4
        invariant
            digits@ == dec(index as nat),
            digits@.len() <= k,
            k <= 4 || k == digits@.len(),
            out@ == Seq::new((k - digits@.len()) as nat, |i: int| '0'),
        decreases 4 - k,
    {
        crate::text::push_char(&mut out, '0');
        assert(out@ =~= Seq::new((k + 1 - digits@.len()) as nat, |i: int| '0'));
        k = k + 1;
    }
    push_str(&mut out, digits.as_str());
    push_str(&mut out, ".download");
    assert(digits@.len() >= 4 ==> out@.take(0) =~= Seq::<char>::empty());
    assert(out@ =~= four_digits(index as nat) + ".download"@);
    out
}

/// The refusal when a segment's advertised length is not the one asked for,
/// or `None`; segments are numbered from 1 in messages.
pub fn segment_length_error(index: usize, expected: u64, reported: u64) -> (r: Option<String>)
    requires
        index < usize::MAX,
    ensures
        reported == expected ==> r is None,
        reported != expected ==> r is Some && r->Some_0@ == "CDN 分片长度不符：分片 "@ + dec(
            (index + 1) as nat,
        ) + " 预期 "@ + dec(expected as nat) + "，实际 "@ + dec(reported as nat),
{
    if reported == expected {
        return None;
    }
    let mut m = "CDN 分片长度不符：分片 ".to_owned();
    push_str(&mut m, decimal((index + 1) as u64).as_str());
    push_str(&mut m, " 预期 ");
    push_str(&mut m, decimal(expected).as_str());
    push_str(&mut m, "，实际 ");
    push_str(&mut m, decimal(reported).as_str());
    Some(m)
}

/// The refusal when fewer or more bytes than expected were copied for a
/// segment, or `None`.
pub fn segment_copy_error(index: usize, expected: u64, copied: u64) -> (r: Option<String>)
    requires
        index < usize::MAX,
    ensures
        copied == expected ==> r is None,
        copied != expected ==> r is Some && r->Some_0@ == "CDN 分片内容不完整：分片 "@ + dec(
            (index + 1) as nat,
        ) + " 预期 "@ + dec(expected as nat) + "，实际 "@ + dec(copied as nat),
{
    if copied == expected {
        return None;
    }
    let mut m = "CDN 分片内容不完整：分片 ".to_owned();
    push_str(&mut m, decimal((index + 1) as u64).as_str());
    push_str(&mut m, " 预期 ");
    push_str(&mut m, decimal(expected).as_str());
    push_str(&mut m, "，实际 ");
    push_str(&mut m, decimal(copied).as_str());
    Some(m)
}

/// The refusal when the joined segments do not have the file's length, or
/// `None`.
pub fn merged_length_error(expected: u64, actual: u64) -> (r: Option<String>)
    ensures
        actual == expected ==> r is None,
        actual != expected ==> r is Some && r->Some_0@ == "CDN 合并长度不符：预期 "@ + dec(
            expected as nat,
        ) + "，实际 "@ + dec(actual as nat),
{
    if actual == expected {
        return None;
    }
    let mut m = "CDN 合并长度不符：预期 ".to_owned();
    push_str(&mut m, decimal(expected).as_str());
    push_str(&mut m, "，实际 ");
    push_str(&mut m, decimal(actual).as_str());
    Some(m)
}

// ---------------------------------------------------------------------------
// Retrying a download
// ---------------------------------------------------------------------------

/// How many times each source is tried.
pub const DOWNLOAD_ATTEMPTS: usize = 3;

/// How one download attempt ended.
pub enum AttemptOutcome {
    /// The file was fetched and has the expected SHA-256.
    Verified,
    /// The file was fetched but its SHA-256 differs.
    DigestMismatch,
    /// The download failed for this reason.
    Failed(String),
}

/// What the downloader does next.
pub enum DownloadStep {
    /// Fetch from source `source`; this is attempt `attempt`, counted from 1.
    Attempt { source: usize, attempt: usize },
    /// The file is in place.
    Done,
    /// Every source failed, for the reason given.
    GiveUp(String),
}

/// The retries of one file's download: each source, in order, is tried up
/// to `DOWNLOAD_ATTEMPTS` times; the reason of a source's last failed attempt
/// is kept for the final refusal.
pub struct DownloadRetry {
    pub path: String,
    pub providers: Vec<String>,
    pub source: usize,
    pub attempt: usize,
    pub failures: Vec<String>,
}

/// The reason recorded for a failed attempt.
pub open spec fn attempt_error(outcome: AttemptOutcome, attempt: usize) -> Seq<char> {
    match outcome {
        AttemptOutcome::Failed(e) => e@,
        _ => "CDN 文件 SHA-256 校验失败（第 "@ + dec(attempt as nat) + "/3 次）"@,
    }
}

/// The refusal when every source failed.
pub open spec fn all_sources_failed(path: Seq<char>, failures: Seq<String>) -> Seq<char> {
    "整合包初始化下载失败("@ + path + ")，所有来源均失败："@ + joined(string_views(failures), "；"@)
}

impl DownloadRetry {
    /// Is the retry state consistent: a source is being tried, at an attempt
    /// within the limit, and each earlier source left one failure?
    pub open spec fn wf(&self) -> bool {
        &&& self.source < self.providers@.len()
        &&& 1 <= self.attempt <= DOWNLOAD_ATTEMPTS
        &&& self.failures@.len() == self.source
    }

    /// Starts the download of the file at `path` from the sources of the
    /// given providers, and says what to do first.
    pub fn start(path: String, providers: Vec<String>) -> (r: (DownloadRetry, DownloadStep))
        ensures
            r.0.path == path,
            r.0.providers == providers,
            r.0.failures@.len() == 0,
            providers@.len() > 0 ==> r.0.wf() && r.0.source == 0 && r.0.attempt == 1 && r.1
                == (DownloadStep::Attempt { source: 0, attempt: 1 }),
            providers@.len() == 0 ==> (r.1 matches DownloadStep::GiveUp(e) && e@ == all_sources_failed(
                path@,
                Seq::empty(),
            )),
    {
        let retry = DownloadRetry { path, providers, source: 0, attempt: 1, failures: Vec::new() };
        if retry.providers.len() == 0 {
            let e = retry.refusal();
            return (retry, DownloadStep::GiveUp(e));
        }
        (retry, DownloadStep::Attempt { source: 0, attempt: 1 })
    }

    fn refusal(&self) -> (r: String)
        ensures
            r@ == all_sources_failed(self.path@, self.failures@),
    {
        let mut m = "整合包初始化下载失败(".to_owned();
        push_str(&mut m, self.path.as_str());
        push_str(&mut m, ")，所有来源均失败：");
        let j = join_strings(&self.failures, "；");
        push_str(&mut m, j.as_str());
        m
    }

    /// Records how the current attempt ended and says what to do next: stop
    /// after a verified download, try the same source again while attempts
    /// remain, else note the source's failure and move to the next source, and
    /// give up after the last one.
    pub fn record(&mut self, outcome: AttemptOutcome) -> (r: DownloadStep)
        requires
            old(self).wf(),
        ensures
            final(self).path == old(self).path,
            final(self).providers == old(self).providers,
            outcome is Verified ==> r == DownloadStep::Done && *final(self) == *old(self),
            !(outcome is Verified) && old(self).attempt < DOWNLOAD_ATTEMPTS ==> {
                &&& final(self).source == old(self).source
                &&& final(self).attempt == old(self).attempt + 1
                &&& final(self).failures == old(self).failures
                &&& final(self).wf()
                &&& r == (DownloadStep::Attempt { source: old(self).source, attempt: final(self).attempt })
            },
            !(outcome is Verified) && old(self).attempt == DOWNLOAD_ATTEMPTS ==> {
                &&& final(self).failures@.len() == old(self).failures@.len() + 1
                &&& final(self).failures@.drop_last() == old(self).failures@
                &&& final(self).failures@.last()@ == old(self).providers@[old(self).source as int]@
                    + ": "@ + attempt_error(outcome, old(self).attempt)
                &&& final(self).source == old(self).source + 1
                &&& final(self).attempt == 1
                &&& if final(self).source < final(self).providers@.len() {
                    &&& final(self).wf()
                    &&& r == (DownloadStep::Attempt { source: final(self).source, attempt: 1 })
                } else {
                    (r matches DownloadStep::GiveUp(e) && e@ == all_sources_failed(
                        final(self).path@,
                        final(self).failures@,
                    ))
                }
            },
    {
        let reason = match outcome {
            AttemptOutcome::Verified => {
                return DownloadStep::Done;
            },
            AttemptOutcome::DigestMismatch => {
                let mut m = "CDN 文件 SHA-256 校验失败（第 ".to_owned();
                push_str(&mut m, decimal(self.attempt as u64).as_str());
                push_str(&mut m, "/3 次）");
                m
            },
            AttemptOutcome::Failed(e) => e,
        };
        if self.attempt < DOWNLOAD_ATTEMPTS {
            self.attempt = self.attempt + 1;
            return DownloadStep::Attempt { source: self.source, attempt: self.attempt };
        }
        let count = self.providers.len();
        let mut failure = copy_string(&self.providers[self.source]);
        push_str(&mut failure, ": ");
        push_str(&mut failure, reason.as_str());
        let ghost before = self.failures@;
        self.failures.push(failure);
        assert(self.failures@.drop_last() =~= before);
        assert(self.source < count);
        self.source = self.source + 1;
        self.attempt = 1;
        if self.source < count {
            return DownloadStep::Attempt { source: self.source, attempt: 1 };
        }
        DownloadStep::GiveUp(self.refusal())
    }
}

} // verus!
