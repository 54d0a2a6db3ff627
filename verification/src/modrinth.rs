//! Modrinth as an external download source: files are looked up by their
//! SHA-1, and a match is taken only when its length and SHA-1 agree.
use sha1::Digest;
use vstd::prelude::*;

pub use crate::curseforge::is_client_mod_jar;
use crate::digest::{flatten, hex_lower, hex_string};
use crate::external_sources::{
    attach_sources, attached, changed_only_at, lemma_attached_changes_only, receivers, source_view,
};
use crate::text::{copy_string, eq_ignore_case, push_str, str_eq, str_eq_ignore_case};
use crate::version_meta::{ExternalSource, FileChange};

verus! {

/// The Modrinth settings of the manager.
#[derive(Clone, Debug)]
pub struct ModrinthConfig {
    pub enabled: bool,
    pub fallback_to_mcpatch: bool,
}

impl Default for ModrinthConfig {
    fn default() -> (r: Self)
        ensures
            r.enabled,
            r.fallback_to_mcpatch,
    {
        ModrinthConfig { enabled: true, fallback_to_mcpatch: true }
    }
}

/// How many hashes one lookup request carries at most.
pub const HASH_BATCH_SIZE: usize = 1000;

/// The SHA-1 digest of `data`, as `sha1::Sha1` computes it.
pub uninterp spec fn sha1_of(data: Seq<u8>) -> Seq<u8>;

/// A `sha1::Sha1` hasher fed each chunk by `update`, then finalized: the
/// 20-byte digest of the chunks' concatenation, as the `Digest`
/// documentation describes `update`. What the bytes are is named by `sha1_of`.
#[verifier::external_body]
pub(crate) fn sha1_chunks(chunks: &Vec<Vec<u8>>) -> (r: Vec<u8>)
    ensures
        r@ == sha1_of(flatten(chunks@)),
        r@.len() == 20,
{
    let mut hasher = sha1::Sha1::new();
    for chunk in chunks {
        hasher.update(chunk);
    }
    hasher.finalize().to_vec()
}

/// A file that Modrinth is asked about, with its SHA-1 in lowercase
/// hexadecimal.
#[derive(Clone, Debug)]
pub struct Sha1Candidate {
    pub path: String,
    pub len: u64,
    pub sha1: String,
}

/// One file of a Modrinth version: its SHA-1 as listed under `sha1`, if it is,
/// its address and its size.
#[derive(Clone, Debug)]
pub struct ModrinthFile {
    pub sha1: Option<String>,
    pub url: String,
    pub size: u64,
}

/// A Modrinth version, with its files.
#[derive(Clone, Debug)]
pub struct ModrinthVersion {
    pub files: Vec<ModrinthFile>,
}

/// The refusal when a candidate's length changed since the scan; `shown` is
/// how the file is named.
pub fn modrinth_length_error(shown: &str, len: u64, actual_len: u64) -> (r: Option<String>)
    ensures
        actual_len == len ==> r is None,
        actual_len != len ==> r is Some && r->Some_0@ == "Modrinth 候选文件长度在扫描中变化: "@
            + shown@,
{
    if actual_len != len {
        let mut m = "Modrinth 候选文件长度在扫描中变化: ".to_owned();
        push_str(&mut m, shown);
        return Some(m);
    }
    None
}

/// The candidate for the file at `path` whose content was read as `chunks`.
pub fn sha1_candidate(path: &String, len: u64, chunks: &Vec<Vec<u8>>) -> (r: Sha1Candidate)
    ensures
        r.path == *path,
        r.len == len,
        r.sha1@ == hex_lower(sha1_of(flatten(chunks@))),
{
    Sha1Candidate { path: copy_string(path), len, sha1: hex_string(&sha1_chunks(chunks)) }
}

/// The concatenation of batches.
pub open spec fn flatten_strings(batches: Seq<Vec<String>>) -> Seq<String>
    decreases batches.len(),
{
    if batches.len() == 0 {
        Seq::empty()
    } else {
        flatten_strings(batches.drop_last()) + batches.last()@
    }
}

/// The hashes of the candidates, in order, in batches of at most
/// `HASH_BATCH_SIZE`; every batch but the last is full.
pub fn hash_batches(candidates: &Vec<Sha1Candidate>) -> (r: Vec<Vec<String>>)
    ensures
        flatten_strings(r@) == candidates@.map_values(|c: Sha1Candidate| c.sha1),
        forall|k: int| 0 <= k < r@.len() ==> 0 < (#[trigger] r@[k])@.len() <= HASH_BATCH_SIZE,
        forall|k: int| 0 <= k < r@.len() - 1 ==> (#[trigger] r@[k])@.len() == HASH_BATCH_SIZE,
{
    let mut out: Vec<Vec<String>> = Vec::new();
    let mut current: Vec<String> = Vec::new();
    let ghost all = candidates@.map_values(|c: Sha1Candidate| c.sha1);
    for i in 0..candidates.len()
        invariant
            all == candidates@.map_values(|c: Sha1Candidate| c.sha1),
            flatten_strings(out@) + current@ == all.take(i as int),
            current@.len() < HASH_BATCH_SIZE,
            forall|k: int| 0 <= k < out@.len() ==> (#[trigger] out@[k])@.len() == HASH_BATCH_SIZE,
    {
        current.push(copy_string(&candidates[i].sha1));
        assert(all.take(i + 1) =~= all.take(i as int).push(all[i as int]));
        if current.len() == HASH_BATCH_SIZE {
            let ghost before = out@;
            let full = current;
            current = Vec::new();
            out.push(full);
            assert(out@.drop_last() =~= before);
        }
    }
    let ghost before = out@;
    if current.len() > 0 {
        out.push(current);
        assert(out@.drop_last() =~= before);
    }
    assert(all.take(candidates@.len() as int) =~= all);
    out
}

/// The version returned last under the hash `key`.
pub open spec fn last_version(versions: Seq<(String, ModrinthVersion)>, key: Seq<char>) -> Option<
    ModrinthVersion,
>
    decreases versions.len(),
{
    if versions.len() == 0 {
        None
    } else if versions.last().0@ == key {
        Some(versions.last().1)
    } else {
        last_version(versions.drop_last(), key)
    }
}

/// Does a version's file match the candidate: same size, and a listed SHA-1
/// equal to the candidate's without ASCII case?
pub open spec fn file_matches(f: ModrinthFile, c: Sha1Candidate) -> bool {
    &&& f.size == c.len
    &&& f.sha1 matches Some(h) && eq_ignore_case(h@, c.sha1@)
}

/// The first file of `files` that matches the candidate.
pub open spec fn first_match(files: Seq<ModrinthFile>, c: Sha1Candidate) -> Option<ModrinthFile>
    decreases files.len(),
{
    if files.len() == 0 {
        None
    } else if file_matches(files[0], c) {
        Some(files[0])
    } else {
        first_match(files.drop_first(), c)
    }
}

/// The source Modrinth gives a candidate: the first matching file of the
/// version returned for its hash.
pub open spec fn modrinth_source_of(
    c: Sha1Candidate,
    versions: Seq<(String, ModrinthVersion)>,
    config: ModrinthConfig,
) -> Option<(Seq<char>, Seq<char>, bool)> {
    match last_version(versions, c.sha1@) {
        Some(v) => match first_match(v.files@, c) {
            Some(f) => Some(("modrinth"@, f.url@, config.fallback_to_mcpatch)),
            None => None,
        },
        None => None,
    }
}

/// The `(path, source)` pairs for the candidates that Modrinth resolves, in
/// the candidates' order.
pub open spec fn modrinth_pairs(
    candidates: Seq<Sha1Candidate>,
    versions: Seq<(String, ModrinthVersion)>,
    config: ModrinthConfig,
) -> Seq<(Seq<char>, (Seq<char>, Seq<char>, bool))>
    decreases candidates.len(),
{
    if candidates.len() == 0 {
        Seq::empty()
    } else {
        let rest = modrinth_pairs(candidates.drop_last(), versions, config);
        match modrinth_source_of(candidates.last(), versions, config) {
            Some(v) => rest.push((candidates.last().path@, v)),
            None => rest,
        }
    }
}

fn find_last_version(versions: &Vec<(String, ModrinthVersion)>, key: &String) -> (r: Option<usize>)
    ensures
        match last_version(versions@, key@) {
            Some(v) => r matches Some(i) && i < versions@.len() && versions@[i as int].1 == v,
            None => r is None,
        },
{
    let mut i = versions.len();
    assert(versions@.take(i as int) =~= versions@);
    while i > 0
        invariant
            i <= versions@.len(),
            last_version(versions@, key@) == last_version(versions@.take(i as int), key@),
        decreases i,
    {
        assert(versions@.take(i as int).drop_last() =~= versions@.take(i - 1));
        if str_eq(versions[i - 1].0.as_str(), key.as_str()) {
            return Some(i - 1);
        }
        i = i - 1;
    }
    None
}

fn find_first_match(files: &Vec<ModrinthFile>, c: &Sha1Candidate) -> (r: Option<usize>)
    ensures
        match first_match(files@, *c) {
            Some(f) => r matches Some(i) && i < files@.len() && files@[i as int] == f,
            None => r is None,
        },
{
    let ghost all = files@;
    assert(all.skip(0) =~= all);
    for i in 0..files.len()
        invariant
            all == files@,
            first_match(all, *c) == first_match(all.skip(i as int), *c),
    {
        assert(all.skip(i as int).drop_first() =~= all.skip(i + 1));
        assert(all.skip(i as int)[0] == all[i as int]);
        let f = &files[i];
        let ok = f.size == c.len && match &f.sha1 {
            Some(h) => str_eq_ignore_case(h.as_str(), c.sha1.as_str()),
            None => false,
        };
        if ok {
            return Some(i);
        }
    }
    assert(all.skip(all.len() as int) =~= Seq::<ModrinthFile>::empty());
    None
}

/// The sources Modrinth gives the candidates, from the versions that the
/// lookups returned, in the order they were returned.
pub fn modrinth_sources(
    candidates: &Vec<Sha1Candidate>,
    versions: &Vec<(String, ModrinthVersion)>,
    config: &ModrinthConfig,
) -> (r: Vec<(String, ExternalSource)>)
    ensures
        r@.map_values(|p: (String, ExternalSource)| (p.0@, source_view(p.1))) == modrinth_pairs(
            candidates@,
            versions@,
            *config,
        ),
{
    let mut out: Vec<(String, ExternalSource)> = Vec::new();
    for i in 0..candidates.len()
        invariant
            out@.map_values(|p: (String, ExternalSource)| (p.0@, source_view(p.1))) == modrinth_pairs(
                candidates@.take(i as int),
                versions@,
                *config,
            ),
    {
        assert(candidates@.take(i + 1).drop_last() =~= candidates@.take(i as int));
        let c = &candidates[i];
        match find_last_version(versions, &c.sha1) {
            Some(k) => {
                match find_first_match(&versions[k].1.files, c) {
                    Some(j) => {
                        let f = &versions[k].1.files[j];
                        let source = ExternalSource {
                            provider: "modrinth".to_owned(),
                            url: copy_string(&f.url),
                            fallback_to_mcpatch: config.fallback_to_mcpatch,
                        };
                        let ghost before = out@;
                        out.push((copy_string(&c.path), source));
                        assert(out@.map_values(|p: (String, ExternalSource)| (p.0@, source_view(p.1)))
                            =~= before.map_values(|p: (String, ExternalSource)| (p.0@, source_view(p.1))).push(
                            (c.path@, ("modrinth"@, f.url@, config.fallback_to_mcpatch)),
                        ));
                    },
                    None => {},
                }
            },
            None => {},
        }
    }
    assert(candidates@.take(candidates@.len() as int) =~= candidates@);
    out
}

proof fn lemma_modrinth_pairs_paths(
    candidates: Seq<Sha1Candidate>,
    versions: Seq<(String, ModrinthVersion)>,
    config: ModrinthConfig,
)
    ensures
        forall|j: int|
            0 <= j < modrinth_pairs(candidates, versions, config).len() ==> candidates.map_values(
                |c: Sha1Candidate| c.path@,
            ).contains(#[trigger] modrinth_pairs(candidates, versions, config)[j].0),
    decreases candidates.len(),
{
    if candidates.len() > 0 {
        let init = candidates.drop_last();
        lemma_modrinth_pairs_paths(init, versions, config);
        let all = candidates.map_values(|c: Sha1Candidate| c.path@);
        let some = init.map_values(|c: Sha1Candidate| c.path@);
        let ps = modrinth_pairs(candidates, versions, config);
        let rest = modrinth_pairs(init, versions, config);
        assert forall|j: int| 0 <= j < ps.len() implies all.contains(#[trigger] ps[j].0) by {
            if j < rest.len() {
                assert(ps[j] == rest[j]);
                let i = choose|i: int| 0 <= i < some.len() && some[i] == rest[j].0;
                assert(all[i] == some[i]);
            } else {
                assert(ps[j].0 == candidates.last().path@);
                assert(all[candidates.len() - 1] == candidates.last().path@);
            }
        }
    }
}

/// Attaches the sources that Modrinth gives to the files of a pack.
/// `candidates` are the files asked about (their positions given by
/// `candidate_indices`), and `lookup` is what the lookups of their hashes
/// returned, or the error that stopped them; the lookups are made only when
/// Modrinth is enabled and there is a candidate, and `lookup` is not read
/// otherwise. Nothing changes when Modrinth is disabled, when there is no
/// candidate, or when a lookup failed; otherwise each resolved source is
/// attached. Only the sources of files written at a candidate's path change.
pub fn attach_modrinth_sources(
    changes: &mut Vec<FileChange>,
    config: &ModrinthConfig,
    candidates: &Vec<Sha1Candidate>,
    lookup: Result<Vec<(String, ModrinthVersion)>, String>,
) -> (r: Result<usize, String>)
    ensures
        !config.enabled || candidates@.len() == 0 ==> r == Ok::<usize, String>(0) && final(changes)@
            == old(changes)@,
        config.enabled && candidates@.len() > 0 ==> match lookup {
            Err(e) => r == Err::<usize, String>(e) && final(changes)@ == old(changes)@,
            Ok(versions) => exists|pairs: Seq<(String, ExternalSource)>|
                {
                    &&& pairs.map_values(|p: (String, ExternalSource)| (p.0@, source_view(p.1)))
                        == modrinth_pairs(candidates@, versions@, *config)
                    &&& final(changes)@ == #[trigger] attached(old(changes)@, pairs)
                    &&& r matches Ok(n) && n == receivers(old(changes)@, pairs, old(changes)@.len() as int)
                },
        },
        changed_only_at(old(changes)@, final(changes)@, candidates@.map_values(|c: Sha1Candidate| c.path@)),
{
    if !config.enabled || candidates.len() == 0 {
        return Ok(0);
    }
    let versions = match lookup {
        Ok(v) => v,
        Err(e) => return Err(e),
    };
    let pairs = modrinth_sources(candidates, &versions, config);
    proof {
        lemma_modrinth_pairs_paths(candidates@, versions@, *config);
        let paths = candidates@.map_values(|c: Sha1Candidate| c.path@);
        let views = pairs@.map_values(|p: (String, ExternalSource)| (p.0@, source_view(p.1)));
        assert forall|j: int| 0 <= j < pairs@.len() implies paths.contains(#[trigger] pairs@[j].0@) by {
            assert(views[j].0 == pairs@[j].0@);
        }
        lemma_attached_changes_only(changes@, pairs@, paths);
    }
    let n = attach_sources(changes, &pairs);
    Ok(n)
}

} // verus!
