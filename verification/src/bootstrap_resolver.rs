//! The manager's side of modpack initialization: it checks the client's list
//! of candidate mod jars and reports which ones an external CDN serves.
use vstd::prelude::*;

use crate::text::{
    all_hex, chars_all_hex, chars_contains, chars_ends_with, chars_of, chars_starts_with,
    contains_seq, dec, decimal, ends_with, push_str, slash_chars, slash_seq, starts_with,
};
use crate::curseforge::{curseforge_pairs, curseforge_sources, CurseForgeConfig, CurseForgeFile, FingerprintCandidate};
use crate::external_sources::{file_path, source_for_path, source_view};
use crate::modrinth::{modrinth_pairs, modrinth_sources, ModrinthConfig, ModrinthVersion, Sha1Candidate};
use crate::text::{copy_string, trim, trim_chars};
use crate::version_meta::ExternalSource;

verus! {

/// The most candidates one request may list.
pub const MAX_FILES: usize = 2000;

/// The client's list of candidate files.
#[derive(Clone, Debug)]
pub struct BootstrapResolveRequest {
    pub schema: u32,
    pub files: Vec<BootstrapCandidate>,
}

/// A candidate file with the fingerprints the CDNs index.
#[derive(Clone, Debug)]
pub struct BootstrapCandidate {
    pub path: String,
    pub length: u64,
    pub sha256: String,
    pub sha1: String,
    pub curseforge_fingerprint: u32,
}

/// Which candidates a CDN serves, and which it does not.
#[derive(Clone, Debug)]
pub struct BootstrapResolveResponse {
    pub schema: u32,
    pub files: Vec<BootstrapResolvedFile>,
    pub unmatched: Vec<String>,
}

/// A candidate together with its CDN location.
#[derive(Clone, Debug)]
pub struct BootstrapResolvedFile {
    pub path: String,
    pub length: u64,
    pub sha256: String,
    pub external_source: ExternalSource,
}

/// A candidate path under `.minecraft/mods/`, ending in `.jar`, without `/../` or `//`.
pub open spec fn candidate_path_ok(path: Seq<char>) -> bool {
    let n = slash_seq(path);
    starts_with(n, ".minecraft/mods/"@) && ends_with(n, ".jar"@) && !contains_seq(n, "/../"@)
        && !contains_seq(n, "//"@)
}

/// A candidate with a length, a SHA-1 and a SHA-256 in hexadecimal.
pub open spec fn candidate_fingerprint_ok(c: BootstrapCandidate) -> bool {
    c.length != 0 && c.sha1@.len() == 40 && all_hex(c.sha1@) && c.sha256@.len() == 64 && all_hex(
        c.sha256@,
    )
}

pub open spec fn candidates_error(files: Seq<BootstrapCandidate>) -> Option<Seq<char>>
    decreases files.len(),
{
    if files.len() == 0 {
        None
    } else {
        match candidates_error(files.drop_last()) {
            Some(e) => Some(e),
            None => {
                let f = files.last();
                if !candidate_path_ok(f.path@) {
                    Some("unsafe bootstrap candidate path: "@ + f.path@)
                } else if !candidate_fingerprint_ok(f) {
                    Some("invalid bootstrap candidate fingerprint: "@ + f.path@)
                } else {
                    None
                }
            },
        }
    }
}

/// Why a request is refused, if it is.
pub open spec fn request_error(r: BootstrapResolveRequest) -> Option<Seq<char>> {
    if r.schema != 1 {
        Some("unsupported bootstrap resolver schema: "@ + dec(r.schema as nat))
    } else if r.files@.len() > MAX_FILES {
        Some("too many bootstrap candidates: "@ + dec(r.files@.len()) + " > 2000"@)
    } else {
        candidates_error(r.files@)
    }
}

proof fn lemma_candidates_error_prefix(files: Seq<BootstrapCandidate>, m: int)
    requires
        0 <= m <= files.len(),
        candidates_error(files.take(m)) is Some,
    ensures
        candidates_error(files) == candidates_error(files.take(m)),
    decreases files.len(),
{
    if m < files.len() {
        assert(files.drop_last().take(m) =~= files.take(m));
        lemma_candidates_error_prefix(files.drop_last(), m);
    } else {
        assert(files.take(m) =~= files);
    }
}

fn candidate_path_valid(path: &str) -> (r: bool)
    ensures
        r == candidate_path_ok(path@),
{
    let n = slash_chars(&chars_of(path));
    chars_starts_with(&n, &chars_of(".minecraft/mods/")) && chars_ends_with(&n, &chars_of(".jar"))
        && !chars_contains(&n, &chars_of("/../")) && !chars_contains(&n, &chars_of("//"))
}

fn candidate_fingerprint_valid(c: &BootstrapCandidate) -> (r: bool)
    ensures
        r == candidate_fingerprint_ok(*c),
{
    let sha1 = chars_of(c.sha1.as_str());
    let sha256 = chars_of(c.sha256.as_str());
    c.length != 0 && sha1.len() == 40 && chars_all_hex(&sha1) && sha256.len() == 64
        && chars_all_hex(&sha256)
}

/// Checks a resolve request: its version, its size, and every candidate.
pub fn validate_request(request: &BootstrapResolveRequest) -> (r: Result<(), String>)
    ensures
        match request_error(*request) {
            Some(e) => r is Err && r->Err_0@ == e,
            None => r is Ok,
        },
{
    if request.schema != 1 {
        let mut m = "unsupported bootstrap resolver schema: ".to_owned();
        push_str(&mut m, decimal(request.schema as u64).as_str());
        return Err(m);
    }
    if request.files.len() > MAX_FILES {
        let mut m = "too many bootstrap candidates: ".to_owned();
        push_str(&mut m, decimal(request.files.len() as u64).as_str());
        push_str(&mut m, " > 2000");
        return Err(m);
    }
    let files = &request.files;
    for i in 0..files.len()
        invariant
            request.schema == 1,
            request.files@.len() <= MAX_FILES,
            files@ == request.files@,
            candidates_error(files@.take(i as int)) is None,
    {
        let f = &files[i];
        assert(files@.take(i + 1).drop_last() =~= files@.take(i as int));
        assert(files@.take(i + 1).last() == *f);
        if !candidate_path_valid(f.path.as_str()) {
            proof {
                lemma_candidates_error_prefix(files@, i + 1);
            }
            let mut m = "unsafe bootstrap candidate path: ".to_owned();
            push_str(&mut m, f.path.as_str());
            return Err(m);
        }
        if !candidate_fingerprint_valid(f) {
            proof {
                lemma_candidates_error_prefix(files@, i + 1);
            }
            let mut m = "invalid bootstrap candidate fingerprint: ".to_owned();
            push_str(&mut m, f.path.as_str());
            return Err(m);
        }
    }
    assert(files@.take(files@.len() as int) =~= files@);
    Ok(())
}

// ---------------------------------------------------------------------------
// Resolving the candidates
// ---------------------------------------------------------------------------

/// How many hashes one Modrinth lookup carries at most.
pub const HASH_BATCH_SIZE: usize = 100;

/// Which lookups the manager's settings allow: Modrinth when enabled, and
/// CurseForge when enabled with an API key.
pub fn resolver_lookups(modrinth_enabled: bool, curseforge: &CurseForgeConfig) -> (r: (bool, bool))
    ensures
        r.0 == modrinth_enabled,
        r.1 == (curseforge.enabled && trim(curseforge.api_key@).len() > 0),
{
    let key = chars_of(curseforge.api_key.as_str());
    (modrinth_enabled, curseforge.enabled && trim_chars(&key).len() > 0)
}

/// A candidate as Modrinth is asked about it.
pub open spec fn as_sha1_candidate(c: BootstrapCandidate) -> Sha1Candidate {
    Sha1Candidate { path: c.path, len: c.length, sha1: c.sha1 }
}

/// A candidate as CurseForge is asked about it.
pub open spec fn as_fingerprint_candidate(c: BootstrapCandidate) -> FingerprintCandidate {
    FingerprintCandidate { path: c.path, len: c.length, fingerprint: c.curseforge_fingerprint }
}

/// The view of collected `(path, source)` pairs.
pub open spec fn pair_views(pairs: Seq<(String, ExternalSource)>) -> Seq<(Seq<char>, (Seq<char>, Seq<char>, bool))> {
    pairs.map_values(|p: (String, ExternalSource)| (p.0@, source_view(p.1)))
}

/// The sources Modrinth gives the candidates, from the versions its lookups
/// returned (in order); the client may not fall back to the pack here.
pub fn modrinth_resolution(
    candidates: &Vec<BootstrapCandidate>,
    versions: &Vec<(String, ModrinthVersion)>,
) -> (r: Vec<(String, ExternalSource)>)
    ensures
        pair_views(r@) == modrinth_pairs(
            candidates@.map_values(|c: BootstrapCandidate| as_sha1_candidate(c)),
            versions@,
            ModrinthConfig { enabled: true, fallback_to_mcpatch: false },
        ),
{
    let mut cs: Vec<Sha1Candidate> = Vec::new();
    for i in 0..candidates.len()
        invariant
            cs@ == candidates@.take(i as int).map_values(|c: BootstrapCandidate| as_sha1_candidate(c)),
    {
        let c = &candidates[i];
        cs.push(Sha1Candidate { path: copy_string(&c.path), len: c.length, sha1: copy_string(&c.sha1) });
        assert(candidates@.take(i + 1).map_values(|c: BootstrapCandidate| as_sha1_candidate(c))
            =~= cs@);
    }
    assert(candidates@.take(candidates@.len() as int) =~= candidates@);
    let config = ModrinthConfig { enabled: true, fallback_to_mcpatch: false };
    modrinth_sources(&cs, versions, &config)
}

/// The candidates still without a source after the pairs collected so far,
/// in order: those CurseForge is asked about.
pub fn unresolved_candidates(
    candidates: &Vec<BootstrapCandidate>,
    resolved: &Vec<(String, ExternalSource)>,
) -> (r: Vec<BootstrapCandidate>)
    ensures
        r@ == candidates@.filter(|c: BootstrapCandidate| source_for_path(resolved@, c.path@) is None),
{
    let mut out: Vec<BootstrapCandidate> = Vec::new();
    for i in 0..candidates.len()
        invariant
            out@ == candidates@.take(i as int).filter(
                |c: BootstrapCandidate| source_for_path(resolved@, c.path@) is None,
            ),
    {
        proof {
            assert(candidates@.take(i + 1) =~= candidates@.take(i as int).push(candidates@[i as int]));
            candidates@.take(i as int).lemma_filter_push(
                candidates@[i as int],
                |c: BootstrapCandidate| source_for_path(resolved@, c.path@) is None,
            );
        }
        let c = &candidates[i];
        if path_unresolved(resolved, &c.path) {
            out.push(
                BootstrapCandidate {
                    path: copy_string(&c.path),
                    length: c.length,
                    sha256: copy_string(&c.sha256),
                    sha1: copy_string(&c.sha1),
                    curseforge_fingerprint: c.curseforge_fingerprint,
                },
            );
        }
    }
    assert(candidates@.take(candidates@.len() as int) =~= candidates@);
    out
}

fn path_unresolved(pairs: &Vec<(String, ExternalSource)>, path: &String) -> (r: bool)
    ensures
        r == (source_for_path(pairs@, path@) is None),
{
    let mut i = pairs.len();
    assert(pairs@.take(i as int) =~= pairs@);
    while i > 0
        invariant
            i <= pairs@.len(),
            source_for_path(pairs@, path@) == source_for_path(pairs@.take(i as int), path@),
        decreases i,
    {
        assert(pairs@.take(i as int).drop_last() =~= pairs@.take(i - 1));
        if crate::text::str_eq(pairs[i - 1].0.as_str(), path.as_str()) {
            return false;
        }
        i = i - 1;
    }
    true
}

/// The sources CurseForge gives one batch of candidates, from the exact
/// matches returned for that batch; the client may not fall back here.
pub fn curseforge_batch_resolution(
    batch: &Vec<BootstrapCandidate>,
    files: &Vec<CurseForgeFile>,
    config: &CurseForgeConfig,
) -> (r: Vec<(String, ExternalSource)>)
    ensures
        pair_views(r@) == curseforge_pairs(
            batch@.map_values(|c: BootstrapCandidate| as_fingerprint_candidate(c)),
            files@,
            CurseForgeConfig { fallback_to_mcpatch: false, ..*config },
        ),
{
    let mut cs: Vec<FingerprintCandidate> = Vec::new();
    for i in 0..batch.len()
        invariant
            cs@ == batch@.take(i as int).map_values(|c: BootstrapCandidate| as_fingerprint_candidate(c)),
    {
        let c = &batch[i];
        cs.push(
            FingerprintCandidate {
                path: copy_string(&c.path),
                len: c.length,
                fingerprint: c.curseforge_fingerprint,
            },
        );
        assert(batch@.take(i + 1).map_values(|c: BootstrapCandidate| as_fingerprint_candidate(c))
            =~= cs@);
    }
    assert(batch@.take(batch@.len() as int) =~= batch@);
    let config = CurseForgeConfig {
        enabled: config.enabled,
        api_key: copy_string(&config.api_key),
        game_id: config.game_id,
        fallback_to_mcpatch: false,
        cdn_base_url: copy_string(&config.cdn_base_url),
    };
    curseforge_sources(&cs, files, &config)
}

/// Does candidate `i` take a source: one was collected for its path and no
/// earlier candidate has the same path?
pub open spec fn takes_source(
    candidates: Seq<BootstrapCandidate>,
    pairs: Seq<(String, ExternalSource)>,
    i: int,
) -> bool {
    &&& source_for_path(pairs, candidates[i].path@) is Some
    &&& forall|j: int| 0 <= j < i ==> (#[trigger] candidates[j]).path@ != candidates[i].path@
}

/// The candidates that take a source, in order.
pub open spec fn matched_positions(
    candidates: Seq<BootstrapCandidate>,
    pairs: Seq<(String, ExternalSource)>,
    n: int,
) -> Seq<int>
    decreases n,
{
    if n <= 0 {
        Seq::empty()
    } else if takes_source(candidates, pairs, n - 1) {
        matched_positions(candidates, pairs, n - 1).push(n - 1)
    } else {
        matched_positions(candidates, pairs, n - 1)
    }
}

/// The candidates that do not, in order.
pub open spec fn unmatched_positions(
    candidates: Seq<BootstrapCandidate>,
    pairs: Seq<(String, ExternalSource)>,
    n: int,
) -> Seq<int>
    decreases n,
{
    if n <= 0 {
        Seq::empty()
    } else if takes_source(candidates, pairs, n - 1) {
        unmatched_positions(candidates, pairs, n - 1)
    } else {
        unmatched_positions(candidates, pairs, n - 1).push(n - 1)
    }
}

/// The resolver's answer: each candidate that takes a collected source, with
/// it, and the paths of the others, both in the candidates' order.
pub fn resolve_response(
    candidates: &Vec<BootstrapCandidate>,
    pairs: &Vec<(String, ExternalSource)>,
) -> (r: BootstrapResolveResponse)
    ensures
        r.schema == 1,
        r.files@.len() == matched_positions(candidates@, pairs@, candidates@.len() as int).len(),
        forall|k: int|
            0 <= k < r.files@.len() ==> {
                let c = candidates@[matched_positions(candidates@, pairs@, candidates@.len() as int)[k]];
                &&& (#[trigger] r.files@[k]).path == c.path
                &&& r.files@[k].length == c.length
                &&& r.files@[k].sha256 == c.sha256
                &&& Some(r.files@[k].external_source) == source_for_path(pairs@, c.path@)
            },
        r.unmatched@.len() == unmatched_positions(candidates@, pairs@, candidates@.len() as int).len(),
        forall|k: int|
            0 <= k < r.unmatched@.len() ==> #[trigger] r.unmatched@[k] == candidates@[unmatched_positions(
                candidates@,
                pairs@,
                candidates@.len() as int,
            )[k]].path,
{
    let mut files: Vec<BootstrapResolvedFile> = Vec::new();
    let mut unmatched: Vec<String> = Vec::new();
    for i in 0..candidates.len()
        invariant
            files@.len() == matched_positions(candidates@, pairs@, i as int).len(),
            forall|k: int|
                0 <= k < files@.len() ==> {
                    let c = candidates@[matched_positions(candidates@, pairs@, i as int)[k]];
                    &&& (#[trigger] files@[k]).path == c.path
                    &&& files@[k].length == c.length
                    &&& files@[k].sha256 == c.sha256
                    &&& Some(files@[k].external_source) == source_for_path(pairs@, c.path@)
                },
            unmatched@.len() == unmatched_positions(candidates@, pairs@, i as int).len(),
            forall|k: int|
                0 <= k < unmatched@.len() ==> #[trigger] unmatched@[k] == candidates@[unmatched_positions(
                    candidates@,
                    pairs@,
                    i as int,
                )[k]].path,
    {
        let c = &candidates[i];
        let mut earlier = false;
        for j in 0..i
            invariant
                i < candidates@.len(),
                earlier == exists|q: int| 0 <= q < j && (#[trigger] candidates@[q]).path@ == candidates@[i as int].path@,
        {
            if crate::text::str_eq(candidates[j].path.as_str(), candidates[i].path.as_str()) {
                earlier = true;
            }
        }
        let found = crate::external_sources::find_source_pub(pairs, &c.path);
        match found {
            Some(source) => if !earlier {
                files.push(
                    BootstrapResolvedFile {
                        path: copy_string(&c.path),
                        length: c.length,
                        sha256: copy_string(&c.sha256),
                        external_source: source,
                    },
                );
            } else {
                unmatched.push(copy_string(&c.path));
            },
            None => {
                unmatched.push(copy_string(&c.path));
            },
        }
    }
    BootstrapResolveResponse { schema: 1, files, unmatched }
}

} // verus!
