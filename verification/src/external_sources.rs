//! Attaching external download sources to the files of a pack.
//!
//! Only client mod jars that have no source yet are looked up. A provider
//! answers for some of them; the answers are collected as `(path, source)`
//! pairs, a later pair for the same path replacing an earlier one, and each
//! path's source is then given to the first file written at that path.
use vstd::prelude::*;

use crate::curseforge::{client_mod_jar, is_client_mod_jar};
use crate::text::{copy_string, str_eq};
use crate::version_meta::{ExternalSource, FileChange};

verus! {

/// A source as the contracts compare it: provider, address, and whether the
/// client may fall back to the pack's own copy.
pub open spec fn source_view(s: ExternalSource) -> (Seq<char>, Seq<char>, bool) {
    (s.provider@, s.url@, s.fallback_to_mcpatch)
}

/// Is this change a file that a provider may be asked about?
pub open spec fn is_candidate(c: FileChange) -> bool {
    match c {
        FileChange::UpdateFile { path, external_source, .. } => external_source is None
            && client_mod_jar(path@),
        _ => false,
    }
}

/// The positions of the candidates among `changes`, in order.
pub open spec fn candidate_positions(changes: Seq<FileChange>) -> Seq<int>
    decreases changes.len(),
{
    if changes.len() == 0 {
        Seq::empty()
    } else if is_candidate(changes.last()) {
        candidate_positions(changes.drop_last()).push(changes.len() - 1)
    } else {
        candidate_positions(changes.drop_last())
    }
}

/// The positions of the files that a provider may be asked about: files
/// without a source whose path is a client mod jar.
pub fn candidate_indices(changes: &Vec<FileChange>) -> (r: Vec<usize>)
    ensures
        r@.len() == candidate_positions(changes@).len(),
        forall|k: int| 0 <= k < r@.len() ==> #[trigger] r@[k] as int == candidate_positions(changes@)[k],
{
    let mut out: Vec<usize> = Vec::new();
    for i in 0..changes.len()
        invariant
            out@.len() == candidate_positions(changes@.take(i as int)).len(),
            forall|k: int|
                0 <= k < out@.len() ==> #[trigger] out@[k] as int == candidate_positions(
                    changes@.take(i as int),
                )[k],
    {
        assert(changes@.take(i + 1).drop_last() =~= changes@.take(i as int));
        let take = match &changes[i] {
            FileChange::UpdateFile { path, external_source, .. } => external_source.is_none()
                && is_client_mod_jar(path.as_str()),
            _ => false,
        };
        if take {
            out.push(i);
        }
    }
    assert(changes@.take(changes@.len() as int) =~= changes@);
    out
}

/// The source collected for `path`: the last pair that names it.
pub open spec fn source_for_path(pairs: Seq<(String, ExternalSource)>, path: Seq<char>) -> Option<
    ExternalSource,
>
    decreases pairs.len(),
{
    if pairs.len() == 0 {
        None
    } else if pairs.last().0@ == path {
        Some(pairs.last().1)
    } else {
        source_for_path(pairs.drop_last(), path)
    }
}

/// The path a change writes a file at, if it writes one.
pub open spec fn file_path(c: FileChange) -> Option<Seq<char>> {
    match c {
        FileChange::UpdateFile { path, .. } => Some(path@),
        _ => None,
    }
}

/// Does change `i` receive a source: it writes a file at a path for which a
/// source was collected, and no earlier change writes a file there?
pub open spec fn receives_source(
    changes: Seq<FileChange>,
    pairs: Seq<(String, ExternalSource)>,
    i: int,
) -> bool {
    &&& file_path(changes[i]) matches Some(p)
    &&& source_for_path(pairs, p) is Some
    &&& forall|j: int| 0 <= j < i ==> file_path(#[trigger] changes[j]) != Some(p)
}

/// Change `c` with its external source replaced by `s`.
pub open spec fn with_source(c: FileChange, s: ExternalSource) -> FileChange {
    match c {
        FileChange::UpdateFile { path, hash, len, modified, offset, .. } => FileChange::UpdateFile {
            path,
            hash,
            len,
            modified,
            offset,
            external_source: Some(s),
        },
        _ => c,
    }
}

/// What attaching the collected sources makes of `changes`.
pub open spec fn attached(changes: Seq<FileChange>, pairs: Seq<(String, ExternalSource)>) -> Seq<
    FileChange,
> {
    Seq::new(
        changes.len(),
        |i: int|
            if receives_source(changes, pairs, i) {
                with_source(changes[i], source_for_path(pairs, file_path(changes[i])->Some_0)->Some_0)
            } else {
                changes[i]
            },
    )
}

/// How many changes receive a source among the first `n`.
pub open spec fn receivers(changes: Seq<FileChange>, pairs: Seq<(String, ExternalSource)>, n: int) -> nat
    decreases n,
{
    if n <= 0 {
        0
    } else if receives_source(changes, pairs, n - 1) {
        receivers(changes, pairs, n - 1) + 1
    } else {
        receivers(changes, pairs, n - 1)
    }
}

pub(crate) fn find_source_pub(pairs: &Vec<(String, ExternalSource)>, path: &String) -> (r: Option<ExternalSource>)
    ensures
        r == source_for_path(pairs@, path@),
{
    find_source(pairs, path)
}

fn find_source(pairs: &Vec<(String, ExternalSource)>, path: &String) -> (r: Option<ExternalSource>)
    ensures
        r == source_for_path(pairs@, path@),
{
    let mut i = pairs.len();
    assert(pairs@.take(i as int) =~= pairs@);
    while i > 0
        invariant
            i <= pairs@.len(),
            source_for_path(pairs@, path@) == source_for_path(pairs@.take(i as int), path@),
        decreases i,
    {
        assert(pairs@.take(i as int).drop_last() =~= pairs@.take(i - 1));
        if str_eq(pairs[i - 1].0.as_str(), path.as_str()) {
            return Some(pairs[i - 1].1.duplicate());
        }
        i = i - 1;
    }
    None
}

fn writes_file_before(changes: &Vec<FileChange>, i: usize, path: &String) -> (r: bool)
    requires
        i <= changes@.len(),
    ensures
        r == exists|j: int| 0 <= j < i && file_path(#[trigger] changes@[j]) == Some(path@),
{
    for j in 0..i
        invariant
            i <= changes@.len(),
            forall|k: int| 0 <= k < j ==> file_path(#[trigger] changes@[k]) != Some(path@),
    {
        match &changes[j] {
            FileChange::UpdateFile { path: p, .. } => {
                if str_eq(p.as_str(), path.as_str()) {
                    return true;
                }
            },
            _ => {},
        }
    }
    false
}

/// Gives each collected source to the first file written at its path and
/// returns how many files received one.
pub fn attach_sources(changes: &mut Vec<FileChange>, pairs: &Vec<(String, ExternalSource)>) -> (r:
    usize)
    ensures
        final(changes)@ == attached(old(changes)@, pairs@),
        r == receivers(old(changes)@, pairs@, old(changes)@.len() as int),
{
    let ghost start = changes@;
    let n = changes.len();
    let mut count: usize = 0;
    for i in 0..n
        invariant
            n == start.len(),
            changes@.len() == n,
            count == receivers(start, pairs@, i as int),
            count <= i,
            forall|k: int| 0 <= k < i ==> #[trigger] changes@[k] == attached(start, pairs@)[k],
            forall|k: int| i <= k < n ==> #[trigger] changes@[k] == start[k],
    {
        let target = match &changes[i] {
            FileChange::UpdateFile { path, .. } => Some(copy_string(path)),
            _ => None,
        };
        match target {
            Some(path) => {
                assert(forall|k: int| 0 <= k < i ==> file_path(#[trigger] changes@[k]) == file_path(start[k])) by {
                    assert forall|k: int| 0 <= k < i implies file_path(#[trigger] changes@[k]) == file_path(start[k]) by {
                        assert(changes@[k] == attached(start, pairs@)[k]);
                    }
                }
                let earlier = writes_file_before(changes, i, &path);
                let found = find_source(pairs, &path);
                proof {
                    assert(file_path(start[i as int]) == Some(path@));
                    if earlier {
                        let j = choose|j: int| 0 <= j < i && file_path(#[trigger] changes@[j]) == Some(path@);
                        assert(file_path(start[j]) == Some(path@));
                    } else {
                        assert forall|j: int| 0 <= j < i implies file_path(#[trigger] start[j]) != Some(
                            path@,
                        ) by {
                            assert(file_path(changes@[j]) == file_path(start[j]));
                        }
                    }
                    assert(receives_source(start, pairs@, i as int) == (!earlier && found is Some));
                }
                if !earlier {
                    match found {
                        Some(source) => {
                            let updated = match &changes[i] {
                                FileChange::UpdateFile { path, hash, len, modified, offset, .. } => Some(
                                    FileChange::UpdateFile {
                                        path: copy_string(path),
                                        hash: copy_string(hash),
                                        len: *len,
                                        modified: *modified,
                                        offset: *offset,
                                        external_source: Some(source),
                                    },
                                ),
                                _ => None,
                            };
                            match updated {
                                Some(u) => {
                                    changes.set(i, u);
                                    count = count + 1;
                                },
                                None => {},
                            }
                        },
                        None => {},
                    }
                }
            },
            None => {},
        }
    }
    assert(changes@ =~= attached(start, pairs@));
    count
}

/// `new` is `old` with at most the sources of some files replaced, and only
/// of files written at one of `paths`.
pub open spec fn changed_only_at(old: Seq<FileChange>, new: Seq<FileChange>, paths: Seq<Seq<char>>) -> bool {
    &&& new.len() == old.len()
    &&& forall|k: int|
        0 <= k < old.len() ==> #[trigger] new[k] == old[k] || {
            &&& file_path(old[k]) matches Some(p)
            &&& paths.contains(p)
            &&& exists|s: ExternalSource| new[k] == with_source(old[k], s)
        }
}

proof fn lemma_source_named(pairs: Seq<(String, ExternalSource)>, path: Seq<char>)
    requires
        source_for_path(pairs, path) is Some,
    ensures
        exists|j: int| 0 <= j < pairs.len() && (#[trigger] pairs[j]).0@ == path,
    decreases pairs.len(),
{
    if pairs.last().0@ != path {
        lemma_source_named(pairs.drop_last(), path);
        let j = choose|j: int| 0 <= j < pairs.len() - 1 && (#[trigger] pairs.drop_last()[j]).0@ == path;
        assert(pairs[j] == pairs.drop_last()[j]);
    } else {
        assert(pairs[pairs.len() - 1] == pairs.last());
    }
}

/// Attaching sources changes nothing but the sources of files written at a
/// path that some pair names.
pub proof fn lemma_attached_changes_only(
    changes: Seq<FileChange>,
    pairs: Seq<(String, ExternalSource)>,
    paths: Seq<Seq<char>>,
)
    requires
        forall|j: int| 0 <= j < pairs.len() ==> paths.contains(#[trigger] pairs[j].0@),
    ensures
        changed_only_at(changes, attached(changes, pairs), paths),
{
    let new = attached(changes, pairs);
    assert forall|k: int| 0 <= k < changes.len() implies #[trigger] new[k] == changes[k] || {
        &&& file_path(changes[k]) matches Some(p)
        &&& paths.contains(p)
        &&& exists|s: ExternalSource| new[k] == with_source(changes[k], s)
    } by {
        if receives_source(changes, pairs, k) {
            let p = file_path(changes[k])->Some_0;
            lemma_source_named(pairs, p);
            let j = choose|j: int| 0 <= j < pairs.len() && (#[trigger] pairs[j]).0@ == p;
            assert(paths.contains(pairs[j].0@));
            let s = source_for_path(pairs, p)->Some_0;
            assert(new[k] == with_source(changes[k], s));
        }
    }
}

} // verus!
