//! Combining every published version into one archive.
//!
//! The combined archive holds, for each client path that the history still
//! has, the content from the version that last wrote it; the index keeps one
//! entry per version, all pointing at the combined archive, with the digest
//! and size of the archive each version was first published in.
use vstd::prelude::*;

use crate::text::{copy_string, str_eq};
use crate::version_meta::{FileChange, VersionMeta};

verus! {

/// The file name of the combined archive.
pub const COMBINED_FILENAME: &'static str = "combined.tar";

/// The digest recorded for an archive whose digest was not computed.
pub const NO_HASH: &'static str = "no hash";

/// One entry of the version index.
#[derive(Clone, Debug)]
pub struct VersionIndex {
    pub label: String,
    pub filename: String,
    pub offset: u64,
    pub len: u64,
    pub hash: String,
    pub archive_size: Option<u64>,
}

/// Where the content of a client path lies in the published archives.
#[derive(Clone, Debug)]
pub struct Location {
    /// The version that wrote it.
    pub label: String,
    /// The archive of that version.
    pub filename: String,
    /// The path it was written at, whatever moves followed.
    pub path: String,
    pub offset: u64,
    pub len: u64,
}

// ---------------------------------------------------------------------------
// Which archives are combined
// ---------------------------------------------------------------------------

/// The positions of the index entries whose archive is not the combined one,
/// in order.
pub open spec fn separate_positions(index: Seq<VersionIndex>) -> Seq<usize>
    decreases index.len(),
{
    if index.len() == 0 {
        Seq::empty()
    } else if index.last().filename@ == COMBINED_FILENAME@ {
        separate_positions(index.drop_last())
    } else {
        separate_positions(index.drop_last()).push((index.len() - 1) as usize)
    }
}

/// The index entries whose archive is still separate; combining is refused
/// when there is none.
pub fn versions_to_combine(index: &Vec<VersionIndex>) -> (r: Vec<usize>)
    ensures
        r@ == separate_positions(index@),
{
    let mut out: Vec<usize> = Vec::new();
    for i in 0..index.len()
        invariant
            out@ == separate_positions(index@.take(i as int)),
    {
        assert(index@.take(i + 1).drop_last() =~= index@.take(i as int));
        if !str_eq(index[i].filename.as_str(), COMBINED_FILENAME) {
            out.push(i);
        }
    }
    assert(index@.take(index@.len() as int) =~= index@);
    out
}

// ---------------------------------------------------------------------------
// Archive digests and sizes
// ---------------------------------------------------------------------------

/// Does an earlier entry than `i` name the same archive?
pub open spec fn archive_seen_before(index: Seq<VersionIndex>, i: int) -> bool {
    exists|j: int| 0 <= j < i && (#[trigger] index[j]).filename@ == index[i].filename@
}

/// The archives of the index, each once, in the order they first appear.
pub open spec fn distinct_archives(index: Seq<VersionIndex>) -> Seq<Seq<char>>
    decreases index.len(),
{
    if index.len() == 0 {
        Seq::empty()
    } else if archive_seen_before(index, index.len() - 1) {
        distinct_archives(index.drop_last())
    } else {
        distinct_archives(index.drop_last()).push(index.last().filename@)
    }
}

proof fn lemma_seen_prefix(index: Seq<VersionIndex>, n: int, i: int)
    requires
        0 <= i < n <= index.len(),
    ensures
        archive_seen_before(index.take(n), i) == archive_seen_before(index, i),
{
    if archive_seen_before(index, i) {
        let j = choose|j: int| 0 <= j < i && (#[trigger] index[j]).filename@ == index[i].filename@;
        assert(index.take(n)[j] == index[j]);
    }
    if archive_seen_before(index.take(n), i) {
        let j = choose|j: int|
            0 <= j < i && (#[trigger] index.take(n)[j]).filename@ == index.take(n)[i].filename@;
        assert(index.take(n)[j] == index[j]);
    }
}

/// The archives named by the index, each once, in the order they first
/// appear: the archives whose digest and size are measured.
pub fn archive_names(index: &Vec<VersionIndex>) -> (r: Vec<String>)
    ensures
        r@.map_values(|s: String| s@) == distinct_archives(index@),
{
    let mut out: Vec<String> = Vec::new();
    for i in 0..index.len()
        invariant
            out@.map_values(|s: String| s@) == distinct_archives(index@.take(i as int)),
    {
        assert(index@.take(i + 1).drop_last() =~= index@.take(i as int));
        proof {
            lemma_seen_prefix(index@, i + 1, i as int);
        }
        let mut seen = false;
        for j in 0..i
            invariant
                i < index@.len(),
                seen == exists|k: int| 0 <= k < j && (#[trigger] index@[k]).filename@ == index@[i as int].filename@,
        {
            if str_eq(index[j].filename.as_str(), index[i].filename.as_str()) {
                seen = true;
            }
        }
        assert(seen == archive_seen_before(index@.take(i + 1), i as int)) by {
            assert forall|k: int| 0 <= k < i implies index@.take(i + 1)[k] == index@[k] by {}
        }
        if !seen {
            let ghost before = out@;
            out.push(copy_string(&index[i].filename));
            assert(out@.map_values(|s: String| s@) =~= before.map_values(|s: String| s@).push(
                index@[i as int].filename@,
            ));
        }
    }
    assert(index@.take(index@.len() as int) =~= index@);
    out
}

/// The digest recorded for `archive` by the entries before `n`: the last one
/// that is not `NO_HASH`, else the measured one.
pub open spec fn recorded_hash(index: Seq<VersionIndex>, archive: Seq<char>, measured: Seq<char>, n: int) -> Seq<char>
    decreases n,
{
    if n <= 0 {
        measured
    } else if index[n - 1].filename@ == archive && index[n - 1].hash@ != NO_HASH@ {
        index[n - 1].hash@
    } else {
        recorded_hash(index, archive, measured, n - 1)
    }
}

/// The size recorded for `archive` by the entries before `n`: the last one
/// given, else the measured one.
pub open spec fn recorded_size(index: Seq<VersionIndex>, archive: Seq<char>, measured: u64, n: int) -> u64
    decreases n,
{
    if n <= 0 {
        measured
    } else if index[n - 1].filename@ == archive && index[n - 1].archive_size is Some {
        index[n - 1].archive_size->Some_0
    } else {
        recorded_size(index, archive, measured, n - 1)
    }
}

/// The digest and size of each archive: those the index records, the last
/// recorded one winning, else those measured (`measured[k]` for the archive
/// `archives[k]`).
pub fn archive_facts(
    index: &Vec<VersionIndex>,
    archives: &Vec<String>,
    measured: &Vec<(String, u64)>,
) -> (r: Vec<(String, u64)>)
    requires
        measured@.len() == archives@.len(),
    ensures
        r@.len() == archives@.len(),
        forall|k: int|
            0 <= k < archives@.len() ==> {
                &&& (#[trigger] r@[k]).0@ == recorded_hash(
                    index@,
                    archives@[k]@,
                    measured@[k].0@,
                    index@.len() as int,
                )
                &&& r@[k].1 == recorded_size(index@, archives@[k]@, measured@[k].1, index@.len() as int)
            },
{
    let mut out: Vec<(String, u64)> = Vec::new();
    for k in 0..archives.len()
        invariant
            measured@.len() == archives@.len(),
            out@.len() == k,
            forall|q: int|
                0 <= q < k ==> {
                    &&& (#[trigger] out@[q]).0@ == recorded_hash(
                        index@,
                        archives@[q]@,
                        measured@[q].0@,
                        index@.len() as int,
                    )
                    &&& out@[q].1 == recorded_size(index@, archives@[q]@, measured@[q].1, index@.len() as int)
                },
    {
        let mut hash = copy_string(&measured[k].0);
        let mut size = measured[k].1;
        for i in 0..index.len()
            invariant
                k < archives@.len(),
                measured@.len() == archives@.len(),
                hash@ == recorded_hash(index@, archives@[k as int]@, measured@[k as int].0@, i as int),
                size == recorded_size(index@, archives@[k as int]@, measured@[k as int].1, i as int),
        {
            let e = &index[i];
            if str_eq(e.filename.as_str(), archives[k].as_str()) {
                if !str_eq(e.hash.as_str(), NO_HASH) {
                    hash = copy_string(&e.hash);
                }
                match e.archive_size {
                    Some(s) => {
                        size = s;
                    },
                    None => {},
                }
            }
        }
        out.push((hash, size));
    }
    out
}

/// The digest and size recorded for `archive` among the facts.
pub open spec fn facts_for(archives: Seq<String>, facts: Seq<(String, u64)>, archive: Seq<char>) -> Option<
    (String, u64),
>
    decreases archives.len(),
{
    if archives.len() == 0 || facts.len() != archives.len() {
        None
    } else if archives.last()@ == archive {
        Some(facts.last())
    } else {
        facts_for(archives.drop_last(), facts.drop_last(), archive)
    }
}

/// The entry for version `e` in the combined index.
pub open spec fn combined_entry_ok(
    out: VersionIndex,
    e: VersionIndex,
    facts: (String, u64),
    offset: u64,
    len: u64,
) -> bool {
    &&& out.label == e.label
    &&& out.filename@ == COMBINED_FILENAME@
    &&& out.offset == offset
    &&& out.len == len
    &&& out.hash@ == if e.hash@ == NO_HASH@ {
        facts.0@
    } else {
        e.hash@
    }
    &&& out.archive_size == Some(
        match e.archive_size {
            Some(s) => s,
            None => facts.1,
        },
    )
}

fn find_facts(archives: &Vec<String>, facts: &Vec<(String, u64)>, archive: &String) -> (r: Option<usize>)
    requires
        facts@.len() == archives@.len(),
    ensures
        match facts_for(archives@, facts@, archive@) {
            Some(f) => r matches Some(i) && i < facts@.len() && facts@[i as int] == f,
            None => r is None,
        },
{
    let mut i = archives.len();
    assert(archives@.take(i as int) =~= archives@);
    assert(facts@.take(i as int) =~= facts@);
    while i > 0
        invariant
            i <= archives@.len(),
            facts@.len() == archives@.len(),
            facts_for(archives@, facts@, archive@) == facts_for(
                archives@.take(i as int),
                facts@.take(i as int),
                archive@,
            ),
        decreases i,
    {
        assert(archives@.take(i as int).drop_last() =~= archives@.take(i - 1));
        assert(facts@.take(i as int).drop_last() =~= facts@.take(i - 1));
        if str_eq(archives[i - 1].as_str(), archive.as_str()) {
            return Some(i - 1);
        }
        i = i - 1;
    }
    None
}

/// The index after combining: every version, in order, pointing at the
/// metadata of the combined archive (`offset`, `len`), with the digest and
/// size of the archive it was published in. `None` when an entry names an
/// archive without facts.
pub fn combined_index(
    index: &Vec<VersionIndex>,
    archives: &Vec<String>,
    facts: &Vec<(String, u64)>,
    offset: u64,
    len: u64,
) -> (r: Option<Vec<VersionIndex>>)
    requires
        facts@.len() == archives@.len(),
    ensures
        (forall|i: int| 0 <= i < index@.len() ==> #[trigger] facts_for(archives@, facts@, index@[i].filename@) is Some)
            ==> (r matches Some(out) && out@.len() == index@.len() && forall|i: int|
            0 <= i < index@.len() ==> combined_entry_ok(
                #[trigger] out@[i],
                index@[i],
                facts_for(archives@, facts@, index@[i].filename@)->Some_0,
                offset,
                len,
            )),
        !(forall|i: int| 0 <= i < index@.len() ==> #[trigger] facts_for(archives@, facts@, index@[i].filename@) is Some)
            ==> r is None,
{
    let mut out: Vec<VersionIndex> = Vec::new();
    for i in 0..index.len()
        invariant
            facts@.len() == archives@.len(),
            out@.len() == i,
            forall|k: int| 0 <= k < i ==> #[trigger] facts_for(archives@, facts@, index@[k].filename@) is Some,
            forall|k: int|
                0 <= k < i ==> combined_entry_ok(
                    #[trigger] out@[k],
                    index@[k],
                    facts_for(archives@, facts@, index@[k].filename@)->Some_0,
                    offset,
                    len,
                ),
    {
        let e = &index[i];
        let f = match find_facts(archives, facts, &e.filename) {
            Some(f) => f,
            None => {
                return None;
            },
        };
        let hash = if str_eq(e.hash.as_str(), NO_HASH) {
            copy_string(&facts[f].0)
        } else {
            copy_string(&e.hash)
        };
        let size = match e.archive_size {
            Some(s) => s,
            None => facts[f].1,
        };
        out.push(
            VersionIndex {
                label: copy_string(&e.label),
                filename: COMBINED_FILENAME.to_owned(),
                offset,
                len,
                hash,
                archive_size: Some(size),
            },
        );
    }
    Some(out)
}

// ---------------------------------------------------------------------------
// Where each file's content lies
// ---------------------------------------------------------------------------

/// The locations as a map from client path, a later pair for the same path
/// replacing an earlier one.
pub open spec fn location_map(pairs: Seq<(String, Location)>) -> Map<Seq<char>, Location>
    decreases pairs.len(),
{
    if pairs.len() == 0 {
        Map::empty()
    } else {
        location_map(pairs.drop_last()).insert(pairs.last().0@, pairs.last().1)
    }
}

/// No two pairs name the same path.
pub open spec fn paths_distinct(pairs: Seq<(String, Location)>) -> bool {
    forall|i: int, j: int| 0 <= i < j < pairs.len() ==> (#[trigger] pairs[i]).0@ != (#[trigger] pairs[j]).0@
}

/// What one change of version `label`, published in `filename`, makes of the
/// locations. A move requires its source to have a location.
pub open spec fn relocated(m: Map<Seq<char>, Location>, label: String, filename: String, c: FileChange) -> Map<
    Seq<char>,
    Location,
> {
    match c {
        FileChange::UpdateFile { path, offset, len, .. } => m.insert(
            path@,
            Location { label, filename, path, offset, len },
        ),
        FileChange::DeleteFile { path } => m.remove(path@),
        FileChange::MoveFile { from, to } => m.remove(from@).insert(to@, m[from@]),
        _ => m,
    }
}

/// The locations after the first `n` changes.
pub open spec fn relocated_all(
    m: Map<Seq<char>, Location>,
    label: String,
    filename: String,
    changes: Seq<FileChange>,
    n: int,
) -> Map<Seq<char>, Location>
    decreases n,
{
    if n <= 0 {
        m
    } else {
        relocated(relocated_all(m, label, filename, changes, n - 1), label, filename, changes[n - 1])
    }
}

/// Can the first `n` changes be replayed: does every move find its source?
pub open spec fn moves_resolve(
    m: Map<Seq<char>, Location>,
    label: String,
    filename: String,
    changes: Seq<FileChange>,
    n: int,
) -> bool
    decreases n,
{
    if n <= 0 {
        true
    } else {
        &&& moves_resolve(m, label, filename, changes, n - 1)
        &&& match changes[n - 1] {
            FileChange::MoveFile { from, .. } => relocated_all(m, label, filename, changes, n - 1).dom().contains(
                from@,
            ),
            _ => true,
        }
    }
}

proof fn lemma_map_has(pairs: Seq<(String, Location)>, k: Seq<char>)
    ensures
        location_map(pairs).dom().contains(k) <==> exists|i: int| 0 <= i < pairs.len() && (#[trigger] pairs[i]).0@ == k,
    decreases pairs.len(),
{
    if pairs.len() > 0 {
        lemma_map_has(pairs.drop_last(), k);
        if exists|i: int| 0 <= i < pairs.len() && (#[trigger] pairs[i]).0@ == k {
            let i = choose|i: int| 0 <= i < pairs.len() && (#[trigger] pairs[i]).0@ == k;
            if i < pairs.len() - 1 {
                assert(pairs.drop_last()[i] == pairs[i]);
            }
        }
        if exists|i: int| 0 <= i < pairs.len() - 1 && (#[trigger] pairs.drop_last()[i]).0@ == k {
            let i = choose|i: int| 0 <= i < pairs.len() - 1 && (#[trigger] pairs.drop_last()[i]).0@ == k;
            assert(pairs[i] == pairs.drop_last()[i]);
        }
    }
}

proof fn lemma_map_at(pairs: Seq<(String, Location)>, i: int)
    requires
        paths_distinct(pairs),
        0 <= i < pairs.len(),
    ensures
        location_map(pairs).dom().contains(pairs[i].0@),
        location_map(pairs)[pairs[i].0@] == pairs[i].1,
    decreases pairs.len(),
{
    if i < pairs.len() - 1 {
        assert(pairs.drop_last()[i] == pairs[i]);
        lemma_map_at(pairs.drop_last(), i);
    }
}

proof fn lemma_map_remove(pairs: Seq<(String, Location)>, i: int)
    requires
        paths_distinct(pairs),
        0 <= i < pairs.len(),
    ensures
        paths_distinct(pairs.remove(i)),
        location_map(pairs.remove(i)) == location_map(pairs).remove(pairs[i].0@),
    decreases pairs.len(),
{
    let k = pairs[i].0@;
    let last = pairs.len() - 1;
    if i == last {
        assert(pairs.remove(i) =~= pairs.drop_last());
        lemma_map_has(pairs.drop_last(), k);
        assert forall|j: int| 0 <= j < pairs.drop_last().len() implies (#[trigger] pairs.drop_last()[j]).0@ != k by {
            assert(pairs.drop_last()[j] == pairs[j]);
        }
        assert(location_map(pairs.drop_last()) =~= location_map(pairs).remove(k));
    } else {
        let d = pairs.drop_last();
        assert(paths_distinct(d)) by {
            assert forall|a: int, b: int| 0 <= a < b < d.len() implies (#[trigger] d[a]).0@ != (#[trigger] d[b]).0@ by {
                assert(d[a] == pairs[a] && d[b] == pairs[b]);
            }
        }
        assert(d[i] == pairs[i]);
        lemma_map_remove(d, i);
        let s = pairs.remove(i);
        assert(s.drop_last() =~= d.remove(i));
        assert(s.last() == pairs.last());
        assert(pairs.last().0@ != k);
        assert(location_map(s) == location_map(d.remove(i)).insert(pairs.last().0@, pairs.last().1));
        assert(location_map(pairs.remove(i)) =~= location_map(pairs).remove(k));
    }
}

fn find_location(pairs: &Vec<(String, Location)>, path: &String) -> (r: Option<usize>)
    requires
        paths_distinct(pairs@),
    ensures
        r is None ==> !location_map(pairs@).dom().contains(path@),
        r matches Some(i) ==> i < pairs@.len() && pairs@[i as int].0@ == path@,
{
    for i in 0..pairs.len()
        invariant
            forall|k: int| 0 <= k < i ==> (#[trigger] pairs@[k]).0@ != path@,
    {
        if str_eq(pairs[i].0.as_str(), path.as_str()) {
            return Some(i);
        }
    }
    proof {
        lemma_map_has(pairs@, path@);
    }
    None
}

fn copy_location(l: &Location) -> (r: Location)
    ensures
        r == *l,
{
    Location {
        label: copy_string(&l.label),
        filename: copy_string(&l.filename),
        path: copy_string(&l.path),
        offset: l.offset,
        len: l.len,
    }
}

fn put_location(pairs: &mut Vec<(String, Location)>, path: &String, loc: Location)
    requires
        paths_distinct(old(pairs)@),
    ensures
        paths_distinct(final(pairs)@),
        location_map(final(pairs)@) == location_map(old(pairs)@).insert(path@, loc),
{
    match find_location(pairs, path) {
        Some(i) => {
            let ghost before = pairs@;
            pairs.remove(i);
            proof {
                lemma_map_remove(before, i as int);
            }
        },
        None => {},
    }
    let ghost mid = pairs@;
    pairs.push((copy_string(path), loc));
    proof {
        lemma_map_has(mid, path@);
        assert forall|a: int, b: int| 0 <= a < b < pairs@.len() implies (#[trigger] pairs@[a]).0@ != (
        #[trigger] pairs@[b]).0@ by {
            if b == pairs@.len() - 1 {
                assert(pairs@[a] == mid[a]);
            } else {
                assert(pairs@[a] == mid[a] && pairs@[b] == mid[b]);
            }
        }
        assert(pairs@.drop_last() =~= mid);
        assert(location_map(pairs@) =~= location_map(old(pairs)@).insert(path@, loc));
    }
}

fn drop_location(pairs: &mut Vec<(String, Location)>, path: &String)
    requires
        paths_distinct(old(pairs)@),
    ensures
        paths_distinct(final(pairs)@),
        location_map(final(pairs)@) == location_map(old(pairs)@).remove(path@),
{
    match find_location(pairs, path) {
        Some(i) => {
            let ghost before = pairs@;
            pairs.remove(i);
            proof {
                lemma_map_remove(before, i as int);
            }
        },
        None => {
            assert(location_map(pairs@) =~= location_map(old(pairs)@).remove(path@));
        },
    }
}

/// Replays the changes of version `label`, published in `filename`, on the
/// locations; `false` when a move finds no location for its source (the
/// locations are then left in an unspecified state).
pub fn relocate(
    pairs: &mut Vec<(String, Location)>,
    label: &String,
    filename: &String,
    changes: &Vec<FileChange>,
) -> (ok: bool)
    requires
        paths_distinct(old(pairs)@),
    ensures
        ok == moves_resolve(location_map(old(pairs)@), *label, *filename, changes@, changes@.len() as int),
        ok ==> paths_distinct(final(pairs)@),
        ok ==> location_map(final(pairs)@) == relocated_all(
            location_map(old(pairs)@),
            *label,
            *filename,
            changes@,
            changes@.len() as int,
        ),
{
    let ghost m0 = location_map(pairs@);
    for i in 0..changes.len()
        invariant
            m0 == location_map(old(pairs)@),
            paths_distinct(pairs@),
            moves_resolve(m0, *label, *filename, changes@, i as int),
            location_map(pairs@) == relocated_all(m0, *label, *filename, changes@, i as int),
    {
        match &changes[i] {
            FileChange::UpdateFile { path, offset, len, .. } => {
                let loc = Location {
                    label: copy_string(label),
                    filename: copy_string(filename),
                    path: copy_string(path),
                    offset: *offset,
                    len: *len,
                };
                put_location(pairs, path, loc);
            },
            FileChange::DeleteFile { path } => {
                drop_location(pairs, path);
            },
            FileChange::MoveFile { from, to } => {
                let found = find_location(pairs, from);
                match found {
                    Some(k) => {
                        let hold = copy_location(&pairs[k].1);
                        proof {
                            lemma_map_at(pairs@, k as int);
                        }
                        drop_location(pairs, from);
                        put_location(pairs, to, hold);
                    },
                    None => {
                        proof {
                            lemma_moves_stop(m0, *label, *filename, changes@, i as int + 1, changes@.len() as int);
                        }
                        return false;
                    },
                }
            },
            _ => {},
        }
    }
    true
}

proof fn lemma_moves_stop(
    m: Map<Seq<char>, Location>,
    label: String,
    filename: String,
    changes: Seq<FileChange>,
    k: int,
    n: int,
)
    requires
        0 <= k <= n,
        !moves_resolve(m, label, filename, changes, k),
    ensures
        !moves_resolve(m, label, filename, changes, n),
    decreases n,
{
    if k < n {
        lemma_moves_stop(m, label, filename, changes, k, n - 1);
    }
}

proof fn lemma_replays_stop(metas: Seq<(String, VersionMeta)>, k: int, n: int)
    requires
        0 <= k <= n,
        !history_replays(metas, k),
    ensures
        !history_replays(metas, n),
    decreases n,
{
    if k < n {
        lemma_replays_stop(metas, k, n - 1);
    }
}

/// Does `metas[i]` repeat the label of an earlier version?
pub open spec fn label_seen_before(metas: Seq<(String, VersionMeta)>, i: int) -> bool {
    exists|j: int| 0 <= j < i && (#[trigger] metas[j]).1.label@ == metas[i].1.label@
}

/// The locations after replaying the first `n` versions, each published in
/// the archive it is paired with; a version whose label already appeared is
/// skipped.
pub open spec fn locations_after(metas: Seq<(String, VersionMeta)>, n: int) -> Map<Seq<char>, Location>
    decreases n,
{
    if n <= 0 {
        Map::empty()
    } else if label_seen_before(metas, n - 1) {
        locations_after(metas, n - 1)
    } else {
        let (filename, meta) = metas[n - 1];
        relocated_all(locations_after(metas, n - 1), meta.label, filename, meta.changes@, meta.changes@.len() as int)
    }
}

/// Can the first `n` versions be replayed: does every move find its source?
pub open spec fn history_replays(metas: Seq<(String, VersionMeta)>, n: int) -> bool
    decreases n,
{
    if n <= 0 {
        true
    } else {
        &&& history_replays(metas, n - 1)
        &&& (label_seen_before(metas, n - 1) || moves_resolve(
            locations_after(metas, n - 1),
            metas[n - 1].1.label,
            metas[n - 1].0,
            metas[n - 1].1.changes@,
            metas[n - 1].1.changes@.len() as int,
        ))
    }
}

/// Where the content of each client path lies after all versions, each
/// paired with the archive it was published in; each path is listed once.
/// `None` when a move finds no location for its source.
pub fn data_locations(metas: &Vec<(String, VersionMeta)>) -> (r: Option<Vec<(String, Location)>>)
    ensures
        r is Some <==> history_replays(metas@, metas@.len() as int),
        r matches Some(v) ==> paths_distinct(v@) && location_map(v@) == locations_after(
            metas@,
            metas@.len() as int,
        ),
{
    let mut pairs: Vec<(String, Location)> = Vec::new();
    assert(location_map(pairs@) =~= Map::<Seq<char>, Location>::empty());
    for i in 0..metas.len()
        invariant
            history_replays(metas@, i as int),
            paths_distinct(pairs@),
            location_map(pairs@) == locations_after(metas@, i as int),
    {
        let mut seen = false;
        for j in 0..i
            invariant
                i < metas@.len(),
                seen == exists|k: int| 0 <= k < j && (#[trigger] metas@[k]).1.label@ == metas@[i as int].1.label@,
        {
            if str_eq(metas[j].1.label.as_str(), metas[i].1.label.as_str()) {
                seen = true;
            }
        }
        if !seen {
            if !relocate(&mut pairs, &metas[i].1.label, &metas[i].0, &metas[i].1.changes) {
                proof {
                    lemma_replays_stop(metas@, i + 1, metas@.len() as int);
                }
                return None;
            }
        }
    }
    Some(pairs)
}

} // verus!
