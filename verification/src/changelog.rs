//! The complete changelog a client shows: every version's notes, newest first.
use vstd::prelude::*;

use crate::text::{chars_of, copy_string, str_eq, string_of, trim, trim_chars};

verus! {

/// The release notes of one version.
#[derive(Clone, Debug)]
pub struct ChangelogEntry {
    pub label: String,
    pub logs: String,
}

/// The rendered changelog and how many versions it covers.
#[derive(Clone, Debug)]
pub struct ChangelogHistory {
    pub markdown: String,
    pub entry_count: usize,
}

/// The notes shown for a version without any.
pub open spec fn no_notes() -> Seq<char> {
    "_本版本未提供更新说明_"@
}

/// One version's section: a heading with its label, then its trimmed notes.
pub open spec fn section(e: ChangelogEntry) -> Seq<char> {
    let notes = if trim(e.logs@).len() == 0 {
        no_notes()
    } else {
        trim(e.logs@)
    };
    "## "@ + e.label@ + "\n\n"@ + notes + "\n\n"@
}

/// The sections of the entries, the last entry first.
pub open spec fn sections_newest_first(s: Seq<ChangelogEntry>) -> Seq<char>
    decreases s.len(),
{
    if s.len() == 0 {
        Seq::empty()
    } else {
        section(s.last()) + sections_newest_first(s.drop_last())
    }
}

fn append(out: &mut Vec<char>, s: &str)
    ensures
        final(out)@ == old(out)@ + s@,
{
    let cs = chars_of(s);
    let ghost start = out@;
    for i in 0..cs.len()
        invariant
            out@ == start + cs@.take(i as int),
    {
        out.push(cs[i]);
        assert(start + cs@.take(i + 1) =~= (start + cs@.take(i as int)).push(cs@[i as int]));
    }
    assert(cs@.take(cs@.len() as int) =~= cs@);
}

/// Renders the changelog newest first; the entries are given oldest first.
pub fn history_from_entries(entries: &[ChangelogEntry]) -> (r: ChangelogHistory)
    ensures
        r.markdown@ == trim(sections_newest_first(entries@)),
        r.entry_count == entries@.len(),
{
    let mut out: Vec<char> = Vec::new();
    let n = entries.len();
    let mut i = n;
    assert(entries@.take(n as int) =~= entries@);
    assert(out@ + sections_newest_first(entries@.take(n as int)) =~= sections_newest_first(entries@));
    while i > 0
        invariant
            i <= n == entries@.len(),
            out@ + sections_newest_first(entries@.take(i as int)) == sections_newest_first(
                entries@,
            ),
        decreases i,
    {
        let e = &entries[i - 1];
        let ghost before = out@;
        append(&mut out, "## ");
        append(&mut out, e.label.as_str());
        append(&mut out, "\n\n");
        let notes = string_of(&trim_chars(&chars_of(e.logs.as_str())));
        if notes.as_str().is_empty() {
            append(&mut out, "_本版本未提供更新说明_");
        } else {
            append(&mut out, notes.as_str());
        }
        append(&mut out, "\n\n");
        assert(entries@.take(i as int).drop_last() =~= entries@.take(i - 1));
        assert(entries@.take(i as int).last() == *e);
        assert(out@ =~= before + section(*e));
        assert(out@ + sections_newest_first(entries@.take(i - 1)) =~= before
            + sections_newest_first(entries@.take(i as int)));
        i = i - 1;
    }
    assert(entries@.take(0) =~= Seq::<ChangelogEntry>::empty());
    assert(out@ =~= sections_newest_first(entries@));
    ChangelogHistory { markdown: string_of(&trim_chars(&out)), entry_count: n }
}

pub open spec fn entries_of(pairs: Seq<(String, String)>) -> Seq<ChangelogEntry> {
    pairs.map_values(|p: (String, String)| ChangelogEntry { label: p.0, logs: p.1 })
}

/// Renders the changelog of the versions a client already knows, given
/// oldest first as `(label, notes)` pairs.
pub fn markdown_from_current(entries: Vec<(String, String)>) -> (r: String)
    ensures
        r@ == trim(sections_newest_first(entries_of(entries@))),
{
    let mut list = entries;
    let ghost initial = list@;
    let mut out: Vec<ChangelogEntry> = Vec::new();
    let n = list.len();
    let mut i: usize = 0;
    while list.len() > 0
        invariant
            n == initial.len(),
            i + list@.len() == n,
            list@ == initial.skip(i as int),
            out@ == entries_of(initial.take(i as int)),
        decreases list@.len(),
    {
        let (label, logs) = list.remove(0);
        assert(initial[i as int] == (label, logs));
        assert(list@ =~= initial.skip(i + 1));
        out.push(ChangelogEntry { label, logs });
        assert(out@ =~= entries_of(initial.take(i + 1)));
        i = i + 1;
    }
    assert(initial.take(i as int) =~= initial);
    history_from_entries(out.as_slice()).markdown
}

// ---------------------------------------------------------------------------
// Gathering the notes of every version
// ---------------------------------------------------------------------------

/// Where the metadata of a published version lies: its archive and the byte
/// range of the metadata in it.
#[derive(Clone, Debug)]
pub struct VersionRange {
    pub label: String,
    pub filename: String,
    pub offset: u64,
    pub len: u32,
}

/// Do two versions share their metadata range?
pub open spec fn same_range(a: VersionRange, b: VersionRange) -> bool {
    a.filename@ == b.filename@ && a.offset == b.offset && a.len == b.len
}

/// The versions whose metadata range has not appeared before, in order: the
/// ranges to fetch, each once.
pub open spec fn fetch_positions(versions: Seq<VersionRange>, n: int) -> Seq<int>
    decreases n,
{
    if n <= 0 {
        Seq::empty()
    } else if exists|j: int| 0 <= j < n - 1 && same_range(#[trigger] versions[j], versions[n - 1]) {
        fetch_positions(versions, n - 1)
    } else {
        fetch_positions(versions, n - 1).push(n - 1)
    }
}

/// The positions of the metadata ranges to fetch, each range once, in the
/// order of the versions.
pub fn metadata_fetches(versions: &Vec<VersionRange>) -> (r: Vec<usize>)
    ensures
        r@.len() == fetch_positions(versions@, versions@.len() as int).len(),
        forall|k: int| 0 <= k < r@.len() ==> #[trigger] r@[k] as int == fetch_positions(versions@, versions@.len() as int)[k],
{
    let mut out: Vec<usize> = Vec::new();
    for i in 0..versions.len()
        invariant
            out@.len() == fetch_positions(versions@, i as int).len(),
            forall|k: int| 0 <= k < out@.len() ==> #[trigger] out@[k] as int == fetch_positions(versions@, i as int)[k],
    {
        let mut seen = false;
        for j in 0..i
            invariant
                i < versions@.len(),
                seen == exists|q: int| 0 <= q < j && same_range(#[trigger] versions@[q], versions@[i as int]),
        {
            if str_eq(versions[j].filename.as_str(), versions[i].filename.as_str()) && versions[j].offset
                == versions[i].offset && versions[j].len == versions[i].len {
                seen = true;
            }
        }
        if !seen {
            out.push(i);
        }
    }
    out
}

/// The notes first read for `label` among the fetched `(label, notes)` pairs.
pub open spec fn first_notes(metas: Seq<(String, String)>, label: Seq<char>) -> Option<String>
    decreases metas.len(),
{
    if metas.len() == 0 {
        None
    } else if metas[0].0@ == label {
        Some(metas[0].1)
    } else {
        first_notes(metas.drop_first(), label)
    }
}

/// Does version `i` get an entry: notes were read for its label, and no
/// earlier version has the same label?
pub open spec fn gets_entry(versions: Seq<VersionRange>, metas: Seq<(String, String)>, i: int) -> bool {
    &&& first_notes(metas, versions[i].label@) is Some
    &&& forall|j: int| 0 <= j < i ==> (#[trigger] versions[j]).label@ != versions[i].label@
}

/// The versions that get an entry, in order.
pub open spec fn entry_positions(versions: Seq<VersionRange>, metas: Seq<(String, String)>, n: int) -> Seq<int>
    decreases n,
{
    if n <= 0 {
        Seq::empty()
    } else if gets_entry(versions, metas, n - 1) {
        entry_positions(versions, metas, n - 1).push(n - 1)
    } else {
        entry_positions(versions, metas, n - 1)
    }
}

fn find_notes(metas: &Vec<(String, String)>, label: &String) -> (r: Option<String>)
    ensures
        r == first_notes(metas@, label@),
{
    let ghost all = metas@;
    assert(all.skip(0) =~= all);
    for i in 0..metas.len()
        invariant
            all == metas@,
            first_notes(all, label@) == first_notes(all.skip(i as int), label@),
    {
        assert(all.skip(i as int).drop_first() =~= all.skip(i + 1));
        assert(all.skip(i as int)[0] == all[i as int]);
        if str_eq(metas[i].0.as_str(), label.as_str()) {
            return Some(copy_string(&metas[i].1));
        }
    }
    assert(all.skip(all.len() as int) =~= Seq::<(String, String)>::empty());
    None
}

/// The changelog entries of the published versions, oldest first: each
/// version with the notes first read for its label; a version without notes,
/// or whose label already appeared, has none.
pub fn history_entries(versions: &Vec<VersionRange>, metas: &Vec<(String, String)>) -> (r: Vec<ChangelogEntry>)
    ensures
        r@.len() == entry_positions(versions@, metas@, versions@.len() as int).len(),
        forall|k: int|
            0 <= k < r@.len() ==> {
                let v = versions@[entry_positions(versions@, metas@, versions@.len() as int)[k]];
                &&& (#[trigger] r@[k]).label == v.label
                &&& Some(r@[k].logs) == first_notes(metas@, v.label@)
            },
{
    let mut out: Vec<ChangelogEntry> = Vec::new();
    for i in 0..versions.len()
        invariant
            out@.len() == entry_positions(versions@, metas@, i as int).len(),
            forall|k: int|
                0 <= k < out@.len() ==> {
                    let v = versions@[entry_positions(versions@, metas@, i as int)[k]];
                    &&& (#[trigger] out@[k]).label == v.label
                    &&& Some(out@[k].logs) == first_notes(metas@, v.label@)
                },
    {
        let mut earlier = false;
        for j in 0..i
            invariant
                i < versions@.len(),
                earlier == exists|q: int| 0 <= q < j && (#[trigger] versions@[q]).label@ == versions@[i as int].label@,
        {
            if str_eq(versions[j].label.as_str(), versions[i].label.as_str()) {
                earlier = true;
            }
        }
        if !earlier {
            match find_notes(metas, &versions[i].label) {
                Some(logs) => {
                    out.push(ChangelogEntry { label: copy_string(&versions[i].label), logs });
                },
                None => {},
            }
        }
    }
    out
}

} // verus!
