//! The difference between the workspace and the published history, as
//! directory trees: what was added, modified, deleted or moved.
use vstd::prelude::*;

use crate::text::{copy_string, dec, decimal, join_strings, joined, push_str, string_views};
use crate::version_meta::FileChange;

verus! {

/// A file or directory of a tree. `path` is relative to the tree's root;
/// `modified` is in seconds since the Unix epoch; `visible` says whether the
/// exclusion rules let the path through.
#[derive(Debug)]
pub struct FileEntry {
    pub name: String,
    pub path: String,
    pub is_dir: bool,
    pub len: u64,
    pub modified: u64,
    pub hash: String,
    pub visible: bool,
    pub children: Vec<FileEntry>,
}

/// What the difference of two trees records of an entry.
#[derive(Debug)]
pub struct FileInfo {
    pub path: String,
    pub is_dir: bool,
    pub len: u64,
    pub modified: u64,
    pub hash: String,
}

pub open spec fn info_of(e: FileEntry) -> FileInfo {
    FileInfo { path: e.path, is_dir: e.is_dir, len: e.len, modified: e.modified, hash: e.hash }
}

pub fn info(e: &FileEntry) -> (r: FileInfo)
    ensures
        r == info_of(*e),
{
    FileInfo {
        path: copy_string(&e.path),
        is_dir: e.is_dir,
        len: e.len,
        modified: e.modified,
        hash: copy_string(&e.hash),
    }
}

/// The differences found between two trees.
pub struct Diff {
    pub added_folders: Vec<FileInfo>,
    pub added_files: Vec<FileInfo>,
    pub modified_files: Vec<FileInfo>,
    pub missing_folders: Vec<FileInfo>,
    pub missing_files: Vec<FileInfo>,
    pub mtime_fix: Vec<(FileInfo, FileInfo)>,
    pub renamed_files: Vec<(FileInfo, FileInfo)>,
}

/// The first entry of `s` with the given name.
pub open spec fn find_in(s: Seq<FileEntry>, name: Seq<char>) -> Option<FileEntry>
    decreases s.len(),
{
    if s.len() == 0 {
        None
    } else {
        match find_in(s.drop_last(), name) {
            Some(e) => Some(e),
            None => if s.last().name@ == name {
                Some(s.last())
            } else {
                None
            },
        }
    }
}

proof fn lemma_find_prefix(s: Seq<FileEntry>, name: Seq<char>, m: int)
    requires
        0 <= m <= s.len(),
        find_in(s.take(m), name) is Some,
    ensures
        find_in(s, name) == find_in(s.take(m), name),
    decreases s.len(),
{
    if m < s.len() {
        assert(s.drop_last().take(m) =~= s.take(m));
        lemma_find_prefix(s.drop_last(), name, m);
    } else {
        assert(s.take(m) =~= s);
    }
}

/// Finds a child by name, as `AbstractFile::find` does.
pub fn find_child<'a>(s: &'a Vec<FileEntry>, name: &String) -> (r: Option<&'a FileEntry>)
    ensures
        match r {
            Some(e) => find_in(s@, name@) == Some(*e),
            None => find_in(s@, name@) is None,
        },
{
    let mut i: usize = 0;
    while i < s.len()
        invariant
            i <= s@.len(),
            find_in(s@.take(i as int), name@) is None,
        decreases s@.len() - i,
    {
        assert(s@.take(i + 1).drop_last() =~= s@.take(i as int));
        if s[i].name == *name {
            proof {
                lemma_find_prefix(s@, name@, i + 1);
            }
            return Some(&s[i]);
        }
        i = i + 1;
    }
    assert(s@.take(s@.len() as int) =~= s@);
    None
}

// ---------------------------------------------------------------------------
// Added entries
// ---------------------------------------------------------------------------

/// Folders and files marked by a pass.
pub struct Marks {
    pub folders: Seq<FileInfo>,
    pub files: Seq<FileInfo>,
}

pub open spec fn no_marks() -> Marks {
    Marks { folders: Seq::empty(), files: Seq::empty() }
}

pub open spec fn join(a: Marks, b: Marks) -> Marks {
    Marks { folders: a.folders + b.folders, files: a.files + b.files }
}

/// Marking new entries as added: an invisible entry is skipped; a directory
/// is added, then everything below it; a file is added.
pub open spec fn added_marks(s: Seq<FileEntry>) -> Marks
    decreases s,
{
    if s.len() == 0 {
        no_marks()
    } else {
        let c = s.last();
        let rest = added_marks(s.drop_last());
        if !c.visible {
            rest
        } else if c.is_dir {
            join(
                rest,
                join(Marks { folders: seq![info_of(c)], files: Seq::empty() }, added_marks(c.children@)),
            )
        } else {
            join(rest, Marks { folders: Seq::empty(), files: seq![info_of(c)] })
        }
    }
}

/// The entries of a new directory that are missing from the old one, or
/// changed kind: each visible entry is looked up by name in the old
/// directory; directories on both sides are compared below.
pub open spec fn find_added_marks(ncs: Seq<FileEntry>, ocs: Seq<FileEntry>) -> Marks
    decreases ncs,
{
    if ncs.len() == 0 {
        no_marks()
    } else {
        let c = ncs.last();
        let rest = find_added_marks(ncs.drop_last(), ocs);
        if !c.visible {
            rest
        } else {
            match find_in(ocs, c.name@) {
                Some(o) => if c.is_dir && o.is_dir {
                    join(rest, find_added_marks(c.children@, o.children@))
                } else if c.is_dir != o.is_dir {
                    join(rest, added_marks(seq![c]))
                } else {
                    rest
                },
                None => join(rest, added_marks(seq![c])),
            }
        }
    }
}

/// Marking old entries as missing: a directory's contents first, then the
/// directory; a file.
pub open spec fn missing_marks(s: Seq<FileEntry>) -> Marks
    decreases s,
{
    if s.len() == 0 {
        no_marks()
    } else {
        let c = s.last();
        let rest = missing_marks(s.drop_last());
        if c.is_dir {
            join(
                rest,
                join(missing_marks(c.children@), Marks { folders: seq![info_of(c)], files: Seq::empty() }),
            )
        } else {
            join(rest, Marks { folders: Seq::empty(), files: seq![info_of(c)] })
        }
    }
}

/// The new entry an old entry is compared with: its namesake, where visible.
pub open spec fn counterpart(ncs: Seq<FileEntry>, name: Seq<char>) -> Option<FileEntry> {
    match find_in(ncs, name) {
        Some(n) => if n.visible {
            Some(n)
        } else {
            None
        },
        None => None,
    }
}

/// The entries of an old directory that are gone from the new one, or
/// changed kind.
pub open spec fn find_missing_marks(ocs: Seq<FileEntry>, ncs: Seq<FileEntry>) -> Marks
    decreases ocs,
{
    if ocs.len() == 0 {
        no_marks()
    } else {
        let c = ocs.last();
        let rest = find_missing_marks(ocs.drop_last(), ncs);
        match counterpart(ncs, c.name@) {
            Some(n) => if c.is_dir && n.is_dir {
                join(rest, find_missing_marks(c.children@, n.children@))
            } else if c.is_dir != n.is_dir {
                join(rest, missing_marks(seq![c]))
            } else {
                rest
            },
            None => join(rest, missing_marks(seq![c])),
        }
    }
}

/// Files modified, and files whose modification time alone changed.
pub struct ModMarks {
    pub modified: Seq<FileInfo>,
    pub mtime_fix: Seq<(FileInfo, FileInfo)>,
}

pub open spec fn join_mod(a: ModMarks, b: ModMarks) -> ModMarks {
    ModMarks { modified: a.modified + b.modified, mtime_fix: a.mtime_fix + b.mtime_fix }
}

/// Visible files present on both sides: with another modification time, a
/// file is modified if its hash differs too, else only its time is fixed.
pub open spec fn find_modified_marks(ncs: Seq<FileEntry>, ocs: Seq<FileEntry>) -> ModMarks
    decreases ncs,
{
    if ncs.len() == 0 {
        ModMarks { modified: Seq::empty(), mtime_fix: Seq::empty() }
    } else {
        let c = ncs.last();
        let rest = find_modified_marks(ncs.drop_last(), ocs);
        if !c.visible {
            rest
        } else {
            match find_in(ocs, c.name@) {
                Some(o) => if c.is_dir && o.is_dir {
                    join_mod(rest, find_modified_marks(c.children@, o.children@))
                } else if !c.is_dir && !o.is_dir && c.modified != o.modified {
                    if c.hash@ != o.hash@ {
                        join_mod(rest, ModMarks { modified: seq![info_of(c)], mtime_fix: Seq::empty() })
                    } else {
                        join_mod(
                            rest,
                            ModMarks { modified: Seq::empty(), mtime_fix: seq![(info_of(c), info_of(o))] },
                        )
                    }
                } else {
                    rest
                },
                None => rest,
            }
        }
    }
}

/// The entries with the given hash.
pub open spec fn with_hash(s: Seq<FileInfo>, h: Seq<char>) -> Seq<FileInfo>
    decreases s.len(),
{
    if s.len() == 0 {
        Seq::empty()
    } else {
        let r = with_hash(s.drop_last(), h);
        if s.last().hash@ == h {
            r.push(s.last())
        } else {
            r
        }
    }
}

/// A missing file whose content is the only missing one and the only added
/// one with its hash was moved.
pub open spec fn is_move(missing: Seq<FileInfo>, added: Seq<FileInfo>, m: FileInfo) -> bool {
    with_hash(missing, m.hash@).len() == 1 && with_hash(added, m.hash@).len() == 1
}

/// The moves: each moved missing file with the added file of its hash, in
/// the order of the missing files.
pub open spec fn renames_of(missing: Seq<FileInfo>, added: Seq<FileInfo>) -> Seq<(FileInfo, FileInfo)> {
    renames_in(missing, missing, added)
}

/// The moves among the first files of `prefix`.
pub open spec fn renames_in(prefix: Seq<FileInfo>, missing: Seq<FileInfo>, added: Seq<FileInfo>) -> Seq<
    (FileInfo, FileInfo),
>
    decreases prefix.len(),
{
    if prefix.len() == 0 {
        Seq::empty()
    } else {
        let r = renames_in(prefix.drop_last(), missing, added);
        let m = prefix.last();
        if is_move(missing, added, m) {
            r.push((m, with_hash(added, m.hash@)[0]))
        } else {
            r
        }
    }
}

/// The missing files that did not move.
pub open spec fn unmoved_missing(s: Seq<FileInfo>, r: Seq<(FileInfo, FileInfo)>) -> Seq<FileInfo>
    decreases s.len(),
{
    if s.len() == 0 {
        Seq::empty()
    } else {
        let k = unmoved_missing(s.drop_last(), r);
        if moved_from_path(r, s.last().path@) {
            k
        } else {
            k.push(s.last())
        }
    }
}

/// The added files that are not the end of a move.
pub open spec fn unmoved_added(s: Seq<FileInfo>, r: Seq<(FileInfo, FileInfo)>) -> Seq<FileInfo>
    decreases s.len(),
{
    if s.len() == 0 {
        Seq::empty()
    } else {
        let k = unmoved_added(s.drop_last(), r);
        if moved_to_path(r, s.last().path@) {
            k
        } else {
            k.push(s.last())
        }
    }
}

pub open spec fn moved_from_path(r: Seq<(FileInfo, FileInfo)>, p: Seq<char>) -> bool {
    exists|k: int| 0 <= k < r.len() && (#[trigger] r[k]).0.path@ == p
}

pub open spec fn moved_to_path(r: Seq<(FileInfo, FileInfo)>, p: Seq<char>) -> bool {
    exists|k: int| 0 <= k < r.len() && (#[trigger] r[k]).1.path@ == p
}

fn copy_info(f: &FileInfo) -> (r: FileInfo)
    ensures
        r == *f,
{
    FileInfo {
        path: copy_string(&f.path),
        is_dir: f.is_dir,
        len: f.len,
        modified: f.modified,
        hash: copy_string(&f.hash),
    }
}

fn count_hash(s: &Vec<FileInfo>, h: &String) -> (n: usize)
    ensures
        n == with_hash(s@, h@).len(),
{
    let mut n: usize = 0;
    for i in 0..s.len()
        invariant
            n == with_hash(s@.take(i as int), h@).len(),
            n <= i,
    {
        assert(s@.take(i + 1).drop_last() =~= s@.take(i as int));
        if s[i].hash == *h {
            n = n + 1;
        }
    }
    assert(s@.take(s@.len() as int) =~= s@);
    n
}

fn first_with_hash(s: &Vec<FileInfo>, h: &String) -> (r: Option<FileInfo>)
    ensures
        match r {
            Some(f) => with_hash(s@, h@).len() > 0 && f == with_hash(s@, h@)[0],
            None => with_hash(s@, h@).len() == 0,
        },
{
    for i in 0..s.len()
        invariant
            with_hash(s@.take(i as int), h@).len() == 0,
    {
        assert(s@.take(i + 1).drop_last() =~= s@.take(i as int));
        if s[i].hash == *h {
            proof {
                lemma_filter_prefix_first(s@, h@, i as int);
            }
            return Some(copy_info(&s[i]));
        }
    }
    assert(s@.take(s@.len() as int) =~= s@);
    None
}

proof fn lemma_filter_prefix_first(s: Seq<FileInfo>, h: Seq<char>, i: int)
    requires
        0 <= i < s.len(),
        with_hash(s.take(i), h).len() == 0,
        s[i].hash@ == h,
    ensures
        with_hash(s, h).len() > 0,
        with_hash(s, h)[0] == s[i],
    decreases s.len(),
{
    if i + 1 < s.len() {
        let p = s.drop_last();
        assert(p.take(i) =~= s.take(i));
        assert(p[i] == s[i]);
        lemma_filter_prefix_first(p, h, i);
    } else {
        assert(s.drop_last() =~= s.take(i));
    }
}

pub open spec fn update_of(f: FileInfo) -> FileChange {
    FileChange::UpdateFile {
        path: f.path,
        hash: f.hash,
        len: f.len,
        modified: f.modified,
        offset: 0,
        external_source: None,
    }
}

/// The operations of a difference, in replay order: deleted files, created
/// directories, moves, added files, modified files, deleted directories.
pub open spec fn changes_of(d: Diff) -> Seq<FileChange> {
    d.missing_files@.map_values(|f: FileInfo| FileChange::DeleteFile { path: f.path })
        + d.added_folders@.map_values(|f: FileInfo| FileChange::CreateFolder { path: f.path })
        + d.renamed_files@.map_values(
        |p: (FileInfo, FileInfo)| FileChange::MoveFile { from: p.0.path, to: p.1.path },
    ) + d.added_files@.map_values(|f: FileInfo| update_of(f)) + d.modified_files@.map_values(
        |f: FileInfo| update_of(f),
    ) + d.missing_folders@.map_values(|f: FileInfo| FileChange::DeleteFolder { path: f.path })
}

/// The difference of a new tree against an old one: added entries, missing
/// entries, modified files, then moves among the added and missing files.
pub open spec fn diff_of(newer: FileEntry, older: FileEntry) -> (Marks, Marks, ModMarks) {
    (
        find_added_marks(newer.children@, older.children@),
        find_missing_marks(older.children@, newer.children@),
        find_modified_marks(newer.children@, older.children@),
    )
}

impl Diff {
    pub fn empty() -> (r: Diff)
        ensures
            r.added_folders@.len() == 0,
            r.added_files@.len() == 0,
            r.modified_files@.len() == 0,
            r.missing_folders@.len() == 0,
            r.missing_files@.len() == 0,
            r.mtime_fix@.len() == 0,
            r.renamed_files@.len() == 0,
    {
        Diff {
            added_folders: Vec::new(),
            added_files: Vec::new(),
            modified_files: Vec::new(),
            missing_folders: Vec::new(),
            missing_files: Vec::new(),
            mtime_fix: Vec::new(),
            renamed_files: Vec::new(),
        }
    }

    /// Marks the entries of `s` as added.
    fn mark_as_added(&mut self, s: &Vec<FileEntry>)
        ensures
            final(self).added_folders@ == old(self).added_folders@ + added_marks(s@).folders,
            final(self).added_files@ == old(self).added_files@ + added_marks(s@).files,
            final(self).modified_files == old(self).modified_files,
            final(self).missing_folders == old(self).missing_folders,
            final(self).missing_files == old(self).missing_files,
            final(self).mtime_fix == old(self).mtime_fix,
            final(self).renamed_files == old(self).renamed_files,
        decreases s,
    {
        let ghost start = *self;
        for i in 0..s.len()
            invariant
                self.added_folders@ == start.added_folders@ + added_marks(s@.take(i as int)).folders,
                self.added_files@ == start.added_files@ + added_marks(s@.take(i as int)).files,
                self.modified_files == start.modified_files,
                self.missing_folders == start.missing_folders,
                self.missing_files == start.missing_files,
                self.mtime_fix == start.mtime_fix,
                self.renamed_files == start.renamed_files,
        {
            let c = &s[i];
            assert(s@.take(i + 1).drop_last() =~= s@.take(i as int));
            assert(s@.take(i + 1).last() == *c);
            if c.visible {
                if c.is_dir {
                    let ghost bf = self.added_folders@;
                    let ghost bl = self.added_files@;
                    self.added_folders.push(info(c));
                    assert(decreases_to!(s => s@[i as int].children));
                    self.mark_as_added(&c.children);
                    assert(self.added_folders@ =~= start.added_folders@ + added_marks(
                        s@.take(i + 1),
                    ).folders);
                    assert(self.added_files@ =~= start.added_files@ + added_marks(
                        s@.take(i + 1),
                    ).files);
                } else {
                    self.added_files.push(info(c));
                    assert(self.added_folders@ =~= start.added_folders@ + added_marks(
                        s@.take(i + 1),
                    ).folders);
                    assert(self.added_files@ =~= start.added_files@ + added_marks(
                        s@.take(i + 1),
                    ).files);
                }
            }
        }
        assert(s@.take(s@.len() as int) =~= s@);
    }

    fn mark_entry_added(&mut self, c: &FileEntry)
        ensures
            final(self).added_folders@ == old(self).added_folders@ + added_marks(seq![*c]).folders,
            final(self).added_files@ == old(self).added_files@ + added_marks(seq![*c]).files,
            final(self).modified_files == old(self).modified_files,
            final(self).missing_folders == old(self).missing_folders,
            final(self).missing_files == old(self).missing_files,
            final(self).mtime_fix == old(self).mtime_fix,
            final(self).renamed_files == old(self).renamed_files,
    {
        assert(seq![*c].drop_last() =~= Seq::<FileEntry>::empty());
        assert(added_marks(seq![*c].drop_last()) == no_marks());
        if c.visible {
            if c.is_dir {
                self.added_folders.push(info(c));
                self.mark_as_added(&c.children);
            } else {
                self.added_files.push(info(c));
            }
        }
        assert(self.added_folders@ =~= old(self).added_folders@ + added_marks(seq![*c]).folders);
        assert(self.added_files@ =~= old(self).added_files@ + added_marks(seq![*c]).files);
    }

    /// Finds the added entries of a new directory's contents `ncs` against
    /// an old directory's contents `ocs`.
    fn find_added(&mut self, ncs: &Vec<FileEntry>, ocs: &Vec<FileEntry>)
        ensures
            final(self).added_folders@ == old(self).added_folders@ + find_added_marks(ncs@, ocs@).folders,
            final(self).added_files@ == old(self).added_files@ + find_added_marks(ncs@, ocs@).files,
            final(self).modified_files == old(self).modified_files,
            final(self).missing_folders == old(self).missing_folders,
            final(self).missing_files == old(self).missing_files,
            final(self).mtime_fix == old(self).mtime_fix,
            final(self).renamed_files == old(self).renamed_files,
        decreases ncs,
    {
        let ghost start = *self;
        for i in 0..ncs.len()
            invariant
                self.added_folders@ == start.added_folders@ + find_added_marks(ncs@.take(i as int), ocs@).folders,
                self.added_files@ == start.added_files@ + find_added_marks(ncs@.take(i as int), ocs@).files,
                self.modified_files == start.modified_files,
                self.missing_folders == start.missing_folders,
                self.missing_files == start.missing_files,
                self.mtime_fix == start.mtime_fix,
                self.renamed_files == start.renamed_files,
        {
            let c = &ncs[i];
            assert(ncs@.take(i + 1).drop_last() =~= ncs@.take(i as int));
            assert(ncs@.take(i + 1).last() == *c);
            let ghost bf = self.added_folders@;
            let ghost bl = self.added_files@;
            if c.visible {
                match find_child(ocs, &c.name) {
                    Some(o) => {
                        if c.is_dir && o.is_dir {
                            assert(decreases_to!(ncs => ncs@[i as int].children));
                            self.find_added(&c.children, &o.children);
                        } else if c.is_dir != o.is_dir {
                            self.mark_entry_added(c);
                        }
                    },
                    None => {
                        self.mark_entry_added(c);
                    },
                }
            }
            assert(self.added_folders@ =~= start.added_folders@ + find_added_marks(ncs@.take(i + 1), ocs@).folders);
            assert(self.added_files@ =~= start.added_files@ + find_added_marks(ncs@.take(i + 1), ocs@).files);
        }
        assert(ncs@.take(ncs@.len() as int) =~= ncs@);
    }

    /// Marks the entries of `s` as missing.
    fn mark_as_missing(&mut self, s: &Vec<FileEntry>)
        ensures
            final(self).missing_folders@ == old(self).missing_folders@ + missing_marks(s@).folders,
            final(self).missing_files@ == old(self).missing_files@ + missing_marks(s@).files,
            final(self).added_folders == old(self).added_folders,
            final(self).added_files == old(self).added_files,
            final(self).modified_files == old(self).modified_files,
            final(self).mtime_fix == old(self).mtime_fix,
            final(self).renamed_files == old(self).renamed_files,
        decreases s,
    {
        let ghost start = *self;
        for i in 0..s.len()
            invariant
                self.missing_folders@ == start.missing_folders@ + missing_marks(s@.take(i as int)).folders,
                self.missing_files@ == start.missing_files@ + missing_marks(s@.take(i as int)).files,
                self.added_folders == start.added_folders,
                self.added_files == start.added_files,
                self.modified_files == start.modified_files,
                self.mtime_fix == start.mtime_fix,
                self.renamed_files == start.renamed_files,
        {
            let c = &s[i];
            assert(s@.take(i + 1).drop_last() =~= s@.take(i as int));
            assert(s@.take(i + 1).last() == *c);
            if c.is_dir {
                assert(decreases_to!(s => s@[i as int].children));
                self.mark_as_missing(&c.children);
                self.missing_folders.push(info(c));
            } else {
                self.missing_files.push(info(c));
            }
            assert(self.missing_folders@ =~= start.missing_folders@ + missing_marks(s@.take(i + 1)).folders);
            assert(self.missing_files@ =~= start.missing_files@ + missing_marks(s@.take(i + 1)).files);
        }
        assert(s@.take(s@.len() as int) =~= s@);
    }

    fn mark_entry_missing(&mut self, c: &FileEntry)
        ensures
            final(self).missing_folders@ == old(self).missing_folders@ + missing_marks(seq![*c]).folders,
            final(self).missing_files@ == old(self).missing_files@ + missing_marks(seq![*c]).files,
            final(self).added_folders == old(self).added_folders,
            final(self).added_files == old(self).added_files,
            final(self).modified_files == old(self).modified_files,
            final(self).mtime_fix == old(self).mtime_fix,
            final(self).renamed_files == old(self).renamed_files,
    {
        assert(seq![*c].drop_last() =~= Seq::<FileEntry>::empty());
        assert(missing_marks(seq![*c].drop_last()) == no_marks());
        if c.is_dir {
            self.mark_as_missing(&c.children);
            self.missing_folders.push(info(c));
        } else {
            self.missing_files.push(info(c));
        }
        assert(self.missing_folders@ =~= old(self).missing_folders@ + missing_marks(seq![*c]).folders);
        assert(self.missing_files@ =~= old(self).missing_files@ + missing_marks(seq![*c]).files);
    }

    /// Finds the missing entries of an old directory's contents `ocs`
    /// against a new directory's contents `ncs`.
    fn find_missing(&mut self, ocs: &Vec<FileEntry>, ncs: &Vec<FileEntry>)
        ensures
            final(self).missing_folders@ == old(self).missing_folders@ + find_missing_marks(ocs@, ncs@).folders,
            final(self).missing_files@ == old(self).missing_files@ + find_missing_marks(ocs@, ncs@).files,
            final(self).added_folders == old(self).added_folders,
            final(self).added_files == old(self).added_files,
            final(self).modified_files == old(self).modified_files,
            final(self).mtime_fix == old(self).mtime_fix,
            final(self).renamed_files == old(self).renamed_files,
        decreases ocs,
    {
        let ghost start = *self;
        for i in 0..ocs.len()
            invariant
                self.missing_folders@ == start.missing_folders@ + find_missing_marks(ocs@.take(i as int), ncs@).folders,
                self.missing_files@ == start.missing_files@ + find_missing_marks(ocs@.take(i as int), ncs@).files,
                self.added_folders == start.added_folders,
                self.added_files == start.added_files,
                self.modified_files == start.modified_files,
                self.mtime_fix == start.mtime_fix,
                self.renamed_files == start.renamed_files,
        {
            let c = &ocs[i];
            assert(ocs@.take(i + 1).drop_last() =~= ocs@.take(i as int));
            assert(ocs@.take(i + 1).last() == *c);
            let found = match find_child(ncs, &c.name) {
                Some(n) => if n.visible {
                    Some(n)
                } else {
                    None
                },
                None => None,
            };
            match found {
                Some(n) => {
                    if c.is_dir && n.is_dir {
                        assert(decreases_to!(ocs => ocs@[i as int].children));
                        self.find_missing(&c.children, &n.children);
                    } else if c.is_dir != n.is_dir {
                        self.mark_entry_missing(c);
                    }
                },
                None => {
                    self.mark_entry_missing(c);
                },
            }
            assert(self.missing_folders@ =~= start.missing_folders@ + find_missing_marks(ocs@.take(i + 1), ncs@).folders);
            assert(self.missing_files@ =~= start.missing_files@ + find_missing_marks(ocs@.take(i + 1), ncs@).files);
        }
        assert(ocs@.take(ocs@.len() as int) =~= ocs@);
    }

    /// Finds the modified files of a new directory's contents `ncs` against
    /// an old directory's contents `ocs`.
    fn find_modified(&mut self, ncs: &Vec<FileEntry>, ocs: &Vec<FileEntry>)
        ensures
            final(self).modified_files@ == old(self).modified_files@ + find_modified_marks(ncs@, ocs@).modified,
            final(self).mtime_fix@ == old(self).mtime_fix@ + find_modified_marks(ncs@, ocs@).mtime_fix,
            final(self).added_folders == old(self).added_folders,
            final(self).added_files == old(self).added_files,
            final(self).missing_folders == old(self).missing_folders,
            final(self).missing_files == old(self).missing_files,
            final(self).renamed_files == old(self).renamed_files,
        decreases ncs,
    {
        let ghost start = *self;
        for i in 0..ncs.len()
            invariant
                self.modified_files@ == start.modified_files@ + find_modified_marks(ncs@.take(i as int), ocs@).modified,
                self.mtime_fix@ == start.mtime_fix@ + find_modified_marks(ncs@.take(i as int), ocs@).mtime_fix,
                self.added_folders == start.added_folders,
                self.added_files == start.added_files,
                self.missing_folders == start.missing_folders,
                self.missing_files == start.missing_files,
                self.renamed_files == start.renamed_files,
        {
            let c = &ncs[i];
            assert(ncs@.take(i + 1).drop_last() =~= ncs@.take(i as int));
            assert(ncs@.take(i + 1).last() == *c);
            if c.visible {
                match find_child(ocs, &c.name) {
                    Some(o) => {
                        if c.is_dir && o.is_dir {
                            assert(decreases_to!(ncs => ncs@[i as int].children));
                            self.find_modified(&c.children, &o.children);
                        } else if !c.is_dir && !o.is_dir && c.modified != o.modified {
                            if c.hash != o.hash {
                                self.modified_files.push(info(c));
                            } else {
                                self.mtime_fix.push((info(c), info(o)));
                            }
                        }
                    },
                    None => {},
                }
            }
            assert(self.modified_files@ =~= start.modified_files@ + find_modified_marks(ncs@.take(i + 1), ocs@).modified);
            assert(self.mtime_fix@ =~= start.mtime_fix@ + find_modified_marks(ncs@.take(i + 1), ocs@).mtime_fix);
        }
        assert(ncs@.take(ncs@.len() as int) =~= ncs@);
    }

    /// Pairs up missing and added files of the same, unique content as moves,
    /// and removes them from the missing and added files.
    fn detect_file_movings(&mut self)
        ensures
            final(self).renamed_files@ == old(self).renamed_files@ + renames_of(
                old(self).missing_files@,
                old(self).added_files@,
            ),
            final(self).missing_files@ == unmoved_missing(
                old(self).missing_files@,
                renames_of(old(self).missing_files@, old(self).added_files@),
            ),
            final(self).added_files@ == unmoved_added(
                old(self).added_files@,
                renames_of(old(self).missing_files@, old(self).added_files@),
            ),
            final(self).added_folders == old(self).added_folders,
            final(self).modified_files == old(self).modified_files,
            final(self).missing_folders == old(self).missing_folders,
            final(self).mtime_fix == old(self).mtime_fix,
    {
        let ghost missing = self.missing_files@;
        let ghost added = self.added_files@;
        let mut renames: Vec<(FileInfo, FileInfo)> = Vec::new();
        for i in 0..self.missing_files.len()
            invariant
                self.missing_files@ == missing,
                self.added_files@ == added,
                renames@ == renames_in(missing.take(i as int), missing, added),
        {
            let m = &self.missing_files[i];
            assert(missing.take(i + 1).drop_last() =~= missing.take(i as int));
            assert(missing.take(i + 1).last() == *m);
            let c1 = count_hash(&self.missing_files, &m.hash);
            let c2 = count_hash(&self.added_files, &m.hash);
            if c1 == 1 && c2 == 1 {
                match first_with_hash(&self.added_files, &m.hash) {
                    Some(partner) => {
                        renames.push((copy_info(m), partner));
                    },
                    None => {},
                }
            }
        }
        assert(missing.take(missing.len() as int) =~= missing);
        let ghost r = renames@;
        let mut list = Vec::new();
        std::mem::swap(&mut list, &mut self.missing_files);
        let mut kept: Vec<FileInfo> = Vec::new();
        let n = list.len();
        let mut k: usize = 0;
        assert(missing.take(0) =~= Seq::<FileInfo>::empty());
        while list.len() > 0
            invariant
                n == missing.len(),
                k + list@.len() == n,
                list@ == missing.skip(k as int),
                kept@ == unmoved_missing(missing.take(k as int), r),
                renames@ == r,
            decreases list@.len(),
        {
            let m = list.remove(0);
            assert(m == missing[k as int]);
            assert(list@ =~= missing.skip(k + 1));
            assert(missing.take(k + 1).drop_last() =~= missing.take(k as int));
            assert(missing.take(k + 1).last() == m);
            let mut hit = false;
            for j in 0..renames.len()
                invariant
                    renames@ == r,
                    hit == exists|q: int| 0 <= q < j && (#[trigger] r[q]).0.path@ == m.path@,
            {
                if renames[j].0.path == m.path {
                    hit = true;
                }
            }
            if !hit {
                kept.push(m);
            }
            k = k + 1;
        }
        assert(missing.take(k as int) =~= missing);
        self.missing_files = kept;
        let mut alist = Vec::new();
        std::mem::swap(&mut alist, &mut self.added_files);
        let mut akept: Vec<FileInfo> = Vec::new();
        let an = alist.len();
        let mut q: usize = 0;
        assert(added.take(0) =~= Seq::<FileInfo>::empty());
        while alist.len() > 0
            invariant
                an == added.len(),
                q + alist@.len() == an,
                alist@ == added.skip(q as int),
                akept@ == unmoved_added(added.take(q as int), r),
                renames@ == r,
            decreases alist@.len(),
        {
            let a = alist.remove(0);
            assert(a == added[q as int]);
            assert(alist@ =~= added.skip(q + 1));
            assert(added.take(q + 1).drop_last() =~= added.take(q as int));
            assert(added.take(q + 1).last() == a);
            let mut hit = false;
            for j in 0..renames.len()
                invariant
                    renames@ == r,
                    hit == exists|t: int| 0 <= t < j && (#[trigger] r[t]).1.path@ == a.path@,
            {
                if renames[j].1.path == a.path {
                    hit = true;
                }
            }
            if !hit {
                akept.push(a);
            }
            q = q + 1;
        }
        assert(added.take(q as int) =~= added);
        self.added_files = akept;
        let ghost before = self.renamed_files@;
        self.renamed_files.append(&mut renames);
        assert(self.renamed_files@ =~= before + r);
    }

    /// Compares a new directory tree with an old one.
    pub fn diff(newer: &FileEntry, older: &FileEntry) -> (r: Diff)
        requires
            newer.is_dir,
            older.is_dir,
        ensures
            ({
                let (added, missing, modified) = diff_of(*newer, *older);
                &&& r.added_folders@ == added.folders
                &&& r.missing_folders@ == missing.folders
                &&& r.modified_files@ == modified.modified
                &&& r.mtime_fix@ == modified.mtime_fix
                &&& r.renamed_files@ == renames_of(missing.files, added.files)
                &&& r.missing_files@ == unmoved_missing(
                    missing.files,
                    renames_of(missing.files, added.files),
                )
                &&& r.added_files@ == unmoved_added(
                    added.files,
                    renames_of(missing.files, added.files),
                )
            }),
    {
        let mut d = Diff::empty();
        d.find_added(&newer.children, &older.children);
        d.find_missing(&older.children, &newer.children);
        d.find_modified(&newer.children, &older.children);
        d.detect_file_movings();
        assert(d.added_folders@ =~= find_added_marks(newer.children@, older.children@).folders);
        assert(d.missing_folders@ =~= find_missing_marks(older.children@, newer.children@).folders);
        assert(d.modified_files@ =~= find_modified_marks(newer.children@, older.children@).modified);
        assert(d.mtime_fix@ =~= find_modified_marks(newer.children@, older.children@).mtime_fix);
        d
    }

    /// Is there any difference (times alone do not count)?
    pub fn has_diff(&self) -> (r: bool)
        ensures
            r == (self.added_folders@.len() > 0 || self.added_files@.len() > 0
                || self.modified_files@.len() > 0 || self.missing_folders@.len() > 0
                || self.missing_files@.len() > 0 || self.renamed_files@.len() > 0),
    {
        !self.added_folders.is_empty() || !self.added_files.is_empty()
            || !self.modified_files.is_empty() || !self.missing_folders.is_empty()
            || !self.missing_files.is_empty() || !self.renamed_files.is_empty()
    }

    /// The file operations that replay this difference.
    pub fn to_file_changes(&self) -> (r: Vec<FileChange>)
        ensures
            r@ == changes_of(*self),
    {
        let mut out: Vec<FileChange> = Vec::new();
        let ghost p1 = self.missing_files@.map_values(|f: FileInfo| FileChange::DeleteFile { path: f.path });
        for i in 0..self.missing_files.len()
            invariant
                p1 == self.missing_files@.map_values(|f: FileInfo| FileChange::DeleteFile { path: f.path }),
                out@ == p1.take(i as int),
        {
            out.push(FileChange::DeleteFile { path: copy_string(&self.missing_files[i].path) });
            assert(out@ =~= p1.take(i + 1));
        }
        assert(p1.take(p1.len() as int) =~= p1);
        let ghost b1 = out@;
        let ghost p2 = self.added_folders@.map_values(|f: FileInfo| FileChange::CreateFolder { path: f.path });
        for i in 0..self.added_folders.len()
            invariant
                p2 == self.added_folders@.map_values(|f: FileInfo| FileChange::CreateFolder { path: f.path }),
                out@ == b1 + p2.take(i as int),
        {
            out.push(FileChange::CreateFolder { path: copy_string(&self.added_folders[i].path) });
            assert(out@ =~= b1 + p2.take(i + 1));
        }
        assert(p2.take(p2.len() as int) =~= p2);
        let ghost b2 = out@;
        let ghost p3 = self.renamed_files@.map_values(
            |p: (FileInfo, FileInfo)| FileChange::MoveFile { from: p.0.path, to: p.1.path },
        );
        for i in 0..self.renamed_files.len()
            invariant
                p3 == self.renamed_files@.map_values(
                    |p: (FileInfo, FileInfo)| FileChange::MoveFile { from: p.0.path, to: p.1.path },
                ),
                out@ == b2 + p3.take(i as int),
        {
            let pair = &self.renamed_files[i];
            out.push(FileChange::MoveFile { from: copy_string(&pair.0.path), to: copy_string(&pair.1.path) });
            assert(out@ =~= b2 + p3.take(i + 1));
        }
        assert(p3.take(p3.len() as int) =~= p3);
        let ghost b3 = out@;
        let ghost p4 = self.added_files@.map_values(|f: FileInfo| update_of(f));
        for i in 0..self.added_files.len()
            invariant
                p4 == self.added_files@.map_values(|f: FileInfo| update_of(f)),
                out@ == b3 + p4.take(i as int),
        {
            let f = &self.added_files[i];
            out.push(FileChange::UpdateFile {
                path: copy_string(&f.path),
                hash: copy_string(&f.hash),
                len: f.len,
                modified: f.modified,
                offset: 0,
                external_source: None,
            });
            assert(out@ =~= b3 + p4.take(i + 1));
        }
        assert(p4.take(p4.len() as int) =~= p4);
        let ghost b4 = out@;
        let ghost p5 = self.modified_files@.map_values(|f: FileInfo| update_of(f));
        for i in 0..self.modified_files.len()
            invariant
                p5 == self.modified_files@.map_values(|f: FileInfo| update_of(f)),
                out@ == b4 + p5.take(i as int),
        {
            let f = &self.modified_files[i];
            out.push(FileChange::UpdateFile {
                path: copy_string(&f.path),
                hash: copy_string(&f.hash),
                len: f.len,
                modified: f.modified,
                offset: 0,
                external_source: None,
            });
            assert(out@ =~= b4 + p5.take(i + 1));
        }
        assert(p5.take(p5.len() as int) =~= p5);
        let ghost b5 = out@;
        let ghost p6 = self.missing_folders@.map_values(|f: FileInfo| FileChange::DeleteFolder { path: f.path });
        for i in 0..self.missing_folders.len()
            invariant
                p6 == self.missing_folders@.map_values(|f: FileInfo| FileChange::DeleteFolder { path: f.path }),
                out@ == b5 + p6.take(i as int),
        {
            out.push(FileChange::DeleteFolder { path: copy_string(&self.missing_folders[i].path) });
            assert(out@ =~= b5 + p6.take(i + 1));
        }
        assert(p6.take(p6.len() as int) =~= p6);
        assert(out@ =~= changes_of(*self));
        out
    }
}

// ---------------------------------------------------------------------------
// A tree against itself
// ---------------------------------------------------------------------------

/// No two entries of a directory have the same name.
pub open spec fn distinct_names(s: Seq<FileEntry>) -> bool {
    forall|i: int, j: int| 0 <= i < j < s.len() ==> (#[trigger] s[i]).name@ != (#[trigger] s[j]).name@
}

/// Entries that the exclusion rules all let through, with distinct names in
/// every directory below them.
pub open spec fn plain_entries(s: Seq<FileEntry>) -> bool
    decreases s,
{
    if s.len() == 0 {
        true
    } else {
        let c = s.last();
        &&& plain_entries(s.drop_last())
        &&& c.visible
        &&& c.is_dir ==> distinct_names(c.children@) && plain_entries(c.children@)
    }
}

proof fn lemma_plain_at(s: Seq<FileEntry>, k: int)
    requires
        plain_entries(s),
        0 <= k < s.len(),
    ensures
        s[k].visible,
        s[k].is_dir ==> distinct_names(s[k].children@) && plain_entries(s[k].children@),
    decreases s.len(),
{
    if k < s.len() - 1 {
        assert(s.drop_last()[k] == s[k]);
        lemma_plain_at(s.drop_last(), k);
    }
}

proof fn lemma_find_own(s: Seq<FileEntry>, k: int)
    requires
        distinct_names(s),
        0 <= k < s.len(),
    ensures
        find_in(s, s[k].name@) == Some(s[k]),
    decreases s.len(),
{
    if k < s.len() - 1 {
        let d = s.drop_last();
        assert(distinct_names(d)) by {
            assert forall|i: int, j: int| 0 <= i < j < d.len() implies (#[trigger] d[i]).name@ != (
            #[trigger] d[j]).name@ by {
                assert(d[i] == s[i] && d[j] == s[j]);
            }
        }
        assert(d[k] == s[k]);
        lemma_find_own(d, k);
    } else {
        lemma_find_absent(s.drop_last(), s[k].name@);
    }
}

proof fn lemma_find_absent(s: Seq<FileEntry>, name: Seq<char>)
    requires
        forall|i: int| 0 <= i < s.len() ==> (#[trigger] s[i]).name@ != name,
    ensures
        find_in(s, name) is None,
    decreases s.len(),
{
    if s.len() > 0 {
        assert forall|i: int| 0 <= i < s.len() - 1 implies (#[trigger] s.drop_last()[i]).name@ != name by {
            assert(s.drop_last()[i] == s[i]);
        }
        lemma_find_absent(s.drop_last(), name);
    }
}

proof fn lemma_nothing_against_itself(prefix: Seq<FileEntry>, all: Seq<FileEntry>)
    requires
        plain_entries(all),
        distinct_names(all),
        prefix.len() <= all.len(),
        prefix == all.take(prefix.len() as int),
    ensures
        find_added_marks(prefix, all) == no_marks(),
        find_missing_marks(prefix, all) == no_marks(),
        find_modified_marks(prefix, all) == (ModMarks { modified: Seq::empty(), mtime_fix: Seq::empty() }),
    decreases prefix,
{
    if prefix.len() > 0 {
        let n = prefix.len() - 1;
        let c = prefix.last();
        assert(c == all[n]);
        assert(prefix.drop_last() == all.take(n)) by {
            assert(prefix.drop_last() =~= all.take(n));
        }
        lemma_nothing_against_itself(prefix.drop_last(), all);
        lemma_plain_at(all, n);
        lemma_find_own(all, n);
        if c.is_dir {
            assert(c.children@.take(c.children@.len() as int) =~= c.children@);
            lemma_nothing_against_itself(c.children@, c.children@);
        }
        assert(join(no_marks(), no_marks()) =~= no_marks()) by {
            assert(join(no_marks(), no_marks()).folders =~= Seq::<FileInfo>::empty());
            assert(join(no_marks(), no_marks()).files =~= Seq::<FileInfo>::empty());
        }
        let empty_mod = ModMarks { modified: Seq::<FileInfo>::empty(), mtime_fix: Seq::<(FileInfo, FileInfo)>::empty() };
        assert(join_mod(empty_mod, empty_mod) == empty_mod) by {
            assert(join_mod(empty_mod, empty_mod).modified =~= Seq::<FileInfo>::empty());
            assert(join_mod(empty_mod, empty_mod).mtime_fix =~= Seq::<(FileInfo, FileInfo)>::empty());
        }
    }
}

/// A tree compared with itself shows no difference, when the exclusion rules
/// let all its entries through and no directory holds two entries of the same
/// name: nothing is added, missing, modified or moved.
pub proof fn law_tree_against_itself(tree: FileEntry)
    requires
        tree.is_dir,
        distinct_names(tree.children@),
        plain_entries(tree.children@),
    ensures
        diff_of(tree, tree).0 == no_marks(),
        diff_of(tree, tree).1 == no_marks(),
        diff_of(tree, tree).2 == (ModMarks { modified: Seq::empty(), mtime_fix: Seq::empty() }),
        renames_of(diff_of(tree, tree).1.files, diff_of(tree, tree).0.files).len() == 0,
{
    let c = tree.children@;
    assert(c.take(c.len() as int) =~= c);
    lemma_nothing_against_itself(c, c);
}

// ---------------------------------------------------------------------------
// Describing a difference
// ---------------------------------------------------------------------------

/// One line per entry: the operation's label, then the path.
pub open spec fn labelled_lines(label: Seq<char>, infos: Seq<FileInfo>) -> Seq<Seq<char>> {
    infos.map_values(|f: FileInfo| label + f.path@)
}

/// One line per move: the label, the old path, ` -> ` and the new path.
pub open spec fn move_lines(moves: Seq<(FileInfo, FileInfo)>) -> Seq<Seq<char>> {
    moves.map_values(|m: (FileInfo, FileInfo)| "移动文件: "@ + m.0.path@ + " -> "@ + m.1.path@)
}

/// The lines of a detailed listing: deleted files, created directories, moves,
/// added files, modified files, deleted directories.
pub open spec fn listing_lines(d: Diff) -> Seq<Seq<char>> {
    labelled_lines("删除文件: "@, d.missing_files@) + labelled_lines("创建目录: "@, d.added_folders@)
        + move_lines(d.renamed_files@) + labelled_lines("更新文件: "@, d.added_files@)
        + labelled_lines("修改文件: "@, d.modified_files@) + labelled_lines(
        "删除目录: "@,
        d.missing_folders@,
    )
}

fn push_labelled(lines: &mut Vec<String>, label: &str, infos: &Vec<FileInfo>)
    ensures
        string_views(final(lines)@) == string_views(old(lines)@) + labelled_lines(label@, infos@),
{
    let ghost start = string_views(lines@);
    for i in 0..infos.len()
        invariant
            string_views(lines@) == start + labelled_lines(label@, infos@.take(i as int)),
    {
        let mut line = label.to_owned();
        push_str(&mut line, infos[i].path.as_str());
        let ghost before = lines@;
        lines.push(line);
        assert(string_views(lines@) =~= string_views(before).push(line@));
        assert(labelled_lines(label@, infos@.take(i + 1)) =~= labelled_lines(label@, infos@.take(i as int)).push(
            label@ + infos@[i as int].path@,
        ));
    }
    assert(infos@.take(infos@.len() as int) =~= infos@);
}

fn push_moves(lines: &mut Vec<String>, moves: &Vec<(FileInfo, FileInfo)>)
    ensures
        string_views(final(lines)@) == string_views(old(lines)@) + move_lines(moves@),
{
    let ghost start = string_views(lines@);
    for i in 0..moves.len()
        invariant
            string_views(lines@) == start + move_lines(moves@.take(i as int)),
    {
        let mut line = "移动文件: ".to_owned();
        push_str(&mut line, moves[i].0.path.as_str());
        push_str(&mut line, " -> ");
        push_str(&mut line, moves[i].1.path.as_str());
        let ghost before = lines@;
        lines.push(line);
        assert(string_views(lines@) =~= string_views(before).push(line@));
        assert(move_lines(moves@.take(i + 1)) =~= move_lines(moves@.take(i as int)).push(
            "移动文件: "@ + moves@[i as int].0.path@ + " -> "@ + moves@[i as int].1.path@,
        ));
    }
    assert(moves@.take(moves@.len() as int) =~= moves@);
}

impl Diff {
    /// The counts of the difference (`Display`): `Diff (创建目录: N, 更新文件: N,
    /// 修改文件: N, 删除目录: N, 删除文件: N, 移动文件: N)`.
    pub fn summary(&self) -> (r: String)
        ensures
            r@ == "Diff (创建目录: "@ + dec(self.added_folders@.len()) + ", 更新文件: "@ + dec(
                self.added_files@.len(),
            ) + ", 修改文件: "@ + dec(self.modified_files@.len()) + ", 删除目录: "@ + dec(
                self.missing_folders@.len(),
            ) + ", 删除文件: "@ + dec(self.missing_files@.len()) + ", 移动文件: "@ + dec(
                self.renamed_files@.len(),
            ) + ")"@,
    {
        let mut s = "Diff (创建目录: ".to_owned();
        push_str(&mut s, decimal(self.added_folders.len() as u64).as_str());
        push_str(&mut s, ", 更新文件: ");
        push_str(&mut s, decimal(self.added_files.len() as u64).as_str());
        push_str(&mut s, ", 修改文件: ");
        push_str(&mut s, decimal(self.modified_files.len() as u64).as_str());
        push_str(&mut s, ", 删除目录: ");
        push_str(&mut s, decimal(self.missing_folders.len() as u64).as_str());
        push_str(&mut s, ", 删除文件: ");
        push_str(&mut s, decimal(self.missing_files.len() as u64).as_str());
        push_str(&mut s, ", 移动文件: ");
        push_str(&mut s, decimal(self.renamed_files.len() as u64).as_str());
        push_str(&mut s, ")");
        s
    }
}

impl Diff {
    /// The detailed listing of the difference (`Debug`): one line per entry,
    /// as `listing_lines` orders them.
    pub fn listing(&self) -> (r: String)
        ensures
            r@ == joined(listing_lines(*self), "\n"@),
    {
        let mut lines: Vec<String> = Vec::new();
        push_labelled(&mut lines, "删除文件: ", &self.missing_files);
        push_labelled(&mut lines, "创建目录: ", &self.added_folders);
        push_moves(&mut lines, &self.renamed_files);
        push_labelled(&mut lines, "更新文件: ", &self.added_files);
        push_labelled(&mut lines, "修改文件: ", &self.modified_files);
        push_labelled(&mut lines, "删除目录: ", &self.missing_folders);
        assert(string_views(lines@) =~= listing_lines(*self));
        join_strings(&lines, "\n")
    }
}

/// Is `e` an entry of the tree `s` that the exclusion rules let through: it
/// is visible, and so is every directory above it?
pub open spec fn in_visible_tree(s: Seq<FileEntry>, e: FileEntry) -> bool
    decreases s,
{
    if s.len() == 0 {
        false
    } else {
        let c = s.last();
        in_visible_tree(s.drop_last(), e) || (c.visible && (c == e || (c.is_dir && in_visible_tree(
            c.children@,
            e,
        ))))
    }
}

/// Is `f` what the difference records of a file of the tree `s` that the
/// exclusion rules let through?
pub open spec fn visible_file_info(s: Seq<FileEntry>, f: FileInfo) -> bool {
    exists|e: FileEntry| #[trigger] in_visible_tree(s, e) && !e.is_dir && info_of(e) == f
}

proof fn lemma_modified_visible(ncs: Seq<FileEntry>, ocs: Seq<FileEntry>)
    ensures
        forall|k: int|
            0 <= k < find_modified_marks(ncs, ocs).modified.len() ==> visible_file_info(
                ncs,
                #[trigger] find_modified_marks(ncs, ocs).modified[k],
            ),
        forall|k: int|
            0 <= k < find_modified_marks(ncs, ocs).mtime_fix.len() ==> visible_file_info(
                ncs,
                (#[trigger] find_modified_marks(ncs, ocs).mtime_fix[k]).0,
            ),
    decreases ncs,
{
    if ncs.len() > 0 {
        let c = ncs.last();
        let p = ncs.drop_last();
        lemma_modified_visible(p, ocs);
        let rest = find_modified_marks(p, ocs);
        let all = find_modified_marks(ncs, ocs);
        if c.visible {
            match find_in(ocs, c.name@) {
                Some(o) => {
                    if c.is_dir && o.is_dir {
                        lemma_modified_visible(c.children@, o.children@);
                    }
                },
                None => {},
            }
        }
        assert forall|k: int| 0 <= k < all.modified.len() implies visible_file_info(
            ncs,
            #[trigger] all.modified[k],
        ) by {
            if k < rest.modified.len() {
                assert(all.modified[k] == rest.modified[k]);
                assert(visible_file_info(p, rest.modified[k]));
                let e = choose|e: FileEntry| #[trigger] in_visible_tree(p, e) && !e.is_dir && info_of(e) == rest.modified[k];
                assert(in_visible_tree(ncs, e));
            } else {
                let o = find_in(ocs, c.name@)->Some_0;
                if c.is_dir && o.is_dir {
                    let sub = find_modified_marks(c.children@, o.children@);
                    let j = k - rest.modified.len();
                    assert(all.modified[k] == sub.modified[j]);
                    assert(visible_file_info(c.children@, sub.modified[j]));
                    let e = choose|e: FileEntry|
                        #[trigger] in_visible_tree(c.children@, e) && !e.is_dir && info_of(e) == sub.modified[j];
                    assert(in_visible_tree(ncs, e));
                } else {
                    assert(all.modified[k] == info_of(c));
                    assert(in_visible_tree(ncs, c));
                }
            }
        }
        assert forall|k: int| 0 <= k < all.mtime_fix.len() implies visible_file_info(
            ncs,
            (#[trigger] all.mtime_fix[k]).0,
        ) by {
            if k < rest.mtime_fix.len() {
                assert(all.mtime_fix[k] == rest.mtime_fix[k]);
                assert(visible_file_info(p, rest.mtime_fix[k].0));
                let e = choose|e: FileEntry| #[trigger] in_visible_tree(p, e) && !e.is_dir && info_of(e) == rest.mtime_fix[k].0;
                assert(in_visible_tree(ncs, e));
            } else {
                let o = find_in(ocs, c.name@)->Some_0;
                if c.is_dir && o.is_dir {
                    let sub = find_modified_marks(c.children@, o.children@);
                    let j = k - rest.mtime_fix.len();
                    assert(all.mtime_fix[k] == sub.mtime_fix[j]);
                    assert(visible_file_info(c.children@, sub.mtime_fix[j].0));
                    let e = choose|e: FileEntry|
                        #[trigger] in_visible_tree(c.children@, e) && !e.is_dir && info_of(e) == sub.mtime_fix[j].0;
                    assert(in_visible_tree(ncs, e));
                } else {
                    assert(all.mtime_fix[k].0 == info_of(c));
                    assert(in_visible_tree(ncs, c));
                }
            }
        }
    }
}

/// Compared with an old tree, a new tree reports as modified, or as having
/// only a new modification time, only files that the exclusion rules let
/// through: each such report is a file of the new tree that is visible, under
/// visible directories. An excluded file that changed is not reported.
pub proof fn law_modified_files_are_visible(newer: FileEntry, older: FileEntry)
    ensures
        forall|k: int|
            0 <= k < diff_of(newer, older).2.modified.len() ==> visible_file_info(
                newer.children@,
                #[trigger] diff_of(newer, older).2.modified[k],
            ),
        forall|k: int|
            0 <= k < diff_of(newer, older).2.mtime_fix.len() ==> visible_file_info(
                newer.children@,
                (#[trigger] diff_of(newer, older).2.mtime_fix[k]).0,
            ),
{
    lemma_modified_visible(newer.children@, older.children@);
}

/// Is `f` what the difference records of an entry of the tree `s` that the
/// exclusion rules let through?
pub open spec fn visible_entry_info(s: Seq<FileEntry>, f: FileInfo) -> bool {
    exists|e: FileEntry| #[trigger] in_visible_tree(s, e) && info_of(e) == f
}

proof fn lemma_visible_within(s: Seq<FileEntry>, i: int, e: FileEntry)
    requires
        0 <= i < s.len(),
        s[i].visible,
        s[i] == e || (s[i].is_dir && in_visible_tree(s[i].children@, e)),
    ensures
        in_visible_tree(s, e),
    decreases s.len(),
{
    if i < s.len() - 1 {
        lemma_visible_within(s.drop_last(), i, e);
    }
}

proof fn lemma_added_all_visible(s: Seq<FileEntry>)
    ensures
        forall|k: int|
            0 <= k < added_marks(s).files.len() ==> visible_entry_info(s, #[trigger] added_marks(s).files[k]),
        forall|k: int|
            0 <= k < added_marks(s).folders.len() ==> visible_entry_info(
                s,
                #[trigger] added_marks(s).folders[k],
            ),
    decreases s,
{
    if s.len() > 0 {
        let c = s.last();
        let p = s.drop_last();
        lemma_added_all_visible(p);
        if c.visible && c.is_dir {
            lemma_added_all_visible(c.children@);
        }
        let rest = added_marks(p);
        let all = added_marks(s);
        assert forall|k: int| 0 <= k < all.files.len() implies visible_entry_info(s, #[trigger] all.files[k]) by {
            if k < rest.files.len() {
                assert(all.files[k] == rest.files[k]);
                assert(visible_entry_info(p, rest.files[k]));
                let e = choose|e: FileEntry| #[trigger] in_visible_tree(p, e) && info_of(e) == rest.files[k];
                assert(in_visible_tree(s, e));
            } else if c.is_dir {
                let sub = added_marks(c.children@);
                let j = k - rest.files.len();
                assert(all.files[k] == sub.files[j]);
                assert(visible_entry_info(c.children@, sub.files[j]));
                let e = choose|e: FileEntry| #[trigger] in_visible_tree(c.children@, e) && info_of(e) == sub.files[j];
                assert(in_visible_tree(s, e));
            } else {
                assert(all.files[k] == info_of(c));
                assert(in_visible_tree(s, c));
            }
        }
        assert forall|k: int| 0 <= k < all.folders.len() implies visible_entry_info(
            s,
            #[trigger] all.folders[k],
        ) by {
            if k < rest.folders.len() {
                assert(all.folders[k] == rest.folders[k]);
                assert(visible_entry_info(p, rest.folders[k]));
                let e = choose|e: FileEntry| #[trigger] in_visible_tree(p, e) && info_of(e) == rest.folders[k];
                assert(in_visible_tree(s, e));
            } else if k == rest.folders.len() {
                assert(all.folders[k] == info_of(c));
                assert(in_visible_tree(s, c));
            } else {
                let sub = added_marks(c.children@);
                let j = k - rest.folders.len() - 1;
                assert(all.folders[k] == sub.folders[j]);
                assert(visible_entry_info(c.children@, sub.folders[j]));
                let e = choose|e: FileEntry| #[trigger] in_visible_tree(c.children@, e) && info_of(e) == sub.folders[j];
                assert(in_visible_tree(s, e));
            }
        }
    }
}

proof fn lemma_found_added_visible(ncs: Seq<FileEntry>, ocs: Seq<FileEntry>)
    ensures
        forall|k: int|
            0 <= k < find_added_marks(ncs, ocs).files.len() ==> visible_entry_info(
                ncs,
                #[trigger] find_added_marks(ncs, ocs).files[k],
            ),
        forall|k: int|
            0 <= k < find_added_marks(ncs, ocs).folders.len() ==> visible_entry_info(
                ncs,
                #[trigger] find_added_marks(ncs, ocs).folders[k],
            ),
    decreases ncs,
{
    if ncs.len() > 0 {
        let c = ncs.last();
        let p = ncs.drop_last();
        lemma_found_added_visible(p, ocs);
        let rest = find_added_marks(p, ocs);
        let all = find_added_marks(ncs, ocs);
        let one = seq![c];
        lemma_added_all_visible(one);
        assert(one.drop_last() =~= Seq::<FileEntry>::empty());
        match find_in(ocs, c.name@) {
            Some(o) => {
                if c.visible && c.is_dir && o.is_dir {
                    lemma_found_added_visible(c.children@, o.children@);
                }
            },
            None => {},
        }
        assert forall|e: FileEntry| c.visible && #[trigger] in_visible_tree(one, e) implies in_visible_tree(ncs, e) by {
            assert(one.last() == c);
            assert(!in_visible_tree(one.drop_last(), e));
            lemma_visible_within(ncs, ncs.len() - 1, e);
        }
        assert forall|k: int| 0 <= k < all.files.len() implies visible_entry_info(ncs, #[trigger] all.files[k]) by {
            if k < rest.files.len() {
                assert(all.files[k] == rest.files[k]);
                assert(visible_entry_info(p, rest.files[k]));
                let e = choose|e: FileEntry| #[trigger] in_visible_tree(p, e) && info_of(e) == rest.files[k];
                assert(in_visible_tree(ncs, e));
            } else {
                let j = k - rest.files.len();
                match find_in(ocs, c.name@) {
                    Some(o) => {
                        if c.is_dir && o.is_dir {
                            let sub = find_added_marks(c.children@, o.children@);
                            assert(all.files[k] == sub.files[j]);
                            assert(visible_entry_info(c.children@, sub.files[j]));
                            let e = choose|e: FileEntry|
                                #[trigger] in_visible_tree(c.children@, e) && info_of(e) == sub.files[j];
                            lemma_visible_within(ncs, ncs.len() - 1, e);
                        } else {
                            let sub = added_marks(one);
                            assert(all.files[k] == sub.files[j]);
                            assert(visible_entry_info(one, sub.files[j]));
                            let e = choose|e: FileEntry| #[trigger] in_visible_tree(one, e) && info_of(e) == sub.files[j];
                            assert(in_visible_tree(ncs, e));
                        }
                    },
                    None => {
                        let sub = added_marks(one);
                        assert(all.files[k] == sub.files[j]);
                        assert(visible_entry_info(one, sub.files[j]));
                        let e = choose|e: FileEntry| #[trigger] in_visible_tree(one, e) && info_of(e) == sub.files[j];
                        assert(in_visible_tree(ncs, e));
                    },
                }
            }
        }
        assert forall|k: int| 0 <= k < all.folders.len() implies visible_entry_info(
            ncs,
            #[trigger] all.folders[k],
        ) by {
            if k < rest.folders.len() {
                assert(all.folders[k] == rest.folders[k]);
                assert(visible_entry_info(p, rest.folders[k]));
                let e = choose|e: FileEntry| #[trigger] in_visible_tree(p, e) && info_of(e) == rest.folders[k];
                assert(in_visible_tree(ncs, e));
            } else {
                let j = k - rest.folders.len();
                match find_in(ocs, c.name@) {
                    Some(o) => {
                        if c.is_dir && o.is_dir {
                            let sub = find_added_marks(c.children@, o.children@);
                            assert(all.folders[k] == sub.folders[j]);
                            assert(visible_entry_info(c.children@, sub.folders[j]));
                            let e = choose|e: FileEntry|
                                #[trigger] in_visible_tree(c.children@, e) && info_of(e) == sub.folders[j];
                            lemma_visible_within(ncs, ncs.len() - 1, e);
                        } else {
                            let sub = added_marks(one);
                            assert(all.folders[k] == sub.folders[j]);
                            assert(visible_entry_info(one, sub.folders[j]));
                            let e = choose|e: FileEntry| #[trigger] in_visible_tree(one, e) && info_of(e) == sub.folders[j];
                            assert(in_visible_tree(ncs, e));
                        }
                    },
                    None => {
                        let sub = added_marks(one);
                        assert(all.folders[k] == sub.folders[j]);
                        assert(visible_entry_info(one, sub.folders[j]));
                        let e = choose|e: FileEntry| #[trigger] in_visible_tree(one, e) && info_of(e) == sub.folders[j];
                        assert(in_visible_tree(ncs, e));
                    },
                }
            }
        }
    }
}

/// Compared with an old tree, a new tree reports as added only entries that
/// the exclusion rules let through: each added file or folder is an entry of
/// the new tree that is visible, under visible directories.
pub proof fn law_added_entries_are_visible(newer: FileEntry, older: FileEntry)
    ensures
        forall|k: int|
            0 <= k < diff_of(newer, older).0.files.len() ==> visible_entry_info(
                newer.children@,
                #[trigger] diff_of(newer, older).0.files[k],
            ),
        forall|k: int|
            0 <= k < diff_of(newer, older).0.folders.len() ==> visible_entry_info(
                newer.children@,
                #[trigger] diff_of(newer, older).0.folders[k],
            ),
{
    lemma_found_added_visible(newer.children@, older.children@);
}

} // verus!
