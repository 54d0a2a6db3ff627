//! Which disk of the host holds the manager's working directory, and how much
//! of it is used.
use vstd::prelude::*;

use crate::text::{chars_of, chars_starts_with, copy_string, starts_with, string_of};

verus! {

/// A disk as the system lists it.
#[derive(Clone, Debug)]
pub struct DiskEntry {
    pub name: String,
    pub mount_point: String,
    pub total: u64,
    pub available: u64,
}

/// The usage reported for the disk holding a path.
#[derive(Clone, Debug)]
pub struct DiskUsage {
    pub dev: String,
    pub used: u64,
    pub total: u64,
}

/// The space reported, used and total, when no disk holds the path: one pebibyte.
pub const UNKNOWN_DISK_SPACE: u64 = 1125899906842624;

/// `s` with each `\\` pair, read from the left, written as one `\`
/// (`str::replace(r"\\", r"\")`).
pub open spec fn single_backslashes(s: Seq<char>) -> Seq<char>
    decreases s.len(),
{
    if s.len() >= 2 && s[0] == '\\' && s[1] == '\\' {
        seq!['\\'] + single_backslashes(s.subrange(2, s.len() as int))
    } else if s.len() > 0 {
        seq![s[0]] + single_backslashes(s.subrange(1, s.len() as int))
    } else {
        Seq::empty()
    }
}

/// Writes each `\\` pair of `s`, read from the left, as one `\`.
pub fn collapse_backslashes(s: &str) -> (r: String)
    ensures
        r@ == single_backslashes(s@),
{
    let cs = chars_of(s);
    let n = cs.len();
    let mut out: Vec<char> = Vec::new();
    let mut i: usize = 0;
    assert(cs@.subrange(0, n as int) =~= cs@);
    while i < n
        invariant
            n == cs@.len(),
            cs@ == s@,
            i <= n,
            single_backslashes(s@) == out@ + single_backslashes(cs@.subrange(i as int, n as int)),
        decreases n - i,
    {
        let ghost rest = cs@.subrange(i as int, n as int);
        if i + 1 < n && cs[i] == '\\' && cs[i + 1] == '\\' {
            assert(rest.subrange(2, rest.len() as int) =~= cs@.subrange(i + 2, n as int));
            out.push('\\');
            i = i + 2;
        } else {
            assert(rest.subrange(1, rest.len() as int) =~= cs@.subrange(i + 1, n as int));
            out.push(cs[i]);
            i = i + 1;
        }
        assert(single_backslashes(s@) == out@ + single_backslashes(cs@.subrange(i as int, n as int)));
    }
    assert(cs@.subrange(n as int, n as int) =~= Seq::<char>::empty());
    assert(out@ + Seq::<char>::empty() =~= out@);
    string_of(&out)
}

/// Does the disk mounted at `mount_point` hold `path`: does `path` begin
/// with the mount point, its `\\` pairs written as one `\`?
pub open spec fn holds(path: Seq<char>, mount_point: Seq<char>) -> bool {
    starts_with(path, single_backslashes(mount_point))
}

/// Does the disk mounted at `mount_point` hold `path`?
pub fn disk_holds(path: &str, mount_point: &str) -> (r: bool)
    ensures
        r == holds(path@, mount_point@),
{
    let mount = collapse_backslashes(mount_point);
    let p = chars_of(path);
    let m = chars_of(mount.as_str());
    chars_starts_with(&p, &m)
}

/// The last of `disks` that holds `path`, if one does.
pub open spec fn disk_for(path: Seq<char>, disks: Seq<DiskEntry>) -> Option<DiskEntry>
    decreases disks.len(),
{
    if disks.len() == 0 {
        None
    } else if holds(path, disks.last().mount_point@) {
        Some(disks.last())
    } else {
        disk_for(path, disks.drop_last())
    }
}

/// The usage of the last disk that holds `path`, or an unknown disk of one
/// pebibyte, fully used, named `none`, when none does.
pub fn disk_usage(path: &str, disks: &Vec<DiskEntry>) -> (r: DiskUsage)
    requires
        forall|k: int|
            0 <= k < disks@.len() && holds(path@, #[trigger] disks@[k].mount_point@) ==> disks@[k].available
                <= disks@[k].total,
    ensures
        match disk_for(path@, disks@) {
            Some(d) => r.dev@ == d.name@ && r.used == d.total - d.available && r.total == d.total,
            None => r.dev@ == "none"@ && r.used == UNKNOWN_DISK_SPACE && r.total == UNKNOWN_DISK_SPACE,
        },
{
    let mut usage = DiskUsage {
        dev: "none".to_owned(),
        used: UNKNOWN_DISK_SPACE,
        total: UNKNOWN_DISK_SPACE,
    };
    assert(disks@.take(0) =~= Seq::<DiskEntry>::empty());
    for i in 0..disks.len()
        invariant
            forall|k: int|
                0 <= k < disks@.len() && holds(path@, #[trigger] disks@[k].mount_point@)
                    ==> disks@[k].available <= disks@[k].total,
            match disk_for(path@, disks@.take(i as int)) {
                Some(d) => usage.dev@ == d.name@ && usage.used == d.total - d.available && usage.total
                    == d.total,
                None => usage.dev@ == "none"@ && usage.used == UNKNOWN_DISK_SPACE && usage.total
                    == UNKNOWN_DISK_SPACE,
            },
    {
        let d = &disks[i];
        assert(disks@.take(i + 1).drop_last() =~= disks@.take(i as int));
        assert(disks@.take(i + 1).last() == *d);
        if disk_holds(path, d.mount_point.as_str()) {
            usage = DiskUsage { dev: copy_string(&d.name), used: d.total - d.available, total: d.total };
        }
    }
    assert(disks@.take(disks@.len() as int) =~= disks@);
    usage
}

/// `path` without the `\\?\` prefix of a Windows verbatim path.
pub fn without_verbatim_prefix(path: &str) -> (r: String)
    ensures
        starts_with(path@, seq!['\\', '\\', '?', '\\']) ==> r@ == path@.subrange(4, path@.len() as int),
        !starts_with(path@, seq!['\\', '\\', '?', '\\']) ==> r@ == path@,
{
    let cs = chars_of(path);
    let prefix: Vec<char> = vec!['\\', '\\', '?', '\\'];
    if chars_starts_with(&cs, &prefix) {
        let mut out: Vec<char> = Vec::new();
        for i in 4..cs.len()
            invariant
                4 <= cs@.len(),
                cs@ == path@,
                out@ == cs@.subrange(4, i as int),
        {
            out.push(cs[i]);
            assert(out@ =~= cs@.subrange(4, i + 1));
        }
        string_of(&out)
    } else {
        string_of(&cs)
    }
}

} // verus!
