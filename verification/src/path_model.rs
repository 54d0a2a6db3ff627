//! A model of how `std::path::Path` reads a `/`-separated path on Unix:
//! its components, its file name and its extension.
use vstd::prelude::*;

use crate::text::{split_chars, split_on, views};

verus! {

/// One component of a path, as `std::path::Component` names it.
pub enum Component {
    RootDir,
    CurDir,
    ParentDir,
    Normal(Seq<char>),
}

/// The executable form of a path component.
pub enum PathComponent {
    RootDir,
    CurDir,
    ParentDir,
    Normal(Vec<char>),
}

impl PathComponent {
    pub open spec fn model(self) -> Component {
        match self {
            PathComponent::RootDir => Component::RootDir,
            PathComponent::CurDir => Component::CurDir,
            PathComponent::ParentDir => Component::ParentDir,
            PathComponent::Normal(n) => Component::Normal(n@),
        }
    }
}

pub open spec fn models(v: Seq<PathComponent>) -> Seq<Component> {
    v.map_values(|c: PathComponent| c.model())
}

/// What one `/`-separated part contributes: nothing for an empty part or an
/// inner `.`, `CurDir` for a leading `.`, `ParentDir` for `..`.
pub open spec fn part_component(part: Seq<char>, first: bool) -> Seq<Component> {
    if part.len() == 0 {
        Seq::empty()
    } else if part == seq!['.'] {
        if first {
            seq![Component::CurDir]
        } else {
            Seq::empty()
        }
    } else if part == seq!['.', '.'] {
        seq![Component::ParentDir]
    } else {
        seq![Component::Normal(part)]
    }
}

pub open spec fn parts_components(parts: Seq<Seq<char>>) -> Seq<Component>
    decreases parts.len(),
{
    if parts.len() == 0 {
        Seq::empty()
    } else {
        parts_components(parts.drop_last()) + part_component(parts.last(), parts.len() == 1)
    }
}

/// `Path::new(p).components()`.
pub open spec fn components(p: Seq<char>) -> Seq<Component> {
    let root = if p.len() > 0 && p[0] == '/' {
        seq![Component::RootDir]
    } else {
        Seq::empty()
    };
    root + parts_components(split_on(p, '/'))
}

fn part_component_exec(part: &Vec<char>, first: bool) -> (r: Option<PathComponent>)
    ensures
        match r {
            Some(c) => part_component(part@, first) == seq![c.model()],
            None => part_component(part@, first) == Seq::<Component>::empty(),
        },
{
    if part.len() == 0 {
        return None;
    }
    if part.len() == 1 && part[0] == '.' {
        assert(part@ =~= seq!['.']);
        return if first {
            Some(PathComponent::CurDir)
        } else {
            None
        };
    }
    assert(part@ != seq!['.']) by {
        if part@.len() == 1 {
            assert(part@[0] != seq!['.'][0]);
        }
    }
    if part.len() == 2 && part[0] == '.' && part[1] == '.' {
        assert(part@ =~= seq!['.', '.']);
        return Some(PathComponent::ParentDir);
    }
    assert(part@ != seq!['.', '.']) by {
        if part@.len() == 2 {
            assert(part@[0] != '.' || part@[1] != '.');
        }
    }
    Some(PathComponent::Normal(part.clone()))
}

/// The components of a path, in order.
pub fn path_components(p: &Vec<char>) -> (r: Vec<PathComponent>)
    ensures
        models(r@) == components(p@),
{
    let mut out: Vec<PathComponent> = Vec::new();
    if p.len() > 0 && p[0] == '/' {
        out.push(PathComponent::RootDir);
    }
    let ghost root = models(out@);
    let parts = split_chars(p, '/');
    let ghost ps = split_on(p@, '/');
    for i in 0..parts.len()
        invariant
            views(parts@) == ps,
            models(out@) == root + parts_components(ps.take(i as int)),
    {
        let ghost before = models(out@);
        assert(ps.take(i + 1).drop_last() =~= ps.take(i as int));
        assert(ps.take(i + 1).last() == parts@[i as int]@);
        match part_component_exec(&parts[i], i == 0) {
            Some(c) => {
                out.push(c);
                assert(models(out@) =~= before + seq![c.model()]);
            },
            None => {
                assert(models(out@) =~= before + Seq::<Component>::empty());
            },
        }
        assert(root + parts_components(ps.take(i + 1)) =~= before + part_component(
            ps.take(i + 1).last(),
            i == 0,
        ));
    }
    assert(ps.take(parts@.len() as int) =~= ps);
    out
}

/// `Path::file_name`: the last component where it is a normal one.
pub open spec fn file_name(p: Seq<char>) -> Option<Seq<char>> {
    let cs = components(p);
    if cs.len() > 0 && cs.last() is Normal {
        Some(cs.last()->Normal_0)
    } else {
        None
    }
}

pub fn path_file_name(p: &Vec<char>) -> (r: Option<Vec<char>>)
    ensures
        match r {
            Some(n) => file_name(p@) == Some(n@),
            None => file_name(p@) is None,
        },
{
    let cs = path_components(p);
    let n = cs.len();
    if n == 0 {
        return None;
    }
    assert(models(cs@).last() == cs@[n - 1].model());
    match &cs[n - 1] {
        PathComponent::Normal(name) => Some(name.clone()),
        _ => None,
    }
}

/// The index of the last `.` in `name`, if any.
pub open spec fn last_dot(name: Seq<char>) -> Option<int>
    decreases name.len(),
{
    if name.len() == 0 {
        None
    } else if name.last() == '.' {
        Some(name.len() - 1)
    } else {
        last_dot(name.drop_last())
    }
}

pub proof fn lemma_last_dot(name: Seq<char>)
    ensures
        match last_dot(name) {
            Some(i) => 0 <= i < name.len() && name[i] == '.' && forall|j: int|
                i < j < name.len() ==> name[j] != '.',
            None => forall|j: int| 0 <= j < name.len() ==> name[j] != '.',
        },
    decreases name.len(),
{
    if name.len() > 0 {
        lemma_last_dot(name.drop_last());
        assert forall|j: int| 0 <= j < name.len() - 1 implies name.drop_last()[j] == name[j] by {}
    }
}

/// The extension of a file name: the text after its last `.`, where that
/// dot is not the first character (`Path::extension`).
pub open spec fn name_extension(name: Seq<char>) -> Option<Seq<char>> {
    match last_dot(name) {
        Some(i) => if i == 0 {
            None
        } else {
            Some(name.subrange(i + 1, name.len() as int))
        },
        None => None,
    }
}

/// `Path::extension`.
pub open spec fn extension(p: Seq<char>) -> Option<Seq<char>> {
    match file_name(p) {
        Some(n) => name_extension(n),
        None => None,
    }
}

pub fn path_extension(p: &Vec<char>) -> (r: Option<Vec<char>>)
    ensures
        match r {
            Some(e) => extension(p@) == Some(e@),
            None => extension(p@) is None,
        },
{
    let name = match path_file_name(p) {
        Some(n) => n,
        None => return None,
    };
    let n = name.len();
    let mut i: usize = n;
    while i > 0
        invariant
            i <= n == name@.len(),
            forall|j: int| i <= j < n ==> name@[j] != '.',
        ensures
            i <= n,
            forall|j: int| i <= j < n ==> name@[j] != '.',
            i == 0 || name@[i - 1] == '.',
        decreases i,
    {
        if name[i - 1] == '.' {
            break;
        }
        i = i - 1;
    }
    proof {
        lemma_last_dot(name@);
    }
    if i == 0 {
        return None;
    }
    let dot = i - 1;
    assert(last_dot(name@) == Some(dot as int)) by {
        lemma_last_dot(name@);
        match last_dot(name@) {
            Some(k) => {
                if k < dot {
                    assert(name@[dot as int] == '.');
                }
                if k > dot {
                    assert(name@[k] != '.');
                }
            },
            None => {
                assert(name@[dot as int] == '.');
            },
        }
    }
    if dot == 0 {
        return None;
    }
    let mut ext: Vec<char> = Vec::new();
    let mut k = i;
    while k < n
        invariant
            i <= k <= n == name@.len(),
            ext@ == name@.subrange(i as int, k as int),
        decreases n - k,
    {
        ext.push(name[k]);
        assert(name@.subrange(i as int, k + 1) =~= name@.subrange(i as int, k as int).push(
            name@[k as int],
        ));
        k = k + 1;
    }
    Some(ext)
}

} // verus!
