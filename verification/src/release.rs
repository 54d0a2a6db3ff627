//! Naming the client's release artifacts and the startlist shipped with them.
use vstd::prelude::*;

use crate::path_model::{components, extension, path_components, path_extension};
use crate::text::{
    char_is_alnum, chars_contains, chars_eq_ignore_case, chars_of, contains_seq, eq_ignore_case,
    is_alnum, lower_chars, lower_seq, push_str, str_eq_ignore_case, string_of, trim, trim_chars,
};

verus! {

/// A character kept in a file name: ASCII letters and digits, `.`, `-`, `_`.
pub open spec fn label_char(c: char) -> char {
    if is_alnum(c) || c == '.' || c == '-' || c == '_' {
        c
    } else {
        '-'
    }
}

/// The label trimmed, without one leading `v`, with every other character
/// than `[A-Za-z0-9._-]` replaced by `-`.
pub open spec fn release_label(value: Seq<char>) -> Seq<char> {
    let t = trim(value);
    let body = if t.len() > 0 && t[0] == 'v' {
        t.drop_first()
    } else {
        t
    };
    body.map_values(|c: char| label_char(c))
}

/// Makes a version label safe for Windows file names.
pub fn normalize_version_label(value: &str) -> (r: String)
    ensures
        r@ == release_label(value@),
{
    let t = trim_chars(&chars_of(value));
    let start: usize = if t.len() > 0 && t[0] == 'v' {
        1
    } else {
        0
    };
    let ghost body = if t@.len() > 0 && t@[0] == 'v' {
        t@.drop_first()
    } else {
        t@
    };
    assert(body =~= t@.subrange(start as int, t@.len() as int));
    let mut out: Vec<char> = Vec::new();
    let mut i = start;
    while i < t.len()
        invariant
            start <= i <= t@.len(),
            body == t@.subrange(start as int, t@.len() as int),
            out@ == body.take(i - start).map_values(|c: char| label_char(c)),
        decreases t@.len() - i,
    {
        let c = t[i];
        let kept = if char_is_alnum(c) || c == '.' || c == '-' || c == '_' {
            c
        } else {
            '-'
        };
        out.push(kept);
        assert(body.take(i + 1 - start) =~= body.take(i - start).push(c));
        assert(out@ =~= body.take(i + 1 - start).map_values(|c: char| label_char(c)));
        i = i + 1;
    }
    assert(body.take(t@.len() - start) =~= body);
    string_of(&out)
}

/// A startlist entry: one path component with an `exe` extension in any case.
pub open spec fn safe_executable(name: Seq<char>) -> bool {
    name.len() > 0 && components(name).len() == 1 && match extension(name) {
        Some(e) => eq_ignore_case(e, "exe"@),
        None => false,
    }
}

pub open spec fn names_view(v: Seq<String>) -> Seq<Seq<char>> {
    v.map_values(|s: String| s@)
}

/// Appends `name` to the startlist when it is a safe executable not seen yet
/// without ASCII case; `seen` holds the lowercase names taken so far.
pub fn push_safe_executable(names: &mut Vec<String>, seen: &mut Vec<String>, name: &str)
    ensures
        (names_view(final(names)@), names_view(final(seen)@)) == offer(
            (names_view(old(names)@), names_view(old(seen)@)),
            name@,
        ),
{
    let cs = chars_of(name);
    if cs.len() == 0 {
        return;
    }
    let comps = path_components(&cs);
    if comps.len() != 1 {
        return;
    }
    let ext = match path_extension(&cs) {
        Some(e) => e,
        None => return,
    };
    if !chars_eq_ignore_case(&ext, &chars_of("exe")) {
        return;
    }
    let key = string_of(&lower_chars(&cs));
    for k in 0..seen.len()
        invariant
            key@ == lower_seq(name@),
            forall|j: int| 0 <= j < k ==> #[trigger] names_view(seen@)[j] != key@,
    {
        assert(names_view(seen@)[k as int] == seen@[k as int]@);
        if seen[k] == key {
            return;
        }
    }
    let ghost before_seen = names_view(seen@);
    let ghost before_names = names_view(names@);
    seen.push(key);
    names.push(name.to_owned());
    assert(names_view(seen@) =~= before_seen.push(lower_seq(name@)));
    assert(names_view(names@) =~= before_names.push(name@));
}

/// The names and seen keys after offering `name` to the startlist.
pub open spec fn offer(st: (Seq<Seq<char>>, Seq<Seq<char>>), name: Seq<char>) -> (
    Seq<Seq<char>>,
    Seq<Seq<char>>,
) {
    if safe_executable(name) && !st.1.contains(lower_seq(name)) {
        (st.0.push(name), st.1.push(lower_seq(name)))
    } else {
        st
    }
}

/// The fixed name of the updater, which old loaders start.
pub open spec fn fixed_updater_name() -> Seq<char> {
    "AutoUpdateClient.exe"@
}

/// Offers each of `names` in turn, except the fixed updater name (in any
/// ASCII case), which is kept for the end of the list.
pub open spec fn offer_previous(st: (Seq<Seq<char>>, Seq<Seq<char>>), names: Seq<Seq<char>>) -> (
    Seq<Seq<char>>,
    Seq<Seq<char>>,
)
    decreases names.len(),
{
    if names.len() == 0 {
        st
    } else {
        let rest = offer_previous(st, names.drop_last());
        if eq_ignore_case(names.last(), fixed_updater_name()) {
            rest
        } else {
            offer(rest, names.last())
        }
    }
}

/// The startlist shipped with a release, newest first: the new executable,
/// then the previous list's safe entries (trimmed) other than the fixed
/// updater name, then the fixed name `AutoUpdateClient.exe` last; each name
/// once without ASCII case.
pub open spec fn release_names(executable: Seq<char>, previous_lines: Seq<String>) -> Seq<Seq<char>> {
    let first = offer((Seq::empty(), Seq::empty()), executable);
    let middle = offer_previous(first, previous_lines.map_values(|l: String| trim(l@)));
    offer(middle, fixed_updater_name()).0
}

pub fn release_startlist(executable_name: &str, previous_lines: &Vec<String>) -> (r: Vec<String>)
    ensures
        names_view(r@) == release_names(executable_name@, previous_lines@),
{
    let mut names: Vec<String> = Vec::new();
    let mut seen: Vec<String> = Vec::new();
    assert(names_view(names@) =~= Seq::<Seq<char>>::empty());
    assert(names_view(seen@) =~= Seq::<Seq<char>>::empty());
    push_safe_executable(&mut names, &mut seen, executable_name);
    let ghost first = (names_view(names@), names_view(seen@));
    let ghost ls = previous_lines@.map_values(|l: String| trim(l@));
    for i in 0..previous_lines.len()
        invariant
            ls == previous_lines@.map_values(|l: String| trim(l@)),
            (names_view(names@), names_view(seen@)) == offer_previous(first, ls.take(i as int)),
    {
        let t = string_of(&trim_chars(&chars_of(previous_lines[i].as_str())));
        assert(ls.take(i + 1).drop_last() =~= ls.take(i as int));
        assert(ls.take(i + 1).last() == t@);
        if !str_eq_ignore_case(t.as_str(), "AutoUpdateClient.exe") {
            push_safe_executable(&mut names, &mut seen, t.as_str());
        }
    }
    assert(ls.take(ls.len() as int) =~= ls);
    push_safe_executable(&mut names, &mut seen, "AutoUpdateClient.exe");
    names
}

proof fn lemma_split_without_separator(s: Seq<char>, sep: char)
    requires
        forall|i: int| 0 <= i < s.len() ==> s[i] != sep,
    ensures
        crate::text::split_on(s, sep) == seq![s],
    decreases s.len(),
{
    if s.len() > 0 {
        let p = s.drop_last();
        assert forall|i: int| 0 <= i < p.len() implies p[i] != sep by {
            assert(p[i] == s[i]);
        }
        lemma_split_without_separator(p, sep);
        assert(s.last() != sep);
        assert(p.push(s.last()) =~= s);
        assert(seq![p].update(0, seq![p].last().push(s.last())) =~= seq![s]);
    } else {
        assert(s =~= Seq::<char>::empty());
    }
}

/// A single file name with an `exe` extension is a startlist entry.
proof fn lemma_plain_exe_is_safe(s: Seq<char>, dot: int)
    requires
        0 < dot < s.len(),
        s[dot] == '.',
        s.subrange(dot + 1, s.len() as int) == "exe"@,
        forall|i: int| 0 <= i < s.len() ==> s[i] != '/',
        forall|i: int| dot < i < s.len() ==> s[i] != '.',
        s != seq!['.'],
        s != seq!['.', '.'],
    ensures
        safe_executable(s),
{
    lemma_split_without_separator(s, '/');
    let parts = crate::text::split_on(s, '/');
    assert(parts.drop_last() =~= Seq::<Seq<char>>::empty());
    assert(parts.len() == 1 && parts.last() == s);
    assert(crate::path_model::parts_components(parts.drop_last()) =~= Seq::<crate::path_model::Component>::empty());
    assert(crate::path_model::part_component(s, true) == seq![crate::path_model::Component::Normal(s)]);
    assert(crate::path_model::parts_components(parts) =~= seq![crate::path_model::Component::Normal(s)]);
    assert(components(s) =~= seq![crate::path_model::Component::Normal(s)]);
    crate::path_model::lemma_last_dot(s);
    match crate::path_model::last_dot(s) {
        Some(k) => {
            if k < dot {
                assert(s[dot] != '.');
            }
            if k > dot {
                assert(s[k] != '.');
            }
        },
        None => {
            assert(s[dot] != '.');
        },
    }
    assert(eq_ignore_case("exe"@, "exe"@));
}

proof fn lemma_base_is_safe()
    ensures
        safe_executable("AutoUpdateClient.exe"@),
{
    reveal_strlit("AutoUpdateClient.exe");
    reveal_strlit("exe");
    let s = "AutoUpdateClient.exe"@;
    assert(s.subrange(17, 20) =~= "exe"@);
    lemma_plain_exe_is_safe(s, 16);
}

/// The state of the startlist builder: the seen keys are the lowercase
/// names, one for one.
pub open spec fn offer_state_ok(st: (Seq<Seq<char>>, Seq<Seq<char>>)) -> bool {
    &&& st.0.len() == st.1.len()
    &&& forall|k: int| 0 <= k < st.0.len() ==> #[trigger] st.1[k] == lower_seq(st.0[k])
    &&& forall|i: int, j: int| 0 <= i < j < st.1.len() ==> #[trigger] st.1[i] != #[trigger] st.1[j]
}

proof fn lemma_offer(st: (Seq<Seq<char>>, Seq<Seq<char>>), name: Seq<char>)
    requires
        offer_state_ok(st),
    ensures
        offer_state_ok(offer(st, name)),
        offer(st, name).0.len() >= st.0.len(),
        forall|k: int| 0 <= k < st.0.len() ==> #[trigger] offer(st, name).0[k] == st.0[k],
        safe_executable(name) ==> exists|k: int|
            0 <= k < offer(st, name).0.len() && eq_ignore_case(#[trigger] offer(st, name).0[k], name),
{
    if safe_executable(name) && !st.1.contains(lower_seq(name)) {
        let r = offer(st, name);
        assert(r.0[st.0.len() as int] == name);
        assert(eq_ignore_case(name, name));
        assert forall|i: int, j: int| 0 <= i < j < r.1.len() implies #[trigger] r.1[i]
            != #[trigger] r.1[j] by {
            if j == st.1.len() {
                assert(r.1[i] == st.1[i]);
            }
        }
    } else if safe_executable(name) {
        let k = choose|k: int| 0 <= k < st.1.len() && st.1[k] == lower_seq(name);
        assert(eq_ignore_case(st.0[k], name));
    }
}

proof fn lemma_offer_previous(st: (Seq<Seq<char>>, Seq<Seq<char>>), names: Seq<Seq<char>>)
    requires
        offer_state_ok(st),
    ensures
        offer_state_ok(offer_previous(st, names)),
        offer_previous(st, names).0.len() >= st.0.len(),
        forall|k: int| 0 <= k < st.0.len() ==> #[trigger] offer_previous(st, names).0[k] == st.0[k],
        forall|k: int|
            st.0.len() <= k < offer_previous(st, names).0.len() ==> {
                &&& !eq_ignore_case(#[trigger] offer_previous(st, names).0[k], fixed_updater_name())
                &&& safe_executable(offer_previous(st, names).0[k])
                &&& names.contains(offer_previous(st, names).0[k])
            },
    decreases names.len(),
{
    if names.len() > 0 {
        let p = names.drop_last();
        lemma_offer_previous(st, p);
        let rest = offer_previous(st, p);
        if !eq_ignore_case(names.last(), fixed_updater_name()) {
            lemma_offer(rest, names.last());
        }
        let r = offer_previous(st, names);
        assert forall|k: int| st.0.len() <= k < r.0.len() implies {
            &&& !eq_ignore_case(#[trigger] r.0[k], fixed_updater_name())
            &&& safe_executable(r.0[k])
            &&& names.contains(r.0[k])
        } by {
            if k < rest.0.len() {
                assert(r.0[k] == rest.0[k]);
                let j = choose|j: int| 0 <= j < p.len() && p[j] == rest.0[k];
                assert(names[j] == p[j]);
            } else {
                assert(r.0[k] == names.last());
                assert(names[names.len() - 1] == names.last());
            }
        }
    }
}

/// The startlist shipped with a release, newest first: a safe new executable
/// comes first; unless the new executable is itself the fixed name, the fixed
/// name `AutoUpdateClient.exe` comes last; every entry between them is a
/// previous line, trimmed, that is a safe executable other than the fixed
/// name; and no name is listed twice without ASCII case.
pub proof fn law_release_startlist(executable: Seq<char>, previous_lines: Seq<String>)
    ensures
        safe_executable(executable) ==> release_names(executable, previous_lines).len() > 0
            && release_names(executable, previous_lines)[0] == executable,
        !eq_ignore_case(executable, fixed_updater_name()) ==> release_names(
            executable,
            previous_lines,
        ).len() > 0 && release_names(executable, previous_lines).last() == fixed_updater_name(),
        forall|k: int|
            (if safe_executable(executable) { 1int } else { 0int }) <= k < release_names(
                executable,
                previous_lines,
            ).len() - 1 ==> {
                &&& !eq_ignore_case(#[trigger] release_names(executable, previous_lines)[k], fixed_updater_name())
                &&& safe_executable(release_names(executable, previous_lines)[k])
                &&& exists|j: int|
                    0 <= j < previous_lines.len() && trim(#[trigger] previous_lines[j]@)
                        == release_names(executable, previous_lines)[k]
            },
        forall|i: int, j: int| 0 <= i < j < release_names(executable, previous_lines).len()
            ==> !eq_ignore_case(
            #[trigger] release_names(executable, previous_lines)[i],
            #[trigger] release_names(executable, previous_lines)[j],
        ),
{
    let empty: (Seq<Seq<char>>, Seq<Seq<char>>) = (Seq::empty(), Seq::empty());
    lemma_offer(empty, executable);
    let first = offer(empty, executable);
    let lines = previous_lines.map_values(|l: String| trim(l@));
    lemma_offer_previous(first, lines);
    let middle = offer_previous(first, lines);
    lemma_base_is_safe();
    lemma_offer(middle, fixed_updater_name());
    let fin = offer(middle, fixed_updater_name());
    let lo: int = if safe_executable(executable) { 1int } else { 0int };
    if safe_executable(executable) {
        assert(first.0 =~= seq![executable]);
    } else {
        assert(first.0 =~= Seq::<Seq<char>>::empty());
    }
    if !eq_ignore_case(executable, fixed_updater_name()) {
        if middle.1.contains(lower_seq(fixed_updater_name())) {
            let k = choose|k: int| 0 <= k < middle.1.len() && middle.1[k] == lower_seq(fixed_updater_name());
            assert(middle.1[k] == lower_seq(middle.0[k]));
            if k < first.0.len() {
                assert(middle.0[k] == first.0[k]);
                assert(first.0[k] == executable);
            }
            assert(eq_ignore_case(middle.0[k], fixed_updater_name()));
        }
        assert(fin.0 == middle.0.push(fixed_updater_name()));
    }
    assert forall|k: int| lo <= k < fin.0.len() - 1 implies {
        &&& !eq_ignore_case(#[trigger] fin.0[k], fixed_updater_name())
        &&& safe_executable(fin.0[k])
        &&& exists|j: int| 0 <= j < previous_lines.len() && trim(#[trigger] previous_lines[j]@) == fin.0[k]
    } by {
        assert(k < middle.0.len());
        assert(fin.0[k] == middle.0[k]);
        assert(first.0.len() == lo);
        assert(lines.contains(middle.0[k]));
        let j = choose|j: int| 0 <= j < lines.len() && lines[j] == middle.0[k];
        assert(lines[j] == trim(previous_lines[j]@));
    }
    assert forall|i: int, j: int| 0 <= i < j < fin.0.len() implies !eq_ignore_case(
        #[trigger] fin.0[i],
        #[trigger] fin.0[j],
    ) by {
        assert(fin.1[i] == lower_seq(fin.0[i]));
        assert(fin.1[j] == lower_seq(fin.0[j]));
    }
}

// ---------------------------------------------------------------------------
// The version a release is labelled with, and its artifacts
// ---------------------------------------------------------------------------

/// The label of a release: the `MCUPDATE_VERSION` setting, else the
/// `GITHUB_REF_NAME` setting, else the short commit name when it gives a
/// non-empty label, else `development`; each made safe for file names (which
/// trims it).
pub open spec fn release_version(
    mcupdate_version: Option<Seq<char>>,
    github_ref_name: Option<Seq<char>>,
    commit: Option<Seq<char>>,
) -> Seq<char> {
    match mcupdate_version {
        Some(v) => release_label(v),
        None => match github_ref_name {
            Some(v) => release_label(v),
            None => match commit {
                Some(c) => if release_label(c).len() > 0 {
                    release_label(c)
                } else {
                    "development"@
                },
                None => "development"@,
            },
        },
    }
}

/// Chooses the label of a release from the settings and the commit name
/// (`git rev-parse` output), as `release_version` says.
pub fn release_version_label(
    mcupdate_version: Option<&str>,
    github_ref_name: Option<&str>,
    commit: Option<&str>,
) -> (r: String)
    ensures
        r@ == release_version(
            match mcupdate_version {
                Some(v) => Some(v@),
                None => None,
            },
            match github_ref_name {
                Some(v) => Some(v@),
                None => None,
            },
            match commit {
                Some(v) => Some(v@),
                None => None,
            },
        ),
{
    match mcupdate_version {
        Some(v) => normalize_version_label(v),
        None => match github_ref_name {
            Some(v) => normalize_version_label(v),
            None => match commit {
                Some(c) => {
                    let label = normalize_version_label(c);
                    if label.unicode_len() > 0 {
                        label
                    } else {
                        "development".to_owned()
                    }
                },
                None => "development".to_owned(),
            },
        },
    }
}

/// The file names of a release build: the artifact the compiler writes and
/// its debug symbols (Windows targets only), and the names they are
/// published under.
pub struct ArtifactNames {
    pub is_windows: bool,
    pub artifact: String,
    pub artifact_versioned: String,
    pub symbols: Option<String>,
    pub symbols_versioned: Option<String>,
}

/// `-` turned into `_`.
pub open spec fn underscored(s: Seq<char>) -> Seq<char> {
    s.map_values(|c: char| if c == '-' { '_' } else { c })
}

/// Names the release artifacts of `crate_name`, published as
/// `production_name`, for `rustc_target`.
pub fn artifact_names(
    crate_name: &str,
    production_name: &str,
    version_label: &str,
    rustc_target: &str,
) -> (r: ArtifactNames)
    ensures
        r.is_windows == contains_seq(rustc_target@, "-windows-"@),
        r.artifact@ == crate_name@ + if r.is_windows {
            ".exe"@
        } else {
            Seq::empty()
        },
        r.artifact_versioned@ == production_name@ + "-"@ + version_label@ + "-"@ + rustc_target@
            + if r.is_windows {
            ".exe"@
        } else {
            Seq::empty()
        },
        r.is_windows ==> (r.symbols matches Some(s) && s@ == underscored(crate_name@) + ".pdb"@),
        r.is_windows ==> (r.symbols_versioned matches Some(s) && s@ == production_name@ + "-"@
            + version_label@ + "-"@ + rustc_target@ + ".pdb"@),
        !r.is_windows ==> r.symbols is None && r.symbols_versioned is None,
{
    let is_windows = chars_contains(&chars_of(rustc_target), &chars_of("-windows-"));
    let mut versioned_stem = production_name.to_owned();
    push_str(&mut versioned_stem, "-");
    push_str(&mut versioned_stem, version_label);
    push_str(&mut versioned_stem, "-");
    push_str(&mut versioned_stem, rustc_target);
    let mut artifact = crate_name.to_owned();
    let mut artifact_versioned = crate::text::copy_string(&versioned_stem);
    if is_windows {
        push_str(&mut artifact, ".exe");
        push_str(&mut artifact_versioned, ".exe");
        let cs = chars_of(crate_name);
        let mut us: Vec<char> = Vec::new();
        for i in 0..cs.len()
            invariant
                us@ == underscored(cs@.take(i as int)),
        {
            us.push(if cs[i] == '-' { '_' } else { cs[i] });
            assert(underscored(cs@.take(i + 1)) =~= underscored(cs@.take(i as int)).push(
                if cs@[i as int] == '-' { '_' } else { cs@[i as int] },
            ));
        }
        assert(cs@.take(cs@.len() as int) =~= cs@);
        let mut symbols = string_of(&us);
        push_str(&mut symbols, ".pdb");
        let mut symbols_versioned = versioned_stem;
        push_str(&mut symbols_versioned, ".pdb");
        return ArtifactNames {
            is_windows,
            artifact,
            artifact_versioned,
            symbols: Some(symbols),
            symbols_versioned: Some(symbols_versioned),
        };
    }
    assert(artifact@ =~= crate_name@ + Seq::<char>::empty());
    assert(artifact_versioned@ =~= versioned_stem@ + Seq::<char>::empty());
    ArtifactNames { is_windows, artifact, artifact_versioned, symbols: None, symbols_versioned: None }
}

} // verus!
