//! Hash deletions that apply to one pack only.
//!
//! A one-shot list names client files to delete by content in the next pack,
//! without registering them as lasting rules. Each entry is checked and stored
//! exactly as `PendingChanges::add_hash_deletion` would store it.
use vstd::prelude::*;

use crate::pending_changes::{
    client_path_form, forced_names, hash_added, hash_deletion_error, hash_names, listed,
    listed_exec, ForcedDeletion, PendingChanges, PendingHashDeletion,
};
use crate::text::{
    chars_of, copy_string, dec, decimal, eq_ignore_case, lower_chars, lower_seq, push_str,
    slash_chars, slash_seq, str_eq_ignore_case, string_of,
};
use crate::version_meta::ClientHashDeletion;

verus! {

/// The key under which a one-shot list refuses repeated paths: `\` replaced by
/// `/`, lower case.
pub open spec fn raw_key(path: Seq<char>) -> Seq<char> {
    lower_seq(slash_seq(path))
}

/// Does entry `k` repeat the key of an earlier entry?
pub open spec fn repeats_earlier(ds: Seq<ClientHashDeletion>, k: int) -> bool {
    exists|j: int| 0 <= j < k && #[trigger] raw_key(ds[j].path@) == raw_key(ds[k].path@)
}

/// Why entry `k` of a one-shot list is refused, if it is.
pub open spec fn one_shot_entry_error(ds: Seq<ClientHashDeletion>, k: int) -> Option<Seq<char>> {
    if repeats_earlier(ds, k) {
        Some("一次性哈希删除清单包含重复路径: "@ + ds[k].path@)
    } else {
        hash_deletion_error(ds[k].path@, ds[k].sha256@, None)
    }
}

/// `states` is the sequence of rules obtained by registering the first `n`
/// entries of `ds` one after the other, starting from `states[0]`.
pub open spec fn registered_in_order(
    states: Seq<PendingChanges>,
    ds: Seq<ClientHashDeletion>,
    n: int,
) -> bool {
    &&& 0 <= n <= ds.len()
    &&& states.len() == n + 1
    &&& forall|k: int|
        0 <= k < n ==> hash_added(
            #[trigger] states[k],
            states[k + 1],
            ds[k].path@,
            ds[k].sha256@,
            ds[k].len,
            None,
        )
}

/// Does `out` list the hash deletions of `hs`, in order, as one-shot entries?
pub open spec fn as_client_deletions(out: Seq<ClientHashDeletion>, hs: Seq<PendingHashDeletion>) -> bool {
    &&& out.len() == hs.len()
    &&& forall|j: int|
        0 <= j < hs.len() ==> {
            &&& (#[trigger] out[j]).path@ == hs[j].path@
            &&& out[j].sha256@ == hs[j].sha256@
            &&& out[j].len == hs[j].len
        }
}

fn raw_key_exec(path: &str) -> (r: String)
    ensures
        r@ == raw_key(path@),
{
    let cs = chars_of(path);
    let s = slash_chars(&cs);
    let l = lower_chars(&s);
    string_of(&l)
}

fn client_deletions(hs: &Vec<PendingHashDeletion>) -> (out: Vec<ClientHashDeletion>)
    ensures
        as_client_deletions(out@, hs@),
{
    let mut out: Vec<ClientHashDeletion> = Vec::new();
    for i in 0..hs.len()
        invariant
            out@.len() == i,
            forall|j: int|
                0 <= j < i ==> {
                    &&& (#[trigger] out@[j]).path@ == hs@[j].path@
                    &&& out@[j].sha256@ == hs@[j].sha256@
                    &&& out@[j].len == hs@[j].len
                },
    {
        let e = &hs[i];
        out.push(ClientHashDeletion { path: copy_string(&e.path), sha256: copy_string(&e.sha256), len: e.len });
    }
    out
}

/// Checks a one-shot list read from its manifest and returns it in the form in
/// which the rules store hash deletions: paths trimmed and with `/`, SHA-256 in
/// lower case, sorted by path. The manifest's schema must be 1, the list must
/// not be empty, and no two entries may name the same path.
pub fn one_shot_hash_deletions(schema: u8, deletions: &Vec<ClientHashDeletion>) -> (r: Result<
    Vec<ClientHashDeletion>,
    String,
>)
    ensures
        schema != 1 ==> r is Err && r->Err_0@ == "不支持的一次性哈希删除清单版本: "@ + dec(
            schema as nat,
        ),
        schema == 1 && deletions@.len() == 0 ==> r is Err && r->Err_0@
            == "一次性哈希删除清单不能为空"@,
        schema == 1 && deletions@.len() > 0 ==> match r {
            Ok(out) => {
                &&& forall|k: int|
                    0 <= k < deletions@.len() ==> #[trigger] one_shot_entry_error(deletions@, k) is None
                &&& exists|states: Seq<PendingChanges>|
                    {
                        &&& registered_in_order(states, deletions@, deletions@.len() as int)
                        &&& states[0].forced_deletions@.len() == 0
                        &&& states[0].hash_deletions@.len() == 0
                        &&& as_client_deletions(
                            out@,
                            (#[trigger] states[deletions@.len() as int]).hash_deletions@,
                        )
                    }
            },
            Err(e) => exists|k: int|
                {
                    &&& 0 <= k < deletions@.len()
                    &&& forall|j: int| 0 <= j < k ==> #[trigger] one_shot_entry_error(deletions@, j) is None
                    &&& #[trigger] one_shot_entry_error(deletions@, k) == Some(e@)
                },
        },
{
    if schema != 1 {
        let mut msg = "不支持的一次性哈希删除清单版本: ".to_owned();
        let n = decimal(schema as u64);
        push_str(&mut msg, n.as_str());
        return Err(msg);
    }
    if deletions.len() == 0 {
        return Err("一次性哈希删除清单不能为空".to_owned());
    }
    let mut normalized = PendingChanges::default();
    let mut seen: Vec<String> = Vec::new();
    let ghost mut states: Seq<PendingChanges> = seq![normalized];
    let n = deletions.len();
    for i in 0..n
        invariant
            schema == 1,
            n == deletions@.len(),
            seen@.len() == i,
            forall|j: int| 0 <= j < i ==> (#[trigger] seen@[j])@ == raw_key(deletions@[j].path@),
            normalized.forced_deletions@.len() == 0,
            registered_in_order(states, deletions@, i as int),
            states[0].forced_deletions@.len() == 0,
            states[0].hash_deletions@.len() == 0,
            states[i as int] == normalized,
            forall|k: int| 0 <= k < i ==> #[trigger] one_shot_entry_error(deletions@, k) is None,
    {
        let d = &deletions[i];
        let key = raw_key_exec(d.path.as_str());
        let repeated = listed_exec(&seen, &key);
        assert(repeated == repeats_earlier(deletions@, i as int)) by {
            if repeated {
                let j = choose|j: int| 0 <= j < seen@.len() && #[trigger] seen@[j]@ == key@;
                assert(raw_key(deletions@[j].path@) == raw_key(deletions@[i as int].path@));
            }
            if repeats_earlier(deletions@, i as int) {
                let j = choose|j: int|
                    0 <= j < i && #[trigger] raw_key(deletions@[j].path@) == raw_key(
                        deletions@[i as int].path@,
                    );
                assert(seen@[j]@ == key@);
                assert(listed(seen@, key@));
            }
        }
        if repeated {
            let mut msg = "一次性哈希删除清单包含重复路径: ".to_owned();
            push_str(&mut msg, d.path.as_str());
            assert(one_shot_entry_error(deletions@, i as int) == Some(msg@));
            return Err(msg);
        }
        seen.push(key);
        assert(!forced_names(normalized.forced_deletions@, client_path_form(d.path@)));
        match normalized.add_hash_deletion(d.path.as_str(), d.sha256.as_str(), d.len, None) {
            Ok(_) => {},
            Err(e) => {
                assert(one_shot_entry_error(deletions@, i as int) == Some(e@));
                return Err(e);
            },
        }
        proof {
            let prev = states;
            states = states.push(normalized);
            assert forall|k: int| 0 <= k < i + 1 implies hash_added(
                #[trigger] states[k],
                states[k + 1],
                deletions@[k].path@,
                deletions@[k].sha256@,
                deletions@[k].len,
                None,
            ) by {
                if k < i {
                    assert(states[k] == prev[k] && states[k + 1] == prev[k + 1]);
                }
            }
        }
    }
    let out = client_deletions(&normalized.hash_deletions);
    assert(as_client_deletions(out@, states[n as int].hash_deletions@));
    Ok(out)
}

/// Why the one-shot entry `d` cannot be added to the rules `state` when a pack
/// is planned, if it cannot: it may not name a path that a rule already names
/// (compared without ASCII case), and it must be a valid hash deletion.
pub open spec fn planning_error(state: PendingChanges, d: ClientHashDeletion) -> Option<Seq<char>> {
    if forced_names(state.forced_deletions@, d.path@) || hash_names(state.hash_deletions@, d.path@) {
        Some("一次性哈希删除与长期待处理规则冲突: "@ + d.path@)
    } else {
        match hash_deletion_error(d.path@, d.sha256@, None) {
            Some(e) => Some(e),
            None => if forced_names(state.forced_deletions@, client_path_form(d.path@)) {
                Some("该路径已登记为强制删除: "@ + client_path_form(d.path@))
            } else {
                None
            },
        }
    }
}

fn names_forced(s: &Vec<ForcedDeletion>, path: &str) -> (r: bool)
    ensures
        r == forced_names(s@, path@),
{
    for i in 0..s.len()
        invariant
            forall|k: int| 0 <= k < i ==> !eq_ignore_case(#[trigger] s@[k].path@, path@),
    {
        if str_eq_ignore_case(s[i].path.as_str(), path) {
            return true;
        }
    }
    false
}

fn names_hash(s: &Vec<PendingHashDeletion>, path: &str) -> (r: bool)
    ensures
        r == hash_names(s@, path@),
{
    for i in 0..s.len()
        invariant
            forall|k: int| 0 <= k < i ==> !eq_ignore_case(#[trigger] s@[k].path@, path@),
    {
        if str_eq_ignore_case(s[i].path.as_str(), path) {
            return true;
        }
    }
    false
}

/// The rules under which a pack is planned: the lasting rules `pending` with
/// each one-shot entry added as a hash deletion, in order. An entry that names
/// a path already named by a rule, or by an earlier entry, is refused, and so
/// is an invalid one.
pub fn plan_with_one_shot(pending: PendingChanges, one_shot: &Vec<ClientHashDeletion>) -> (r: Result<
    PendingChanges,
    String,
>)
    ensures
        r matches Ok(p) ==> {
            &&& pending.rules_wf() ==> p.rules_wf()
            &&& exists|states: Seq<PendingChanges>|
                {
                    &&& registered_in_order(states, one_shot@, one_shot@.len() as int)
                    &&& states[0] == pending
                    &&& (#[trigger] states[one_shot@.len() as int]) == p
                    &&& forall|k: int|
                        0 <= k < one_shot@.len() ==> planning_error(#[trigger] states[k], one_shot@[k]) is None
                }
        },
        r matches Err(e) ==> exists|k: int, states: Seq<PendingChanges>|
            {
                &&& 0 <= k < one_shot@.len()
                &&& registered_in_order(states, one_shot@, k)
                &&& states[0] == pending
                &&& forall|j: int| 0 <= j < k ==> planning_error(#[trigger] states[j], one_shot@[j]) is None
                &&& planning_error(#[trigger] states[k], one_shot@[k]) == Some(e@)
            },
{
    let mut planning = pending;
    let ghost mut states: Seq<PendingChanges> = seq![planning];
    let n = one_shot.len();
    for i in 0..n
        invariant
            n == one_shot@.len(),
            registered_in_order(states, one_shot@, i as int),
            states[0] == pending,
            states[i as int] == planning,
            forall|k: int| 0 <= k < i ==> planning_error(#[trigger] states[k], one_shot@[k]) is None,
            pending.rules_wf() ==> planning.rules_wf(),
    {
        let d = &one_shot[i];
        if names_forced(&planning.forced_deletions, d.path.as_str()) || names_hash(
            &planning.hash_deletions,
            d.path.as_str(),
        ) {
            let mut msg = "一次性哈希删除与长期待处理规则冲突: ".to_owned();
            push_str(&mut msg, d.path.as_str());
            assert(planning_error(states[i as int], one_shot@[i as int]) == Some(msg@));
            return Err(msg);
        }
        match planning.add_hash_deletion(d.path.as_str(), d.sha256.as_str(), d.len, None) {
            Ok(_) => {},
            Err(e) => {
                assert(planning_error(states[i as int], one_shot@[i as int]) == Some(e@));
                return Err(e);
            },
        }
        proof {
            let prev = states;
            states = states.push(planning);
            assert forall|k: int| 0 <= k < i + 1 implies hash_added(
                #[trigger] states[k],
                states[k + 1],
                one_shot@[k].path@,
                one_shot@[k].sha256@,
                one_shot@[k].len,
                None,
            ) by {
                if k < i {
                    assert(states[k] == prev[k] && states[k + 1] == prev[k + 1]);
                }
            }
            assert forall|k: int| 0 <= k < i + 1 implies planning_error(
                #[trigger] states[k],
                one_shot@[k],
            ) is None by {
                assert(states[k] == prev[k]);
            }
        }
    }
    Ok(planning)
}

/// The emitted hash-deletion paths that belong to the lasting rules `pending`
/// (compared without ASCII case), in the order of `emitted`; one-shot entries
/// leave no trace in the rules.
pub fn persistent_emitted(emitted: &Vec<String>, pending: &PendingChanges) -> (r: Vec<String>)
    ensures
        r@ == emitted@.filter(|p: String| hash_names(pending.hash_deletions@, p@)),
{
    let mut out: Vec<String> = Vec::new();
    for i in 0..emitted.len()
        invariant
            out@ == emitted@.take(i as int).filter(|p: String| hash_names(pending.hash_deletions@, p@)),
    {
        proof {
            assert(emitted@.take(i + 1) =~= emitted@.take(i as int).push(emitted@[i as int]));
            emitted@.take(i as int).lemma_filter_push(
                emitted@[i as int],
                |p: String| hash_names(pending.hash_deletions@, p@),
            );
        }
        if names_hash(&pending.hash_deletions, emitted[i].as_str()) {
            out.push(copy_string(&emitted[i]));
        }
    }
    assert(emitted@.take(emitted@.len() as int) =~= emitted@);
    out
}

} // verus!
