//! The manager's pack requests: the first call previews, the confirmed call packs.
use vstd::prelude::*;

use crate::pack::{
    any_listed, emitted_deletions, emitted_hash_deletions, first_unknown, ids_of,
    kept_changes, kept_hash_deletions, select_pack_changes, strings_view, PackPlan, PackPreview,
    PackSelection,
};
use crate::text::{chars_of, string_of, trim, trim_chars};

verus! {

/// A pack request.
#[derive(Clone, Debug)]
pub struct RequestBody {
    pub label: String,
    pub change_logs: String,
    pub confirmation_fingerprint: Option<String>,
    pub excluded_change_ids: Vec<String>,
}

/// A request to pack the updater alone.
#[derive(Clone, Debug)]
pub struct UpdaterPackRequest {
    pub label: String,
    pub change_logs: String,
}

/// What a pack request leads to.
pub enum PackDecision {
    /// No confirmation yet: show the preview.
    Preview(PackPreview),
    /// The request is refused with this message.
    Refused(String),
    /// Pack these operations.
    Pack(PackSelection),
}

/// The message for a confirmation that no longer matches the workspace.
pub open spec fn stale_message() -> Seq<char> {
    "工作区已变化，请重新检查并确认变化列表"@
}

/// Decides a pack request once the plan is known: without a confirmation the
/// preview is shown; a confirmation must carry the preview's fingerprint;
/// then the selection is made as `select_pack_changes` makes it.
pub fn decide_pack(plan: PackPlan, confirmation: Option<String>, excluded: &Vec<String>) -> (r:
    PackDecision)
    ensures
        match confirmation {
            None => r == PackDecision::Preview(plan.preview),
            Some(c) => if c@ != plan.preview.fingerprint@ {
                r is Refused && r->Refused_0@ == stale_message()
            } else {
                let unknown = first_unknown(excluded@, ids_of(plan.preview.changes@));
                let kept = kept_changes(plan.changes@, excluded@);
                let kept_hash = kept_hash_deletions(plan.hash_deletions@, excluded@);
                if unknown is Some {
                    r is Refused && r->Refused_0@ == "待排除的变更不存在或预览已过期: "@ + unknown->Some_0
                } else if any_listed(excluded@, plan.required_change_ids@) {
                    r is Refused && r->Refused_0@ == "更新器自更新文件与启动清单必须一起发布，不能单独排除"@
                } else if kept.len() == 0 && kept_hash.len() == 0 {
                    r is Refused && r->Refused_0@ == "没有选中任何可打包变更"@
                } else {
                    r is Pack && r->Pack_0.changes@ == kept && r->Pack_0.hash_deletions@ == kept_hash
                        && strings_view(r->Pack_0.emitted_pending_deletions@) == emitted_deletions(
                        kept,
                        plan.pending_deletions@,
                    ) && strings_view(r->Pack_0.emitted_pending_hash_deletions@)
                        == emitted_hash_deletions(kept_hash, plan.pending_hash_deletions@)
                }
            },
        },
{
    let c = match confirmation {
        None => return PackDecision::Preview(plan.preview),
        Some(c) => c,
    };
    if c != plan.preview.fingerprint {
        return PackDecision::Refused("工作区已变化，请重新检查并确认变化列表".to_owned());
    }
    match select_pack_changes(plan, excluded.as_slice()) {
        Ok(s) => PackDecision::Pack(s),
        Err(e) => PackDecision::Refused(e),
    }
}

/// The release notes of an updater-only pack: the given ones, or a default
/// when they are blank.
pub fn updater_pack_logs(change_logs: &str) -> (r: String)
    ensures
        r@ == if trim(change_logs@).len() == 0 {
            "更新自动更新器"@
        } else {
            change_logs@
        },
{
    if trim_chars(&chars_of(change_logs)).len() == 0 {
        "更新自动更新器".to_owned()
    } else {
        change_logs.to_owned()
    }
}

} // verus!
