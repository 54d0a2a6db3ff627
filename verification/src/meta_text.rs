//! Version metadata as JSON text: the `json` crate reads and writes the
//! text, and the library reads and writes the values.
use json::JsonValue;
use vstd::prelude::*;

use crate::meta_json::{field, loaded_meta, meta_readable, members, meta_written, text_of, JsonNode};
use crate::text::push_str;
use crate::version_meta::VersionMeta;

verus! {

#[verifier::external_type_specification]
#[verifier::external_body]
pub struct ExJsonValue(json::JsonValue);

/// The value that `json::parse` reads from `text`, as a `JsonNode`, when it
/// reads one.
pub uninterp spec fn json_value_of(text: Seq<char>) -> Option<JsonNode>;

/// The text that `JsonValue::dump` writes for `node`.
pub uninterp spec fn json_text_of(node: JsonNode) -> Seq<char>;

/// A `json` value as a `JsonNode`, variant for variant (numbers by `as_u64`).
#[verifier::external_body]
fn node_of(value: &JsonValue) -> JsonNode {
    match value {
        JsonValue::Null => JsonNode::Null,
        JsonValue::Short(text) => JsonNode::Str(text.as_str().to_owned()),
        JsonValue::String(text) => JsonNode::Str(text.clone()),
        JsonValue::Number(_) => JsonNode::Number(value.as_u64()),
        JsonValue::Boolean(flag) => JsonNode::Bool(*flag),
        JsonValue::Object(object) => JsonNode::Object(
            object.iter().map(|(key, member)| (key.to_owned(), node_of(member))).collect(),
        ),
        JsonValue::Array(items) => JsonNode::Array(items.iter().map(node_of).collect()),
    }
}

/// A `JsonNode` as a `json` value, variant for variant (a number without a
/// whole value as `null`).
#[verifier::external_body]
fn value_of(node: &JsonNode) -> JsonValue {
    match node {
        JsonNode::Null | JsonNode::Number(None) => JsonValue::Null,
        JsonNode::Bool(flag) => JsonValue::Boolean(*flag),
        JsonNode::Number(Some(number)) => JsonValue::from(*number),
        JsonNode::Str(text) => JsonValue::from(text.clone()),
        JsonNode::Array(items) => JsonValue::Array(items.iter().map(value_of).collect()),
        JsonNode::Object(members) => {
            let mut object = json::object::Object::new();
            members.iter().for_each(|(key, member)| object.insert(key, value_of(member)));
            JsonValue::Object(object)
        },
    }
}

/// `json::parse(text)`: the value the text holds, or the parser's error
/// (its `Debug` text, which is not stated here).
#[verifier::external_body]
fn parse_json(text: &str) -> (r: Result<JsonNode, String>)
    ensures
        r is Ok <==> json_value_of(text@) is Some,
        r matches Ok(n) ==> json_value_of(text@) == Some(n),
{
    match json::parse(text) {
        Ok(value) => Ok(node_of(&value)),
        Err(error) => Err(format!("{error:?}")),
    }
}

/// `JsonValue::dump`: the compact JSON text of `node`.
#[verifier::external_body]
fn dump_json(node: &JsonNode) -> (r: String)
    ensures
        r@ == json_text_of(*node),
{
    value_of(node).dump()
}

/// The label and release notes of each version in a metadata group.
pub open spec fn logs_of(items: Seq<JsonNode>) -> Seq<(String, String)> {
    items.map_values(
        |v: JsonNode| (text_of(field(v, "label"@))->Some_0, text_of(field(v, "logs"@))->Some_0),
    )
}

/// Are all the versions of a group readable as metadata?
pub open spec fn group_readable(group: JsonNode) -> bool {
    forall|i: int| 0 <= i < members(group).len() ==> meta_readable(#[trigger] members(group)[i])
}

/// The label and release notes of each version of a readable metadata group,
/// in order (each read as `VersionMeta::load` reads it).
pub fn metadata_logs(group: &JsonNode) -> (r: Vec<(String, String)>)
    requires
        group_readable(*group),
    ensures
        r@ == logs_of(members(*group)),
{
    let items: &[JsonNode] = match group {
        JsonNode::Array(items) => items.as_slice(),
        _ => &[],
    };
    let mut out: Vec<(String, String)> = Vec::new();
    for i in 0..items.len()
        invariant
            items@ == members(*group),
            group_readable(*group),
            out@ == logs_of(items@.take(i as int)),
    {
        assert(meta_readable(items@[i as int]));
        let meta = VersionMeta::load(&items[i]);
        assert(loaded_meta(items@[i as int], meta));
        out.push((meta.label, meta.logs));
        assert(logs_of(items@.take(i + 1)) =~= logs_of(items@.take(i as int)).push(
            (meta.label, meta.logs),
        ));
    }
    assert(items@.take(items@.len() as int) =~= items@);
    out
}

/// The message with which unreadable release-note metadata of `label` is refused.
pub open spec fn unreadable_logs_message(label: Seq<char>) -> Seq<char> {
    "更新日志元数据无效（"@ + label + "）"@
}

/// Reads the release notes of the versions in the metadata text fetched for
/// the version `label`: text that is not JSON is refused with the parser's
/// reason, a group with a version that is not readable metadata is refused,
/// and otherwise each version's label and notes come out in order.
pub fn fetched_metadata_logs(label: &str, text: &str) -> (r: Result<Vec<(String, String)>, String>)
    ensures
        json_value_of(text@) is None ==> r is Err && ("更新日志元数据解析失败（"@ + label@
            + "），原因："@).is_prefix_of(r->Err_0@),
        json_value_of(text@) matches Some(group) ==> if group_readable(group) {
            r is Ok && r->Ok_0@ == logs_of(members(group))
        } else {
            r is Err && r->Err_0@ == unreadable_logs_message(label@)
        },
{
    let group = match parse_json(text) {
        Ok(g) => g,
        Err(cause) => {
            let mut m = "更新日志元数据解析失败（".to_owned();
            push_str(&mut m, label);
            push_str(&mut m, "），原因：");
            let ghost prefix = m@;
            push_str(&mut m, cause.as_str());
            assert(m@.take(prefix.len() as int) =~= prefix);
            return Err(m);
        },
    };
    let items: &[JsonNode] = match &group {
        JsonNode::Array(items) => items.as_slice(),
        _ => &[],
    };
    for i in 0..items.len()
        invariant
            items@ == members(group),
            json_value_of(text@) == Some(group),
            forall|k: int| 0 <= k < i ==> meta_readable(#[trigger] items@[k]),
    {
        if !VersionMeta::readable(&items[i]) {
            assert(!meta_readable(members(group)[i as int]));
            let mut m = "更新日志元数据无效（".to_owned();
            push_str(&mut m, label);
            push_str(&mut m, "）");
            return Err(m);
        }
    }
    Ok(metadata_logs(&group))
}

/// Is `group` the JSON array of the metadata of `metas`, in order?
pub open spec fn group_written(metas: Seq<VersionMeta>, group: JsonNode) -> bool {
    &&& group matches JsonNode::Array(items)
    &&& members(group).len() == metas.len()
    &&& forall|i: int| 0 <= i < metas.len() ==> meta_written(metas[i], #[trigger] members(group)[i])
}

/// Writes a metadata group as JSON text: the array of each version's
/// metadata, in order.
pub fn meta_group_text(metas: &Vec<VersionMeta>) -> (r: String)
    ensures
        exists|group: JsonNode| group_written(metas@, group) && r@ == json_text_of(group),
{
    let mut items: Vec<JsonNode> = Vec::new();
    for i in 0..metas.len()
        invariant
            items@.len() == i,
            forall|k: int| 0 <= k < i ==> meta_written(metas@[k], #[trigger] items@[k]),
    {
        items.push(metas[i].serialize());
    }
    let group = JsonNode::Array(items);
    assert(group_written(metas@, group));
    dump_json(&group)
}

} // verus!
