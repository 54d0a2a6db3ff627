//! Request and response bodies of the manager's web API.
use vstd::prelude::*;
use vstd::utf8::{decode_utf8, encode_utf8, valid_utf8};

use crate::text::push_str;

verus! {

/// A client path named by a request.
#[derive(Clone, Debug)]
pub struct ChangePathRequest {
    pub path: String,
}

/// The path a deletion rule was registered or removed for.
#[derive(Clone, Debug)]
pub struct ChangePathResponse {
    pub path: String,
    pub removed: bool,
}

/// A content fingerprint named by a request.
#[derive(Clone, Debug)]
pub struct HashDeletionRequest {
    pub sha256: String,
}

/// The fingerprint a hash deletion was registered or removed for.
#[derive(Clone, Debug)]
pub struct HashDeletionResponse {
    pub sha256: String,
    pub len: u64,
    pub name_hint: String,
    pub removed: bool,
}

/// Disk usage of the manager's host, workspace and published files.
#[derive(Clone, Debug)]
pub struct ResponseData {
    pub dev: String,
    pub used: u64,
    pub total: u64,
    pub workspace_used: u64,
    pub workspace_files: u64,
    pub workspace_path: String,
    pub public_used: u64,
    pub public_files: u64,
}

/// The largest file a client deletion fingerprint is taken of, in bytes.
pub const MAX_FINGERPRINT_UPLOAD_BYTES: u64 = 1073741824;

/// Is an upload of `len` bytes too large to fingerprint?
pub fn fingerprint_upload_too_large(len: u64) -> (r: bool)
    ensures
        r == (len > MAX_FINGERPRINT_UPLOAD_BYTES),
{
    len > MAX_FINGERPRINT_UPLOAD_BYTES
}

/// Sizes and counts of the files under a directory.
#[derive(Clone, Copy, Debug)]
pub struct DirectoryStats {
    pub bytes: u64,
    pub files: u64,
}

/// Adds one file to the statistics; both totals saturate.
pub fn count_file(stats: DirectoryStats, len: u64) -> (r: DirectoryStats)
    ensures
        r.files == if stats.files == u64::MAX {
            u64::MAX as int
        } else {
            stats.files + 1
        },
        r.bytes == if stats.bytes + len > u64::MAX {
            u64::MAX as int
        } else {
            stats.bytes + len
        },
{
    DirectoryStats { bytes: stats.bytes.saturating_add(len), files: stats.files.saturating_add(1) }
}

/// The value of a hexadecimal digit byte, either case.
pub open spec fn hex_value(b: u8) -> Option<u8> {
    if 48 <= b <= 57 {
        Some((b - 48) as u8)
    } else if 65 <= b <= 70 {
        Some((b - 55) as u8)
    } else if 97 <= b <= 102 {
        Some((b - 87) as u8)
    } else {
        None
    }
}

/// Percent-decoding of bytes: `%` followed by two hexadecimal digits is the
/// byte they write; every other byte, a `%` that is not so followed among
/// them, stays as it is. `+` is not touched.
pub open spec fn percent_decoded(data: Seq<u8>) -> Seq<u8>
    decreases data.len(),
{
    if data.len() == 0 {
        Seq::empty()
    } else if data.len() >= 3 && data[0] == 37 && hex_value(data[1]) is Some && hex_value(data[2]) is Some {
        seq![(hex_value(data[1])->Some_0 * 16 + hex_value(data[2])->Some_0) as u8] + percent_decoded(
            data.skip(3),
        )
    } else {
        seq![data[0]] + percent_decoded(data.skip(1))
    }
}

/// `urlencoding::decode(data)`: percent-decodes the UTF-8 bytes of `data` and
/// reads the result as UTF-8, failing when it is not. On failure the text is
/// that of the `FromUtf8Error`, which is not stated here.
#[verifier::external_body]
fn url_decode(data: &str) -> (r: Result<String, String>)
    ensures
        r is Ok <==> valid_utf8(percent_decoded(encode_utf8(data@))),
        r matches Ok(s) ==> s@ == decode_utf8(percent_decoded(encode_utf8(data@))),
{
    match urlencoding::decode(data) {
        Ok(s) => Ok(s.into_owned()),
        Err(e) => Err(e.to_string()),
    }
}

/// The name an uploaded file had on the uploader's side, from its percent-encoded
/// `file-name` header (`None` when the request has none readable).
pub fn name_hint(header: Option<&str>) -> (r: Result<String, String>)
    ensures
        header is None ==> r is Err && r->Err_0@ == "缺少 file-name 请求头"@,
        header matches Some(h) ==> {
            let decoded = percent_decoded(encode_utf8(h@));
            &&& (r is Ok <==> valid_utf8(decoded))
            &&& r matches Ok(s) ==> s@ == decode_utf8(decoded)
            &&& r matches Err(e) ==> "文件名解码失败: "@.is_prefix_of(e@)
        },
{
    match header {
        None => Err("缺少 file-name 请求头".to_owned()),
        Some(h) => match url_decode(h) {
            Ok(s) => Ok(s),
            Err(e) => {
                let mut m = "文件名解码失败: ".to_owned();
                push_str(&mut m, e.as_str());
                assert("文件名解码失败: "@.is_prefix_of(m@)) by {
                    assert(m@.take("文件名解码失败: "@.len() as int) =~= "文件名解码失败: "@);
                }
                Err(m)
            },
        },
    }
}

} // verus!
