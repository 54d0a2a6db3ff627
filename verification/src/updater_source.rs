//! The updater executable the administrator uploads for clients to fetch.
use vstd::prelude::*;

verus! {

/// The largest updater executable accepted, in bytes.
pub const MAX_UPDATER_BYTES: usize = 67108864;

/// Whether the updater source exists, its size and its SHA-256.
#[derive(Clone, Debug)]
pub struct UpdaterSourceStatus {
    pub exists: bool,
    pub size: u64,
    pub sha256: String,
}

/// The status of a workspace without an updater source.
pub fn missing_status() -> (r: UpdaterSourceStatus)
    ensures
        !r.exists && r.size == 0 && r.sha256@.len() == 0,
{
    UpdaterSourceStatus { exists: false, size: 0, sha256: String::new() }
}

/// The little-endian 32-bit value at `i`.
pub open spec fn le_u32(b: Seq<u8>, i: int) -> int {
    b[i] as int + 256 * (b[i + 1] as int) + 65536 * (b[i + 2] as int) + 16777216 * (b[i + 3] as int)
}

/// A Windows PE image: `MZ` first, and `PE\0\0` where the offset at 0x3c points.
pub open spec fn windows_pe(b: Seq<u8>) -> bool {
    let off = le_u32(b, 0x3c);
    b.len() >= 0x40 && b[0] == 0x4d && b[1] == 0x5a && off + 4 <= b.len() && b[off] == 0x50
        && b[off + 1] == 0x45 && b[off + 2] == 0 && b[off + 3] == 0
}

pub fn is_windows_pe(bytes: &[u8]) -> (r: bool)
    ensures
        r == windows_pe(bytes@),
{
    if bytes.len() < 0x40 || bytes[0] != 0x4d || bytes[1] != 0x5a {
        return false;
    }
    let off: u64 = bytes[0x3c] as u64 + 256 * (bytes[0x3d] as u64) + 65536 * (bytes[0x3e] as u64)
        + 16777216 * (bytes[0x3f] as u64);
    if off + 4 > bytes.len() as u64 {
        return false;
    }
    let o = off as usize;
    bytes[o] == 0x50 && bytes[o + 1] == 0x45 && bytes[o + 2] == 0 && bytes[o + 3] == 0
}

/// Why an uploaded updater is refused, if it is.
pub open spec fn upload_error(b: Seq<u8>) -> Option<Seq<char>> {
    if b.len() == 0 || b.len() > MAX_UPDATER_BYTES {
        Some("EXE 不能为空或超过 64 MiB"@)
    } else if !windows_pe(b) {
        Some("文件不是有效的 Windows PE 可执行程序"@)
    } else {
        None
    }
}

pub fn check_updater_upload(bytes: &[u8]) -> (r: Result<(), String>)
    ensures
        match upload_error(bytes@) {
            Some(e) => r is Err && r->Err_0@ == e,
            None => r is Ok,
        },
{
    if bytes.len() == 0 || bytes.len() > MAX_UPDATER_BYTES {
        return Err("EXE 不能为空或超过 64 MiB".to_owned());
    }
    if !is_windows_pe(bytes) {
        return Err("文件不是有效的 Windows PE 可执行程序".to_owned());
    }
    Ok(())
}

} // verus!
