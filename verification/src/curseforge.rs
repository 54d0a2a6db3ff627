//! CurseForge as an external download source: which files qualify, the file
//! fingerprint CurseForge indexes, and the public CDN address of a file.
use vstd::prelude::*;

use crate::external_sources::{
    attach_sources, attached, changed_only_at, lemma_attached_changes_only, receivers, source_view,
};
use crate::text::{
    chars_ends_with, chars_of, chars_starts_with, copy_string, dec, decimal, ends_with, lower_chars,
    lower_seq, push_str, slash_chars, slash_seq, starts_with, string_of, trim, trim_chars,
};
use crate::version_meta::{ExternalSource, FileChange};

verus! {

/// The CurseForge settings of the manager. The API key never leaves it.
#[derive(Clone, Debug)]
pub struct CurseForgeConfig {
    pub enabled: bool,
    pub api_key: String,
    pub game_id: u32,
    pub fallback_to_mcpatch: bool,
    pub cdn_base_url: String,
}

impl Default for CurseForgeConfig {
    fn default() -> (r: Self)
        ensures
            !r.enabled,
            r.api_key@.len() == 0,
            r.game_id == 432,
            r.fallback_to_mcpatch,
            r.cdn_base_url@ == "https://mediafilez.forgecdn.net/files"@,
    {
        CurseForgeConfig {
            enabled: false,
            api_key: String::new(),
            game_id: 432,
            fallback_to_mcpatch: true,
            cdn_base_url: "https://mediafilez.forgecdn.net/files".to_owned(),
        }
    }
}

/// A client mod jar: under `.minecraft/mods/`, ending in `.jar`, without ASCII case.
pub open spec fn client_mod_jar(path: Seq<char>) -> bool {
    let n = lower_seq(slash_seq(path));
    starts_with(n, ".minecraft/mods/"@) && ends_with(n, ".jar"@)
}

pub fn is_client_mod_jar(path: &str) -> (r: bool)
    ensures
        r == client_mod_jar(path@),
{
    let n = lower_chars(&slash_chars(&chars_of(path)));
    chars_starts_with(&n, &chars_of(".minecraft/mods/")) && chars_ends_with(&n, &chars_of(".jar"))
}

// ---------------------------------------------------------------------------
// Fingerprints
// ---------------------------------------------------------------------------

pub const MURMUR_M: u32 = 0x5bd1e995;

/// Multiplication modulo 2^32.
pub open spec fn wmul(x: u32, y: u32) -> u32 {
    ((x as nat * y as nat) % 0x1_0000_0000) as u32
}

/// The bytes CurseForge ignores: tab, line feed, carriage return and space.
pub open spec fn is_skipped(b: u8) -> bool {
    b == 9 || b == 10 || b == 13 || b == 32
}

pub open spec fn kept_bytes(data: Seq<u8>) -> Seq<u8> {
    data.filter(|b: u8| !is_skipped(b))
}

/// The little-endian word at `i`.
pub open spec fn word_at(d: Seq<u8>, i: int) -> u32 {
    (d[i] as u32) | ((d[i + 1] as u32) << 8u32) | ((d[i + 2] as u32) << 16u32) | ((
    d[i + 3] as u32) << 24u32)
}

pub open spec fn mix(k: u32) -> u32 {
    let k1 = wmul(k, MURMUR_M);
    let k2 = k1 ^ (k1 >> 24u32);
    wmul(k2, MURMUR_M)
}

/// The hash after the first `n` whole words.
pub open spec fn blocks_hash(d: Seq<u8>, h0: u32, n: nat) -> u32
    decreases n,
{
    if n == 0 {
        h0
    } else {
        let h = blocks_hash(d, h0, (n - 1) as nat);
        wmul(h, MURMUR_M) ^ mix(word_at(d, 4 * (n - 1)))
    }
}

/// Folds in the one to three bytes after the last whole word.
pub open spec fn tail_hash(d: Seq<u8>, h: u32) -> u32 {
    let i: int = 4 * (d.len() / 4) as int;
    let rem = d.len() % 4;
    if rem == 3 {
        wmul(h ^ ((d[i + 2] as u32) << 16u32) ^ ((d[i + 1] as u32) << 8u32) ^ (d[i] as u32), MURMUR_M)
    } else if rem == 2 {
        wmul(h ^ ((d[i + 1] as u32) << 8u32) ^ (d[i] as u32), MURMUR_M)
    } else if rem == 1 {
        wmul(h ^ (d[i] as u32), MURMUR_M)
    } else {
        h
    }
}

pub open spec fn finish(h: u32) -> u32 {
    let h1 = h ^ (h >> 13u32);
    let h2 = wmul(h1, MURMUR_M);
    h2 ^ (h2 >> 15u32)
}

/// 32-bit MurmurHash2 of `data` with its white-space bytes removed.
pub open spec fn murmur2(data: Seq<u8>, seed: u32) -> u32 {
    let d = kept_bytes(data);
    let h0 = seed ^ (d.len() as u32);
    finish(tail_hash(d, blocks_hash(d, h0, d.len() / 4)))
}

/// The bytes read as a little-endian number: the first is the lowest.
pub open spec fn le_value(bytes: Seq<u8>) -> nat
    decreases bytes.len(),
{
    if bytes.len() == 0 {
        0
    } else {
        bytes[0] as nat + 256 * le_value(bytes.drop_first())
    }
}

proof fn lemma_le_value_small(b: Seq<u8>)
    requires
        b.len() <= 4,
    ensures
        b.len() == 0 ==> le_value(b) == 0,
        b.len() == 1 ==> le_value(b) == b[0] as nat,
        b.len() == 2 ==> le_value(b) == b[0] as nat + 256 * b[1] as nat,
        b.len() == 3 ==> le_value(b) == b[0] as nat + 256 * b[1] as nat + 65536 * b[2] as nat,
        b.len() == 4 ==> le_value(b) == b[0] as nat + 256 * b[1] as nat + 65536 * b[2] as nat + 16777216
            * b[3] as nat,
{
    reveal_with_fuel(le_value, 5);
    if b.len() >= 1 {
        let b1 = b.drop_first();
        if b1.len() >= 1 {
            let b2 = b1.drop_first();
            assert(b1[0] == b[1]);
            if b2.len() >= 1 {
                let b3 = b2.drop_first();
                assert(b2[0] == b[2]);
                if b3.len() >= 1 {
                    assert(b3[0] == b[3]);
                    assert(b3.drop_first().len() == 0);
                }
            }
        }
    }
}

/// The fingerprint is the standard 32-bit MurmurHash2 of the kept bytes,
/// which reads its input little-endian: every whole group of four bytes
/// enters as the little-endian number they form, and the one to three bytes
/// after the last whole group enter as the little-endian number they form,
/// mixed into the hash before it is finished.
pub proof fn law_murmur2_reads_little_endian(data: Seq<u8>, seed: u32)
    ensures
        ({
            let d = kept_bytes(data);
            let n = d.len();
            let whole = blocks_hash(d, seed ^ (n as u32), n / 4);
            let tail = d.subrange(4 * (n / 4) as int, n as int);
            &&& forall|w: int|
                0 <= w < n / 4 ==> #[trigger] word_at(d, 4 * w) as nat == le_value(d.subrange(4 * w, 4 * w + 4))
            &&& tail.len() == 0 ==> murmur2(data, seed) == finish(whole)
            &&& tail.len() > 0 ==> murmur2(data, seed) == finish(
                wmul(whole ^ (le_value(tail) as u32), MURMUR_M),
            )
        }),
{
    let d = kept_bytes(data);
    let n = d.len();
    let whole = blocks_hash(d, seed ^ (n as u32), n / 4);
    let i: int = 4 * (n / 4) as int;
    let tail = d.subrange(i, n as int);
    assert forall|w: int| 0 <= w < n / 4 implies #[trigger] word_at(d, 4 * w) as nat == le_value(
        d.subrange(4 * w, 4 * w + 4),
    ) by {
        let g = d.subrange(4 * w, 4 * w + 4);
        lemma_le_value_small(g);
        let a = d[4 * w];
        let b = d[4 * w + 1];
        let c = d[4 * w + 2];
        let e = d[4 * w + 3];
        assert(g[0] == a && g[1] == b && g[2] == c && g[3] == e);
        assert(((a as u32) | ((b as u32) << 8u32) | ((c as u32) << 16u32) | ((e as u32) << 24u32)) as nat
            == a as nat + 256 * b as nat + 65536 * c as nat + 16777216 * e as nat) by (bit_vector);
    }
    lemma_le_value_small(tail);
    let rem = n % 4;
    if rem == 3 {
        let a = d[i];
        let b = d[i + 1];
        let c = d[i + 2];
        assert(tail[0] == a && tail[1] == b && tail[2] == c);
        assert(whole ^ ((c as u32) << 16u32) ^ ((b as u32) << 8u32) ^ (a as u32) == whole ^ ((a as nat + 256
            * b as nat + 65536 * c as nat) as u32)) by (bit_vector);
    } else if rem == 2 {
        let a = d[i];
        let b = d[i + 1];
        assert(tail[0] == a && tail[1] == b);
        assert(whole ^ ((b as u32) << 8u32) ^ (a as u32) == whole ^ ((a as nat + 256 * b as nat) as u32))
            by (bit_vector);
    } else if rem == 1 {
        assert(tail[0] == d[i]);
    }
}

proof fn lemma_all_kept(s: Seq<u8>)
    requires
        forall|i: int| 0 <= i < s.len() ==> !is_skipped(#[trigger] s[i]),
    ensures
        kept_bytes(s) == s,
    decreases s.len(),
{
    if s.len() == 0 {
        assert(s.filter(|b: u8| !is_skipped(b)) =~= s);
    } else {
        let p = s.drop_last();
        lemma_all_kept(p);
        p.lemma_filter_push(s.last(), |b: u8| !is_skipped(b));
        assert(p.push(s.last()) =~= s);
    }
}

/// MurmurHash2's values with seed 1 for inputs that end in each possible
/// tail: `a` (one byte), `ab` (two), `abc` (three) and `abcd` (none; one
/// whole group).
pub proof fn law_murmur2_known_values()
    ensures
        murmur2(seq![97u8], 1) == 0x2550b18c,
        murmur2(seq![97u8, 98u8], 1) == 0x64e150ee,
        murmur2(seq![97u8, 98u8, 99u8], 1) == 0x60a4fcc1,
        murmur2(seq![97u8, 98u8, 99u8, 100u8], 1) == 0xc93f7a16,
{
    let a = seq![97u8];
    lemma_all_kept(a);
    assert(1u32 ^ 1u32 == 0u32) by (bit_vector);
    assert(blocks_hash(a, 0u32, 0) == 0u32);
    assert(0u32 ^ 97u32 == 0x61u32) by (bit_vector);
    assert(wmul(0x61u32, MURMUR_M) == 0xca898175u32);
    assert(0xca898175u32 ^ (0xca898175u32 >> 13u32) == 0xca8fd539u32) by (bit_vector);
    assert(wmul(0xca8fd539u32, MURMUR_M) == 0x2550fb2du32);
    assert(0x2550fb2du32 ^ (0x2550fb2du32 >> 15u32) == 0x2550b18cu32) by (bit_vector);

    let ab = seq![97u8, 98u8];
    lemma_all_kept(ab);
    assert(1u32 ^ 2u32 == 3u32) by (bit_vector);
    assert(blocks_hash(ab, 3u32, 0) == 3u32);
    assert(3u32 ^ (98u32 << 8u32) ^ 97u32 == 0x6262u32) by (bit_vector);
    assert(wmul(0x6262u32, MURMUR_M) == 0x81c6750au32);
    assert(0x81c6750au32 ^ (0x81c6750au32 >> 13u32) == 0x81c27b39u32) by (bit_vector);
    assert(wmul(0x81c27b39u32, MURMUR_M) == 0x64e1992du32);
    assert(0x64e1992du32 ^ (0x64e1992du32 >> 15u32) == 0x64e150eeu32) by (bit_vector);

    let abc = seq![97u8, 98u8, 99u8];
    lemma_all_kept(abc);
    assert(1u32 ^ 3u32 == 2u32) by (bit_vector);
    assert(blocks_hash(abc, 2u32, 0) == 2u32);
    assert(2u32 ^ (99u32 << 16u32) ^ (98u32 << 8u32) ^ 97u32 == 0x636263u32) by (bit_vector);
    assert(wmul(0x636263u32, MURMUR_M) == 0x32375e9fu32);
    assert(0x32375e9fu32 ^ (0x32375e9fu32 >> 13u32) == 0x3236cf25u32) by (bit_vector);
    assert(wmul(0x3236cf25u32, MURMUR_M) == 0x60a43d89u32);
    assert(0x60a43d89u32 ^ (0x60a43d89u32 >> 15u32) == 0x60a4fcc1u32) by (bit_vector);

    let abcd = seq![97u8, 98u8, 99u8, 100u8];
    lemma_all_kept(abcd);
    assert(1u32 ^ 4u32 == 5u32) by (bit_vector);
    assert(97u32 | (98u32 << 8u32) | (99u32 << 16u32) | (100u32 << 24u32) == 0x64636261u32) by (bit_vector);
    assert(word_at(abcd, 0) == 0x64636261u32);
    assert(wmul(0x64636261u32, MURMUR_M) == 0xae938b75u32);
    assert(0xae938b75u32 ^ (0xae938b75u32 >> 24u32) == 0xae938bdbu32) by (bit_vector);
    assert(wmul(0xae938bdbu32, MURMUR_M) == 0xecf5b977u32);
    assert(mix(0x64636261u32) == 0xecf5b977u32);
    assert(blocks_hash(abcd, 5u32, 0) == 5u32);
    assert(wmul(5u32, MURMUR_M) == 0xcb198fe9u32);
    assert(0xcb198fe9u32 ^ 0xecf5b977u32 == 0x27ec369eu32) by (bit_vector);
    assert(blocks_hash(abcd, 5u32, 1) == 0x27ec369eu32);
    assert(0x27ec369eu32 ^ (0x27ec369eu32 >> 13u32) == 0x27ed09ffu32) by (bit_vector);
    assert(wmul(0x27ed09ffu32, MURMUR_M) == 0xc93ee86bu32);
    assert(0xc93ee86bu32 ^ (0xc93ee86bu32 >> 15u32) == 0xc93f7a16u32) by (bit_vector);
}

fn without_white_space(data: &[u8]) -> (r: Vec<u8>)
    ensures
        r@ == kept_bytes(data@),
{
    let mut out: Vec<u8> = Vec::new();
    for i in 0..data.len()
        invariant
            out@ == kept_bytes(data@.take(i as int)),
    {
        let b = data[i];
        assert(data@.take(i + 1) =~= data@.take(i as int).push(b));
        proof {
            data@.take(i as int).lemma_filter_push(b, |x: u8| !is_skipped(x));
        }
        if !(b == 9 || b == 10 || b == 13 || b == 32) {
            out.push(b);
        }
    }
    assert(data@.take(data@.len() as int) =~= data@);
    out
}

/// CurseForge's file fingerprint: MurmurHash2 (32-bit) of the bytes other than
/// tab, line feed, carriage return and space.
pub fn murmur2_hash32(data: &[u8], seed: u32) -> (r: u32)
    ensures
        r == murmur2(data@, seed),
{
    let d = without_white_space(data);
    let len = d.len();
    let mut hash: u32 = seed ^ (len as u32);
    let blocks = len / 4;
    let mut j: usize = 0;
    while j < blocks
        invariant
            d@ == kept_bytes(data@),
            len == d@.len(),
            blocks == len / 4,
            j <= blocks,
            hash == blocks_hash(d@, seed ^ (len as u32), j as nat),
        decreases blocks - j,
    {
        let i = 4 * j;
        let k: u32 = (d[i] as u32) | ((d[i + 1] as u32) << 8u32) | ((d[i + 2] as u32) << 16u32)
            | ((d[i + 3] as u32) << 24u32);
        let k1 = k.wrapping_mul(MURMUR_M);
        let k2 = k1 ^ (k1 >> 24u32);
        let k3 = k2.wrapping_mul(MURMUR_M);
        hash = hash.wrapping_mul(MURMUR_M) ^ k3;
        j = j + 1;
    }
    let i = 4 * blocks;
    let rem = len % 4;
    if rem == 3 {
        hash = (hash ^ ((d[i + 2] as u32) << 16u32) ^ ((d[i + 1] as u32) << 8u32) ^ (d[i] as u32)).wrapping_mul(MURMUR_M);
    } else if rem == 2 {
        hash = (hash ^ ((d[i + 1] as u32) << 8u32) ^ (d[i] as u32)).wrapping_mul(MURMUR_M);
    } else if rem == 1 {
        hash = (hash ^ (d[i] as u32)).wrapping_mul(MURMUR_M);
    }
    let h1 = hash ^ (hash >> 13u32);
    let h2 = h1.wrapping_mul(MURMUR_M);
    h2 ^ (h2 >> 15u32)
}

// ---------------------------------------------------------------------------
// CDN addresses
// ---------------------------------------------------------------------------

/// Is `b` left as it is by percent-encoding: an ASCII letter or digit, `-`, `.`, `_` or `~`?
pub open spec fn unreserved(b: u8) -> bool {
    (48 <= b <= 57) || (65 <= b <= 90) || (97 <= b <= 122) || b == 45 || b == 46 || b == 95
        || b == 126
}

/// The uppercase hexadecimal digit of a value below 16.
pub open spec fn upper_hex(v: int) -> char {
    if v < 10 {
        (('0' as int) + v) as char
    } else {
        (('A' as int) + v - 10) as char
    }
}

/// Percent-encoding of bytes: unreserved bytes as themselves, every other
/// byte as `%` and two uppercase hexadecimal digits.
pub open spec fn percent_encoded(data: Seq<u8>) -> Seq<char>
    decreases data.len(),
{
    if data.len() == 0 {
        Seq::empty()
    } else {
        let b = data.last();
        percent_encoded(data.drop_last()) + if unreserved(b) {
            seq![(b as u32) as char]
        } else {
            seq!['%', upper_hex(b as int / 16), upper_hex(b as int % 16)]
        }
    }
}

/// `urlencoding::encode(data)`: percent-encodes every UTF-8 byte of `data`
/// except ASCII letters and digits, `-`, `_`, `.` and `~`, with uppercase
/// hexadecimal digits.
#[verifier::external_body]
fn url_encode(data: &str) -> (r: String)
    ensures
        r@ == percent_encoded(vstd::utf8::encode_utf8(data@)),
{
    urlencoding::encode(data).into_owned()
}

/// `s` without its trailing `/` characters.
pub open spec fn trim_end_slashes(s: Seq<char>) -> Seq<char>
    decreases s.len(),
{
    if s.len() > 0 && s.last() == '/' {
        trim_end_slashes(s.drop_last())
    } else {
        s
    }
}

/// `<base>/<id / 1000>/<id % 1000>/<percent-encoded file name>`.
pub open spec fn cdn_url_of(base: Seq<char>, file_id: u64, filename: Seq<char>) -> Seq<char> {
    trim_end_slashes(base) + "/"@ + dec((file_id / 1000) as nat) + "/"@ + dec(
        (file_id % 1000) as nat,
    ) + "/"@ + percent_encoded(vstd::utf8::encode_utf8(filename))
}

/// The public CurseForge CDN address of a file, as PCL builds it.
pub fn curseforge_cdn_url(base: &str, file_id: u64, filename: &str) -> (r: String)
    ensures
        r@ == cdn_url_of(base@, file_id, filename@),
{
    let cs = chars_of(base);
    let mut end = cs.len();
    assert(cs@.take(end as int) =~= cs@);
    while end > 0 && cs[end - 1] == '/'
        invariant
            end <= cs@.len(),
            trim_end_slashes(cs@) == trim_end_slashes(cs@.take(end as int)),
        decreases end,
    {
        assert(cs@.take(end as int).drop_last() =~= cs@.take(end - 1));
        end = end - 1;
    }
    let trimmed = crate::text::slice_chars(&cs, 0, end);
    assert(trimmed@ == trim_end_slashes(cs@)) by {
        assert(trimmed@ =~= cs@.take(end as int));
    }
    let mut out = string_of(&trimmed);
    push_str(&mut out, "/");
    push_str(&mut out, decimal(file_id / 1000).as_str());
    push_str(&mut out, "/");
    push_str(&mut out, decimal(file_id % 1000).as_str());
    push_str(&mut out, "/");
    push_str(&mut out, url_encode(filename).as_str());
    out
}

// ---------------------------------------------------------------------------
// Fingerprint lookups
// ---------------------------------------------------------------------------

/// How many fingerprints one lookup request carries at most.
pub const FINGERPRINT_BATCH_SIZE: usize = 1000;

/// A file that CurseForge is asked about, with its fingerprint.
#[derive(Clone, Debug)]
pub struct FingerprintCandidate {
    pub path: String,
    pub len: u64,
    pub fingerprint: u32,
}

/// A file that a fingerprint lookup returned as an exact match.
#[derive(Clone, Debug)]
pub struct CurseForgeFile {
    pub id: u64,
    pub file_name: String,
    pub file_length: u64,
    pub file_fingerprint: i64,
}

/// Are lookups to be made: `Ok(false)` when CurseForge is disabled, an error
/// when it is enabled without an API key.
pub fn curseforge_lookup_enabled(config: &CurseForgeConfig) -> (r: Result<bool, String>)
    ensures
        !config.enabled ==> r == Ok::<bool, String>(false),
        config.enabled && trim(config.api_key@).len() == 0 ==> r is Err && r->Err_0@
            == "CurseForge 外部下载已启用，但 api-key 为空"@,
        config.enabled && trim(config.api_key@).len() > 0 ==> r == Ok::<bool, String>(true),
{
    if !config.enabled {
        return Ok(false);
    }
    let key = chars_of(config.api_key.as_str());
    if trim_chars(&key).len() == 0 {
        return Err("CurseForge 外部下载已启用，但 api-key 为空".to_owned());
    }
    Ok(true)
}

/// The candidate for the file at `path` whose content was read as `bytes`;
/// `shown` is how the file is named in the refusal when its length changed
/// since the scan.
pub fn fingerprint_candidate(path: &String, len: u64, shown: &str, bytes: &[u8]) -> (r: Result<
    FingerprintCandidate,
    String,
>)
    ensures
        bytes@.len() != len ==> r is Err && r->Err_0@ == "CurseForge 候选文件长度在扫描中变化: "@
            + shown@,
        bytes@.len() == len ==> (r matches Ok(c) && c.path == *path && c.len == len && c.fingerprint
            == murmur2(bytes@, 1)),
{
    if bytes.len() as u64 != len {
        let mut m = "CurseForge 候选文件长度在扫描中变化: ".to_owned();
        push_str(&mut m, shown);
        return Err(m);
    }
    Ok(FingerprintCandidate { path: copy_string(path), len, fingerprint: murmur2_hash32(bytes, 1) })
}

/// The fingerprints of the candidates, in order, in batches of at most
/// `FINGERPRINT_BATCH_SIZE`; every batch but the last is full.
pub fn fingerprint_batches(candidates: &Vec<FingerprintCandidate>) -> (r: Vec<Vec<u32>>)
    ensures
        flatten_u32(r@) == candidates@.map_values(|c: FingerprintCandidate| c.fingerprint),
        forall|k: int|
            0 <= k < r@.len() ==> 0 < (#[trigger] r@[k])@.len() <= FINGERPRINT_BATCH_SIZE,
        forall|k: int| 0 <= k < r@.len() - 1 ==> (#[trigger] r@[k])@.len() == FINGERPRINT_BATCH_SIZE,
{
    let mut out: Vec<Vec<u32>> = Vec::new();
    let mut current: Vec<u32> = Vec::new();
    let ghost all = candidates@.map_values(|c: FingerprintCandidate| c.fingerprint);
    for i in 0..candidates.len()
        invariant
            all == candidates@.map_values(|c: FingerprintCandidate| c.fingerprint),
            flatten_u32(out@) + current@ == all.take(i as int),
            current@.len() < FINGERPRINT_BATCH_SIZE,
            forall|k: int| 0 <= k < out@.len() ==> (#[trigger] out@[k])@.len() == FINGERPRINT_BATCH_SIZE,
    {
        current.push(candidates[i].fingerprint);
        assert(all.take(i + 1) =~= all.take(i as int).push(all[i as int]));
        if current.len() == FINGERPRINT_BATCH_SIZE {
            let ghost before = out@;
            let full = current;
            current = Vec::new();
            out.push(full);
            assert(out@.drop_last() =~= before);
        }
    }
    let ghost before = out@;
    if current.len() > 0 {
        out.push(current);
        assert(out@.drop_last() =~= before);
    }
    assert(all.take(candidates@.len() as int) =~= all);
    out
}

/// The concatenation of batches.
pub open spec fn flatten_u32(batches: Seq<Vec<u32>>) -> Seq<u32>
    decreases batches.len(),
{
    if batches.len() == 0 {
        Seq::empty()
    } else {
        flatten_u32(batches.drop_last()) + batches.last()@
    }
}

/// The last returned file whose fingerprint, as a 32-bit value, is `fingerprint`.
pub open spec fn last_file_with(files: Seq<CurseForgeFile>, fingerprint: u32) -> Option<CurseForgeFile>
    decreases files.len(),
{
    if files.len() == 0 {
        None
    } else if files.last().file_fingerprint as u32 == fingerprint {
        Some(files.last())
    } else {
        last_file_with(files.drop_last(), fingerprint)
    }
}

/// The source CurseForge gives a candidate: the last match of its fingerprint,
/// provided its length agrees.
pub open spec fn curseforge_source_of(
    c: FingerprintCandidate,
    files: Seq<CurseForgeFile>,
    config: CurseForgeConfig,
) -> Option<(Seq<char>, Seq<char>, bool)> {
    match last_file_with(files, c.fingerprint) {
        Some(f) => if f.file_length == c.len {
            Some(("curseforge"@, cdn_url_of(config.cdn_base_url@, f.id, f.file_name@), config.fallback_to_mcpatch))
        } else {
            None
        },
        None => None,
    }
}

/// The `(path, source)` pairs for the candidates that CurseForge resolves, in
/// the candidates' order.
pub open spec fn curseforge_pairs(
    candidates: Seq<FingerprintCandidate>,
    files: Seq<CurseForgeFile>,
    config: CurseForgeConfig,
) -> Seq<(Seq<char>, (Seq<char>, Seq<char>, bool))>
    decreases candidates.len(),
{
    if candidates.len() == 0 {
        Seq::empty()
    } else {
        let rest = curseforge_pairs(candidates.drop_last(), files, config);
        match curseforge_source_of(candidates.last(), files, config) {
            Some(v) => rest.push((candidates.last().path@, v)),
            None => rest,
        }
    }
}

fn find_last_file(files: &Vec<CurseForgeFile>, fingerprint: u32) -> (r: Option<usize>)
    ensures
        match last_file_with(files@, fingerprint) {
            Some(f) => r matches Some(i) && i < files@.len() && files@[i as int] == f,
            None => r is None,
        },
{
    let mut i = files.len();
    assert(files@.take(i as int) =~= files@);
    while i > 0
        invariant
            i <= files@.len(),
            last_file_with(files@, fingerprint) == last_file_with(files@.take(i as int), fingerprint),
        decreases i,
    {
        assert(files@.take(i as int).drop_last() =~= files@.take(i - 1));
        if files[i - 1].file_fingerprint as u32 == fingerprint {
            return Some(i - 1);
        }
        i = i - 1;
    }
    None
}

/// The sources CurseForge gives the candidates, from the exact matches that
/// the lookups returned, in the order they were returned.
pub fn curseforge_sources(
    candidates: &Vec<FingerprintCandidate>,
    files: &Vec<CurseForgeFile>,
    config: &CurseForgeConfig,
) -> (r: Vec<(String, ExternalSource)>)
    ensures
        r@.map_values(|p: (String, ExternalSource)| (p.0@, source_view(p.1))) == curseforge_pairs(
            candidates@,
            files@,
            *config,
        ),
{
    let mut out: Vec<(String, ExternalSource)> = Vec::new();
    for i in 0..candidates.len()
        invariant
            out@.map_values(|p: (String, ExternalSource)| (p.0@, source_view(p.1))) == curseforge_pairs(
                candidates@.take(i as int),
                files@,
                *config,
            ),
    {
        assert(candidates@.take(i + 1).drop_last() =~= candidates@.take(i as int));
        let c = &candidates[i];
        match find_last_file(files, c.fingerprint) {
            Some(k) => {
                let f = &files[k];
                if f.file_length == c.len {
                    let url = curseforge_cdn_url(config.cdn_base_url.as_str(), f.id, f.file_name.as_str());
                    let source = ExternalSource {
                        provider: "curseforge".to_owned(),
                        url,
                        fallback_to_mcpatch: config.fallback_to_mcpatch,
                    };
                    let ghost before = out@;
                    out.push((copy_string(&c.path), source));
                    assert(out@.map_values(|p: (String, ExternalSource)| (p.0@, source_view(p.1)))
                        =~= before.map_values(|p: (String, ExternalSource)| (p.0@, source_view(p.1))).push(
                        (c.path@, ("curseforge"@, url@, config.fallback_to_mcpatch)),
                    ));
                }
            },
            None => {},
        }
    }
    assert(candidates@.take(candidates@.len() as int) =~= candidates@);
    out
}

proof fn lemma_curseforge_pairs_paths(
    candidates: Seq<FingerprintCandidate>,
    files: Seq<CurseForgeFile>,
    config: CurseForgeConfig,
)
    ensures
        forall|j: int|
            0 <= j < curseforge_pairs(candidates, files, config).len() ==> candidates.map_values(
                |c: FingerprintCandidate| c.path@,
            ).contains(#[trigger] curseforge_pairs(candidates, files, config)[j].0),
    decreases candidates.len(),
{
    if candidates.len() > 0 {
        let init = candidates.drop_last();
        lemma_curseforge_pairs_paths(init, files, config);
        let all = candidates.map_values(|c: FingerprintCandidate| c.path@);
        let some = init.map_values(|c: FingerprintCandidate| c.path@);
        let ps = curseforge_pairs(candidates, files, config);
        let rest = curseforge_pairs(init, files, config);
        assert forall|j: int| 0 <= j < ps.len() implies all.contains(#[trigger] ps[j].0) by {
            if j < rest.len() {
                assert(ps[j] == rest[j]);
                let i = choose|i: int| 0 <= i < some.len() && some[i] == rest[j].0;
                assert(all[i] == some[i]);
            } else {
                assert(ps[j].0 == candidates.last().path@);
                assert(all[candidates.len() - 1] == candidates.last().path@);
            }
        }
    }
}

/// Attaches the sources that CurseForge gives to the files of a pack.
/// `candidates` are the files asked about (their positions given by
/// `candidate_indices`), and `lookup` is what the fingerprint lookups
/// returned (their exact matches, in order), or the error that stopped them;
/// the lookups are made only when `curseforge_lookup_enabled` says so and
/// there is a candidate, and `lookup` is not read otherwise. Nothing changes
/// when CurseForge is disabled, when it has no API key (refused), when there
/// is no candidate, or when a lookup failed; otherwise each resolved source
/// is attached. Only the sources of files written at a candidate's path
/// change.
pub fn attach_curseforge_sources(
    changes: &mut Vec<FileChange>,
    config: &CurseForgeConfig,
    candidates: &Vec<FingerprintCandidate>,
    lookup: Result<Vec<CurseForgeFile>, String>,
) -> (r: Result<usize, String>)
    ensures
        !config.enabled ==> r == Ok::<usize, String>(0) && final(changes)@ == old(changes)@,
        config.enabled && trim(config.api_key@).len() == 0 ==> r is Err && r->Err_0@
            == "CurseForge 外部下载已启用，但 api-key 为空"@ && final(changes)@ == old(changes)@,
        config.enabled && trim(config.api_key@).len() > 0 && candidates@.len() == 0 ==> r == Ok::<
            usize,
            String,
        >(0) && final(changes)@ == old(changes)@,
        config.enabled && trim(config.api_key@).len() > 0 && candidates@.len() > 0 ==> match lookup {
            Err(e) => r == Err::<usize, String>(e) && final(changes)@ == old(changes)@,
            Ok(files) => exists|pairs: Seq<(String, ExternalSource)>|
                {
                    &&& pairs.map_values(|p: (String, ExternalSource)| (p.0@, source_view(p.1)))
                        == curseforge_pairs(candidates@, files@, *config)
                    &&& final(changes)@ == #[trigger] attached(old(changes)@, pairs)
                    &&& r matches Ok(n) && n == receivers(old(changes)@, pairs, old(changes)@.len() as int)
                },
        },
        changed_only_at(
            old(changes)@,
            final(changes)@,
            candidates@.map_values(|c: FingerprintCandidate| c.path@),
        ),
{
    match curseforge_lookup_enabled(config) {
        Ok(true) => {},
        Ok(false) => return Ok(0),
        Err(e) => return Err(e),
    }
    if candidates.len() == 0 {
        return Ok(0);
    }
    let files = match lookup {
        Ok(f) => f,
        Err(e) => return Err(e),
    };
    let pairs = curseforge_sources(candidates, &files, config);
    proof {
        lemma_curseforge_pairs_paths(candidates@, files@, *config);
        let paths = candidates@.map_values(|c: FingerprintCandidate| c.path@);
        let views = pairs@.map_values(|p: (String, ExternalSource)| (p.0@, source_view(p.1)));
        assert forall|j: int| 0 <= j < pairs@.len() implies paths.contains(#[trigger] pairs@[j].0@) by {
            assert(views[j].0 == pairs@[j].0@);
        }
        lemma_attached_changes_only(changes@, pairs@, paths);
    }
    let n = attach_sources(changes, &pairs);
    Ok(n)
}

} // verus!
