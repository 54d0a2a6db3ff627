//! The manager's file browser: which requested paths stay inside the
//! workspace, how a previewed file is typed, and how a download link is signed.
use vstd::prelude::*;

use crate::digest::{base16_lower, hex_lower, sha256, sha256_of};
use crate::path_model::{components, extension, path_components, path_extension, Component, PathComponent};
use crate::text::{
    bytes_of, chars_of, dec, decimal, is_alpha, lower_chars, lower_seq, push_str, slash_chars,
    slash_seq, split_chars, split_on, str_eq, string_of,
};

verus! {

// ---------------------------------------------------------------------------
// Requested paths
// ---------------------------------------------------------------------------

/// Why a requested path is refused before the file system is asked, if it is.
pub open spec fn request_path_error(requested: Seq<char>, allow_empty: bool) -> Option<Seq<char>> {
    let n = slash_seq(requested);
    if n.len() == 0 {
        if allow_empty {
            None
        } else {
            Some("path must not be empty"@)
        }
    } else if n[0] == '/' || (n.len() >= 2 && is_alpha(n[0]) && n[1] == ':') {
        Some("path must stay inside workspace"@)
    } else if exists|k: int| 0 <= k < components(n).len() && !(#[trigger] components(n)[k] is Normal) {
        Some("path must stay inside workspace"@)
    } else {
        None
    }
}

/// Checks a path the browser asks for: relative, without a drive, and made of
/// normal components only. Returns it with `/` separators; the file system
/// checks (the workspace's real location and symbolic links) come after.
pub fn workspace_path(requested: &str, allow_empty: bool) -> (r: Result<String, String>)
    ensures
        match request_path_error(requested@, allow_empty) {
            Some(e) => r is Err && r->Err_0@ == e,
            None => r is Ok && r->Ok_0@ == slash_seq(requested@),
        },
{
    let n = slash_chars(&chars_of(requested));
    if n.len() == 0 {
        if allow_empty {
            return Ok(String::new());
        }
        return Err("path must not be empty".to_owned());
    }
    let drive = n.len() >= 2 && crate::text::char_is_alpha(n[0]) && n[1] == ':';
    if n[0] == '/' || drive {
        return Err("path must stay inside workspace".to_owned());
    }
    let cs = path_components(&n);
    for k in 0..cs.len()
        invariant
            crate::path_model::models(cs@) == components(n@),
            n@ == slash_seq(requested@),
            n@.len() > 0,
            !(n@[0] == '/' || (n@.len() >= 2 && is_alpha(n@[0]) && n@[1] == ':')),
            forall|j: int| 0 <= j < k ==> #[trigger] components(n@)[j] is Normal,
    {
        assert(crate::path_model::models(cs@)[k as int] == cs@[k as int].model());
        match &cs[k] {
            PathComponent::Normal(_) => {},
            _ => {
                return Err("path must stay inside workspace".to_owned());
            },
        }
    }
    Ok(string_of(&n))
}

// ---------------------------------------------------------------------------
// Preview types
// ---------------------------------------------------------------------------

/// The type under which a previewed file is served, by its lowercase
/// extension; anything not known to be safe inline is a download.
pub open spec fn content_type_of(ext: Option<Seq<char>>) -> Seq<char> {
    match ext {
        Some(e0) => {
            let e = lower_seq(e0);
            if e == "png"@ {
                "image/png"@
            } else if e == "jpg"@ || e == "jpeg"@ {
                "image/jpeg"@
            } else if e == "gif"@ {
                "image/gif"@
            } else if e == "webp"@ {
                "image/webp"@
            } else if e == "bmp"@ {
                "image/bmp"@
            } else if e == "txt"@ || e == "log"@ || e == "md"@ || e == "toml"@ || e == "yml"@ || e
                == "yaml"@ || e == "properties"@ {
                "text/plain; charset=utf-8"@
            } else if e == "json"@ {
                "application/json; charset=utf-8"@
            } else if e == "pdf"@ {
                "application/pdf"@
            } else if e == "mp3"@ {
                "audio/mpeg"@
            } else if e == "ogg"@ {
                "audio/ogg"@
            } else if e == "wav"@ {
                "audio/wav"@
            } else if e == "mp4"@ {
                "video/mp4"@
            } else if e == "webm"@ {
                "video/webm"@
            } else {
                "application/octet-stream"@
            }
        },
        None => "application/octet-stream"@,
    }
}

fn is(e: &Vec<char>, lit: &str) -> (r: bool)
    ensures
        r == (e@ == lit@),
{
    crate::text::chars_eq(e, &chars_of(lit))
}

pub fn preview_content_type(path: &str) -> (r: &'static str)
    ensures
        r@ == content_type_of(extension(path@)),
{
    let e = match path_extension(&chars_of(path)) {
        Some(x) => lower_chars(&x),
        None => return "application/octet-stream",
    };
    if is(&e, "png") {
        "image/png"
    } else if is(&e, "jpg") || is(&e, "jpeg") {
        "image/jpeg"
    } else if is(&e, "gif") {
        "image/gif"
    } else if is(&e, "webp") {
        "image/webp"
    } else if is(&e, "bmp") {
        "image/bmp"
    } else if is(&e, "txt") || is(&e, "log") || is(&e, "md") || is(&e, "toml") || is(&e, "yml")
        || is(&e, "yaml") || is(&e, "properties") {
        "text/plain; charset=utf-8"
    } else if is(&e, "json") {
        "application/json; charset=utf-8"
    } else if is(&e, "pdf") {
        "application/pdf"
    } else if is(&e, "mp3") {
        "audio/mpeg"
    } else if is(&e, "ogg") {
        "audio/ogg"
    } else if is(&e, "wav") {
        "audio/wav"
    } else if is(&e, "mp4") {
        "video/mp4"
    } else if is(&e, "webm") {
        "video/webm"
    } else {
        "application/octet-stream"
    }
}

// ---------------------------------------------------------------------------
// Signed download links
// ---------------------------------------------------------------------------

/// The lowercase hexadecimal SHA-256 of a text.
pub open spec fn text_hash(text: Seq<char>) -> Seq<char> {
    hex_lower(sha256_of(vstd::utf8::encode_utf8(text)))
}

pub fn hash(text: &str) -> (r: String)
    ensures
        r@ == text_hash(text@),
{
    let digest = sha256(bytes_of(text).as_slice());
    base16_lower(digest.as_slice())
}

pub open spec fn digit_value(c: char) -> int {
    (c as int) - ('0' as int)
}

pub open spec fn is_digit(c: char) -> bool {
    '0' <= c && c <= '9'
}

/// The value of a string of decimal digits.
pub open spec fn digits_value(s: Seq<char>) -> int
    decreases s.len(),
{
    if s.len() == 0 {
        0
    } else {
        10 * digits_value(s.drop_last()) + digit_value(s.last())
    }
}

/// `u64::from_str_radix(s, 10)`: an optional `+` and at least one decimal
/// digit, of a value that fits.
pub open spec fn parse_u64(s: Seq<char>) -> Option<u64> {
    let d = unsigned_part(s);
    if d.len() > 0 && all_digits(d) && digits_value(d) <= u64::MAX {
        Some(digits_value(d) as u64)
    } else {
        None
    }
}

/// The text after an optional leading `+`.
pub open spec fn unsigned_part(s: Seq<char>) -> Seq<char> {
    if s.len() > 0 && s[0] == '+' {
        s.drop_first()
    } else {
        s
    }
}

pub open spec fn all_digits(d: Seq<char>) -> bool {
    forall|i: int| 0 <= i < d.len() ==> is_digit(#[trigger] d[i])
}

proof fn lemma_digits_nonneg(s: Seq<char>)
    requires
        forall|i: int| 0 <= i < s.len() ==> is_digit(#[trigger] s[i]),
    ensures
        digits_value(s) >= 0,
    decreases s.len(),
{
    if s.len() > 0 {
        lemma_digits_nonneg(s.drop_last());
    }
}

proof fn lemma_digits_mono(s: Seq<char>, m: int)
    requires
        0 <= m <= s.len(),
        forall|i: int| 0 <= i < s.len() ==> is_digit(#[trigger] s[i]),
    ensures
        digits_value(s.take(m)) <= digits_value(s),
    decreases s.len(),
{
    if m < s.len() {
        assert(s.drop_last().take(m) =~= s.take(m));
        lemma_digits_mono(s.drop_last(), m);
        lemma_digits_nonneg(s.drop_last());
    } else {
        assert(s.take(m) =~= s);
    }
}

pub fn parse_decimal(s: &Vec<char>) -> (r: Option<u64>)
    ensures
        r == parse_u64(s@),
{
    let start: usize = if s.len() > 0 && s[0] == '+' {
        1
    } else {
        0
    };
    let ghost d = if s@.len() > 0 && s@[0] == '+' {
        s@.drop_first()
    } else {
        s@
    };
    assert(d =~= s@.subrange(start as int, s@.len() as int));
    if start >= s.len() {
        return None;
    }
    let mut value: u64 = 0;
    let mut i = start;
    while i < s.len()
        invariant
            start <= i <= s@.len(),
            start < s@.len(),
            d == unsigned_part(s@),
            d == s@.subrange(start as int, s@.len() as int),
            forall|k: int| 0 <= k < i - start ==> is_digit(#[trigger] d[k]),
            value == digits_value(d.take(i - start)),
        decreases s@.len() - i,
    {
        let c = s[i];
        if !('0' <= c && c <= '9') {
            assert(d[i - start] == c);
            assert(!is_digit(d[i - start]));
            assert(!(forall|k: int| 0 <= k < d.len() ==> is_digit(#[trigger] d[k])));
            assert(parse_u64(s@) is None);
            return None;
        }
        let v = (c as u32 - '0' as u32) as u64;
        assert(d.take(i + 1 - start).drop_last() =~= d.take(i - start));
        assert(d.take(i + 1 - start).last() == c);
        if value > (u64::MAX - v) / 10 {
            proof {
                assert forall|k: int| 0 <= k < i + 1 - start implies is_digit(#[trigger] d[k]) by {}
                lemma_digits_nonneg(d.take(i - start));
                assert(digits_value(d.take(i + 1 - start)) > u64::MAX) by (nonlinear_arith)
                    requires
                        digits_value(d.take(i + 1 - start)) == 10 * value + v,
                        value > (u64::MAX - v) / 10,
                        0 <= v <= 9,
                ;
                if forall|k: int| 0 <= k < d.len() ==> is_digit(#[trigger] d[k]) {
                    lemma_digits_mono(d, i + 1 - start);
                    assert(digits_value(d) > u64::MAX);
                }
                assert(parse_u64(s@) is None);
            }
            return None;
        }
        value = value * 10 + v;
        i = i + 1;
    }
    assert(d.take(d.len() as int) =~= d);
    Some(value)
}

/// The outcome of checking a download link.
pub enum SignatureCheck {
    /// The link lacks a part, or its expiry is not a number.
    Malformed,
    /// The digest does not match.
    Mismatch,
    /// The link is genuine; it names this path and expiry.
    Valid { path: String, expire: u64 },
}

/// The text a link's digest covers: `path:expire:username@password`.
pub open spec fn signed_text(path: Seq<char>, expire: u64, username: Seq<char>, password: Seq<char>) -> Seq<char> {
    path + ":"@ + dec(expire as nat) + ":"@ + username + "@"@ + password
}

/// What checking `path:expire:digest` against the credentials gives.
pub open spec fn signature_outcome(sign: Seq<char>, username: Seq<char>, password: Seq<char>) -> Option<
    (Seq<char>, u64),
> {
    let parts = split_on(sign, ':');
    if parts.len() < 3 {
        None
    } else {
        match parse_u64(parts[1]) {
            None => None,
            Some(expire) => if text_hash(signed_text(parts[0], expire, username, password))
                == parts[2] {
                Some((parts[0], expire))
            } else {
                None
            },
        }
    }
}

/// Checks a signed download link `path:expire:digest`: the digest must be the
/// SHA-256 of `path:expire:username@password`.
pub fn check_signature(sign: &str, username: &str, password: &str) -> (r: SignatureCheck)
    ensures
        ({
            let parts = split_on(sign@, ':');
            match r {
                SignatureCheck::Malformed => parts.len() < 3 || parse_u64(parts[1]) is None,
                SignatureCheck::Mismatch => parts.len() >= 3 && parse_u64(parts[1]) is Some
                    && signature_outcome(sign@, username@, password@) is None,
                SignatureCheck::Valid { path, expire } => signature_outcome(
                    sign@,
                    username@,
                    password@,
                ) == Some((path@, expire)),
            }
        }),
{
    let parts = split_chars(&chars_of(sign), ':');
    if parts.len() < 3 {
        return SignatureCheck::Malformed;
    }
    assert(parts@[1]@ == split_on(sign@, ':')[1]);
    assert(parts@[0]@ == split_on(sign@, ':')[0]);
    assert(parts@[2]@ == split_on(sign@, ':')[2]);
    let expire = match parse_decimal(&parts[1]) {
        Some(v) => v,
        None => return SignatureCheck::Malformed,
    };
    let path = string_of(&parts[0]);
    let mut text = string_of(&parts[0]);
    push_str(&mut text, ":");
    push_str(&mut text, decimal(expire).as_str());
    push_str(&mut text, ":");
    push_str(&mut text, username);
    push_str(&mut text, "@");
    push_str(&mut text, password);
    let digest = hash(text.as_str());
    if crate::text::chars_eq(&chars_of(digest.as_str()), &parts[2]) {
        SignatureCheck::Valid { path, expire }
    } else {
        SignatureCheck::Mismatch
    }
}

} // verus!
