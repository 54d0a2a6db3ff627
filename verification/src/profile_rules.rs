//! The rules that both the manager and the client apply to a UI profile.
use vstd::prelude::*;
use vstd::string::StringSliceAdditionalSpecFns;
use vstd::utf8::encode_utf8;

use crate::text::{char_is_hex, chars_has, chars_of, has_char, is_hex, trim, trim_chars};

verus! {

/// The longest display text, in UTF-8 bytes.
pub const MAX_TEXT_BYTES: usize = 240;

/// A display text: not blank, at most 240 UTF-8 bytes, on one line.
pub open spec fn text_ok(value: Seq<char>) -> bool {
    &&& trim(value).len() > 0
    &&& encode_utf8(value).len() <= MAX_TEXT_BYTES
    &&& !has_char(value, '\r')
    &&& !has_char(value, '\n')
}

/// A colour written `#RRGGBB`.
pub open spec fn color_ok(value: Seq<char>) -> bool {
    &&& value.len() == 7
    &&& value[0] == '#'
    &&& forall|i: int| 1 <= i < 7 ==> is_hex(#[trigger] value[i])
}

pub fn valid_text(value: &str) -> (r: bool)
    ensures
        r == text_ok(value@),
{
    let cs = chars_of(value);
    let t = trim_chars(&cs);
    t.len() > 0 && value.as_bytes().len() <= MAX_TEXT_BYTES && !chars_has(&cs, '\r') && !chars_has(&cs, '\n')
}

pub fn valid_color(value: &str) -> (r: bool)
    ensures
        r == color_ok(value@),
{
    let cs = chars_of(value);
    if cs.len() != 7 || cs[0] != '#' {
        return false;
    }
    for i in 1..7
        invariant
            cs@ == value@,
            cs@.len() == 7,
            forall|k: int| 1 <= k < i ==> is_hex(#[trigger] cs@[k]),
    {
        if !char_is_hex(cs[i]) {
            return false;
        }
    }
    true
}

} // verus!
