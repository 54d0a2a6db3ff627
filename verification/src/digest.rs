//! SHA-256 digests and their lowercase hexadecimal form.
use sha2::Digest;
use vstd::prelude::*;

verus! {

/// The SHA-256 digest of `data`, as `sha2::Sha256` computes it.
pub uninterp spec fn sha256_of(data: Seq<u8>) -> Seq<u8>;

/// `sha2::Sha256::digest(data)`: the 32-byte digest of `data`. What the bytes
/// are is named by `sha256_of` and not stated further.
#[verifier::external_body]
pub(crate) fn sha256(data: &[u8]) -> (r: Vec<u8>)
    ensures
        r@ == sha256_of(data@),
        r@.len() == 32,
{
    sha2::Sha256::digest(data).to_vec()
}

/// The concatenation of byte strings.
pub open spec fn flatten(chunks: Seq<Vec<u8>>) -> Seq<u8>
    decreases chunks.len(),
{
    if chunks.len() == 0 {
        Seq::empty()
    } else {
        flatten(chunks.drop_last()) + chunks.last()@
    }
}

/// A `sha2::Sha256` hasher fed each chunk by `update`, then finalized. Feeding
/// chunks one after another digests their concatenation, as the `Digest`
/// documentation describes `update`.
#[verifier::external_body]
pub(crate) fn sha256_chunks(chunks: &Vec<Vec<u8>>) -> (r: Vec<u8>)
    ensures
        r@ == sha256_of(flatten(chunks@)),
        r@.len() == 32,
{
    let mut hasher = sha2::Sha256::new();
    for chunk in chunks {
        hasher.update(chunk);
    }
    hasher.finalize().to_vec()
}

/// The lowercase hexadecimal digit of a value below 16.
pub open spec fn hex_digit(v: int) -> char {
    if v < 10 {
        (('0' as int) + v) as char
    } else {
        (('a' as int) + v - 10) as char
    }
}

/// Two lowercase hexadecimal digits per byte, high nibble first.
pub open spec fn hex_lower(data: Seq<u8>) -> Seq<char>
    decreases data.len(),
{
    if data.len() == 0 {
        Seq::empty()
    } else {
        hex_lower(data.drop_last()) + seq![
            hex_digit(data.last() as int / 16),
            hex_digit(data.last() as int % 16),
        ]
    }
}

fn nibble_char(v: u8) -> (c: char)
    requires
        v < 16,
    ensures
        c == hex_digit(v as int),
{
    match v {
        0 => '0',
        1 => '1',
        2 => '2',
        3 => '3',
        4 => '4',
        5 => '5',
        6 => '6',
        7 => '7',
        8 => '8',
        9 => '9',
        10 => 'a',
        11 => 'b',
        12 => 'c',
        13 => 'd',
        14 => 'e',
        _ => 'f',
    }
}

/// `format!("{:x}", digest)`: the bytes written as lowercase hexadecimal.
pub fn hex_string(data: &Vec<u8>) -> (r: String)
    ensures
        r@ == hex_lower(data@),
{
    let mut chars: Vec<char> = Vec::new();
    for i in 0..data.len()
        invariant
            chars@ == hex_lower(data@.take(i as int)),
    {
        let b = data[i];
        chars.push(nibble_char(b / 16));
        chars.push(nibble_char(b % 16));
        assert(data@.take(i + 1).drop_last() =~= data@.take(i as int));
        assert(chars@ =~= hex_lower(data@.take(i as int)) + seq![
            hex_digit(b as int / 16),
            hex_digit(b as int % 16),
        ]);
    }
    assert(data@.take(data@.len() as int) =~= data@);
    crate::text::string_of(&chars)
}

/// `base16ct::lower::encode_string(input)`: two lowercase hexadecimal digits
/// per byte, high nibble first. The crate panics above `usize::MAX / 2`
/// bytes, which `requires` rules out.
#[verifier::external_body]
pub(crate) fn base16_lower(input: &[u8]) -> (r: String)
    requires
        input@.len() <= usize::MAX / 2,
    ensures
        r@ == hex_lower(input@),
{
    base16ct::lower::encode_string(input)
}

/// The lowercase hexadecimal SHA-256 digest of a byte string.
pub fn sha256_hex(data: &[u8]) -> (r: String)
    ensures
        r@ == hex_lower(sha256_of(data@)),
{
    hex_string(&sha256(data))
}

/// The lowercase hexadecimal SHA-256 digest of chunks read one after another.
pub fn sha256_hex_of_chunks(chunks: &Vec<Vec<u8>>) -> (r: String)
    ensures
        r@ == hex_lower(sha256_of(flatten(chunks@))),
{
    hex_string(&sha256_chunks(chunks))
}

} // verus!
