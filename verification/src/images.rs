//! Recognition of the image formats that the updater window can show, by the
//! signature bytes at the start of the file.
use vstd::prelude::*;

verus! {

/// An image format the updater accepts.
#[derive(Clone, Copy, Debug, PartialEq, Eq, Structural)]
pub enum ImageKind {
    Png,
    Gif,
    Jpeg,
    Webp,
}

pub open spec fn png_signature() -> Seq<u8> {
    seq![0x89u8, 0x50u8, 0x4eu8, 0x47u8, 0x0du8, 0x0au8, 0x1au8, 0x0au8]
}

/// `GIF87a` and `GIF89a` share all but the fifth byte.
pub open spec fn gif_signature(fifth: u8) -> Seq<u8> {
    seq![0x47u8, 0x49u8, 0x46u8, 0x38u8, fifth, 0x61u8]
}

pub open spec fn jpeg_signature() -> Seq<u8> {
    seq![0xffu8, 0xd8u8, 0xffu8]
}

/// `RIFF` at the start, `WEBP` at offset 8.
pub open spec fn is_webp(b: Seq<u8>) -> bool {
    b.len() >= 12 && b.subrange(0, 4) == seq![0x52u8, 0x49u8, 0x46u8, 0x46u8] && b.subrange(8, 12)
        == seq![0x57u8, 0x45u8, 0x42u8, 0x50u8]
}

pub open spec fn has_prefix(b: Seq<u8>, p: Seq<u8>) -> bool {
    p.len() <= b.len() && b.subrange(0, p.len() as int) == p
}

/// The format of an image, tried in the order PNG, GIF, JPEG, WebP.
pub open spec fn image_kind_of(b: Seq<u8>) -> Option<ImageKind> {
    if has_prefix(b, png_signature()) {
        Some(ImageKind::Png)
    } else if has_prefix(b, gif_signature(0x37u8)) || has_prefix(b, gif_signature(0x39u8)) {
        Some(ImageKind::Gif)
    } else if has_prefix(b, jpeg_signature()) {
        Some(ImageKind::Jpeg)
    } else if is_webp(b) {
        Some(ImageKind::Webp)
    } else {
        None
    }
}

fn prefix_matches(b: &[u8], p: &Vec<u8>) -> (r: bool)
    ensures
        r == has_prefix(b@, p@),
{
    if p.len() > b.len() {
        return false;
    }
    for i in 0..p.len()
        invariant
            p@.len() <= b@.len(),
            forall|k: int| 0 <= k < i ==> b@[k] == p@[k],
    {
        if b[i] != p[i] {
            assert(b@.subrange(0, p@.len() as int)[i as int] != p@[i as int]);
            return false;
        }
    }
    assert(b@.subrange(0, p@.len() as int) =~= p@);
    true
}

/// Recognizes the format of an image by its first bytes.
pub fn image_kind(b: &[u8]) -> (r: Option<ImageKind>)
    ensures
        r == image_kind_of(b@),
{
    let png: Vec<u8> = vec![0x89u8, 0x50u8, 0x4eu8, 0x47u8, 0x0du8, 0x0au8, 0x1au8, 0x0au8];
    let gif7: Vec<u8> = vec![0x47u8, 0x49u8, 0x46u8, 0x38u8, 0x37u8, 0x61u8];
    let gif9: Vec<u8> = vec![0x47u8, 0x49u8, 0x46u8, 0x38u8, 0x39u8, 0x61u8];
    let jpeg: Vec<u8> = vec![0xffu8, 0xd8u8, 0xffu8];
    assert(png@ =~= png_signature());
    assert(gif7@ =~= gif_signature(0x37u8));
    assert(gif9@ =~= gif_signature(0x39u8));
    assert(jpeg@ =~= jpeg_signature());
    if prefix_matches(b, &png) {
        Some(ImageKind::Png)
    } else if prefix_matches(b, &gif7) || prefix_matches(b, &gif9) {
        Some(ImageKind::Gif)
    } else if prefix_matches(b, &jpeg) {
        Some(ImageKind::Jpeg)
    } else if b.len() >= 12 && b[0] == 0x52 && b[1] == 0x49 && b[2] == 0x46 && b[3] == 0x46 && b[8]
        == 0x57 && b[9] == 0x45 && b[10] == 0x42 && b[11] == 0x50 {
        assert(b@.subrange(0, 4) =~= seq![0x52u8, 0x49u8, 0x46u8, 0x46u8]);
        assert(b@.subrange(8, 12) =~= seq![0x57u8, 0x45u8, 0x42u8, 0x50u8]);
        Some(ImageKind::Webp)
    } else {
        proof {
            if is_webp(b@) {
                assert(b@.subrange(0, 4)[0] == b@[0]);
                assert(b@.subrange(0, 4)[1] == b@[1]);
                assert(b@.subrange(0, 4)[2] == b@[2]);
                assert(b@.subrange(0, 4)[3] == b@[3]);
                assert(b@.subrange(8, 12)[0] == b@[8]);
                assert(b@.subrange(8, 12)[1] == b@[9]);
                assert(b@.subrange(8, 12)[2] == b@[10]);
                assert(b@.subrange(8, 12)[3] == b@[11]);
            }
        }
        None
    }
}

/// The MIME type of each accepted format.
pub open spec fn mime_of(k: ImageKind) -> Seq<char> {
    match k {
        ImageKind::Png => "image/png"@,
        ImageKind::Gif => "image/gif"@,
        ImageKind::Jpeg => "image/jpeg"@,
        ImageKind::Webp => "image/webp"@,
    }
}

pub fn mime_type(k: ImageKind) -> (r: &'static str)
    ensures
        r@ == mime_of(k),
{
    match k {
        ImageKind::Png => "image/png",
        ImageKind::Gif => "image/gif",
        ImageKind::Jpeg => "image/jpeg",
        ImageKind::Webp => "image/webp",
    }
}

/// Does the manager accept this upload as an icon or background?
pub fn supported_image(bytes: &[u8]) -> (r: bool)
    ensures
        r == image_kind_of(bytes@) is Some,
{
    image_kind(bytes).is_some()
}

} // verus!
