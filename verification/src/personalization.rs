//! The manager's personalization requests: editing the profile text and
//! colours, and uploading or removing its two managed images.
use vstd::prelude::*;

use crate::images::{image_kind_of, supported_image};
use crate::manager_profile::{ThemeColors, UiProfile, BACKGROUND_ASSET_PATH, ICON_ASSET_PATH};
use crate::text::str_eq;

verus! {

/// The largest image the manager stores, in bytes.
pub const MAX_IMAGE_BYTES: usize = 8388608;

/// An edit of the profile's texts and colours; absent text colours stay as they are.
#[derive(Clone, Debug)]
pub struct UpdateProfileRequest {
    pub headline: String,
    pub subtitle: String,
    pub footer: String,
    pub headline_color: Option<String>,
    pub subtitle_color: Option<String>,
    pub footer_color: Option<String>,
    pub launch_label_offset_x: i8,
    pub theme: ThemeColors,
}

/// Names one of the managed images.
#[derive(Clone, Debug)]
pub struct ImageRequest {
    pub kind: String,
}

/// Where the image of a kind is stored: `icon` or `background`, nothing else.
pub open spec fn managed_path_of(kind: Seq<char>) -> Option<Seq<char>> {
    if kind == "icon"@ {
        Some(ICON_ASSET_PATH@)
    } else if kind == "background"@ {
        Some(BACKGROUND_ASSET_PATH@)
    } else {
        None
    }
}

pub fn managed_asset_path(kind: &str) -> (r: Option<&'static str>)
    ensures
        match r {
            Some(p) => managed_path_of(kind@) == Some(p@),
            None => managed_path_of(kind@) is None,
        },
{
    if str_eq(kind, "icon") {
        Some(ICON_ASSET_PATH)
    } else if str_eq(kind, "background") {
        Some(BACKGROUND_ASSET_PATH)
    } else {
        None
    }
}

pub open spec fn or_keep(v: Option<String>, current: String) -> String {
    match v {
        Some(c) => c,
        None => current,
    }
}

/// The profile with the request's texts, colours, offset and theme.
pub open spec fn edited(p: UiProfile, req: UpdateProfileRequest) -> UiProfile {
    UiProfile {
        headline: req.headline,
        subtitle: req.subtitle,
        footer: req.footer,
        headline_color: or_keep(req.headline_color, p.headline_color),
        subtitle_color: or_keep(req.subtitle_color, p.subtitle_color),
        footer_color: or_keep(req.footer_color, p.footer_color),
        launch_label_offset_x: req.launch_label_offset_x,
        theme: req.theme,
        ..p
    }
}

/// Applies an edit and checks the result as `UiProfile::validate` does.
pub fn apply_profile_update(profile: UiProfile, req: UpdateProfileRequest) -> (r: Result<
    UiProfile,
    String,
>)
    ensures
        ({
            let e = edited(profile, req);
            &&& e.profile_error() matches Some(m) ==> r is Err && r->Err_0@ == m
            &&& e.profile_error() is None ==> r == Ok::<UiProfile, String>(e.completed())
        }),
{
    let mut p = profile;
    p.headline = req.headline;
    p.subtitle = req.subtitle;
    p.footer = req.footer;
    match req.headline_color {
        Some(c) => {
            p.headline_color = c;
        },
        None => {},
    }
    match req.subtitle_color {
        Some(c) => {
            p.subtitle_color = c;
        },
        None => {},
    }
    match req.footer_color {
        Some(c) => {
            p.footer_color = c;
        },
        None => {},
    }
    p.launch_label_offset_x = req.launch_label_offset_x;
    p.theme = req.theme;
    p.validate()
}

/// Why an uploaded image is refused, if it is.
pub open spec fn upload_error(kind: Option<Seq<char>>, bytes: Seq<u8>) -> Option<Seq<char>> {
    match kind {
        None => Some("缺少图片类型"@),
        Some(k) => if managed_path_of(k) is None {
            Some("图片类型必须是 icon 或 background"@)
        } else if bytes.len() == 0 || bytes.len() > MAX_IMAGE_BYTES {
            Some("图片不能为空或超过 8 MiB"@)
        } else if image_kind_of(bytes) is None {
            Some("仅支持 PNG、GIF、JPEG 或 WebP 图片"@)
        } else {
            None
        },
    }
}

/// Checks an upload and says where the image is stored.
pub fn check_image_upload(kind: Option<&str>, bytes: &[u8]) -> (r: Result<&'static str, String>)
    ensures
        match upload_error(
            match kind {
                Some(k) => Some(k@),
                None => None,
            },
            bytes@,
        ) {
            Some(e) => r is Err && r->Err_0@ == e,
            None => r is Ok && Some(r->Ok_0@) == managed_path_of(kind->Some_0@),
        },
{
    let k = match kind {
        Some(k) => k,
        None => return Err("缺少图片类型".to_owned()),
    };
    let path = match managed_asset_path(k) {
        Some(p) => p,
        None => return Err("图片类型必须是 icon 或 background".to_owned()),
    };
    if bytes.len() == 0 || bytes.len() > MAX_IMAGE_BYTES {
        return Err("图片不能为空或超过 8 MiB".to_owned());
    }
    if !supported_image(bytes) {
        return Err("仅支持 PNG、GIF、JPEG 或 WebP 图片".to_owned());
    }
    Ok(path)
}

/// The profile once an image of `kind` is stored: the icon for `icon`,
/// the background for anything else.
pub fn with_uploaded_image(profile: UiProfile, kind: &str) -> (r: UiProfile)
    ensures
        kind@ == "icon"@ ==> r == (UiProfile { icon: r.icon, ..profile }) && r.icon@
            == ICON_ASSET_PATH@,
        kind@ != "icon"@ ==> r == (UiProfile { background_image: r.background_image, ..profile })
            && r.background_image@ == BACKGROUND_ASSET_PATH@,
{
    let mut p = profile;
    if str_eq(kind, "icon") {
        p.icon = ICON_ASSET_PATH.to_owned();
    } else {
        p.background_image = BACKGROUND_ASSET_PATH.to_owned();
    }
    p
}

/// The profile once the image of `kind` is removed.
pub fn without_image(profile: UiProfile, kind: &str) -> (r: UiProfile)
    ensures
        kind@ == "icon"@ ==> r == (UiProfile { icon: r.icon, ..profile }) && r.icon@.len() == 0,
        kind@ != "icon"@ ==> r == (UiProfile { background_image: r.background_image, ..profile })
            && r.background_image@.len() == 0,
{
    let mut p = profile;
    if str_eq(kind, "icon") {
        p.icon = String::new();
    } else {
        p.background_image = String::new();
    }
    p
}

} // verus!
