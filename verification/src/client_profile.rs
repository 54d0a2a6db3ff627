//! The UI profile as the client receives, checks and caches it.
use base64::Engine;
use vstd::prelude::*;
use vstd::utf8::encode_utf8;

use crate::images::{image_kind, image_kind_of, mime_of, mime_type, ImageKind};
use crate::manager_profile::{clamp_offset, or_default};
use crate::pending_changes::{client_path_has_unsafe_part, has_unsafe_part};
use crate::profile_rules::{color_ok, text_ok, valid_color, valid_text};
use crate::text::{
    chars_ends_with, chars_has, chars_of, chars_starts_with, copy_string, ends_with, has_char,
    push_str, starts_with, str_eq,
};

verus! {

/// The largest icon the client downloads, in bytes.
pub const MAX_ICON_BYTES: usize = 3145728;

/// The longest icon data URL the client keeps, in bytes.
pub const MAX_ICON_DATA_URL_BYTES: usize = 4194304;

/// The largest background image the client downloads, in bytes.
pub const MAX_BACKGROUND_BYTES: usize = 8388608;

/// The longest background data URL the client keeps, in bytes.
pub const MAX_BACKGROUND_DATA_URL_BYTES: usize = 11534336;

/// The labels shown for each stage of an update.
#[derive(Clone, Debug)]
pub struct StageLabels {
    pub prepare: String,
    pub checking: String,
    pub downloading: String,
    pub applying: String,
    pub completed: String,
}

/// The colours of the updater window.
#[derive(Clone, Debug)]
pub struct ThemeColors {
    pub accent: String,
    pub accent_hover: String,
    pub accent_soft: String,
    pub background: String,
    pub surface: String,
    pub log_background: String,
    pub text: String,
    pub muted: String,
    pub border: String,
}

/// The personalization of the updater window, with its images inlined as data URLs.
#[derive(Clone, Debug)]
pub struct UiProfile {
    pub schema: u8,
    pub headline: String,
    pub subtitle: String,
    pub footer: String,
    pub headline_color: String,
    pub subtitle_color: String,
    pub footer_color: String,
    pub traffic_color: String,
    pub launch_label_offset_x: i8,
    pub icon: String,
    pub icon_data_url: String,
    pub background_image: String,
    pub background_data_url: String,
    pub stages: StageLabels,
    pub theme: ThemeColors,
}

impl Default for StageLabels {
    fn default() -> (r: Self)
        ensures
            r.prepare@ == "正在准备"@,
            r.checking@ == "正在检查"@,
            r.downloading@ == "正在下载"@,
            r.applying@ == "正在应用"@,
            r.completed@ == "更新完成"@,
    {
        StageLabels {
            prepare: "正在准备".to_owned(),
            checking: "正在检查".to_owned(),
            downloading: "正在下载".to_owned(),
            applying: "正在应用".to_owned(),
            completed: "更新完成".to_owned(),
        }
    }
}

impl Default for ThemeColors {
    fn default() -> (r: Self)
        ensures
            r.accent@ == "#147d67"@,
            r.accent_hover@ == "#106b59"@,
            r.accent_soft@ == "#dff2eb"@,
            r.background@ == "#f4f7f6"@,
            r.surface@ == "#ffffff"@,
            r.log_background@ == "#f7faf9"@,
            r.text@ == "#16332d"@,
            r.muted@ == "#648078"@,
            r.border@ == "#e2ebe8"@,
    {
        ThemeColors {
            accent: "#147d67".to_owned(),
            accent_hover: "#106b59".to_owned(),
            accent_soft: "#dff2eb".to_owned(),
            background: "#f4f7f6".to_owned(),
            surface: "#ffffff".to_owned(),
            log_background: "#f7faf9".to_owned(),
            text: "#16332d".to_owned(),
            muted: "#648078".to_owned(),
            border: "#e2ebe8".to_owned(),
        }
    }
}

impl Default for UiProfile {
    /// The built-in profile; it carries no icon of its own.
    fn default() -> (r: Self)
        ensures
            r.schema == 1,
            r.headline@ == "自动更新器"@,
            r.subtitle@ == "安全检查并应用客户端更新"@,
            r.footer@ == "请保持此窗口开启，完成后将自动启动客户端。"@,
            r.headline_color@ == "#16332d"@,
            r.subtitle_color@ == "#648078"@,
            r.footer_color@ == "#648078"@,
            r.traffic_color@ == "#16332d"@,
            r.launch_label_offset_x == 2,
            r.icon@.len() == 0,
            r.icon_data_url@.len() == 0,
            r.background_image@.len() == 0,
            r.background_data_url@.len() == 0,
            r.stages.prepare@ == "正在准备"@,
            r.stages.checking@ == "正在检查"@,
            r.stages.downloading@ == "正在下载"@,
            r.stages.applying@ == "正在应用"@,
            r.stages.completed@ == "更新完成"@,
            r.theme.accent@ == "#147d67"@,
            r.theme.accent_hover@ == "#106b59"@,
            r.theme.accent_soft@ == "#dff2eb"@,
            r.theme.background@ == "#f4f7f6"@,
            r.theme.surface@ == "#ffffff"@,
            r.theme.log_background@ == "#f7faf9"@,
            r.theme.text@ == "#16332d"@,
            r.theme.muted@ == "#648078"@,
            r.theme.border@ == "#e2ebe8"@,
    {
        let theme = ThemeColors::default();
        UiProfile {
            schema: 1,
            headline: "自动更新器".to_owned(),
            subtitle: "安全检查并应用客户端更新".to_owned(),
            footer: "请保持此窗口开启，完成后将自动启动客户端。".to_owned(),
            headline_color: copy_string(&theme.text),
            subtitle_color: copy_string(&theme.muted),
            footer_color: copy_string(&theme.muted),
            traffic_color: copy_string(&theme.text),
            launch_label_offset_x: 2,
            icon: String::new(),
            icon_data_url: String::new(),
            background_image: String::new(),
            background_data_url: String::new(),
            stages: StageLabels::default(),
            theme,
        }
    }
}

/// The label shown for a stage key; an unknown key shows the preparing label.
pub open spec fn stage_label_of(stages: StageLabels, key: Seq<char>) -> Seq<char> {
    if key == "checking"@ {
        stages.checking@
    } else if key == "downloading"@ {
        stages.downloading@
    } else if key == "applying"@ {
        stages.applying@
    } else if key == "completed"@ {
        stages.completed@
    } else {
        stages.prepare@
    }
}

impl UiProfile {
    pub fn stage_label(&self, key: &str) -> (r: &str)
        ensures
            r@ == stage_label_of(self.stages, key@),
    {
        if str_eq(key, "checking") {
            self.stages.checking.as_str()
        } else if str_eq(key, "downloading") {
            self.stages.downloading.as_str()
        } else if str_eq(key, "applying") {
            self.stages.applying.as_str()
        } else if str_eq(key, "completed") {
            self.stages.completed.as_str()
        } else {
            self.stages.prepare.as_str()
        }
    }

    /// The profile with empty text colours taken from the theme and the label
    /// offset clamped to `-24..=24`.
    pub open spec fn completed(self) -> UiProfile {
        UiProfile {
            headline_color: or_default(self.headline_color, self.theme.text),
            subtitle_color: or_default(self.subtitle_color, self.theme.muted),
            footer_color: or_default(self.footer_color, self.theme.muted),
            traffic_color: or_default(self.traffic_color, self.theme.text),
            launch_label_offset_x: clamp_offset(self.launch_label_offset_x),
            ..self
        }
    }

    /// Does the client accept this profile?
    pub open spec fn acceptable(self) -> bool {
        &&& self.core_ok()
        &&& data_url_ok(self.icon_data_url@, MAX_ICON_DATA_URL_BYTES as int)
        &&& data_url_ok(self.background_data_url@, MAX_BACKGROUND_DATA_URL_BYTES as int)
    }

    /// Every rule but those on the inlined images.
    pub open spec fn core_ok(self) -> bool {
        let c = self.completed();
        &&& self.schema == 1
        &&& text_ok(self.headline@) && text_ok(self.subtitle@) && text_ok(self.footer@)
        &&& stages_ok(self.stages)
        &&& theme_ok(self.theme)
        &&& color_ok(c.headline_color@) && color_ok(c.subtitle_color@)
        &&& color_ok(c.footer_color@) && color_ok(c.traffic_color@)
        &&& (self.icon@.len() == 0 || asset_path_ok(self.icon@))
        &&& (self.background_image@.len() == 0 || asset_path_ok(self.background_image@))
    }
}

pub open spec fn stages_ok(s: StageLabels) -> bool {
    text_ok(s.prepare@) && text_ok(s.checking@) && text_ok(s.downloading@) && text_ok(s.applying@)
        && text_ok(s.completed@)
}

pub open spec fn theme_ok(t: ThemeColors) -> bool {
    color_ok(t.accent@) && color_ok(t.accent_hover@) && color_ok(t.accent_soft@) && color_ok(
        t.background@,
    ) && color_ok(t.surface@) && color_ok(t.log_background@) && color_ok(t.text@) && color_ok(
        t.muted@,
    ) && color_ok(t.border@)
}

/// A relative `/`-separated image path without empty, `.` or `..` parts.
pub open spec fn asset_path_ok(p: Seq<char>) -> bool {
    &&& !(p.len() > 0 && p[0] == '/')
    &&& !has_char(p, '\\')
    &&& !client_path_has_unsafe_part(p)
    &&& (ends_with(p, ".png"@) || ends_with(p, ".jpg"@) || ends_with(p, ".jpeg"@) || ends_with(
        p,
        ".webp"@,
    ))
}

/// An inlined image: empty, or an image data URL of at most `limit` UTF-8 bytes.
pub open spec fn data_url_ok(v: Seq<char>, limit: int) -> bool {
    v.len() == 0 || (starts_with(v, "data:image/"@) && encode_utf8(v).len() <= limit)
}

/// Is `path` a safe relative path to a PNG, JPEG or WebP asset?
pub fn safe_asset_path(path: &str) -> (r: bool)
    ensures
        r == asset_path_ok(path@),
{
    let p = chars_of(path);
    if p.len() > 0 && p[0] == '/' {
        return false;
    }
    if chars_has(&p, '\\') || has_unsafe_part(&p) {
        return false;
    }
    chars_ends_with(&p, &chars_of(".png")) || chars_ends_with(&p, &chars_of(".jpg"))
        || chars_ends_with(&p, &chars_of(".jpeg")) || chars_ends_with(&p, &chars_of(".webp"))
}

fn data_url_acceptable(v: &String, limit: usize) -> (r: bool)
    ensures
        r == data_url_ok(v@, limit as int),
{
    if v.as_str().is_empty() {
        return true;
    }
    if v.as_str().as_bytes().len() > limit {
        return false;
    }
    chars_starts_with(&chars_of(v.as_str()), &chars_of("data:image/"))
}

fn texts_valid(p: &UiProfile) -> (r: bool)
    ensures
        r == (text_ok(p.headline@) && text_ok(p.subtitle@) && text_ok(p.footer@) && stages_ok(
            p.stages,
        )),
{
    valid_text(p.headline.as_str()) && valid_text(p.subtitle.as_str()) && valid_text(
        p.footer.as_str(),
    ) && valid_text(p.stages.prepare.as_str()) && valid_text(p.stages.checking.as_str())
        && valid_text(p.stages.downloading.as_str()) && valid_text(p.stages.applying.as_str())
        && valid_text(p.stages.completed.as_str())
}

fn colors_valid(p: &UiProfile) -> (r: bool)
    ensures
        r == (theme_ok(p.theme) && color_ok(p.headline_color@) && color_ok(p.subtitle_color@)
            && color_ok(p.footer_color@) && color_ok(p.traffic_color@)),
{
    let t = &p.theme;
    valid_color(t.accent.as_str()) && valid_color(t.accent_hover.as_str()) && valid_color(
        t.accent_soft.as_str(),
    ) && valid_color(t.background.as_str()) && valid_color(t.surface.as_str()) && valid_color(
        t.log_background.as_str(),
    ) && valid_color(t.text.as_str()) && valid_color(t.muted.as_str()) && valid_color(
        t.border.as_str(),
    ) && valid_color(p.headline_color.as_str()) && valid_color(p.subtitle_color.as_str())
        && valid_color(p.footer_color.as_str()) && valid_color(p.traffic_color.as_str())
}

/// Checks a profile the client received and completes it: empty text colours
/// follow the theme and the label offset is clamped to `-24..=24`.
pub fn validate_profile(profile: UiProfile) -> (r: Option<UiProfile>)
    ensures
        r is Some <==> profile.acceptable(),
        r matches Some(q) ==> q == profile.completed(),
{
    let mut p = profile;
    if p.schema != 1 || !texts_valid(&p) {
        return None;
    }
    if p.headline_color.as_str().is_empty() {
        p.headline_color = copy_string(&p.theme.text);
    }
    if p.subtitle_color.as_str().is_empty() {
        p.subtitle_color = copy_string(&p.theme.muted);
    }
    if p.footer_color.as_str().is_empty() {
        p.footer_color = copy_string(&p.theme.muted);
    }
    if p.traffic_color.as_str().is_empty() {
        p.traffic_color = copy_string(&p.theme.text);
    }
    if !colors_valid(&p) {
        return None;
    }
    if !p.icon.as_str().is_empty() && !safe_asset_path(p.icon.as_str()) {
        return None;
    }
    if !p.background_image.as_str().is_empty() && !safe_asset_path(p.background_image.as_str()) {
        return None;
    }
    if !data_url_acceptable(&p.icon_data_url, MAX_ICON_DATA_URL_BYTES) {
        return None;
    }
    if !data_url_acceptable(&p.background_data_url, MAX_BACKGROUND_DATA_URL_BYTES) {
        return None;
    }
    let v = p.launch_label_offset_x;
    p.launch_label_offset_x = if v < -24 {
        -24
    } else if v > 24 {
        24
    } else {
        v
    };
    Some(p)
}

// ---------------------------------------------------------------------------
// Inlined images
// ---------------------------------------------------------------------------

/// The digit of the standard Base64 alphabet for a 6-bit value.
pub open spec fn base64_digit(v: int) -> char {
    if v < 26 {
        (65 + v) as char
    } else if v < 52 {
        (97 + v - 26) as char
    } else if v < 62 {
        (48 + v - 52) as char
    } else if v == 62 {
        '+'
    } else {
        '/'
    }
}

/// Standard Base64 (RFC 4648, section 4) of `data`: each group of three
/// bytes as four digits of the standard alphabet, a last group of one or two
/// bytes padded with `=`.
pub open spec fn base64_standard(data: Seq<u8>) -> Seq<char>
    decreases data.len(),
{
    if data.len() == 0 {
        Seq::empty()
    } else if data.len() == 1 {
        let a = data[0] as int;
        seq![base64_digit(a / 4), base64_digit((a % 4) * 16), '=', '=']
    } else if data.len() == 2 {
        let a = data[0] as int;
        let b = data[1] as int;
        seq![base64_digit(a / 4), base64_digit((a % 4) * 16 + b / 16), base64_digit((b % 16) * 4), '=']
    } else {
        let a = data[0] as int;
        let b = data[1] as int;
        let c = data[2] as int;
        seq![
            base64_digit(a / 4),
            base64_digit((a % 4) * 16 + b / 16),
            base64_digit((b % 16) * 4 + c / 64),
            base64_digit(c % 64),
        ] + base64_standard(data.skip(3))
    }
}

/// `base64::engine::general_purpose::STANDARD.encode(data)`: the standard,
/// padded Base64 of `data`, as the engine's documentation gives it. The crate
/// panics where the encoded length overflows `usize`, which `requires` rules out.
#[verifier::external_body]
fn encode_base64(data: &[u8]) -> (r: String)
    requires
        data@.len() / 3 * 4 + 4 <= usize::MAX,
    ensures
        r@ == base64_standard(data@),
{
    base64::engine::general_purpose::STANDARD.encode(data)
}

/// `data:<mime>;base64,<encoded>`.
pub open spec fn data_url_of(kind: ImageKind, encoded: Seq<char>) -> Seq<char> {
    "data:"@ + mime_of(kind) + ";base64,"@ + encoded
}

/// The data URL of an image, or `None` where its format is not recognized.
pub open spec fn image_data_url(bytes: Seq<u8>) -> Option<Seq<char>> {
    match image_kind_of(bytes) {
        Some(k) => Some(data_url_of(k, base64_standard(bytes))),
        None => None,
    }
}

/// Frames base64 text as a data URL of the given image format.
pub fn data_url_from(kind: ImageKind, encoded: &str) -> (r: String)
    ensures
        r@ == data_url_of(kind, encoded@),
{
    let mut out = "data:".to_owned();
    push_str(&mut out, mime_type(kind));
    push_str(&mut out, ";base64,");
    push_str(&mut out, encoded);
    out
}

/// The data URL of a PNG, GIF, JPEG or WebP image; `None` for anything else.
pub fn data_url(bytes: &[u8]) -> (r: Option<String>)
    requires
        bytes@.len() <= usize::MAX / 2,
    ensures
        match r {
            Some(s) => image_data_url(bytes@) == Some(s@),
            None => image_data_url(bytes@) is None,
        },
{
    match image_kind(bytes) {
        Some(kind) => {
            let encoded = encode_base64(bytes);
            Some(data_url_from(kind, encoded.as_str()))
        },
        None => None,
    }
}

/// The inlined image after a download: the data URL of the downloaded bytes
/// where they are a known format and encode within `limit` bytes; otherwise
/// the cached one.
pub open spec fn refreshed_image(cached: Seq<char>, fetched: Option<Seq<u8>>, limit: int) -> Seq<
    char,
> {
    match fetched {
        Some(b) => match image_data_url(b) {
            Some(u) => if encode_utf8(u).len() <= limit {
                u
            } else {
                cached
            },
            None => cached,
        },
        None => cached,
    }
}

pub fn refreshed_data_url(cached: String, fetched: Option<Vec<u8>>, limit: usize) -> (r: String)
    requires
        fetched matches Some(b) ==> b@.len() <= usize::MAX / 2,
    ensures
        r@ == refreshed_image(cached@, opt_bytes(fetched), limit as int),
{
    match fetched {
        Some(b) => match data_url(b.as_slice()) {
            Some(u) => if u.as_str().as_bytes().len() <= limit {
                u
            } else {
                cached
            },
            None => cached,
        },
        None => cached,
    }
}

pub open spec fn opt_bytes(o: Option<Vec<u8>>) -> Option<Seq<u8>> {
    match o {
        Some(b) => Some(b@),
        None => None,
    }
}

/// The inlined icon after a refresh: a profile that names an icon starts from
/// the cached data URL and takes the downloaded one where it is usable.
pub open spec fn refreshed_icon(profile: UiProfile, cached: UiProfile, icon: Option<Seq<u8>>) -> Seq<
    char,
> {
    if profile.icon@.len() == 0 {
        profile.icon_data_url@
    } else {
        refreshed_image(cached.icon_data_url@, icon, MAX_ICON_DATA_URL_BYTES as int)
    }
}

/// The inlined background after a refresh, as for the icon.
pub open spec fn refreshed_background(
    profile: UiProfile,
    cached: UiProfile,
    background: Option<Seq<u8>>,
) -> Seq<char> {
    if profile.background_image@.len() == 0 {
        profile.background_data_url@
    } else {
        refreshed_image(
            cached.background_data_url@,
            background,
            MAX_BACKGROUND_DATA_URL_BYTES as int,
        )
    }
}

/// Completes a freshly received profile with its downloaded images: the
/// profile is checked, each image it names is taken from the download or
/// else from the cache, and the result is checked again.
pub fn apply_downloaded_images(
    profile: UiProfile,
    cached: &UiProfile,
    icon: Option<Vec<u8>>,
    background: Option<Vec<u8>>,
) -> (r: Option<UiProfile>)
    requires
        icon matches Some(b) ==> b@.len() <= usize::MAX / 2,
        background matches Some(b) ==> b@.len() <= usize::MAX / 2,
    ensures
        r is Some <==> profile.acceptable() && data_url_ok(
            refreshed_icon(profile, *cached, opt_bytes(icon)),
            MAX_ICON_DATA_URL_BYTES as int,
        ) && data_url_ok(
            refreshed_background(profile, *cached, opt_bytes(background)),
            MAX_BACKGROUND_DATA_URL_BYTES as int,
        ),
        r matches Some(q) ==> {
            &&& q == (UiProfile {
                icon_data_url: q.icon_data_url,
                background_data_url: q.background_data_url,
                ..profile.completed()
            })
            &&& q.icon_data_url@ == refreshed_icon(profile, *cached, opt_bytes(icon))
            &&& q.background_data_url@ == refreshed_background(
                profile,
                *cached,
                opt_bytes(background),
            )
        },
{
    let mut p = match validate_profile(profile) {
        Some(p) => p,
        None => return None,
    };
    if !p.icon.as_str().is_empty() {
        p.icon_data_url = refreshed_data_url(
            copy_string(&cached.icon_data_url),
            icon,
            MAX_ICON_DATA_URL_BYTES,
        );
    }
    if !p.background_image.as_str().is_empty() {
        p.background_data_url = refreshed_data_url(
            copy_string(&cached.background_data_url),
            background,
            MAX_BACKGROUND_DATA_URL_BYTES,
        );
    }
    validate_profile(p)
}

} // verus!
