//! The UI profile as the manager stores and validates it.
use vstd::prelude::*;

use crate::profile_rules::{color_ok, valid_color, text_ok, valid_text};
use crate::text::{copy_string, str_eq};

verus! {

/// Where an uploaded icon is stored, relative to the public directory.
pub const ICON_ASSET_PATH: &'static str = "assets/updater.png";

/// Where an uploaded background image is stored, relative to the public directory.
pub const BACKGROUND_ASSET_PATH: &'static str = "assets/updater-background.png";

/// The labels shown for each stage of an update.
#[derive(Clone, Debug)]
pub struct StageLabels {
    pub prepare: String,
    pub checking: String,
    pub downloading: String,
    pub applying: String,
    pub completed: String,
}

/// The colours of the updater window.
#[derive(Clone, Debug)]
pub struct ThemeColors {
    pub accent: String,
    pub accent_hover: String,
    pub accent_soft: String,
    pub background: String,
    pub surface: String,
    pub log_background: String,
    pub text: String,
    pub muted: String,
    pub border: String,
}

/// The personalization of the updater window.
#[derive(Clone, Debug)]
pub struct UiProfile {
    pub schema: u8,
    pub headline: String,
    pub subtitle: String,
    pub footer: String,
    pub headline_color: String,
    pub subtitle_color: String,
    pub footer_color: String,
    pub traffic_color: String,
    pub launch_label_offset_x: i8,
    pub icon: String,
    pub background_image: String,
    pub stages: StageLabels,
    pub theme: ThemeColors,
}

impl Default for StageLabels {
    fn default() -> (r: Self)
        ensures
            r.prepare@ == "正在准备"@,
            r.checking@ == "正在检查"@,
            r.downloading@ == "正在下载"@,
            r.applying@ == "正在应用"@,
            r.completed@ == "更新完成"@,
    {
        StageLabels {
            prepare: "正在准备".to_owned(),
            checking: "正在检查".to_owned(),
            downloading: "正在下载".to_owned(),
            applying: "正在应用".to_owned(),
            completed: "更新完成".to_owned(),
        }
    }
}

impl Default for ThemeColors {
    fn default() -> (r: Self)
        ensures
            r.accent@ == "#147d67"@,
            r.accent_hover@ == "#106b59"@,
            r.accent_soft@ == "#dff2eb"@,
            r.background@ == "#f4f7f6"@,
            r.surface@ == "#ffffff"@,
            r.log_background@ == "#f7faf9"@,
            r.text@ == "#16332d"@,
            r.muted@ == "#648078"@,
            r.border@ == "#e2ebe8"@,
    {
        ThemeColors {
            accent: "#147d67".to_owned(),
            accent_hover: "#106b59".to_owned(),
            accent_soft: "#dff2eb".to_owned(),
            background: "#f4f7f6".to_owned(),
            surface: "#ffffff".to_owned(),
            log_background: "#f7faf9".to_owned(),
            text: "#16332d".to_owned(),
            muted: "#648078".to_owned(),
            border: "#e2ebe8".to_owned(),
        }
    }
}

impl Default for UiProfile {
    fn default() -> (r: Self)
        ensures
            r.schema == 1,
            r.headline@ == "自动更新器"@,
            r.subtitle@ == "安全检查并应用客户端更新"@,
            r.footer@ == "请保持此窗口开启，完成后将自动启动客户端。"@,
            r.headline_color@ == "#16332d"@,
            r.subtitle_color@ == "#648078"@,
            r.footer_color@ == "#648078"@,
            r.traffic_color@ == "#16332d"@,
            r.launch_label_offset_x == 2,
            r.icon@.len() == 0,
            r.background_image@.len() == 0,
    {
        let theme = ThemeColors::default();
        UiProfile {
            schema: 1,
            headline: "自动更新器".to_owned(),
            subtitle: "安全检查并应用客户端更新".to_owned(),
            footer: "请保持此窗口开启，完成后将自动启动客户端。".to_owned(),
            headline_color: copy_string(&theme.text),
            subtitle_color: copy_string(&theme.muted),
            footer_color: copy_string(&theme.muted),
            traffic_color: copy_string(&theme.text),
            launch_label_offset_x: 2,
            icon: String::new(),
            background_image: String::new(),
            stages: StageLabels::default(),
            theme,
        }
    }
}

/// `i8::clamp(v, -24, 24)`.
pub open spec fn clamp_offset(v: i8) -> i8 {
    if v < -24 {
        -24i8
    } else if v > 24 {
        24i8
    } else {
        v
    }
}

/// An image path is empty or the one managed location of its kind.
pub open spec fn valid_managed_asset(value: Seq<char>, expected: Seq<char>) -> bool {
    value.len() == 0 || value == expected
}

pub open spec fn or_default(value: String, fallback: String) -> String {
    if value@.len() == 0 {
        fallback
    } else {
        value
    }
}

pub open spec fn stages_valid(s: StageLabels) -> bool {
    text_ok(s.prepare@) && text_ok(s.checking@) && text_ok(s.downloading@) && text_ok(
        s.applying@,
    ) && text_ok(s.completed@)
}

pub open spec fn theme_valid(t: ThemeColors) -> bool {
    color_ok(t.accent@) && color_ok(t.accent_hover@) && color_ok(t.accent_soft@)
        && color_ok(t.background@) && color_ok(t.surface@) && color_ok(t.log_background@)
        && color_ok(t.text@) && color_ok(t.muted@) && color_ok(t.border@)
}

impl UiProfile {
    /// The profile with empty text colours taken from the theme and the label
    /// offset clamped to `-24..=24`.
    pub open spec fn completed(self) -> UiProfile {
        UiProfile {
            headline_color: or_default(self.headline_color, self.theme.text),
            subtitle_color: or_default(self.subtitle_color, self.theme.muted),
            footer_color: or_default(self.footer_color, self.theme.muted),
            traffic_color: or_default(self.traffic_color, self.theme.text),
            launch_label_offset_x: clamp_offset(self.launch_label_offset_x),
            ..self
        }
    }

    /// Why the manager refuses a profile, if it does.
    pub open spec fn profile_error(self) -> Option<Seq<char>> {
        let c = self.completed();
        if self.schema != 1 {
            Some("不支持的个性化配置版本"@)
        } else if !(text_ok(self.headline@) && text_ok(self.subtitle@) && text_ok(
            self.footer@,
        )) {
            Some("显示文字不能为空、换行或超过 240 字节"@)
        } else if !stages_valid(self.stages) {
            Some("阶段文字不能为空、换行或超过 240 字节"@)
        } else if !(theme_valid(self.theme) && color_ok(c.headline_color@) && color_ok(
            c.subtitle_color@,
        ) && color_ok(c.footer_color@) && color_ok(c.traffic_color@)) {
            Some("颜色必须使用 #RRGGBB 格式"@)
        } else if !(valid_managed_asset(self.icon@, ICON_ASSET_PATH@) && valid_managed_asset(
            self.background_image@,
            BACKGROUND_ASSET_PATH@,
        )) {
            Some("图片路径不属于个性化资源目录"@)
        } else {
            None
        }
    }

    /// Checks the profile and completes it: empty text colours follow the
    /// theme and the label offset is clamped to `-24..=24`.
    pub fn validate(self) -> (r: Result<UiProfile, String>)
        ensures
            self.profile_error() matches Some(e) ==> r is Err && r->Err_0@ == e,
            self.profile_error() is None ==> r == Ok::<UiProfile, String>(self.completed()),
    {
        let mut p = self;
        if p.schema != 1 {
            return Err("不支持的个性化配置版本".to_owned());
        }
        if !(valid_text(p.headline.as_str()) && valid_text(p.subtitle.as_str())
            && valid_text(p.footer.as_str())) {
            return Err("显示文字不能为空、换行或超过 240 字节".to_owned());
        }
        if p.headline_color.as_str().is_empty() {
            p.headline_color = copy_string(&p.theme.text);
        }
        if p.subtitle_color.as_str().is_empty() {
            p.subtitle_color = copy_string(&p.theme.muted);
        }
        if p.footer_color.as_str().is_empty() {
            p.footer_color = copy_string(&p.theme.muted);
        }
        if p.traffic_color.as_str().is_empty() {
            p.traffic_color = copy_string(&p.theme.text);
        }
        if !(valid_text(p.stages.prepare.as_str()) && valid_text(p.stages.checking.as_str())
            && valid_text(p.stages.downloading.as_str()) && valid_text(
            p.stages.applying.as_str(),
        ) && valid_text(p.stages.completed.as_str())) {
            return Err("阶段文字不能为空、换行或超过 240 字节".to_owned());
        }
        let t = &p.theme;
        if !(valid_color(t.accent.as_str()) && valid_color(t.accent_hover.as_str())
            && valid_color(t.accent_soft.as_str()) && valid_color(t.background.as_str())
            && valid_color(t.surface.as_str()) && valid_color(t.log_background.as_str())
            && valid_color(t.text.as_str()) && valid_color(t.muted.as_str())
            && valid_color(t.border.as_str()) && valid_color(p.headline_color.as_str())
            && valid_color(p.subtitle_color.as_str()) && valid_color(
            p.footer_color.as_str(),
        ) && valid_color(p.traffic_color.as_str())) {
            return Err("颜色必须使用 #RRGGBB 格式".to_owned());
        }
        let icon_ok = p.icon.as_str().is_empty() || str_eq(p.icon.as_str(), ICON_ASSET_PATH);
        let background_ok = p.background_image.as_str().is_empty() || str_eq(
            p.background_image.as_str(),
            BACKGROUND_ASSET_PATH,
        );
        if !(icon_ok && background_ok) {
            return Err("图片路径不属于个性化资源目录".to_owned());
        }
        let v = p.launch_label_offset_x;
        p.launch_label_offset_x = if v < -24 {
            -24
        } else if v > 24 {
            24
        } else {
            v
        };
        Ok(p)
    }
}

} // verus!
