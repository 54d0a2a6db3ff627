//! The updater window: its page, the dialogs it shows, and how a status
//! line maps to the phase and stage it displays.
use vstd::prelude::*;

use crate::client_profile::UiProfile;
use crate::text::{chars_contains, chars_of, contains_seq, str_eq};

verus! {

/// The content of a dialog shown inside the window.
#[derive(Clone, Debug)]
pub struct DialogContent {
    pub title: String,
    pub content: String,
    /// Network failures offer "retry" besides "close"; other errors only close.
    pub retryable: bool,
}

/// The page the window's web view shows.
pub const UPDATE_PAGE: &'static str = r#"<!doctype html>
<html lang="zh-CN">
<head>
<meta charset="utf-8">
<style>
  :root { color-scheme: light; font-family: "Microsoft YaHei UI", "Segoe UI", sans-serif; --accent: #147d67; --accent-hover: #106b59; --accent-soft: #dff2eb; --background: #f4f7f6; --surface: #ffffff; --log-background: #f7faf9; --text: #16332d; --muted: #648078; --border: #e2ebe8; --launch-label-offset-x: 2px; }
  * { box-sizing: border-box; }
  html, body { width: 100%; height: 100%; overflow: hidden; border-radius: 12px; }
  html { background: transparent; }
  body { margin: 0; color: var(--text); background: transparent; }
  #windowSurface { position: relative; width: 100%; height: 100%; overflow: hidden; border: 1px solid var(--border); border-radius: 12px; background: var(--background); }
  #windowSurface.entering { transform-origin: center; animation: updater-enter 315ms linear both; }
  #windowSurface.exiting { pointer-events: none; transform-origin: center; animation: updater-exit 225ms cubic-bezier(.64, 0, .78, 0) both; }
  @keyframes updater-enter {
    from { opacity: 0; transform: scale(.4) rotate(30deg); }
    to { opacity: 1; transform: scale(1) rotate(0deg); }
  }
  @keyframes updater-exit {
    from { opacity: 1; transform: scale(1); }
    to { opacity: 0; transform: scale(.4); }
  }
  .window-bar { position: absolute; inset: 1px 1px auto 1px; z-index: 20; height: 42px; display: flex; align-items: stretch; }
  .drag-region { flex: 1; min-width: 0; cursor: default; user-select: none; }
  .window-close { width: 48px; height: 42px; display: grid; place-items: center; padding: 0; border: 0; background: transparent; color: var(--muted); cursor: pointer; }
  .window-close svg { width: 17px; height: 17px; display: block; }
  .window-close:hover { background: #d83b3b; color: #fff; }
  .window-close:focus-visible { outline: 2px solid var(--accent); outline-offset: -3px; }
  .shell { height: 100vh; padding: 48px 18px 18px; display: flex; flex-direction: column; gap: 14px; }
  .header { display: flex; justify-content: space-between; align-items: center; }
  .identity { display: flex; align-items: center; gap: 14px; }
  .mark { width: 46px; height: 46px; border-radius: 8px; background: var(--accent); color: white; display: grid; place-items: center; font-weight: 800; font-size: 15px; letter-spacing: 1px; }
  h1 { margin: 0; font-size: 23px; font-weight: 700; letter-spacing: 0; }
  .subtitle { margin-top: 4px; color: var(--muted); font-size: 13px; }
  .badge { padding: 7px 11px; border-radius: 999px; background: var(--accent-soft); color: var(--accent); font-size: 12px; font-weight: 700; }
  .card { background: var(--surface); border: 1px solid var(--border); border-radius: 8px; padding: 20px; box-shadow: 0 8px 26px rgba(22, 73, 61, .07); }
  .eyebrow { color: var(--muted); font-size: 12px; font-weight: 700; letter-spacing: 0; }
  .status-row { margin-top: 7px; display: flex; gap: 16px; align-items: baseline; justify-content: space-between; }
  #status { font-size: 21px; font-weight: 700; overflow: hidden; text-overflow: ellipsis; white-space: nowrap; }
  #percent { color: var(--accent); font-size: 22px; font-weight: 800; min-width: 58px; text-align: right; }
  #detail { min-height: 20px; margin-top: 8px; color: var(--muted); font-size: 13px; overflow: hidden; text-overflow: ellipsis; white-space: nowrap; }
  .track { height: 12px; margin-top: 18px; overflow: hidden; border-radius: 99px; background: var(--border); }
  #bar { width: 0%; height: 100%; border-radius: inherit; background: var(--accent); transition: width .25s ease; }
  #changelogCard { display: none; min-height: 0; flex: 1; flex-direction: column; overflow: hidden; }
  .changelog-heading { display: flex; align-items: baseline; justify-content: space-between; gap: 24px; min-width: 0; }
  #changelogTitle { flex: 0 0 auto; margin: 0; font-size: 20px; }
  #changelogSummary { min-width: 0; color: var(--muted); font-size: 13px; text-align: right; white-space: nowrap; overflow: hidden; text-overflow: ellipsis; }
  #changelogContent { flex: 1; min-height: 0; margin: 12px 0 0; overflow-x: hidden; overflow-y: auto; padding: 15px 18px; border: 1px solid var(--border); border-radius: 6px; background: var(--log-background); color: var(--text); font: 14px/1.75 "Microsoft YaHei UI", "Segoe UI", sans-serif; overflow-wrap: anywhere; }
  #changelogContent > :first-child { margin-top: 0; }
  #changelogContent > :last-child { margin-bottom: 0; }
  #changelogContent h1, #changelogContent h2, #changelogContent h3 { margin: 1.05em 0 .45em; color: var(--text); line-height: 1.35; }
  #changelogContent h1 { font-size: 20px; }
  #changelogContent h2 { padding-bottom: 6px; border-bottom: 1px solid var(--border); font-size: 18px; }
  #changelogContent h3 { font-size: 16px; }
  #changelogContent p { margin: .55em 0; }
  #changelogContent ul, #changelogContent ol { margin: .55em 0; padding-left: 1.7em; }
  #changelogContent li { margin: .2em 0; }
  #changelogContent blockquote { margin: .75em 0; padding: 1px 12px; border-left: 3px solid var(--accent); color: var(--muted); background: var(--accent-soft); }
  #changelogContent code { padding: 2px 5px; border-radius: 4px; background: var(--accent-soft); color: var(--accent); font: 13px/1.55 Consolas, monospace; }
  #changelogContent pre { overflow-x: auto; margin: .75em 0; padding: 12px; border-radius: 6px; background: var(--text); color: var(--surface); white-space: pre; }
  #changelogContent pre code { padding: 0; background: transparent; color: inherit; }
  #changelogContent a { color: var(--accent); text-decoration-thickness: 1px; text-underline-offset: 2px; }
  #changelogContent hr { height: 1px; margin: 1em 0; border: 0; background: var(--border); }
  #changelogContent table { width: 100%; margin: .75em 0; border-collapse: collapse; }
  #changelogContent th, #changelogContent td { padding: 7px 9px; border: 1px solid var(--border); text-align: left; }
  #changelogContent th { background: var(--accent-soft); color: var(--text); }
  #changelogContent input[type="checkbox"] { accent-color: var(--accent); }
  #dialogCard { display: none; min-height: 0; flex: 1; flex-direction: column; overflow: hidden; }
  .dialog-heading { display: flex; align-items: center; gap: 12px; }
  .dialog-symbol { width: 38px; height: 38px; flex: 0 0 38px; display: grid; place-items: center; border-radius: 50%; background: #fff0d9; color: #a85d00; font-size: 24px; font-weight: 800; }
  #dialogTitle { margin: 0; font-size: 22px; line-height: 1.35; }
  #dialogContent { flex: 1; min-height: 0; margin: 18px 0 0; overflow-x: hidden; overflow-y: auto; padding: 18px 20px; border: 1px solid var(--border); border-radius: 6px; background: var(--log-background); color: var(--text); font: 14px/1.75 "Microsoft YaHei UI", "Segoe UI", sans-serif; white-space: pre-wrap; overflow-wrap: anywhere; }
  .dialog-actions { display: flex; justify-content: flex-end; gap: 12px; margin-top: 16px; }
  .dialog-action { min-width: 176px; height: 48px; padding: 0 22px; border: 1px solid var(--border); border-radius: 24px; background: var(--surface); color: var(--text); font: 700 14px "Microsoft YaHei UI", "Segoe UI", sans-serif; cursor: pointer; }
  .dialog-action.primary { border-color: var(--accent); background: var(--accent); color: #fff; }
  .dialog-action:hover { border-color: var(--accent); }
  .dialog-action.primary:hover { background: var(--accent-hover); }
  .dialog-action:focus-visible { outline: 3px solid var(--accent-soft); outline-offset: 2px; }
  .foot { margin-top: auto; color: var(--muted); font-size: 12px; text-align: center; }
  .foot:not(.complete) { display: grid; grid-template-columns: minmax(0, 1fr) minmax(280px, 38.2%); gap: 16px; align-items: center; }
  .foot:not(.complete) #footer { text-align: left; }
  .foot.complete { display: grid; grid-template-columns: minmax(0, 3fr) minmax(190px, 1fr); gap: 14px; align-items: center; }
  .foot.complete #footer { display: none; }
  #footerActions { display: flex; min-width: 0; align-items: center; justify-content: flex-end; gap: 10px; }
  .foot.complete #footerActions { display: flex; justify-content: flex-end; }
  .traffic-stat { width: clamp(220px, 38.2%, 330px); min-width: 0; display: grid; grid-template-columns: 22px minmax(0, 1fr); align-items: center; gap: 10px; padding: 3px 16px; border-left: 2px solid var(--accent-soft); text-align: left; }
  .traffic-symbol { width: 22px; height: 22px; display: grid; place-items: center; color: var(--accent); font-size: 20px; font-weight: 800; line-height: 1; }
  .traffic-copy { min-width: 0; display: flex; align-items: baseline; gap: 10px; }
  .traffic-label { flex: 0 0 auto; color: var(--muted); font-size: 12px; font-weight: 700; }
  #trafficValue { min-width: 0; color: var(--text); font-size: 14px; font-weight: 700; white-space: nowrap; overflow: hidden; text-overflow: ellipsis; }
  #completeButton { display: none; width: 100%; height: 52px; padding: 0 9px; grid-template-columns: 34px minmax(0, 1fr) 34px; align-items: center; gap: 8px; border: 0; border-radius: 26px; background: var(--accent); color: #fff; font: 700 15px "Microsoft YaHei UI", "Segoe UI", sans-serif; cursor: pointer; }
  .foot.complete #completeButton { display: grid; }
  #completeButton::after { content: ""; width: 34px; height: 34px; }
  .complete-icon { width: 34px; height: 34px; display: grid; place-items: center; border-radius: 50%; background: var(--surface); color: var(--accent); }
  .complete-icon svg { width: 19px; height: 19px; display: block; overflow: visible; }
  .complete-label { min-width: 0; text-align: center; transform: translateX(var(--launch-label-offset-x)); }
  #completeButton:hover { background: var(--accent-hover); }
  #completeButton:focus-visible { outline: 3px solid var(--accent-soft); outline-offset: 2px; }
</style>
</head>
<body>
<div id="windowSurface">
  <div class="window-bar" aria-label="窗口控制">
    <div class="drag-region" id="dragRegion" title="拖动窗口"></div>
    <button class="window-close" id="windowClose" type="button" title="关闭" aria-label="关闭"><svg viewBox="0 0 24 24" aria-hidden="true" focusable="false"><path fill="none" stroke="currentColor" stroke-width="1.8" stroke-linecap="round" d="M6 6l12 12M18 6L6 18"/></svg></button>
  </div>
  <main class="shell">
    <header class="header">
      <div class="identity">
        <div class="mark" id="mark">UP</div>
        <div><h1 id="headline">自动更新器</h1><div class="subtitle" id="subtitle">安全检查并应用客户端更新</div></div>
      </div>
      <div class="badge" id="stage">正在准备</div>
    </header>
    <section class="card" id="progressCard">
      <div class="eyebrow">更新状态</div>
      <div class="status-row"><div id="status">正在检查更新</div><div id="percent">0%</div></div>
      <div id="detail">正在连接更新服务</div>
      <div class="track"><div id="bar"></div></div>
    </section>
    <section class="card" id="changelogCard">
      <div class="changelog-heading"><h2 id="changelogTitle">更新完成</h2><div id="changelogSummary"></div></div>
      <div id="changelogContent"></div>
    </section>
    <section class="card" id="dialogCard" role="alertdialog" aria-modal="true" aria-labelledby="dialogTitle">
      <div class="dialog-heading"><div class="dialog-symbol" aria-hidden="true">!</div><h2 id="dialogTitle">更新未完成</h2></div>
      <div id="dialogContent"></div>
      <div class="dialog-actions"><button class="dialog-action" id="dialogSecondary" type="button">取消</button><button class="dialog-action primary" id="dialogPrimary" type="button">关闭更新器</button></div>
    </section>
    <footer class="foot" id="footerBar">
      <div id="footer">请保持此窗口开启，完成后将自动启动客户端。</div>
      <div id="footerActions" aria-label="更新信息"><div class="traffic-stat"><span class="traffic-symbol" aria-hidden="true">↓</span><div class="traffic-copy"><div class="traffic-label">本次下载</div><div id="trafficValue">无需下载</div></div></div></div>
      <button id="completeButton" type="button"><span class="complete-icon" aria-hidden="true"><svg viewBox="0 0 34 34" focusable="false"><path fill="currentColor" d="M12.1 8.3C10.9 7.6 9.8 8.4 9.9 9.8C10.2 14.8 10.2 19.2 9.9 24.2C9.8 25.6 10.9 26.4 12.1 25.7C16.7 23.1 20.8 20.7 24.5 18.5C25.7 17.8 25.7 16.2 24.5 15.5C20.8 13.3 16.7 10.9 12.1 8.3Z"/></svg></span><span class="complete-label">启动</span></button>
    </footer>
  </main>
</div>
<script>
  window.updateUi = ({ stage, status, detail, progress, traffic }) => {
    document.getElementById('stage').textContent = stage;
    document.getElementById('status').textContent = status;
    document.getElementById('detail').textContent = detail;
    const percent = Math.max(0, Math.min(100, Math.floor(progress / 10)));
    document.getElementById('percent').textContent = percent + '%';
    document.getElementById('bar').style.width = percent + '%';
    document.getElementById('trafficValue').textContent = traffic;
  };
  window.updateProfile = ({ headline, subtitle, footer, iconDataUrl, launchLabelOffsetX, theme }) => {
    document.getElementById('headline').textContent = headline;
    document.getElementById('subtitle').textContent = subtitle;
    document.getElementById('footer').textContent = footer;
    const launchOffset = Math.max(-24, Math.min(24, Number(launchLabelOffsetX) || 0));
    document.documentElement.style.setProperty('--launch-label-offset-x', launchOffset + 'px');
    const mark = document.getElementById('mark');
    if (iconDataUrl) {
      const image = document.createElement('img');
      image.alt = 'UP'; image.src = iconDataUrl;
      image.style.cssText = 'width:100%;height:100%;object-fit:cover;border-radius:inherit;display:block';
      mark.replaceChildren(image);
    } else {
      mark.textContent = 'UP';
    }
    const themeVariables = {
      accent: '--accent', accentHover: '--accent-hover', accentSoft: '--accent-soft',
      background: '--background', surface: '--surface', logBackground: '--log-background',
      text: '--text', muted: '--muted', border: '--border'
    };
    Object.entries(theme || {}).forEach(([key, value]) => {
      if (themeVariables[key]) document.documentElement.style.setProperty(themeVariables[key], value);
    });
  };
  window.showChangelog = ({ title, summary, html }) => {
    document.getElementById('progressCard').style.display = 'none';
    document.getElementById('changelogCard').style.display = 'flex';
    document.getElementById('stage').textContent = '更新完成';
    document.getElementById('changelogTitle').textContent = title;
    document.getElementById('changelogSummary').textContent = summary;
    document.getElementById('changelogContent').innerHTML = html;
    document.getElementById('footerBar').classList.add('complete');
  };
  window.showDialog = ({ title, content, retryable }) => {
    document.getElementById('progressCard').style.display = 'none';
    document.getElementById('changelogCard').style.display = 'none';
    document.getElementById('dialogCard').style.display = 'flex';
    document.getElementById('footerBar').style.display = 'none';
    document.getElementById('stage').textContent = '需要处理';
    document.getElementById('dialogTitle').textContent = title;
    document.getElementById('dialogContent').textContent = content;
    const primary = document.getElementById('dialogPrimary');
    const secondary = document.getElementById('dialogSecondary');
    primary.textContent = retryable ? '重试' : '关闭更新器';
    secondary.textContent = '关闭更新器';
    secondary.style.display = retryable ? 'block' : 'none';
    primary.focus();
  };
  window.hideDialog = () => {
    document.getElementById('dialogCard').style.display = 'none';
    document.getElementById('progressCard').style.display = 'block';
    document.getElementById('footerBar').style.display = '';
    document.getElementById('stage').textContent = '正在重试';
  };
  window.reportVisibleFrame = () => requestAnimationFrame(() => requestAnimationFrame(() => window.ipc.postMessage('visible')));
  window.playEnterAnimation = () => {
    const surface = document.getElementById('windowSurface');
    surface.classList.remove('entering');
    void surface.offsetWidth;
    surface.classList.add('entering');
  };
  let closeStarted = false;
  window.requestAnimatedClose = message => {
    if (closeStarted) return;
    closeStarted = true;
    const surface = document.getElementById('windowSurface');
    surface.classList.remove('entering');
    surface.classList.add('exiting');
    window.ipc.postMessage('begin-close');
    setTimeout(() => window.ipc.postMessage(message), 225);
  };
  document.getElementById('dragRegion').addEventListener('pointerdown', event => {
    if (event.button === 0) window.ipc.postMessage('drag');
  });
  document.getElementById('windowClose').addEventListener('click', () => window.requestAnimatedClose('close'));
  document.getElementById('completeButton').addEventListener('click', () => window.requestAnimatedClose('close'));
  document.getElementById('dialogPrimary').addEventListener('click', () => {
    if (document.getElementById('dialogPrimary').textContent === '重试') {
      window.ipc.postMessage('dialog:yes');
    } else {
      window.requestAnimatedClose('dialog:yes');
    }
  });
  document.getElementById('dialogSecondary').addEventListener('click', () => window.requestAnimatedClose('dialog:no'));
  window.ipc.postMessage('ready');
</script>
</body></html>"#;

fn holds(s: &Vec<char>, p: &str) -> (r: bool)
    ensures
        r == contains_seq(s@, p@),
{
    chars_contains(s, &chars_of(p))
}

/// The phase the window shows for a status line.
pub open spec fn phase_of(status: Seq<char>) -> Seq<char> {
    if contains_seq(status, "下载"@) {
        "正在下载更新"@
    } else if contains_seq(status, "移动"@) || contains_seq(status, "处理"@) || contains_seq(
        status,
        "清理"@,
    ) || contains_seq(status, "收尾"@) {
        "正在应用更新"@
    } else if contains_seq(status, "没有更新"@) {
        "客户端已是最新版本"@
    } else if contains_seq(status, "检查"@) || contains_seq(status, "收集"@) || contains_seq(
        status,
        "元数据"@,
    ) {
        "正在检查更新"@
    } else {
        "正在准备更新"@
    }
}

pub fn phase_for_status(status: &str) -> (r: &'static str)
    ensures
        r@ == phase_of(status@),
{
    let s = chars_of(status);
    if holds(&s, "下载") {
        "正在下载更新"
    } else if holds(&s, "移动") || holds(&s, "处理") || holds(&s, "清理") || holds(&s, "收尾") {
        "正在应用更新"
    } else if holds(&s, "没有更新") {
        "客户端已是最新版本"
    } else if holds(&s, "检查") || holds(&s, "收集") || holds(&s, "元数据") {
        "正在检查更新"
    } else {
        "正在准备更新"
    }
}

/// The profile stage key of a phase.
pub open spec fn stage_of(stage: Seq<char>) -> Seq<char> {
    if contains_seq(stage, "下载"@) {
        "downloading"@
    } else if contains_seq(stage, "应用"@) {
        "applying"@
    } else if contains_seq(stage, "已是最新"@) {
        "completed"@
    } else if contains_seq(stage, "检查"@) {
        "checking"@
    } else {
        "prepare"@
    }
}

pub fn stage_key(stage: &str) -> (r: &'static str)
    ensures
        r@ == stage_of(stage@),
{
    let s = chars_of(stage);
    if holds(&s, "下载") {
        "downloading"
    } else if holds(&s, "应用") {
        "applying"
    } else if holds(&s, "已是最新") {
        "completed"
    } else if holds(&s, "检查") {
        "checking"
    } else {
        "prepare"
    }
}

// ---------------------------------------------------------------------------
// Change logs
// ---------------------------------------------------------------------------

#[verifier::external_type_specification]
#[verifier::external_body]
pub struct ExMarkdownParserEvent<'a>(pulldown_cmark::Event<'a>);

/// An event of the Markdown parser: line breaks told apart, every other
/// event carried as the parser gave it.
pub enum MarkdownEvent {
    SoftBreak,
    HardBreak,
    Other(pulldown_cmark::Event<'static>),
}

/// The events that pulldown-cmark's parser gives for `markdown`, with
/// strikethrough, tables and task lists enabled.
pub uninterp spec fn markdown_events(markdown: Seq<char>) -> Seq<MarkdownEvent>;

/// The HTML that pulldown-cmark writes for `events`.
pub uninterp spec fn events_html(events: Seq<MarkdownEvent>) -> Seq<char>;

/// The HTML that ammonia's default cleaner keeps of `html`.
pub uninterp spec fn cleaned_html(html: Seq<char>) -> Seq<char>;

/// `pulldown_cmark::Parser::new_ext(markdown, ..)` with strikethrough,
/// tables and task lists: its events, one for one. What they are is named by
/// `markdown_events`.
#[verifier::external_body]
fn parse_markdown(markdown: &str) -> (r: Vec<MarkdownEvent>)
    ensures
        r@ == markdown_events(markdown@),
{
    let options = pulldown_cmark::Options::ENABLE_STRIKETHROUGH | pulldown_cmark::Options::ENABLE_TABLES
        | pulldown_cmark::Options::ENABLE_TASKLISTS;
    pulldown_cmark::Parser::new_ext(markdown, options).map(|event| match event {
        pulldown_cmark::Event::SoftBreak => MarkdownEvent::SoftBreak,
        pulldown_cmark::Event::HardBreak => MarkdownEvent::HardBreak,
        other => MarkdownEvent::Other(other.into_static()),
    }).collect()
}

/// `pulldown_cmark::html::push_html` over `events`, given back one for one.
/// What the HTML is, is named by `events_html`.
#[verifier::external_body]
fn render_events(events: Vec<MarkdownEvent>) -> (r: String)
    ensures
        r@ == events_html(events@),
{
    let mut rendered = String::new();
    pulldown_cmark::html::push_html(&mut rendered, events.into_iter().map(|event| match event {
        MarkdownEvent::SoftBreak => pulldown_cmark::Event::SoftBreak,
        MarkdownEvent::HardBreak => pulldown_cmark::Event::HardBreak,
        MarkdownEvent::Other(other) => other,
    }));
    rendered
}

/// A soft line break written as a hard one; every other event as it is.
pub open spec fn soft_as_hard(event: MarkdownEvent) -> MarkdownEvent {
    match event {
        MarkdownEvent::SoftBreak => MarkdownEvent::HardBreak,
        other => other,
    }
}

/// The events with every soft line break made a hard one, so that each line
/// of a change log stays a line.
pub fn hard_line_breaks(events: Vec<MarkdownEvent>) -> (r: Vec<MarkdownEvent>)
    ensures
        r@ == events@.map_values(|e: MarkdownEvent| soft_as_hard(e)),
{
    let mut rest = events;
    let ghost initial = rest@;
    let mut out: Vec<MarkdownEvent> = Vec::new();
    let n = rest.len();
    let mut i: usize = 0;
    assert(initial.skip(0) =~= initial);
    while rest.len() > 0
        invariant
            n == initial.len(),
            i + rest@.len() == n,
            rest@ == initial.skip(i as int),
            out@ == initial.take(i as int).map_values(|e: MarkdownEvent| soft_as_hard(e)),
        decreases rest@.len(),
    {
        let e = rest.remove(0);
        assert(e == initial[i as int]);
        assert(rest@ =~= initial.skip(i + 1));
        let converted = match e {
            MarkdownEvent::SoftBreak => MarkdownEvent::HardBreak,
            other => other,
        };
        out.push(converted);
        assert(initial.take(i + 1).map_values(|e: MarkdownEvent| soft_as_hard(e)) =~= initial.take(
            i as int,
        ).map_values(|e: MarkdownEvent| soft_as_hard(e)).push(soft_as_hard(initial[i as int])));
        i = i + 1;
    }
    assert(initial.take(i as int) =~= initial);
    out
}

/// `ammonia::clean(html)`: the HTML with scripts, unknown tags and attributes
/// and unsafe link schemes removed by ammonia's default settings. What it
/// keeps is named by `cleaned_html`.
#[verifier::external_body]
fn clean_html(html: &str) -> (r: String)
    ensures
        r@ == cleaned_html(html@),
{
    ammonia::clean(html)
}

/// The HTML shown for a change log written in Markdown: parsed, each soft
/// line break made a hard one, rendered, then cleaned of anything unsafe.
pub fn render_markdown(markdown: &str) -> (r: String)
    ensures
        r@ == cleaned_html(
            events_html(markdown_events(markdown@).map_values(|e: MarkdownEvent| soft_as_hard(e))),
        ),
{
    let events = hard_line_breaks(parse_markdown(markdown));
    let html = render_events(events);
    clean_html(html.as_str())
}

// ---------------------------------------------------------------------------
// What the window does with a command
// ---------------------------------------------------------------------------

/// A command sent to the updater window.
pub enum WindowCommand {
    Exit,
    SetVisible(bool),
    /// Make the window ready to be seen: fit and fill the page, show the
    /// window (still transparent the first time).
    PrepareVisible,
    /// The page has drawn its first frame: reveal it.
    RevealVisible,
    SetTitle(String),
    SetProfile(UiProfile),
    SetLabel(String),
    /// Progress in thousandths.
    SetProgress(u32),
    SetTransfer { downloaded: u64, total: u64 },
    SetLabelSecondary(String),
    PopupDialog(DialogContent),
    HideDialog,
    ShowChangelog { title: String, summary: String, content: String },
}

/// One thing the window does in answer to a command.
pub enum WindowEffect {
    Close,
    ShowWindow(bool),
    /// Resize the web view to the window's client area.
    FitPage,
    /// Send the current phase, status, detail, progress and profile to the page.
    RefreshPage,
    /// Show or hide the native placeholder drawn until the page is ready.
    ShowPlaceholder(bool),
    /// Make the window fully transparent, ready for the entry animation.
    HideWindowContent,
    Redraw,
    /// Ask the page to report when it has drawn a visible frame.
    ReportVisibleFrame,
    /// Play the entry animation and bring the window to the front.
    PlayEntryAnimation,
    /// Give the window its fixed title.
    ResetTitle,
    /// Show the status line in the placeholder.
    ShowStatus,
    /// Show the detail line in the placeholder.
    ShowDetail,
    /// Show the progress (thousandths) and the whole percent in the placeholder.
    ShowProgress { position: u32, percent: u32 },
    /// Take a sample of the bytes downloaded so far, for the speed shown.
    SampleTransfer(u64),
    ShowDialog(DialogContent),
    HideDialog,
    /// Show the pending change log.
    RenderChangelog,
}

/// What the window shows.
pub struct WindowState {
    pub profile: UiProfile,
    pub status: String,
    pub detail: String,
    pub progress: u32,
    pub transfer: (u64, u64),
    /// The change log waiting to be shown: title, summary, Markdown text.
    pub pending_changelog: Option<(String, String, String)>,
    /// Has the entry animation been played? It is played once.
    pub entry_animation_played: bool,
}

impl WindowState {
    /// The state of a new window.
    pub fn new(profile: UiProfile) -> (r: WindowState)
        ensures
            r.profile == profile,
            r.status@ == "正在检查更新"@,
            r.detail@ == "正在连接更新服务"@,
            r.progress == 0,
            r.transfer == (0u64, 0u64),
            r.pending_changelog is None,
            !r.entry_animation_played,
    {
        WindowState {
            profile,
            status: "正在检查更新".to_owned(),
            detail: "正在连接更新服务".to_owned(),
            progress: 0,
            transfer: (0, 0),
            pending_changelog: None,
            entry_animation_played: false,
        }
    }

    /// Applies a command to the window's state and returns what the window
    /// does, in order.
    pub fn apply(&mut self, command: WindowCommand) -> (r: Vec<WindowEffect>)
        ensures
            old(self).entry_animation_played ==> final(self).entry_animation_played,
            r@.contains(WindowEffect::PlayEntryAnimation) ==> !old(self).entry_animation_played,
            match command {
                WindowCommand::Exit => *final(self) == *old(self) && r@ == seq![WindowEffect::Close],
                WindowCommand::SetVisible(v) => *final(self) == *old(self) && r@ == seq![
                    WindowEffect::ShowWindow(v),
                ],
                WindowCommand::PrepareVisible => {
                    &&& *final(self) == *old(self)
                    &&& if old(self).entry_animation_played {
                        r@ == seq![
                            WindowEffect::FitPage,
                            WindowEffect::RefreshPage,
                            WindowEffect::ShowPlaceholder(false),
                            WindowEffect::ShowWindow(true),
                            WindowEffect::Redraw,
                            WindowEffect::ReportVisibleFrame,
                        ]
                    } else {
                        r@ == seq![
                            WindowEffect::FitPage,
                            WindowEffect::RefreshPage,
                            WindowEffect::ShowPlaceholder(true),
                            WindowEffect::HideWindowContent,
                            WindowEffect::ShowWindow(true),
                            WindowEffect::Redraw,
                            WindowEffect::ReportVisibleFrame,
                        ]
                    }
                },
                WindowCommand::RevealVisible => {
                    &&& final(self).entry_animation_played
                    &&& final(self).profile == old(self).profile
                    &&& final(self).status == old(self).status
                    &&& final(self).detail == old(self).detail
                    &&& final(self).progress == old(self).progress
                    &&& final(self).transfer == old(self).transfer
                    &&& final(self).pending_changelog == old(self).pending_changelog
                    &&& if old(self).entry_animation_played {
                        r@ == seq![WindowEffect::ShowPlaceholder(false), WindowEffect::ReportVisibleFrame]
                    } else {
                        r@ == seq![
                            WindowEffect::ShowPlaceholder(false),
                            WindowEffect::PlayEntryAnimation,
                            WindowEffect::ReportVisibleFrame,
                        ]
                    }
                },
                WindowCommand::SetTitle(_) => *final(self) == *old(self) && r@ == seq![WindowEffect::ResetTitle],
                WindowCommand::SetProfile(p) => *final(self) == (WindowState { profile: p, ..*old(self) })
                    && r@ == seq![WindowEffect::FitPage, WindowEffect::RefreshPage],
                WindowCommand::SetLabel(l) => *final(self) == (WindowState { status: l, ..*old(self) })
                    && r@ == seq![WindowEffect::ShowStatus, WindowEffect::RefreshPage],
                WindowCommand::SetProgress(p) => *final(self) == (WindowState { progress: p, ..*old(self) })
                    && r@ == seq![
                    WindowEffect::ShowProgress { position: p, percent: p / 10 },
                    WindowEffect::RefreshPage,
                ],
                WindowCommand::SetTransfer { downloaded, total } => *final(self) == (WindowState {
                    transfer: (downloaded, total),
                    ..*old(self)
                }) && r@ == seq![WindowEffect::SampleTransfer(downloaded), WindowEffect::RefreshPage],
                WindowCommand::SetLabelSecondary(l) => *final(self) == (WindowState { detail: l, ..*old(self) })
                    && r@ == seq![WindowEffect::ShowDetail, WindowEffect::RefreshPage],
                WindowCommand::PopupDialog(d) => *final(self) == *old(self) && r@ == seq![
                    WindowEffect::ShowDialog(d),
                ],
                WindowCommand::HideDialog => *final(self) == *old(self) && r@ == seq![WindowEffect::HideDialog],
                WindowCommand::ShowChangelog { title, summary, content } => *final(self) == (WindowState {
                    pending_changelog: Some((title, summary, content)),
                    ..*old(self)
                }) && r@ == seq![WindowEffect::RenderChangelog],
            },
    {
        let mut effects: Vec<WindowEffect> = Vec::new();
        match command {
            WindowCommand::Exit => {
                effects.push(WindowEffect::Close);
            },
            WindowCommand::SetVisible(v) => {
                effects.push(WindowEffect::ShowWindow(v));
            },
            WindowCommand::PrepareVisible => {
                let first_reveal = !self.entry_animation_played;
                effects.push(WindowEffect::FitPage);
                effects.push(WindowEffect::RefreshPage);
                effects.push(WindowEffect::ShowPlaceholder(first_reveal));
                if first_reveal {
                    effects.push(WindowEffect::HideWindowContent);
                }
                effects.push(WindowEffect::ShowWindow(true));
                effects.push(WindowEffect::Redraw);
                effects.push(WindowEffect::ReportVisibleFrame);
            },
            WindowCommand::RevealVisible => {
                effects.push(WindowEffect::ShowPlaceholder(false));
                if !self.entry_animation_played {
                    effects.push(WindowEffect::PlayEntryAnimation);
                    self.entry_animation_played = true;
                }
                effects.push(WindowEffect::ReportVisibleFrame);
            },
            WindowCommand::SetTitle(_) => {
                effects.push(WindowEffect::ResetTitle);
            },
            WindowCommand::SetProfile(p) => {
                self.profile = p;
                effects.push(WindowEffect::FitPage);
                effects.push(WindowEffect::RefreshPage);
            },
            WindowCommand::SetLabel(l) => {
                self.status = l;
                effects.push(WindowEffect::ShowStatus);
                effects.push(WindowEffect::RefreshPage);
            },
            WindowCommand::SetProgress(p) => {
                self.progress = p;
                effects.push(WindowEffect::ShowProgress { position: p, percent: p / 10 });
                effects.push(WindowEffect::RefreshPage);
            },
            WindowCommand::SetTransfer { downloaded, total } => {
                effects.push(WindowEffect::SampleTransfer(downloaded));
                self.transfer = (downloaded, total);
                effects.push(WindowEffect::RefreshPage);
            },
            WindowCommand::SetLabelSecondary(l) => {
                self.detail = l;
                effects.push(WindowEffect::ShowDetail);
                effects.push(WindowEffect::RefreshPage);
            },
            WindowCommand::PopupDialog(d) => {
                effects.push(WindowEffect::ShowDialog(d));
            },
            WindowCommand::HideDialog => {
                effects.push(WindowEffect::HideDialog);
            },
            WindowCommand::ShowChangelog { title, summary, content } => {
                self.pending_changelog = Some((title, summary, content));
                effects.push(WindowEffect::RenderChangelog);
            },
        }
        proof {
            if effects@.contains(WindowEffect::PlayEntryAnimation) {
                let k = choose|k: int| 0 <= k < effects@.len() && effects@[k] == WindowEffect::PlayEntryAnimation;
                assert(k >= 0);
            }
        }
        effects
    }
}

// ---------------------------------------------------------------------------
// Messages from the page
// ---------------------------------------------------------------------------

/// What the window does for a message that its page sends.
#[derive(Clone, Copy, Debug, PartialEq, Eq, Structural)]
pub enum PageAction {
    Nothing,
    /// Let the user drag the window by the page.
    DragWindow,
    /// Close the window.
    CloseWindow,
    /// Play the closing animation.
    AnimateClose,
    /// Answer the dialog shown.
    AnswerDialog(bool),
}

/// What the window has heard from its page.
pub struct PageState {
    /// Has the page said it is ready?
    pub ready: bool,
    /// How many visible frames the page has reported (wrapping).
    pub visible_frames: u64,
    /// Has the closing animation been started? It is started once.
    pub close_animation_started: bool,
}

/// `n + k`, wrapping around the `u64` range.
pub open spec fn wrapped(n: u64, k: u64) -> u64 {
    if n + k > u64::MAX {
        (n + k - 18446744073709551616int) as u64
    } else {
        (n + k) as u64
    }
}

proof fn lemma_messages_differ()
    ensures
        "ready"@ != "visible"@,
        "ready"@ != "begin-close"@,
        "visible"@ != "begin-close"@,
        "drag"@ != "ready"@,
        "drag"@ != "visible"@,
        "drag"@ != "begin-close"@,
        "close"@ != "ready"@,
        "close"@ != "visible"@,
        "close"@ != "begin-close"@,
        "dialog:yes"@ != "ready"@,
        "dialog:yes"@ != "visible"@,
        "dialog:yes"@ != "begin-close"@,
        "dialog:no"@ != "ready"@,
        "dialog:no"@ != "visible"@,
        "dialog:no"@ != "begin-close"@,
{
    reveal_strlit("ready");
    reveal_strlit("visible");
    reveal_strlit("begin-close");
    reveal_strlit("drag");
    reveal_strlit("close");
    reveal_strlit("dialog:yes");
    reveal_strlit("dialog:no");
    assert("ready"@.len() == 5);
    assert("visible"@.len() == 7);
    assert("begin-close"@.len() == 11);
    assert("drag"@.len() == 4);
    assert("close"@.len() == 5);
    assert("dialog:yes"@.len() == 10);
    assert("dialog:no"@.len() == 9);
    assert("close"@[0] != "ready"@[0]);
}

impl PageState {
    /// The state before the page has said anything.
    pub fn new() -> (r: PageState)
        ensures
            !r.ready,
            r.visible_frames == 0,
            !r.close_animation_started,
    {
        PageState { ready: false, visible_frames: 0, close_animation_started: false }
    }

    /// Handles one message of the page: `ready`, `visible`, `drag`, `close`,
    /// `begin-close` (the closing animation, played once), `dialog:yes` and
    /// `dialog:no`; any other message is ignored.
    pub fn on_message(&mut self, body: &str) -> (r: PageAction)
        ensures
            body@ == "ready"@ ==> r == PageAction::Nothing && final(self).ready
                && final(self).visible_frames == old(self).visible_frames
                && final(self).close_animation_started == old(self).close_animation_started,
            body@ == "visible"@ ==> r == PageAction::Nothing && final(self).ready == old(self).ready
                && final(self).visible_frames == wrapped(old(self).visible_frames, 1)
                && final(self).close_animation_started == old(self).close_animation_started,
            body@ == "begin-close"@ ==> r == (if old(self).close_animation_started {
                PageAction::Nothing
            } else {
                PageAction::AnimateClose
            }) && final(self).close_animation_started && final(self).ready == old(self).ready
                && final(self).visible_frames == old(self).visible_frames,
            body@ != "ready"@ && body@ != "visible"@ && body@ != "begin-close"@ ==> {
                &&& *final(self) == *old(self)
                &&& r == if body@ == "drag"@ {
                    PageAction::DragWindow
                } else if body@ == "close"@ {
                    PageAction::CloseWindow
                } else if body@ == "dialog:yes"@ {
                    PageAction::AnswerDialog(true)
                } else if body@ == "dialog:no"@ {
                    PageAction::AnswerDialog(false)
                } else {
                    PageAction::Nothing
                }
            },
    {
        proof {
            lemma_messages_differ();
        }
        if str_eq(body, "ready") {
            self.ready = true;
            PageAction::Nothing
        } else if str_eq(body, "visible") {
            self.visible_frames = self.visible_frames.wrapping_add(1);
            PageAction::Nothing
        } else if str_eq(body, "drag") {
            PageAction::DragWindow
        } else if str_eq(body, "close") {
            PageAction::CloseWindow
        } else if str_eq(body, "begin-close") {
            let started = self.close_animation_started;
            self.close_animation_started = true;
            if started {
                PageAction::Nothing
            } else {
                PageAction::AnimateClose
            }
        } else if str_eq(body, "dialog:yes") {
            PageAction::AnswerDialog(true)
        } else if str_eq(body, "dialog:no") {
            PageAction::AnswerDialog(false)
        } else {
            PageAction::Nothing
        }
    }

    /// When the page cannot be built, the native window goes on alone: it
    /// counts as ready and as having shown two frames.
    pub fn without_page(&mut self)
        ensures
            final(self).ready,
            final(self).visible_frames == wrapped(old(self).visible_frames, 2),
            final(self).close_animation_started == old(self).close_animation_started,
    {
        self.ready = true;
        self.visible_frames = self.visible_frames.wrapping_add(2);
    }
}

} // verus!
