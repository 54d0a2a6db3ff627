//! The manager's log buffer: the last lines of task output, each marked once
//! it has been read.
use vstd::prelude::*;

use crate::text::{chars_of, split_chars, split_on, string_of, views};

verus! {

/// The most lines the buffer keeps.
pub const MAX_LOGS: usize = 1000;

/// How important a line is.
#[derive(Clone, Copy, Debug, PartialEq, Eq, Structural)]
pub enum LogLevel {
    Debug,
    Info,
    Warning,
    Error,
}

pub open spec fn level_text(l: LogLevel) -> Seq<char> {
    match l {
        LogLevel::Debug => "debug"@,
        LogLevel::Info => "info"@,
        LogLevel::Warning => "warning"@,
        LogLevel::Error => "error"@,
    }
}

/// The name under which a level is serialized.
pub fn level_name(level: LogLevel) -> (r: &'static str)
    ensures
        r@ == level_text(level),
{
    match level {
        LogLevel::Debug => "debug",
        LogLevel::Info => "info",
        LogLevel::Warning => "warning",
        LogLevel::Error => "error",
    }
}

/// Whether lines are only printed (`Cli`) or also kept for the web page (`Webui`).
#[derive(Clone, Copy, Debug, PartialEq, Eq, Structural)]
pub enum Mode {
    Cli,
    Webui,
}

/// The seconds since the Unix epoch, as the system clock tells them (zero
/// for a clock set before the epoch). Nothing is claimed of the value.
#[verifier::external_body]
fn unix_now() -> u64 {
    match std::time::SystemTime::now().duration_since(std::time::UNIX_EPOCH) {
        Ok(d) => d.as_secs(),
        Err(_) => 0,
    }
}

/// One line of output; `time` is in seconds since the Unix epoch.
#[derive(Clone, Debug)]
pub struct Line {
    pub read: bool,
    pub time: u64,
    pub content: String,
    pub level: LogLevel,
}

impl Line {
    /// A new unread line, stamped with the current time.
    pub fn new(content: String, level: LogLevel) -> (r: Self)
        ensures
            !r.read,
            r.content == content,
            r.level == level,
    {
        Line { read: false, time: unix_now(), content, level }
    }
}

/// A line as it is sent to the web page.
#[derive(Clone, Debug)]
pub struct LogOutputed {
    pub time: u64,
    pub content: String,
    pub level: LogLevel,
}

/// A line as a value.
pub struct LineView {
    pub read: bool,
    pub time: u64,
    pub content: Seq<char>,
    pub level: LogLevel,
}

/// An output line as a value.
pub struct OutputView {
    pub time: u64,
    pub content: Seq<char>,
    pub level: LogLevel,
}

impl View for Line {
    type V = LineView;

    open spec fn view(&self) -> LineView {
        LineView { read: self.read, time: self.time, content: self.content@, level: self.level }
    }
}

impl View for LogOutputed {
    type V = OutputView;

    open spec fn view(&self) -> OutputView {
        OutputView { time: self.time, content: self.content@, level: self.level }
    }
}

pub open spec fn lines_view(s: Seq<Line>) -> Seq<LineView> {
    s.map_values(|l: Line| l@)
}

pub open spec fn outputs_view(s: Seq<LogOutputed>) -> Seq<OutputView> {
    s.map_values(|l: LogOutputed| l@)
}

pub open spec fn output_of(l: LineView) -> OutputView {
    OutputView { time: l.time, content: l.content, level: l.level }
}

pub open spec fn unread_line(content: Seq<char>, time: u64, level: LogLevel) -> LineView {
    LineView { read: false, time, content, level }
}

/// The last `MAX_LOGS` lines of `s`.
pub open spec fn keep_last(s: Seq<LineView>) -> Seq<LineView> {
    if s.len() > MAX_LOGS {
        s.subrange(s.len() - MAX_LOGS, s.len() as int)
    } else {
        s
    }
}

proof fn lemma_keep_last_push(s: Seq<LineView>, x: LineView)
    ensures
        keep_last(keep_last(s).push(x)) == keep_last(s.push(x)),
{
    assert(keep_last(keep_last(s).push(x)) =~= keep_last(s.push(x)));
}

/// The buffer of kept lines.
pub struct Inner {
    pub buf: Vec<Line>,
    pub mode: Mode,
}

impl Inner {
    /// The buffer never holds more than `MAX_LOGS` lines.
    pub open spec fn wf(&self) -> bool {
        self.buf@.len() <= MAX_LOGS
    }

    pub fn new(mode: Mode) -> (r: Self)
        ensures
            r.wf(),
            r.buf@.len() == 0,
            r.mode == mode,
    {
        Inner { buf: Vec::new(), mode }
    }

    /// Records output: in `Webui` mode each `\n`-separated line is kept,
    /// unread, and the oldest lines beyond `MAX_LOGS` are dropped; the new
    /// lines are returned for broadcasting. In `Cli` mode nothing is kept.
    pub fn record(&mut self, content: &str, level: LogLevel, time: u64) -> (r: Vec<LogOutputed>)
        requires
            old(self).wf(),
        ensures
            final(self).wf(),
            final(self).mode == old(self).mode,
            old(self).mode == Mode::Cli ==> final(self).buf@ == old(self).buf@ && r@.len() == 0,
            old(self).mode == Mode::Webui ==> {
                let added = split_on(content@, '\n').map_values(
                    |p: Seq<char>| unread_line(p, time, level),
                );
                &&& lines_view(final(self).buf@) == keep_last(lines_view(old(self).buf@) + added)
                &&& outputs_view(r@) == added.map_values(|l: LineView| output_of(l))
            },
    {
        let mut out: Vec<LogOutputed> = Vec::new();
        if self.mode == Mode::Cli {
            return out;
        }
        let parts = split_chars(&chars_of(content), '\n');
        let ghost ps = split_on(content@, '\n');
        let ghost start = lines_view(self.buf@);
        assert(keep_last(start) =~= start);
        for i in 0..parts.len()
            invariant
                views(parts@) == ps,
                self.mode == Mode::Webui,
                self.buf@.len() <= MAX_LOGS,
                lines_view(self.buf@) == keep_last(
                    start + ps.take(i as int).map_values(|p: Seq<char>| unread_line(p, time, level)),
                ),
                outputs_view(out@) == ps.take(i as int).map_values(
                    |p: Seq<char>| output_of(unread_line(p, time, level)),
                ),
        {
            let text = string_of(&parts[i]);
            let ghost before = lines_view(self.buf@);
            let ghost all = start + ps.take(i as int).map_values(
                |p: Seq<char>| unread_line(p, time, level),
            );
            let ghost x = unread_line(ps[i as int], time, level);
            assert(parts@[i as int]@ == ps[i as int]);
            let ghost before_out = outputs_view(out@);
            out.push(LogOutputed { time, content: crate::text::copy_string(&text), level });
            self.buf.push(Line { read: false, time, content: text, level });
            assert(lines_view(self.buf@) =~= before.push(x));
            assert(start + ps.take(i + 1).map_values(|p: Seq<char>| unread_line(p, time, level))
                =~= all.push(x));
            proof {
                lemma_keep_last_push(all, x);
            }
            if self.buf.len() > MAX_LOGS {
                let ghost full = lines_view(self.buf@);
                self.buf.remove(0);
                assert(lines_view(self.buf@) =~= keep_last(full));
            } else {
                assert(keep_last(before.push(x)) =~= before.push(x));
            }
            assert(outputs_view(out@) =~= before_out.push(output_of(x)));
            assert(ps.take(i + 1).map_values(|p: Seq<char>| output_of(unread_line(p, time, level)))
                =~= ps.take(i as int).map_values(|p: Seq<char>| output_of(unread_line(p, time, level))).push(
                output_of(x),
            ));
            assert(outputs_view(out@) =~= ps.take(i + 1).map_values(
                |p: Seq<char>| output_of(unread_line(p, time, level)),
            ));
        }
        assert(ps.take(ps.len() as int) =~= ps);
        assert(ps.map_values(|p: Seq<char>| output_of(unread_line(p, time, level))) =~= ps.map_values(
            |p: Seq<char>| unread_line(p, time, level),
        ).map_values(|l: LineView| output_of(l)));
        out
    }

    /// The lines returned by `get_logs`: all of them, or only the unread ones.
    pub open spec fn logs_of(buf: Seq<LineView>, full: bool) -> Seq<OutputView> {
        if full {
            buf.map_values(|l: LineView| output_of(l))
        } else {
            buf.filter(|l: LineView| !l.read).map_values(|l: LineView| output_of(l))
        }
    }

    pub open spec fn all_read(buf: Seq<LineView>) -> Seq<LineView> {
        buf.map_values(|l: LineView| LineView { read: true, ..l })
    }

    /// Returns all lines (`full`) or those not read yet, and marks every line read.
    pub fn get_logs(&mut self, full: bool) -> (r: Vec<LogOutputed>)
        requires
            old(self).wf(),
        ensures
            final(self).wf(),
            final(self).mode == old(self).mode,
            outputs_view(r@) == Self::logs_of(lines_view(old(self).buf@), full),
            lines_view(final(self).buf@) == Self::all_read(lines_view(old(self).buf@)),
    {
        let mut list = Vec::new();
        std::mem::swap(&mut list, &mut self.buf);
        let ghost initial = lines_view(list@);
        let mut kept: Vec<Line> = Vec::new();
        let mut out: Vec<LogOutputed> = Vec::new();
        let n = list.len();
        let mut i: usize = 0;
        while list.len() > 0
            invariant
                n == initial.len(),
                n <= MAX_LOGS,
                i + list@.len() == n,
                lines_view(list@) == initial.skip(i as int),
                lines_view(kept@) == Self::all_read(initial.take(i as int)),
                outputs_view(out@) == Self::logs_of(initial.take(i as int), full),
            decreases list@.len(),
        {
            let ghost before_list = list@;
            let line = list.remove(0);
            assert(line == before_list[0]);
            assert(lines_view(before_list)[0] == line@);
            assert(line@ == initial[i as int]);
            assert(list@ =~= before_list.subrange(1, before_list.len() as int));
            assert forall|k: int| 0 <= k < list@.len() implies #[trigger] lines_view(list@)[k]
                == initial.skip(i + 1)[k] by {
                assert(lines_view(list@)[k] == list@[k]@);
                assert(list@[k] == before_list[k + 1]);
                assert(lines_view(before_list)[k + 1] == before_list[k + 1]@);
            }
            assert(lines_view(list@) =~= initial.skip(i + 1));
            assert(initial.take(i + 1) =~= initial.take(i as int).push(line@));
            proof {
                initial.take(i as int).lemma_filter_push(line@, |l: LineView| !l.read);
            }
            let ghost before_out = outputs_view(out@);
            if full || !line.read {
                out.push(
                    LogOutputed {
                        time: line.time,
                        content: crate::text::copy_string(&line.content),
                        level: line.level,
                    },
                );
                assert(outputs_view(out@) =~= before_out.push(output_of(line@)));
            }
            let ghost before_kept = lines_view(kept@);
            kept.push(Line { read: true, ..line });
            assert(lines_view(kept@) =~= before_kept.push(LineView { read: true, ..line@ }));
            assert(Self::all_read(initial.take(i + 1)) =~= Self::all_read(initial.take(i as int)).push(
                LineView { read: true, ..line@ },
            ));
            assert(Self::logs_of(initial.take(i + 1), full) =~= if full || !line@.read {
                Self::logs_of(initial.take(i as int), full).push(output_of(line@))
            } else {
                Self::logs_of(initial.take(i as int), full)
            });
            i = i + 1;
        }
        assert(initial.take(i as int) =~= initial);
        self.buf = kept;
        out
    }
}

/// Once the logs were read, asking for the unread ones gives nothing, and
/// asking for all of them gives every kept line.
pub proof fn law_logs_are_returned_once(buf: Seq<LineView>)
    ensures
        Inner::logs_of(Inner::all_read(buf), false).len() == 0,
        Inner::logs_of(Inner::all_read(buf), true).len() == buf.len(),
    decreases buf.len(),
{
    if buf.len() > 0 {
        law_logs_are_returned_once(buf.drop_last());
        let r = Inner::all_read(buf.drop_last());
        let x = LineView { read: true, ..buf.last() };
        assert(Inner::all_read(buf) =~= r.push(x));
        r.lemma_filter_push(x, |l: LineView| !l.read);
    } else {
        assert(Inner::all_read(buf).filter(|l: LineView| !l.read) =~= Seq::<LineView>::empty());
    }
}

} // verus!
