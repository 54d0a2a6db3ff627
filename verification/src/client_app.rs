//! The client program's start-up settings and its remembered preferences.
use vstd::prelude::*;

use crate::text::{str_eq, str_eq_ignore_case};

verus! {

/// How the client was started.
#[derive(Clone, Copy, Debug)]
pub struct StartupParameter {
    pub graphic_mode: bool,
    pub standalone_progress: bool,
    pub disable_log_file: bool,
    pub manual_history: bool,
}

/// The client's exit code.
#[derive(Clone, Copy, Debug)]
pub struct McpatchExitCode(pub i8);

/// What the user chose to remember between runs.
#[derive(Clone, Debug)]
pub struct UserPreferences {
    pub auto_launch_after_update: bool,
}

impl Default for UserPreferences {
    fn default() -> (r: Self)
        ensures
            !r.auto_launch_after_update,
    {
        UserPreferences { auto_launch_after_update: false }
    }
}

pub open spec fn has_arg(args: Seq<String>, a: Seq<char>) -> bool {
    exists|i: int| 0 <= i < args.len() && #[trigger] args[i]@ == a
}

/// Did the user start the client by hand (and so wants the full history)?
/// `--show-history` says yes, `--automatic` says no; otherwise a start from
/// the Windows shell (`explorer.exe`, in any ASCII case) counts as by hand.
pub open spec fn manual_launch(args: Seq<String>, parent: Option<Seq<char>>) -> bool {
    if has_arg(args, "--show-history"@) {
        true
    } else if has_arg(args, "--automatic"@) {
        false
    } else {
        match parent {
            Some(p) => crate::text::eq_ignore_case(p, "explorer.exe"@),
            None => false,
        }
    }
}

fn any_arg(args: &Vec<String>, a: &str) -> (r: bool)
    ensures
        r == has_arg(args@, a@),
{
    for i in 0..args.len()
        invariant
            forall|k: int| 0 <= k < i ==> #[trigger] args@[k]@ != a@,
    {
        if str_eq(args[i].as_str(), a) {
            return true;
        }
    }
    false
}

/// Decides `manual_history` from the arguments and the parent process's name.
pub fn launched_manually(args: &Vec<String>, parent_process: Option<&str>) -> (r: bool)
    ensures
        r == manual_launch(args@, match parent_process {
            Some(p) => Some(p@),
            None => None,
        }),
{
    if any_arg(args, "--show-history") {
        return true;
    }
    if any_arg(args, "--automatic") {
        return false;
    }
    match parent_process {
        Some(p) => str_eq_ignore_case(p, "explorer.exe"),
        None => false,
    }
}

/// The start-up settings of the windowed client.
pub fn startup_parameters(manual_history: bool) -> (r: StartupParameter)
    ensures
        r.graphic_mode && r.standalone_progress && !r.disable_log_file && r.manual_history
            == manual_history,
{
    StartupParameter {
        graphic_mode: true,
        standalone_progress: true,
        disable_log_file: false,
        manual_history,
    }
}

} // verus!
