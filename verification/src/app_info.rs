//! Which flavor of the desktop app runs (Codex or OpenCode), the names it
//! goes by, and the settings that force the single-thread layout.

use vstd::prelude::*;
use crate::paths::{file_name, file_name_of};
use crate::text::{contains, eq_ignore_ascii_case, eq_ignore_case, lower, owned, str_contains, to_lower};

verus! {

/// The application id.
pub const APP_ID: &'static str = "dev.multiagent.multiagent";

/// The application icon name.
pub const APP_ICON: &'static str = "dev.multiagent.multiagent";

/// The application's display name.
pub const APP_NAME: &'static str = "MultiAGENT";

/// The flavor of the app that drives OpenCode.
pub const FLAVOR_OPENCODE: &'static str = "opencode";

/// The flavor of the app that drives Codex.
pub const FLAVOR_CODEX: &'static str = "codex";

/// Whether some argument is exactly `flag`.
pub open spec fn has_arg(args: Seq<Seq<char>>, flag: Seq<char>) -> bool {
    exists|i: int| 0 <= i < args.len() && #[trigger] args[i] == flag
}

/// The flavor named by the program's file name: `opencode` when it holds
/// that word in any ASCII case, else `codex`.
pub open spec fn flavor_of_program(program: Option<Seq<char>>) -> Seq<char> {
    match program {
        Some(p) => match file_name(p) {
            Some(n) => if contains(lower(n), FLAVOR_OPENCODE@) {
                FLAVOR_OPENCODE@
            } else {
                FLAVOR_CODEX@
            },
            None => FLAVOR_CODEX@,
        },
        None => FLAVOR_CODEX@,
    }
}

/// The app's flavor: `MULTIAGENT_APP_FLAVOR` when it names one (in any ASCII
/// case); else `--opencode`, then `--codex`, among the arguments; else the
/// program's file name.
pub open spec fn flavor_of(env_flavor: Option<Seq<char>>, args: Seq<Seq<char>>) -> Seq<char> {
    if env_flavor matches Some(v) && eq_ignore_case(v, FLAVOR_OPENCODE@) {
        FLAVOR_OPENCODE@
    } else if env_flavor matches Some(v) && eq_ignore_case(v, FLAVOR_CODEX@) {
        FLAVOR_CODEX@
    } else if has_arg(args, "--opencode"@) {
        FLAVOR_OPENCODE@
    } else if has_arg(args, "--codex"@) {
        FLAVOR_CODEX@
    } else if args.len() > 0 {
        flavor_of_program(Some(args[0]))
    } else {
        FLAVOR_CODEX@
    }
}

fn any_arg(args: &Vec<String>, flag: &str) -> (r: bool)
    ensures
        r == has_arg(crate::chunk::string_views(args@), flag@),
{
    let ghost av = crate::chunk::string_views(args@);
    let mut i: usize = 0;
    while i < args.len()
        invariant
            i <= args.len(),
            av == crate::chunk::string_views(args@),
            forall|t: int| 0 <= t < i ==> #[trigger] av[t] != flag@,
        decreases args.len() - i,
    {
        proof {
            assert(av[i as int] == args@[i as int]@);
        }
        if crate::text::str_eq(args[i].as_str(), flag) {
            return true;
        }
        i = i + 1;
    }
    false
}

/// The app's flavor, from the value of `MULTIAGENT_APP_FLAVOR` (when set)
/// and the program's arguments, the program's path first.
pub fn app_flavor(env_flavor: &Option<String>, args: &Vec<String>) -> (r: &'static str)
    ensures
        r@ == flavor_of(
            match env_flavor {
                Some(v) => Some(v@),
                None => None,
            },
            crate::chunk::string_views(args@),
        ),
{
    if let Some(v) = env_flavor {
        if eq_ignore_ascii_case(v.as_str(), FLAVOR_OPENCODE) {
            return FLAVOR_OPENCODE;
        }
        if eq_ignore_ascii_case(v.as_str(), FLAVOR_CODEX) {
            return FLAVOR_CODEX;
        }
    }
    if any_arg(args, "--opencode") {
        return FLAVOR_OPENCODE;
    }
    if any_arg(args, "--codex") {
        return FLAVOR_CODEX;
    }
    if args.len() == 0 {
        return FLAVOR_CODEX;
    }
    proof {
        assert(crate::chunk::string_views(args@)[0] == args@[0]@);
    }
    match file_name_of(args[0].as_str()) {
        Some(name) => {
            let lowered = to_lower(name.as_str());
            if str_contains(lowered.as_str(), FLAVOR_OPENCODE) {
                FLAVOR_OPENCODE
            } else {
                FLAVOR_CODEX
            }
        },
        None => FLAVOR_CODEX,
    }
}

/// The application id, the same for both flavors.
pub fn app_id() -> (r: &'static str)
    ensures
        r@ == APP_ID@,
{
    APP_ID
}

/// The application's name, the same for both flavors.
pub fn app_name() -> (r: &'static str)
    ensures
        r@ == APP_NAME@,
{
    APP_NAME
}

/// The backend the app starts with: its flavor.
pub fn default_backend_kind(env_flavor: &Option<String>, args: &Vec<String>) -> (r: &'static str)
    ensures
        r@ == flavor_of(
            match env_flavor {
                Some(v) => Some(v@),
                None => None,
            },
            crate::chunk::string_views(args@),
        ),
{
    app_flavor(env_flavor, args)
}

/// The setting that turns the multi-pane view on.
pub const SETTING_MULTIVIEW_ENABLED: &'static str = "multiview_enabled";

/// The setting that holds the pane layout.
pub const SETTING_PANE_LAYOUT_V1: &'static str = "pane_layout_v1";

/// The pane layout of a single thread: version 1, pane 1 focused, no panes.
pub const SINGLE_THREAD_LAYOUT: &'static str = "{\"version\":1,\"focusedPaneId\":1,\"panes\":[]}";

/// The pane layout of a single thread.
pub fn single_thread_layout_json() -> (r: &'static str)
    ensures
        r@ == SINGLE_THREAD_LAYOUT@,
{
    SINGLE_THREAD_LAYOUT
}

/// The settings that force single-thread mode, in the order they are
/// written: the multi-pane view off, then the single-thread layout.
pub fn force_single_thread_mode() -> (r: Vec<(String, String)>)
    ensures
        r@.len() == 2,
        r@[0].0@ == SETTING_MULTIVIEW_ENABLED@,
        r@[0].1@ == "0"@,
        r@[1].0@ == SETTING_PANE_LAYOUT_V1@,
        r@[1].1@ == SINGLE_THREAD_LAYOUT@,
{
    let mut r: Vec<(String, String)> = Vec::new();
    r.push((owned(SETTING_MULTIVIEW_ENABLED), owned("0")));
    r.push((owned(SETTING_PANE_LAYOUT_V1), owned(single_thread_layout_json())));
    r
}

} // verus!
