//! The desktop app's text rules outside the browser: command palette
//! search, workspace names, dropped thread payloads, feature states, and
//! the Chrome bridge settings page.

use vstd::prelude::*;
use crate::bridge::ChromeBridgeStatus;
use crate::chunk::string_views;
use crate::json::{jas_i64_opt, jas_str_opt, jget, Json};
use crate::paths::{file_name, file_name_of, vviews};
use crate::text::{
    append_chars, append_str, chars_of, contains, find_chars, is_ws, lower, lower_chars, owned,
    push_char, trim, trimmed,
};

verus! {

/// The whitespace-separated words of a text, read from the left with the
/// word in progress.
pub open spec fn words_from(s: Seq<char>, cur: Seq<char>) -> Seq<Seq<char>>
    decreases s.len(),
{
    if s.len() == 0 {
        if cur.len() > 0 {
            seq![cur]
        } else {
            Seq::empty()
        }
    } else if is_ws(s[0]) {
        (if cur.len() > 0 {
            seq![cur]
        } else {
            Seq::empty()
        }) + words_from(s.drop_first(), Seq::empty())
    } else {
        words_from(s.drop_first(), cur.push(s[0]))
    }
}

/// `split_whitespace`.
pub open spec fn words(s: Seq<char>) -> Seq<Seq<char>> {
    words_from(s, Seq::empty())
}

fn split_words(v: &Vec<char>) -> (r: Vec<Vec<char>>)
    ensures
        vviews(r@) == words(v@),
{
    let mut out: Vec<Vec<char>> = Vec::new();
    let mut cur: Vec<char> = Vec::new();
    let mut i: usize = 0;
    proof {
        assert(v@.skip(0) =~= v@);
        assert(vviews(out@) =~= Seq::<Seq<char>>::empty());
        assert(cur@ =~= Seq::<char>::empty());
    }
    while i < v.len()
        invariant
            i <= v.len(),
            words(v@) == vviews(out@) + words_from(v@.skip(i as int), cur@),
        decreases v.len() - i,
    {
        let c = v[i];
        proof {
            assert(v@.skip(i as int)[0] == c);
            assert(v@.skip(i as int).drop_first() =~= v@.skip(i + 1));
        }
        let ghost before = vviews(out@);
        let ghost old_cur = cur@;
        if crate::text::char_is_ws(c) {
            if cur.len() > 0 {
                let w = cur;
                out.push(w);
                cur = Vec::new();
                proof {
                    assert(vviews(out@) =~= before + seq![old_cur]);
                }
            }
            proof {
                assert(cur@ =~= Seq::<char>::empty());
                let tail = words_from(v@.skip(i + 1), Seq::empty());
                let mark = if old_cur.len() > 0 { seq![old_cur] } else { Seq::<Seq<char>>::empty() };
                assert(vviews(out@) =~= before + mark);
                assert(vviews(out@) + tail =~= before + (mark + tail));
            }
        } else {
            cur.push(c);
        }
        i = i + 1;
    }
    proof {
        assert(v@.skip(i as int) =~= Seq::<char>::empty());
    }
    if cur.len() > 0 {
        let ghost before = vviews(out@);
        let ghost last = cur@;
        out.push(cur);
        proof {
            assert(vviews(out@) =~= before + seq![last]);
        }
    } else {
        proof {
            assert(vviews(out@) =~= vviews(out@) + Seq::<Seq<char>>::empty());
        }
    }
    out
}

/// Whether a palette command answers a query: the query, trimmed and in
/// ASCII lower case, is empty, or each of its words occurs in the title,
/// subtitle and keywords (joined by spaces, in ASCII lower case).
pub open spec fn palette_match(
    title: Seq<char>,
    subtitle: Seq<char>,
    keywords: Seq<char>,
    query: Seq<char>,
) -> bool {
    let q = lower(trim(query));
    let hay = lower(title + " "@ + subtitle + " "@ + keywords);
    q.len() == 0 || forall|i: int| 0 <= i < words(q).len() ==> contains(hay, #[trigger] words(q)[i])
}

/// Whether a palette command matches the search query.
pub fn command_matches(title: &str, subtitle: &str, keywords: &str, query: &str) -> (r: bool)
    ensures
        r == palette_match(title@, subtitle@, keywords@, query@),
{
    let q = trimmed(query);
    let qv = chars_of(q.as_str());
    let ql = lower_chars(&qv);
    if ql.len() == 0 {
        return true;
    }
    let mut hay = owned(title);
    append_str(&mut hay, " ");
    append_str(&mut hay, subtitle);
    append_str(&mut hay, " ");
    append_str(&mut hay, keywords);
    let hv = chars_of(hay.as_str());
    let hl = lower_chars(&hv);
    let ws = split_words(&ql);
    let ghost wv = words(lower(trim(query@)));
    proof {
        assert(ql@ == lower(trim(query@)));
    }
    let mut i: usize = 0;
    while i < ws.len()
        invariant
            i <= ws.len(),
            vviews(ws@) == wv,
            wv == words(lower(trim(query@))),
            ql@ == lower(trim(query@)),
            ql@.len() > 0,
            hl@ == lower(title@ + " "@ + subtitle@ + " "@ + keywords@),
            forall|t: int| 0 <= t < i ==> contains(hl@, #[trigger] wv[t]),
        decreases ws.len() - i,
    {
        proof {
            assert(wv[i as int] == ws@[i as int]@);
        }
        if find_chars(&hl, &ws[i], 0).is_none() {
            proof {
                assert(ql@ == lower(trim(query@)));
                assert(lower(trim(query@)).len() > 0);
                assert(!contains(hl@, wv[i as int]));
            }
            return false;
        }
        i = i + 1;
    }
    true
}

/// A workspace's name in the actions tab: its file name when that is not
/// blank, else its path.
pub open spec fn workspace_name(path: Seq<char>) -> Seq<char> {
    match file_name(path) {
        Some(n) => if trim(n).len() > 0 {
            n
        } else {
            path
        },
        None => path,
    }
}

/// The name a workspace is shown under.
pub fn workspace_display_name(path: &str) -> (r: String)
    ensures
        r@ == workspace_name(path@),
{
    match file_name_of(path) {
        Some(n) => {
            let t = trimmed(n.as_str());
            if t.as_str().is_empty() {
                owned(path)
            } else {
                n
            }
        },
        None => owned(path),
    }
}

/// The first of two lookups that found something (`a.or_else(|| b)`).
pub open spec fn first_some<T>(a: Option<T>, b: Option<T>) -> Option<T> {
    match a {
        Some(x) => Some(x),
        None => b,
    }
}

/// What a thread dropped on a pane carries: its local id (`localThreadId`,
/// else `local_thread_id`), its thread id (`threadId`, else
/// `codexThreadId`) and its workspace (`workspacePath`), each when present
/// with the right type.
pub fn parse_thread_drop_payload(payload: &Json) -> (r: (Option<i64>, Option<String>, Option<String>))
    ensures
        match r.0 {
            Some(n) => jas_i64_opt(first_some(jget(payload@, "localThreadId"@), jget(payload@, "local_thread_id"@)))
                == Some(n as int),
            None => jas_i64_opt(first_some(jget(payload@, "localThreadId"@), jget(payload@, "local_thread_id"@))) is None,
        },
        match r.1 {
            Some(s) => jas_str_opt(first_some(jget(payload@, "threadId"@), jget(payload@, "codexThreadId"@)))
                == Some(s@),
            None => jas_str_opt(first_some(jget(payload@, "threadId"@), jget(payload@, "codexThreadId"@))) is None,
        },
        match r.2 {
            Some(s) => jas_str_opt(jget(payload@, "workspacePath"@)) == Some(s@),
            None => jas_str_opt(jget(payload@, "workspacePath"@)) is None,
        },
{
    let local = match payload.get("localThreadId") {
        Some(v) => Some(v),
        None => payload.get("local_thread_id"),
    };
    let local_id = match local {
        Some(v) => v.as_i64(),
        None => None,
    };
    let thread = match payload.get("threadId") {
        Some(v) => Some(v),
        None => payload.get("codexThreadId"),
    };
    let thread_id = match thread {
        Some(v) => match v.as_str() {
            Some(s) => Some(owned(s.as_str())),
            None => None,
        },
        None => None,
    };
    let workspace = match payload.get("workspacePath") {
        Some(v) => match v.as_str() {
            Some(s) => Some(owned(s.as_str())),
            None => None,
        },
        None => None,
    };
    (local_id, thread_id, workspace)
}

/// How far a feature of the settings page is supported.
#[derive(Clone, Copy, Debug, PartialEq, Eq, Structural)]
pub enum FeatureState {
    Ready,
    Partial,
    Upstream,
}

impl FeatureState {
    /// The badge text.
    pub fn label(self) -> (r: &'static str)
        ensures
            r@ == match self {
                FeatureState::Ready => "Ready"@,
                FeatureState::Partial => "Partial"@,
                FeatureState::Upstream => "Needs native support"@,
            },
    {
        match self {
            FeatureState::Ready => "Ready",
            FeatureState::Partial => "Partial",
            FeatureState::Upstream => "Needs native support",
        }
    }

    /// The badge's style class.
    pub fn css_class(self) -> (r: &'static str)
        ensures
            r@ == match self {
                FeatureState::Ready => "feature-status-ready"@,
                FeatureState::Partial => "feature-status-partial"@,
                FeatureState::Upstream => "feature-status-upstream"@,
            },
    {
        match self {
            FeatureState::Ready => "feature-status-ready",
            FeatureState::Partial => "feature-status-partial",
            FeatureState::Upstream => "feature-status-upstream",
        }
    }
}

/// Texts joined by a separator.
pub open spec fn joined(parts: Seq<Seq<char>>, sep: Seq<char>) -> Seq<char>
    decreases parts.len(),
{
    if parts.len() == 0 {
        Seq::empty()
    } else if parts.len() == 1 {
        parts[0]
    } else {
        joined(parts.drop_last(), sep) + sep + parts.last()
    }
}

/// `parts.join(sep)`.
pub fn join_texts(parts: &Vec<String>, sep: &str) -> (r: String)
    ensures
        r@ == joined(string_views(parts@), sep@),
{
    let ghost pv = string_views(parts@);
    let mut out = String::new();
    let mut i: usize = 0;
    proof {
        assert(pv.take(0) =~= Seq::<Seq<char>>::empty());
    }
    while i < parts.len()
        invariant
            i <= parts.len(),
            pv == string_views(parts@),
            out@ == joined(pv.take(i as int), sep@),
        decreases parts.len() - i,
    {
        proof {
            assert(pv.take(i + 1).drop_last() =~= pv.take(i as int));
            assert(pv.take(i + 1).last() == parts@[i as int]@);
        }
        if i > 0 {
            append_str(&mut out, sep);
        } else {
            proof {
                assert(pv.take(1) =~= seq![parts@[0]@]);
            }
        }
        append_str(&mut out, parts[i].as_str());
        i = i + 1;
    }
    proof {
        assert(pv.take(i as int) =~= pv);
    }
    out
}

/// The paths on their own lines, or `Not found`.
pub open spec fn path_list_text(paths: Seq<Seq<char>>) -> Seq<char> {
    if paths.len() == 0 {
        "Not found"@
    } else {
        joined(paths, "\n"@)
    }
}

/// A list of paths for the settings page.
pub fn path_list(paths: &Vec<String>) -> (r: String)
    ensures
        r@ == path_list_text(string_views(paths@)),
{
    if paths.len() == 0 {
        return owned("Not found");
    }
    join_texts(paths, "\n")
}

/// The manifests, then, when they name hosts, `Target:` and the hosts.
pub open spec fn manifest_value_text(manifests: Seq<Seq<char>>, hosts: Seq<Seq<char>>) -> Seq<char> {
    if hosts.len() == 0 {
        path_list_text(manifests)
    } else {
        path_list_text(manifests) + "\nTarget:\n"@ + path_list_text(hosts)
    }
}

/// The native messaging entry of the settings page.
pub fn native_manifest_value(status: &ChromeBridgeStatus) -> (r: String)
    ensures
        r@ == manifest_value_text(
            string_views(status.native_manifest_paths@),
            string_views(status.native_manifest_host_paths@),
        ),
{
    let manifests = path_list(&status.native_manifest_paths);
    if status.native_manifest_host_paths.len() == 0 {
        return manifests;
    }
    let mut r = manifests;
    append_str(&mut r, "\nTarget:\n");
    let hosts = path_list(&status.native_manifest_host_paths);
    append_str(&mut r, hosts.as_str());
    r
}

/// The bridge is ready: the extension, a live manifest, the plugins enabled
/// and installed, and a host.
pub open spec fn ready_of(s: ChromeBridgeStatus) -> bool {
    s.extension_installed && s.native_manifest_live && s.codex_plugins_enabled
        && s.codex_plugins_installed && s.host_candidate is Some
}

/// Whether the bridge is ready to use.
pub fn bridge_ready(status: &ChromeBridgeStatus) -> (r: bool)
    ensures
        r == ready_of(*status),
{
    status.extension_installed && status.native_manifest_live && status.codex_plugins_enabled
        && status.codex_plugins_installed && status.host_candidate.is_some()
}

pub const SUMMARY_READY: &'static str = "Chrome native messaging is wired. Restart Chrome or reload the extension, then start a new Codex thread.";

pub const SUMMARY_NOT_READY: &'static str = "This page can install the Linux native-host wrapper that the Codex Chrome extension expects.";

/// The settings page's summary of the bridge.
pub fn bridge_summary(status: &ChromeBridgeStatus) -> (r: &'static str)
    ensures
        r@ == if ready_of(*status) { SUMMARY_READY@ } else { SUMMARY_NOT_READY@ },
{
    if bridge_ready(status) {
        SUMMARY_READY
    } else {
        SUMMARY_NOT_READY
    }
}

/// One line of the settings page: a title, its value, and whether it is in
/// order.
#[derive(Clone, Debug, PartialEq, Eq)]
pub struct StatusLine {
    pub title: String,
    pub value: String,
    pub ok: bool,
}

pub open spec fn line_view(l: StatusLine) -> (Seq<char>, Seq<char>, bool) {
    (l.title@, l.value@, l.ok)
}

pub const NO_HOST_TEXT: &'static str = "Not installed yet. Click Enable Linux bridge to create the app native-host wrapper.";

/// The lines of the settings page for a status: the extension, the plugin
/// config, the manifest, the host, and the notes when there are any.
pub open spec fn status_lines_of(s: ChromeBridgeStatus) -> Seq<(Seq<char>, Seq<char>, bool)> {
    seq![
        ("Official Chrome extension"@, path_list_text(string_views(s.extension_paths@)), s.extension_installed),
        (
            "Codex plugin config"@,
            s.codex_config_path@ + "\nChrome and browser-use config: "@ + (if s.codex_plugins_enabled {
                "enabled"@
            } else {
                "not enabled"@
            }) + "\nPlugin files:\n"@ + path_list_text(string_views(s.codex_plugin_paths@)),
            s.codex_plugins_enabled && s.codex_plugins_installed,
        ),
        (
            "Native messaging manifest"@,
            manifest_value_text(
                string_views(s.native_manifest_paths@),
                string_views(s.native_manifest_host_paths@),
            ),
            s.native_manifest_live,
        ),
        (
            "Native host"@,
            match s.host_candidate {
                Some(h) => h@,
                None => NO_HOST_TEXT@,
            },
            s.host_candidate is Some,
        ),
    ] + if s.notes@.len() > 0 {
        seq![("Notes"@, joined(string_views(s.notes@), "\n"@), ready_of(s))]
    } else {
        Seq::empty()
    }
}

fn status_line(title: &str, value: String, ok: bool) -> (r: StatusLine)
    ensures
        line_view(r) == (title@, value@, ok),
{
    StatusLine { title: owned(title), value, ok }
}

/// The lines the settings page shows for the bridge.
pub fn bridge_status_lines(status: &ChromeBridgeStatus) -> (r: Vec<StatusLine>)
    ensures
        r@.map_values(|l: StatusLine| line_view(l)) == status_lines_of(*status),
{
    let mut lines: Vec<StatusLine> = Vec::new();
    lines.push(
        status_line(
            "Official Chrome extension",
            path_list(&status.extension_paths),
            status.extension_installed,
        ),
    );
    let mut config = owned(status.codex_config_path.as_str());
    append_str(&mut config, "\nChrome and browser-use config: ");
    append_str(&mut config, if status.codex_plugins_enabled { "enabled" } else { "not enabled" });
    append_str(&mut config, "\nPlugin files:\n");
    let plugins = path_list(&status.codex_plugin_paths);
    append_str(&mut config, plugins.as_str());
    lines.push(
        status_line(
            "Codex plugin config",
            config,
            status.codex_plugins_enabled && status.codex_plugins_installed,
        ),
    );
    lines.push(
        status_line(
            "Native messaging manifest",
            native_manifest_value(status),
            status.native_manifest_live,
        ),
    );
    let host = match &status.host_candidate {
        Some(h) => owned(h.as_str()),
        None => owned(NO_HOST_TEXT),
    };
    lines.push(status_line("Native host", host, status.host_candidate.is_some()));
    if status.notes.len() > 0 {
        let notes = join_texts(&status.notes, "\n");
        let ready = bridge_ready(status);
        lines.push(status_line("Notes", notes, ready));
    }
    proof {
        assert(lines@.map_values(|l: StatusLine| line_view(l)) =~= status_lines_of(*status));
    }
    lines
}

/// What the actions tab's signature reads of a saved action: its id (as
/// displayed), title and command.
#[derive(Clone, Debug, PartialEq, Eq)]
pub struct SavedActionEntry {
    pub id: String,
    pub title: Option<String>,
    pub command: String,
}

/// What the actions tab's signature reads of a run: its id (as displayed),
/// whether it runs, its status text and the length of its output in bytes.
#[derive(Clone, Debug, PartialEq, Eq)]
pub struct ActionRunEntry {
    pub id: String,
    pub is_running: bool,
    pub status_text: String,
    pub output_len: usize,
}

/// `id:title:command`, the title empty when there is none.
pub open spec fn saved_action_text(a: SavedActionEntry) -> Seq<char> {
    a.id@ + ":"@ + (match a.title {
        Some(t) => t@,
        None => Seq::empty(),
    }) + ":"@ + a.command@
}

/// `id:running:status:output length`.
pub open spec fn run_text(r: ActionRunEntry) -> Seq<char> {
    r.id@ + ":"@ + (if r.is_running {
        "true"@
    } else {
        "false"@
    }) + ":"@ + r.status_text@ + ":"@ + crate::json::decimal(r.output_len as int)
}

/// The signature of the actions tab's contents, which tells when it must be
/// redrawn: the workspace, the saved actions and the runs, `;` between the
/// three and `|` between items.
pub open spec fn signature_text(
    workspace: Option<Seq<char>>,
    saved: Seq<SavedActionEntry>,
    runs: Seq<ActionRunEntry>,
) -> Seq<char> {
    (match workspace {
        Some(w) => w,
        None => Seq::empty(),
    }) + ";"@ + joined(saved.map_values(|a: SavedActionEntry| saved_action_text(a)), "|"@) + ";"@
        + joined(runs.map_values(|r: ActionRunEntry| run_text(r)), "|"@)
}

/// The signature of the actions tab's contents.
pub fn signature(
    workspace: Option<&str>,
    saved_actions: &Vec<SavedActionEntry>,
    runs: &Vec<ActionRunEntry>,
) -> (r: String)
    ensures
        r@ == signature_text(
            match workspace {
                Some(w) => Some(w@),
                None => None,
            },
            saved_actions@,
            runs@,
        ),
{
    let mut saved_parts: Vec<String> = Vec::new();
    let mut i: usize = 0;
    while i < saved_actions.len()
        invariant
            i <= saved_actions.len(),
            string_views(saved_parts@) == saved_actions@.take(i as int).map_values(
                |a: SavedActionEntry| saved_action_text(a),
            ),
        decreases saved_actions.len() - i,
    {
        let a = &saved_actions[i];
        let mut t = owned(a.id.as_str());
        append_str(&mut t, ":");
        match &a.title {
            Some(title) => append_str(&mut t, title.as_str()),
            None => {},
        }
        append_str(&mut t, ":");
        append_str(&mut t, a.command.as_str());
        let ghost before = string_views(saved_parts@);
        proof {
            assert(t@ =~= saved_action_text(saved_actions@[i as int]));
        }
        let ghost tv = t@;
        saved_parts.push(t);
        proof {
            assert(string_views(saved_parts@) =~= before.push(tv));
            assert(string_views(saved_parts@) =~= saved_actions@.take(i + 1).map_values(
                |a: SavedActionEntry| saved_action_text(a),
            ));
        }
        i = i + 1;
    }
    let mut run_parts: Vec<String> = Vec::new();
    let mut j: usize = 0;
    while j < runs.len()
        invariant
            j <= runs.len(),
            string_views(run_parts@) == runs@.take(j as int).map_values(|r: ActionRunEntry| run_text(r)),
        decreases runs.len() - j,
    {
        let r = &runs[j];
        let mut t = owned(r.id.as_str());
        append_str(&mut t, ":");
        append_str(&mut t, if r.is_running { "true" } else { "false" });
        append_str(&mut t, ":");
        append_str(&mut t, r.status_text.as_str());
        append_str(&mut t, ":");
        crate::json::append_decimal(&mut t, r.output_len as i128);
        let ghost before = string_views(run_parts@);
        proof {
            assert(t@ =~= run_text(runs@[j as int]));
        }
        let ghost tv = t@;
        run_parts.push(t);
        proof {
            assert(string_views(run_parts@) =~= before.push(tv));
            assert(string_views(run_parts@) =~= runs@.take(j + 1).map_values(|r: ActionRunEntry| run_text(r)));
        }
        j = j + 1;
    }
    proof {
        assert(saved_actions@.take(i as int) =~= saved_actions@);
        assert(runs@.take(j as int) =~= runs@);
    }
    let mut out = match workspace {
        Some(w) => owned(w),
        None => String::new(),
    };
    append_str(&mut out, ";");
    let saved = join_texts(&saved_parts, "|");
    append_str(&mut out, saved.as_str());
    append_str(&mut out, ";");
    let run_text_all = join_texts(&run_parts, "|");
    append_str(&mut out, run_text_all.as_str());
    out
}

/// A command the actions tab starts: in which workspace, under which title
/// (none when blank), and the command line.
#[derive(Clone, Debug, PartialEq, Eq)]
pub struct RunRequest {
    pub workspace: String,
    pub title: Option<String>,
    pub command: String,
}

/// What pressing Run in the actions tab starts: refused without an active
/// workspace, then for a blank command; otherwise the trimmed command under
/// the trimmed title (none when it is blank).
pub open spec fn run_request_of(workspace: Option<Seq<char>>, command: Seq<char>, title: Seq<char>) -> Result<
    (Seq<char>, Option<Seq<char>>, Seq<char>),
    Seq<char>,
> {
    match workspace {
        None => Err("No active workspace."@),
        Some(w) => if trim(command).len() == 0 {
            Err("Command cannot be empty."@)
        } else {
            Ok((w, if trim(title).len() == 0 { None } else { Some(trim(title)) }, trim(command)))
        },
    }
}

/// The command the actions tab's Run button starts, or the status text it
/// shows instead.
pub fn run_request(workspace: Option<&str>, command: &str, title: &str) -> (r: Result<RunRequest, String>)
    ensures
        match r {
            Ok(q) => run_request_of(
                match workspace {
                    Some(w) => Some(w@),
                    None => None,
                },
                command@,
                title@,
            ) == Ok::<(Seq<char>, Option<Seq<char>>, Seq<char>), Seq<char>>(
                (q.workspace@, match q.title {
                    Some(t) => Some(t@),
                    None => None,
                }, q.command@),
            ),
            Err(e) => run_request_of(
                match workspace {
                    Some(w) => Some(w@),
                    None => None,
                },
                command@,
                title@,
            ) == Err::<(Seq<char>, Option<Seq<char>>, Seq<char>), Seq<char>>(e@),
        },
{
    let workspace = match workspace {
        Some(w) => owned(w),
        None => return Err(owned("No active workspace.")),
    };
    let command = trimmed(command);
    if command.as_str().is_empty() {
        return Err(owned("Command cannot be empty."));
    }
    let title = trimmed(title);
    let title = if title.as_str().is_empty() {
        None
    } else {
        Some(title)
    };
    Ok(RunRequest { workspace, title, command })
}

/// The workspace a dropped thread opens in: the one the drop names; else
/// the thread's worktree, trimmed, when it is active and not blank; else the
/// one the database records for the thread.
pub open spec fn dropped_thread_workspace_of(
    payload_workspace: Option<Seq<char>>,
    worktree_path: Option<Seq<char>>,
    worktree_active: bool,
    recorded_workspace: Option<Seq<char>>,
) -> Option<Seq<char>> {
    match payload_workspace {
        Some(w) => Some(w),
        None => match worktree_path {
            Some(p) => if worktree_active && trim(p).len() > 0 {
                Some(trim(p))
            } else {
                recorded_workspace
            },
            None => recorded_workspace,
        },
    }
}

/// The workspace to activate for a dropped thread.
pub fn dropped_thread_workspace(
    payload_workspace: Option<String>,
    worktree_path: Option<&str>,
    worktree_active: bool,
    recorded_workspace: Option<String>,
) -> (r: Option<String>)
    ensures
        crate::bridge::opt_text(r) == dropped_thread_workspace_of(
            crate::bridge::opt_text(payload_workspace),
            match worktree_path {
                Some(p) => Some(p@),
                None => None,
            },
            worktree_active,
            crate::bridge::opt_text(recorded_workspace),
        ),
{
    if let Some(w) = payload_workspace {
        return Some(w);
    }
    if let Some(p) = worktree_path {
        let t = trimmed(p);
        if worktree_active && !t.as_str().is_empty() {
            return Some(t);
        }
    }
    recorded_workspace
}

} // verus!
