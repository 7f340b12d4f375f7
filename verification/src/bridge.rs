//! The Linux Chrome bridge: Codex plugin configuration, native messaging
//! manifests, the native-host wrapper script, bundled plugin files, the
//! paths they live at, and the bridge status report.

use vstd::prelude::*;
use crate::json::{append_decimal, arr1, arr2, decimal, jstr, obj1, obj2, obj3, obj4, Json, JsonV};
use crate::chunk::string_views;
use crate::paths::{
    drawn_from, file_name, file_name_is, first_of_its_path, join_path, path_join, sorted_distinct,
    sorted_distinct_upto, sorted_unique_paths,
};
use crate::text::{
    append_chars, append_str, chars_of, contains, copy_range, find_chars, find_from,
    lemma_find_concat_after, lemma_find_concat_prefix, lemma_find_from_bounds, lemma_find_from_first,
    lemma_find_from_shift, lemma_find_too_short, lemma_occurs_found, occurs_at, owned, push_char, replace_all, replace_str,
    string_of, str_contains, to_lower, lower, trim, trim_chars, trim_start,
};

verus! {

/// The id of the official Codex Chrome extension.
pub const CHROME_EXTENSION_ID: &'static str = "hehggadaopoacecdllhhajmbjkdcmajg";

/// The native messaging host name the extension connects to.
pub const NATIVE_HOST_NAME: &'static str = "com.openai.codexextension";

/// The Codex plugin that exposes Chrome.
pub const CHROME_PLUGIN_NAME: &'static str = "chrome@openai-bundled";

/// The Codex plugin entry for browser use.
pub const BROWSER_USE_PLUGIN_NAME: &'static str = "browser-use@openai-bundled";

/// The file name of the app's native-host wrapper.
pub const APP_NATIVE_HOST_BINARY_NAME: &'static str = "multiagent-codex-chrome-host";

/// The MCP server name of the Chrome plugin.
pub const CHROME_MCP_SERVER_NAME: &'static str = "Multiagent-chrome";

/// The version of the bundled plugins.
pub const BUNDLED_PLUGIN_VERSION: &'static str = "0.1.0";

/// The table header that enables a plugin in Codex's `config.toml`.
pub open spec fn plugin_header(plugin_name: Seq<char>) -> Seq<char> {
    "[plugins.\""@ + plugin_name + "\"]"@
}

/// A config with the plugin's table: unchanged when the header is already
/// there; otherwise a blank line and the table with `enabled = true` are
/// appended, after a line break when the config does not end with one.
pub open spec fn with_plugin_stanza(config: Seq<char>, plugin_name: Seq<char>) -> Seq<char> {
    let header = plugin_header(plugin_name);
    if contains(config, header) {
        config
    } else {
        let base = if config.len() > 0 && config.last() != '\n' {
            config.push('\n')
        } else {
            config
        };
        base + "\n"@ + header + "\nenabled = true\n"@
    }
}

fn header_for(plugin_name: &str) -> (r: String)
    ensures
        r@ == plugin_header(plugin_name@),
{
    let mut h = owned("[plugins.\"");
    append_str(&mut h, plugin_name);
    append_str(&mut h, "\"]");
    h
}

/// Adds the plugin's table to a Codex config unless it is there.
pub fn ensure_plugin_stanza(config: &mut String, plugin_name: &str)
    ensures
        final(config)@ == with_plugin_stanza(old(config)@, plugin_name@),
{
    let header = header_for(plugin_name);
    if str_contains(config.as_str(), header.as_str()) {
        return;
    }
    let empty = config.as_str().is_empty();
    let ends_nl = if empty {
        false
    } else {
        let v = chars_of(config.as_str());
        v[v.len() - 1] == '\n'
    };
    if !ends_nl && !empty {
        push_char(config, '\n');
    }
    push_char(config, '\n');
    append_str(config, header.as_str());
    proof {
        reveal_strlit("\n");
    }
    append_str(config, "\nenabled = true\n");
    proof {
        assert(final(config)@ =~= with_plugin_stanza(old(config)@, plugin_name@));
    }
}

/// The text before the first `\n[` (the start of the next table), or all of it.
pub open spec fn until_next_table(section: Seq<char>) -> Seq<char> {
    match find_from(section, "\n["@, 0) {
        Some(k) => section.take(k),
        None => section,
    }
}

/// Whether a line says `enabled = true` (with or without spaces around `=`).
pub open spec fn is_enabled_line(line: Seq<char>) -> bool {
    trim(line) == "enabled = true"@ || trim(line) == "enabled=true"@
}

/// Whether some line of `text` is an `enabled = true` line.
pub open spec fn any_enabled_line(text: Seq<char>) -> bool
    decreases text.len(),
{
    match find_from(text, seq!['\n'], 0) {
        Some(k) => {
            proof {
                lemma_find_from_bounds(text, seq!['\n'], 0);
            }
            is_enabled_line(text.take(k)) || any_enabled_line(text.skip(k + 1))
        },
        None => is_enabled_line(text),
    }
}

/// Whether a Codex config enables a plugin: its table header occurs, and
/// between it and the next table there is an `enabled = true` line.
pub open spec fn config_enables_plugin(config: Seq<char>, plugin_name: Seq<char>) -> bool {
    let header = plugin_header(plugin_name);
    match find_from(config, header, 0) {
        Some(k) => any_enabled_line(until_next_table(config.skip(k + header.len()))),
        None => false,
    }
}

/// Whether the text of a Codex config enables a plugin.
pub fn config_has_plugin(config: &str, plugin_name: &str) -> (r: bool)
    ensures
        r == config_enables_plugin(config@, plugin_name@),
{
    let v = chars_of(config);
    let header = header_for(plugin_name);
    let h = chars_of(header.as_str());
    let start = match find_chars(&v, &h, 0) {
        Some(k) => k,
        None => {
            return false;
        },
    };
    proof {
        lemma_find_from_bounds(v@, h@, 0);
        assert(occurs_at(v@, h@, start as int));
        assert(start + h@.len() <= v@.len());
        assert(start + h.len() <= v.len());
    }
    let section = copy_range(&v, start + h.len(), v.len());
    proof {
        assert(section@ =~= v@.skip(start + h@.len()));
        reveal_strlit("\n[");
    }
    let marker = chars_of("\n[");
    let end = match find_chars(&section, &marker, 0) {
        Some(k) => {
            proof {
                lemma_find_from_bounds(section@, marker@, 0);
            }
            k
        },
        None => section.len(),
    };
    let text = copy_range(&section, 0, end);
    proof {
        assert(text@ =~= until_next_table(section@));
    }
    any_enabled_line_of(&text)
}

fn is_enabled_line_of(v: &Vec<char>, lo: usize, hi: usize) -> (r: bool)
    requires
        lo <= hi <= v.len(),
    ensures
        r == is_enabled_line(v@.subrange(lo as int, hi as int)),
{
    let line = copy_range(v, lo, hi);
    let t = trim_chars(&line);
    let s = string_of(&t);
    let a = owned("enabled = true");
    let b = owned("enabled=true");
    s == a || s == b
}

fn any_enabled_line_of(text: &Vec<char>) -> (r: bool)
    ensures
        r == any_enabled_line(text@),
{
    let nl: Vec<char> = vec!['\n'];
    let n = text.len();
    let mut pos: usize = 0;
    proof {
        assert(text@.skip(0) =~= text@);
    }
    while pos <= n
        invariant
            pos <= n == text@.len(),
            nl@ == seq!['\n'],
            any_enabled_line(text@) == any_enabled_line(text@.skip(pos as int)),
        decreases n - pos,
    {
        let ghost rest = text@.skip(pos as int);
        proof {
            lemma_find_from_shift(text@, nl@, pos as int, 0);
            lemma_find_from_bounds(text@, nl@, pos as int);
        }
        match find_chars(text, &nl, pos) {
            Some(k) => {
                proof {
                    assert(rest.take(k - pos) =~= text@.subrange(pos as int, k as int));
                    assert(rest.skip(k - pos + 1) =~= text@.skip(k + 1));
                }
                if is_enabled_line_of(text, pos, k) {
                    return true;
                }
                pos = k + 1;
            },
            None => {
                proof {
                    assert(rest =~= text@.subrange(pos as int, n as int));
                }
                return is_enabled_line_of(text, pos, n);
            },
        }
    }
    false
}

/// What the bridge reads from the process environment.
#[derive(Clone, Debug, PartialEq, Eq)]
pub struct BridgeEnv {
    /// `HOME`.
    pub home: Option<String>,
    /// `CODEX_HOME`.
    pub codex_home: Option<String>,
    /// `XDG_DATA_HOME`.
    pub xdg_data_home: Option<String>,
    /// `XDG_RUNTIME_DIR`.
    pub xdg_runtime_dir: Option<String>,
    /// The system's temporary directory (`env::temp_dir`).
    pub temp_dir: String,
    /// The effective user id.
    pub uid: u32,
}

/// The text of an optional string.
pub open spec fn opt_text(o: Option<String>) -> Option<Seq<char>> {
    match o {
        Some(s) => Some(s@),
        None => None,
    }
}

/// `$CODEX_HOME`, else `$HOME/.codex`.
pub open spec fn codex_home_of(env: BridgeEnv) -> Option<Seq<char>> {
    match opt_text(env.codex_home) {
        Some(c) => Some(c),
        None => match opt_text(env.home) {
            Some(h) => Some(path_join(h, ".codex"@)),
            None => None,
        },
    }
}

/// Codex's home directory.
pub fn codex_home_dir(env: &BridgeEnv) -> (r: Option<String>)
    ensures
        opt_text(r) == codex_home_of(*env),
{
    match &env.codex_home {
        Some(c) => Some(owned(c.as_str())),
        None => match &env.home {
            Some(h) => Some(join_path(h.as_str(), ".codex")),
            None => None,
        },
    }
}

/// `config.toml` in Codex's home, or in `.codex` when there is none.
pub open spec fn codex_config_path_of(env: BridgeEnv) -> Seq<char> {
    match codex_home_of(env) {
        Some(h) => path_join(h, "config.toml"@),
        None => path_join(".codex"@, "config.toml"@),
    }
}

/// The path of Codex's `config.toml`.
pub fn codex_config_path(env: &BridgeEnv) -> (r: String)
    ensures
        r@ == codex_config_path_of(*env),
{
    match codex_home_dir(env) {
        Some(h) => join_path(h.as_str(), "config.toml"),
        None => join_path(".codex", "config.toml"),
    }
}

/// `<codex home>/plugins/cache/openai-bundled/<name>/<version>`.
pub open spec fn bundled_plugin_path_of(env: BridgeEnv, name: Seq<char>) -> Option<Seq<char>> {
    match codex_home_of(env) {
        Some(h) => Some(
            path_join(
                path_join(
                    path_join(path_join(path_join(h, "plugins"@), "cache"@), "openai-bundled"@),
                    name,
                ),
                BUNDLED_PLUGIN_VERSION@,
            ),
        ),
        None => None,
    }
}

/// Where Codex caches a bundled plugin.
pub fn openai_bundled_plugin_path(env: &BridgeEnv, name: &str) -> (r: Option<String>)
    ensures
        opt_text(r) == bundled_plugin_path_of(*env, name@),
{
    match codex_home_dir(env) {
        Some(h) => {
            let p = join_path(h.as_str(), "plugins");
            let p = join_path(p.as_str(), "cache");
            let p = join_path(p.as_str(), "openai-bundled");
            let p = join_path(p.as_str(), name);
            Some(join_path(p.as_str(), BUNDLED_PLUGIN_VERSION))
        },
        None => None,
    }
}

/// `$HOME/plugins/<name>`.
pub open spec fn home_plugin_path_of(env: BridgeEnv, name: Seq<char>) -> Option<Seq<char>> {
    match opt_text(env.home) {
        Some(h) => Some(path_join(path_join(h, "plugins"@), name)),
        None => None,
    }
}

/// Where the home marketplace keeps a plugin.
pub fn home_local_plugin_path(env: &BridgeEnv, name: &str) -> (r: Option<String>)
    ensures
        opt_text(r) == home_plugin_path_of(*env, name@),
{
    match &env.home {
        Some(h) => {
            let p = join_path(h.as_str(), "plugins");
            Some(join_path(p.as_str(), name))
        },
        None => None,
    }
}

/// `$HOME/.agents/plugins/marketplace.json`.
pub open spec fn marketplace_path_of(env: BridgeEnv) -> Option<Seq<char>> {
    match opt_text(env.home) {
        Some(h) => Some(
            path_join(path_join(path_join(h, ".agents"@), "plugins"@), "marketplace.json"@),
        ),
        None => None,
    }
}

/// The home plugin marketplace file.
pub fn bundled_marketplace_path(env: &BridgeEnv) -> (r: Option<String>)
    ensures
        opt_text(r) == marketplace_path_of(*env),
{
    match &env.home {
        Some(h) => {
            let p = join_path(h.as_str(), ".agents");
            let p = join_path(p.as_str(), "plugins");
            Some(join_path(p.as_str(), "marketplace.json"))
        },
        None => None,
    }
}

/// `$XDG_DATA_HOME`, else `$HOME/.local/share`.
pub open spec fn data_home_of(env: BridgeEnv) -> Option<Seq<char>> {
    match opt_text(env.xdg_data_home) {
        Some(d) => Some(d),
        None => match opt_text(env.home) {
            Some(h) => Some(path_join(path_join(h, ".local"@), "share"@)),
            None => None,
        },
    }
}

/// The user's data directory.
pub fn xdg_data_home(env: &BridgeEnv) -> (r: Option<String>)
    ensures
        opt_text(r) == data_home_of(*env),
{
    match &env.xdg_data_home {
        Some(d) => Some(owned(d.as_str())),
        None => match &env.home {
            Some(h) => {
                let p = join_path(h.as_str(), ".local");
                Some(join_path(p.as_str(), "share"))
            },
            None => None,
        },
    }
}

/// `<data home>/multiagent/chrome-plugin/chrome_mcp_server.py`.
pub open spec fn mcp_server_path_of(env: BridgeEnv) -> Option<Seq<char>> {
    match data_home_of(env) {
        Some(d) => Some(
            path_join(
                path_join(path_join(d, "multiagent"@), "chrome-plugin"@),
                "chrome_mcp_server.py"@,
            ),
        ),
        None => None,
    }
}

/// Where the Chrome MCP server script is installed.
pub fn chrome_mcp_server_path(env: &BridgeEnv) -> (r: Option<String>)
    ensures
        opt_text(r) == mcp_server_path_of(*env),
{
    match xdg_data_home(env) {
        Some(d) => {
            let p = join_path(d.as_str(), "multiagent");
            let p = join_path(p.as_str(), "chrome-plugin");
            Some(join_path(p.as_str(), "chrome_mcp_server.py"))
        },
        None => None,
    }
}

/// `<data home>/multiagent/chrome-native-host/<wrapper name>`.
pub open spec fn wrapper_path_of(env: BridgeEnv) -> Option<Seq<char>> {
    match data_home_of(env) {
        Some(d) => Some(
            path_join(
                path_join(path_join(d, "multiagent"@), "chrome-native-host"@),
                APP_NATIVE_HOST_BINARY_NAME@,
            ),
        ),
        None => None,
    }
}

/// Where the app's native-host wrapper script is installed.
pub fn app_native_host_wrapper_path(env: &BridgeEnv) -> (r: Option<String>)
    ensures
        opt_text(r) == wrapper_path_of(*env),
{
    match xdg_data_home(env) {
        Some(d) => {
            let p = join_path(d.as_str(), "multiagent");
            let p = join_path(p.as_str(), "chrome-native-host");
            Some(join_path(p.as_str(), APP_NATIVE_HOST_BINARY_NAME))
        },
        None => None,
    }
}

/// The native messaging manifest in a browser's configuration directory.
pub open spec fn manifest_in(home: Seq<char>, browser: Seq<char>) -> Seq<char> {
    path_join(
        path_join(path_join(path_join(home, ".config"@), browser), "NativeMessagingHosts"@),
        NATIVE_HOST_NAME@ + ".json"@,
    )
}

/// The manifests for Google Chrome and Chromium, when there is a home.
pub open spec fn manifest_paths_of(env: BridgeEnv) -> Seq<Seq<char>> {
    match opt_text(env.home) {
        Some(h) => seq![manifest_in(h, "google-chrome"@), manifest_in(h, "chromium"@)],
        None => Seq::empty(),
    }
}

fn manifest_path_in(home: &str, browser: &str) -> (r: String)
    ensures
        r@ == manifest_in(home@, browser@),
{
    let p = join_path(home, ".config");
    let p = join_path(p.as_str(), browser);
    let p = join_path(p.as_str(), "NativeMessagingHosts");
    let mut file = owned(NATIVE_HOST_NAME);
    append_str(&mut file, ".json");
    join_path(p.as_str(), file.as_str())
}

/// Where Chrome and Chromium look for the native messaging manifest.
pub fn native_manifest_paths(env: &BridgeEnv) -> (r: Vec<String>)
    ensures
        crate::chunk::string_views(r@) == manifest_paths_of(*env),
{
    let mut paths: Vec<String> = Vec::new();
    if let Some(h) = &env.home {
        paths.push(manifest_path_in(h.as_str(), "google-chrome"));
        paths.push(manifest_path_in(h.as_str(), "chromium"));
    }
    proof {
        assert(crate::chunk::string_views(paths@) =~= manifest_paths_of(*env));
    }
    paths
}

/// The items of an optional value, as a list.
pub open spec fn opt_items(o: Option<Seq<char>>) -> Seq<Seq<char>> {
    match o {
        Some(p) => seq![p],
        None => Seq::empty(),
    }
}

/// The cached and home copies of the browser-use and Chrome plugins, those
/// that resolve, in that order.
pub open spec fn plugin_paths_of(env: BridgeEnv) -> Seq<Seq<char>> {
    opt_items(bundled_plugin_path_of(env, "browser-use"@)) + opt_items(
        home_plugin_path_of(env, "browser-use"@),
    ) + opt_items(bundled_plugin_path_of(env, "chrome"@)) + opt_items(
        home_plugin_path_of(env, "chrome"@),
    )
}

fn push_opt(v: &mut Vec<String>, o: Option<String>)
    ensures
        crate::chunk::string_views(final(v)@) == crate::chunk::string_views(old(v)@) + opt_items(
            opt_text(o),
        ),
{
    let ghost before = crate::chunk::string_views(v@);
    if let Some(p) = o {
        v.push(p);
    }
    proof {
        assert(crate::chunk::string_views(v@) =~= before + opt_items(opt_text(o)));
    }
}

/// The directories of the bundled plugins (`openai_bundled_plugin_paths`).
pub fn openai_bundled_plugin_paths(env: &BridgeEnv) -> (r: Vec<String>)
    ensures
        crate::chunk::string_views(r@) == plugin_paths_of(*env),
{
    let mut paths: Vec<String> = Vec::new();
    proof {
        assert(crate::chunk::string_views(paths@) =~= Seq::<Seq<char>>::empty());
    }
    push_opt(&mut paths, openai_bundled_plugin_path(env, "browser-use"));
    push_opt(&mut paths, home_local_plugin_path(env, "browser-use"));
    push_opt(&mut paths, openai_bundled_plugin_path(env, "chrome"));
    push_opt(&mut paths, home_local_plugin_path(env, "chrome"));
    proof {
        assert(crate::chunk::string_views(paths@) =~= plugin_paths_of(*env));
    }
    paths
}

/// The broker's socket: `multiagent-codex-chrome-host-<uid>.sock` in
/// `$XDG_RUNTIME_DIR`, else in the temporary directory.
pub open spec fn broker_socket_path_of(env: BridgeEnv) -> Seq<char> {
    let dir = match opt_text(env.xdg_runtime_dir) {
        Some(d) => d,
        None => env.temp_dir@,
    };
    path_join(dir, "multiagent-codex-chrome-host-"@ + decimal(env.uid as int) + ".sock"@)
}

/// The Unix socket the native host listens on for local clients.
pub fn broker_socket_path(env: &BridgeEnv) -> (r: String)
    ensures
        r@ == broker_socket_path_of(*env),
{
    let mut file = owned("multiagent-codex-chrome-host-");
    append_decimal(&mut file, env.uid as i128);
    append_str(&mut file, ".sock");
    match &env.xdg_runtime_dir {
        Some(d) => join_path(d.as_str(), file.as_str()),
        None => join_path(env.temp_dir.as_str(), file.as_str()),
    }
}

/// A path for a JSON string written by hand: `\` doubled, then `"` escaped.
pub open spec fn manifest_escaped(path: Seq<char>) -> Seq<char> {
    replace_all(replace_all(path, "\\"@, "\\\\"@), "\""@, "\\\""@)
}

/// The native messaging manifest that points Chrome at `host_path` and
/// allows the official extension.
pub open spec fn native_manifest_text(host_path: Seq<char>) -> Seq<char> {
    "{\n  \"name\": \""@ + NATIVE_HOST_NAME@
        + "\",\n  \"description\": \"Codex Chrome native host\",\n  \"path\": \""@
        + manifest_escaped(host_path)
        + "\",\n  \"type\": \"stdio\",\n  \"allowed_origins\": [\n    \"chrome-extension://"@
        + CHROME_EXTENSION_ID@ + "/\"\n  ]\n}\n"@
}

/// The native messaging host manifest for a host executable.
pub fn native_manifest_json(host_path: &str) -> (r: String)
    ensures
        r@ == native_manifest_text(host_path@),
{
    proof {
        reveal_strlit("\\");
        reveal_strlit("\"");
    }
    let once = replace_str(host_path, "\\", "\\\\");
    let escaped = replace_str(once.as_str(), "\"", "\\\"");
    let mut out = owned("{\n  \"name\": \"");
    append_str(&mut out, NATIVE_HOST_NAME);
    append_str(&mut out, "\",\n  \"description\": \"Codex Chrome native host\",\n  \"path\": \"");
    append_str(&mut out, escaped.as_str());
    append_str(&mut out, "\",\n  \"type\": \"stdio\",\n  \"allowed_origins\": [\n    \"chrome-extension://");
    append_str(&mut out, CHROME_EXTENSION_ID);
    append_str(&mut out, "/\"\n  ]\n}\n");
    out
}

/// A path in single quotes for `sh`, each `'` in it closed, given in double
/// quotes, and reopened.
pub open spec fn shell_quoted(path: Seq<char>) -> Seq<char> {
    "'"@ + replace_all(path, "'"@, "'\"'\"'"@) + "'"@
}

/// A path quoted for `sh`.
pub fn shell_quote_path(path: &str) -> (r: String)
    ensures
        r@ == shell_quoted(path@),
{
    proof {
        reveal_strlit("'");
    }
    let inner = replace_str(path, "'", "'\"'\"'");
    let mut out = owned("'");
    append_str(&mut out, inner.as_str());
    append_str(&mut out, "'");
    out
}

/// The start of the wrapper: hand the connection to Codex's app server when
/// its control socket is there.
pub const WRAPPER_SCRIPT_HEAD: &'static str = "#!/bin/sh\ncontrol_socket=\"${CODEX_APP_SERVER_CONTROL_SOCKET:-${HOME:-}/.codex/app-server-control/app-server-control.sock}\"\nif [ -n \"$control_socket\" ] && [ -S \"$control_socket\" ] && command -v codex >/dev/null 2>&1; then\nexec codex app-server proxy --sock \"$control_socket\"\nfi\nexec ";

/// The end of the wrapper's last line, after the launcher.
pub const WRAPPER_SCRIPT_TAIL: &'static str = " --chrome-native-host \"$@\"\n";

/// The native-host wrapper script: the app server's proxy when Codex's
/// control socket is there, else the app itself in native-host mode.
pub open spec fn wrapper_script_text(launcher_path: Seq<char>) -> Seq<char> {
    WRAPPER_SCRIPT_HEAD@ + shell_quoted(launcher_path) + WRAPPER_SCRIPT_TAIL@
}

/// The shell script installed as the native host.
pub fn native_host_wrapper_script(launcher_path: &str) -> (r: String)
    ensures
        r@ == wrapper_script_text(launcher_path@),
{
    let launcher = shell_quote_path(launcher_path);
    let mut out = owned(WRAPPER_SCRIPT_HEAD);
    append_str(&mut out, launcher.as_str());
    append_str(&mut out, WRAPPER_SCRIPT_TAIL);
    out
}

/// The manifest of the Chrome plugin.
pub const CHROME_PLUGIN_MANIFEST: &'static str = r##"{
  "name": "chrome",
  "version": "0.1.0",
  "description": "Control Google Chrome through the local Multiagent-chrome bridge.",
  "author": {
    "name": "MultiAGENT"
  },
  "homepage": "https://developers.openai.com/codex/app/chrome-extension",
  "license": "MIT",
  "keywords": ["chrome", "browser", "cdp", "computer-use"],
  "mcpServers": "./.mcp.json",
  "interface": {
    "displayName": "Multiagent-chrome",
    "shortDescription": "Control Chrome through the Multiagent-chrome bridge",
    "longDescription": "Provides Chrome browser tools backed by the locally installed Codex Chrome extension and native messaging host.",
    "developerName": "MultiAGENT",
    "category": "Productivity",
    "capabilities": ["Interactive", "Read", "Write"],
    "websiteURL": "https://developers.openai.com/codex/app/chrome-extension",
    "defaultPrompt": ["Use Multiagent-chrome"],
    "brandColor": "#4285F4",
    "screenshots": []
  }
}
"##;

/// The manifest of the browser-use compatibility plugin.
pub const BROWSER_USE_PLUGIN_MANIFEST: &'static str = r##"{
  "name": "browser-use",
  "version": "0.1.0",
  "description": "Compatibility plugin entry for Codex browser-use configuration on Linux.",
  "author": {
    "name": "MultiAGENT"
  },
  "license": "MIT",
  "keywords": ["browser", "chrome", "computer-use"],
  "interface": {
    "displayName": "Browser Use",
    "shortDescription": "Compatibility shim for Chrome browser-use setup",
    "longDescription": "Keeps Codex from treating browser-use@openai-bundled as missing when using the Linux Chrome bridge.",
    "developerName": "MultiAGENT",
    "category": "Productivity",
    "capabilities": ["Interactive"],
    "defaultPrompt": ["Use the browser"],
    "brandColor": "#4285F4",
    "screenshots": []
  }
}
"##;

/// The Chrome plugin's `plugin.json`.
pub fn chrome_plugin_manifest_json() -> (r: String)
    ensures
        r@ == CHROME_PLUGIN_MANIFEST@,
{
    owned(CHROME_PLUGIN_MANIFEST)
}

/// The browser-use plugin's `plugin.json`.
pub fn browser_use_plugin_manifest_json() -> (r: String)
    ensures
        r@ == BROWSER_USE_PLUGIN_MANIFEST@,
{
    owned(BROWSER_USE_PLUGIN_MANIFEST)
}

/// The features the Chrome MCP server turns on.
pub const CHROME_FEATURES: &'static str = "core,tabs,history,downloads,cursor,cdp,lifecycle";

/// The Chrome plugin's MCP configuration: run the server script with
/// `python3`, telling it the broker's socket and the features to offer.
/// Members are in key order, as `serde_json` writes its maps.
pub open spec fn mcp_config_value(server_path: Seq<char>, socket: Seq<char>) -> JsonV {
    JsonV::Object(
        seq![
            (
                "mcpServers"@,
                JsonV::Object(
                    seq![
                        (
                            CHROME_MCP_SERVER_NAME@,
                            JsonV::Object(
                                seq![
                                    ("args"@, JsonV::Array(seq![JsonV::Str(server_path)])),
                                    ("command"@, JsonV::Str("python3"@)),
                                    (
                                        "env"@,
                                        JsonV::Object(
                                            seq![
                                                (
                                                    "MULTIAGENT_CHROME_BRIDGE_SOCKET"@,
                                                    JsonV::Str(socket),
                                                ),
                                                (
                                                    "MULTIAGENT_CHROME_FEATURES"@,
                                                    JsonV::Str(CHROME_FEATURES@),
                                                ),
                                            ],
                                        ),
                                    ),
                                ],
                            ),
                        ),
                    ],
                ),
            ),
        ],
    )
}

/// The Chrome plugin's `.mcp.json`.
pub fn chrome_mcp_config_json(env: &BridgeEnv, server_path: &str) -> (r: String)
    ensures
        r@ == crate::json::json_text(mcp_config_value(server_path@, broker_socket_path_of(*env))),
{
    let socket = broker_socket_path(env);
    let envs = obj2(
        "MULTIAGENT_CHROME_BRIDGE_SOCKET",
        jstr(socket.as_str()),
        "MULTIAGENT_CHROME_FEATURES",
        jstr(CHROME_FEATURES),
    );
    let server = obj3("args", arr1(jstr(server_path)), "command", jstr("python3"), "env", envs);
    let servers = obj1(CHROME_MCP_SERVER_NAME, server);
    let config = obj1("mcpServers", servers);
    config.to_compact()
}

/// The name of the bundled plugin marketplace.
pub const BUNDLED_MARKETPLACE_NAME: &'static str = "openai-bundled";

/// A marketplace entry: a local plugin under `./plugins`, installed by
/// default and authenticated on use.
pub open spec fn marketplace_entry(name: Seq<char>, path: Seq<char>) -> JsonV {
    JsonV::Object(
        seq![
            ("category"@, JsonV::Str("Productivity"@)),
            ("name"@, JsonV::Str(name)),
            (
                "policy"@,
                JsonV::Object(
                    seq![
                        ("authentication"@, JsonV::Str("ON_USE"@)),
                        ("installation"@, JsonV::Str("INSTALLED_BY_DEFAULT"@)),
                    ],
                ),
            ),
            (
                "source"@,
                JsonV::Object(seq![("path"@, JsonV::Str(path)), ("source"@, JsonV::Str("local"@))]),
            ),
        ],
    )
}

/// The bundled marketplace: the Chrome and browser-use plugins.
pub open spec fn marketplace_value() -> JsonV {
    JsonV::Object(
        seq![
            (
                "interface"@,
                JsonV::Object(seq![("displayName"@, JsonV::Str("OpenAI Bundled"@))]),
            ),
            ("name"@, JsonV::Str(BUNDLED_MARKETPLACE_NAME@)),
            (
                "plugins"@,
                JsonV::Array(
                    seq![
                        marketplace_entry("chrome"@, "./plugins/chrome"@),
                        marketplace_entry("browser-use"@, "./plugins/browser-use"@),
                    ],
                ),
            ),
        ],
    )
}

fn marketplace_entry_json(name: &str, path: &str) -> (r: Json)
    ensures
        r@ == marketplace_entry(name@, path@),
{
    obj4(
        "category",
        jstr("Productivity"),
        "name",
        jstr(name),
        "policy",
        obj2("authentication", jstr("ON_USE"), "installation", jstr("INSTALLED_BY_DEFAULT")),
        "source",
        obj2("path", jstr(path), "source", jstr("local")),
    )
}

/// The home marketplace file that lists the bundled plugins.
pub fn bundled_marketplace_json() -> (r: String)
    ensures
        r@ == crate::json::json_text(marketplace_value()),
{
    let plugins = arr2(
        marketplace_entry_json("chrome", "./plugins/chrome"),
        marketplace_entry_json("browser-use", "./plugins/browser-use"),
    );
    let value = obj3(
        "interface",
        obj1("displayName", jstr("OpenAI Bundled")),
        "name",
        jstr(BUNDLED_MARKETPLACE_NAME),
        "plugins",
        plugins,
    );
    value.to_compact()
}

/// A file to write: its path and contents, the permission bits to give it
/// afterwards, and what to call it in messages.
#[derive(Clone, Debug, PartialEq, Eq)]
pub struct FileWrite {
    pub path: String,
    pub contents: String,
    pub mode: Option<u32>,
    pub label: String,
}

/// The permission bits of installed scripts (`rwxr-xr-x`).
pub const EXECUTABLE_MODE: u32 = 0o755;

/// A file write as values.
pub open spec fn write_view(w: FileWrite) -> (Seq<char>, Seq<char>, Option<u32>, Seq<char>) {
    (w.path@, w.contents@, w.mode, w.label@)
}

pub open spec fn writes_view(ws: Seq<FileWrite>) -> Seq<(Seq<char>, Seq<char>, Option<u32>, Seq<char>)> {
    ws.map_values(|w: FileWrite| write_view(w))
}

fn file_write(path: String, contents: String, mode: Option<u32>, label: &str) -> (r: FileWrite)
    ensures
        write_view(r) == (path@, contents@, mode, label@),
{
    FileWrite { path, contents, mode, label: owned(label) }
}

/// `<plugin>/.codex-plugin/plugin.json`.
pub open spec fn plugin_manifest_file(plugin_path: Seq<char>) -> Seq<char> {
    path_join(path_join(plugin_path, ".codex-plugin"@), "plugin.json"@)
}

fn plugin_manifest_file_of(plugin_path: &str) -> (r: String)
    ensures
        r@ == plugin_manifest_file(plugin_path@),
{
    let p = join_path(plugin_path, ".codex-plugin");
    join_path(p.as_str(), "plugin.json")
}

/// The Chrome plugin's files at a plugin directory: its manifest, then its
/// MCP configuration naming the server script.
pub open spec fn chrome_plugin_writes(
    env: BridgeEnv,
    plugin_path: Seq<char>,
    mcp_server_path: Seq<char>,
) -> Seq<(Seq<char>, Seq<char>, Option<u32>, Seq<char>)> {
    seq![
        (plugin_manifest_file(plugin_path), CHROME_PLUGIN_MANIFEST@, None, "Chrome plugin manifest"@),
        (
            path_join(plugin_path, ".mcp.json"@),
            crate::json::json_text(mcp_config_value(mcp_server_path, broker_socket_path_of(env))),
            None,
            "Chrome MCP config"@,
        ),
    ]
}

/// The files that install the Chrome plugin at `plugin_path`.
pub fn install_chrome_plugin_at(env: &BridgeEnv, plugin_path: &str, mcp_server_path: &str) -> (r: Vec<FileWrite>)
    ensures
        writes_view(r@) == chrome_plugin_writes(*env, plugin_path@, mcp_server_path@),
{
    let mut r: Vec<FileWrite> = Vec::new();
    r.push(
        file_write(
            plugin_manifest_file_of(plugin_path),
            chrome_plugin_manifest_json(),
            None,
            "Chrome plugin manifest",
        ),
    );
    r.push(
        file_write(
            join_path(plugin_path, ".mcp.json"),
            chrome_mcp_config_json(env, mcp_server_path),
            None,
            "Chrome MCP config",
        ),
    );
    proof {
        assert(writes_view(r@) =~= chrome_plugin_writes(*env, plugin_path@, mcp_server_path@));
    }
    r
}

/// The browser-use plugin's manifest at a plugin directory.
pub open spec fn browser_use_plugin_write(plugin_path: Seq<char>) -> (Seq<char>, Seq<char>, Option<u32>, Seq<char>) {
    (plugin_manifest_file(plugin_path), BROWSER_USE_PLUGIN_MANIFEST@, None, "browser-use plugin manifest"@)
}

/// The file that installs the browser-use plugin at `plugin_path`.
pub fn install_browser_use_plugin_at(plugin_path: &str) -> (r: FileWrite)
    ensures
        write_view(r) == browser_use_plugin_write(plugin_path@),
{
    file_write(
        plugin_manifest_file_of(plugin_path),
        browser_use_plugin_manifest_json(),
        None,
        "browser-use plugin manifest",
    )
}

/// Why the bundled plugins cannot be installed, if a path does not resolve:
/// the first unresolved of the cached plugins, the home plugins, the
/// marketplace and the MCP server script.
pub open spec fn plugin_install_error(env: BridgeEnv) -> Option<Seq<char>> {
    if bundled_plugin_path_of(env, "chrome"@) is None || bundled_plugin_path_of(env, "browser-use"@) is None {
        Some("Could not resolve Codex plugin cache directory."@)
    } else if home_plugin_path_of(env, "chrome"@) is None || home_plugin_path_of(env, "browser-use"@) is None {
        Some("Could not resolve home plugin directory."@)
    } else if marketplace_path_of(env) is None {
        Some("Could not resolve home plugin marketplace path."@)
    } else if mcp_server_path_of(env) is None {
        Some("Could not resolve Chrome MCP server install path."@)
    } else {
        None
    }
}

/// The files that install the bundled plugins, in order: the MCP server
/// script (executable), the Chrome plugin in the cache and at home, the
/// browser-use plugin in the cache and at home, and the marketplace.
pub open spec fn plugin_install_writes(env: BridgeEnv, mcp_server_source: Seq<char>) -> Seq<(Seq<char>, Seq<char>, Option<u32>, Seq<char>)> {
    let server = mcp_server_path_of(env)->0;
    seq![(server, mcp_server_source, Some(EXECUTABLE_MODE), "Chrome MCP server"@)]
        + chrome_plugin_writes(env, bundled_plugin_path_of(env, "chrome"@)->0, server)
        + chrome_plugin_writes(env, home_plugin_path_of(env, "chrome"@)->0, server)
        + seq![
            browser_use_plugin_write(bundled_plugin_path_of(env, "browser-use"@)->0),
            browser_use_plugin_write(home_plugin_path_of(env, "browser-use"@)->0),
            (
                marketplace_path_of(env)->0,
                crate::json::json_text(marketplace_value()),
                None,
                "openai-bundled marketplace"@,
            ),
        ]
}

/// The files that install the bundled Chrome and browser-use plugins, or
/// the path that could not be resolved.
pub fn install_openai_bundled_plugins(env: &BridgeEnv, mcp_server_source: &str) -> (r: Result<Vec<FileWrite>, String>)
    ensures
        match r {
            Ok(ws) => plugin_install_error(*env) is None && writes_view(ws@) == plugin_install_writes(
                *env,
                mcp_server_source@,
            ),
            Err(e) => plugin_install_error(*env) == Some(e@),
        },
{
    let chrome = match openai_bundled_plugin_path(env, "chrome") {
        Some(p) => p,
        None => return Err(owned("Could not resolve Codex plugin cache directory.")),
    };
    let browser_use = match openai_bundled_plugin_path(env, "browser-use") {
        Some(p) => p,
        None => return Err(owned("Could not resolve Codex plugin cache directory.")),
    };
    let chrome_home = match home_local_plugin_path(env, "chrome") {
        Some(p) => p,
        None => return Err(owned("Could not resolve home plugin directory.")),
    };
    let browser_use_home = match home_local_plugin_path(env, "browser-use") {
        Some(p) => p,
        None => return Err(owned("Could not resolve home plugin directory.")),
    };
    let marketplace = match bundled_marketplace_path(env) {
        Some(p) => p,
        None => return Err(owned("Could not resolve home plugin marketplace path.")),
    };
    let server = match chrome_mcp_server_path(env) {
        Some(p) => p,
        None => return Err(owned("Could not resolve Chrome MCP server install path.")),
    };
    let mut ws: Vec<FileWrite> = Vec::new();
    ws.push(
        file_write(
            owned(server.as_str()),
            owned(mcp_server_source),
            Some(EXECUTABLE_MODE),
            "Chrome MCP server",
        ),
    );
    let mut a = install_chrome_plugin_at(env, chrome.as_str(), server.as_str());
    ws.append(&mut a);
    let mut b = install_chrome_plugin_at(env, chrome_home.as_str(), server.as_str());
    ws.append(&mut b);
    ws.push(install_browser_use_plugin_at(browser_use.as_str()));
    ws.push(install_browser_use_plugin_at(browser_use_home.as_str()));
    ws.push(file_write(marketplace, bundled_marketplace_json(), None, "openai-bundled marketplace"));
    proof {
        assert(writes_view(ws@) =~= plugin_install_writes(*env, mcp_server_source@));
    }
    Ok(ws)
}

/// Why the app's wrapper cannot be written, if it cannot: no launcher to
/// run, or no data directory to put it in.
pub open spec fn wrapper_error(env: BridgeEnv, launcher: Option<Seq<char>>) -> Option<Seq<char>> {
    if launcher is None {
        Some("Could not resolve the app executable for the Chrome native host."@)
    } else if wrapper_path_of(env) is None {
        Some("Could not resolve a user data directory for the Chrome native host."@)
    } else {
        None
    }
}

/// The app's native-host wrapper for a launcher, to be written: the script,
/// executable, at the wrapper path; or why it cannot be made.
pub fn ensure_app_native_host_wrapper(env: &BridgeEnv, launcher: &Option<String>) -> (r: Result<FileWrite, String>)
    ensures
        match r {
            Ok(w) => wrapper_error(*env, opt_text(*launcher)) is None && write_view(w) == (
                wrapper_path_of(*env)->0,
                wrapper_script_text(opt_text(*launcher)->0),
                Some(EXECUTABLE_MODE),
                "native host wrapper"@,
            ),
            Err(e) => wrapper_error(*env, opt_text(*launcher)) == Some(e@),
        },
{
    let launcher = match launcher {
        Some(l) => l,
        None => return Err(owned("Could not resolve the app executable for the Chrome native host.")),
    };
    let path = match app_native_host_wrapper_path(env) {
        Some(p) => p,
        None => return Err(owned("Could not resolve a user data directory for the Chrome native host.")),
    };
    let script = native_host_wrapper_script(launcher.as_str());
    Ok(file_write(path, script, Some(EXECUTABLE_MODE), "native host wrapper"))
}

/// The error when the wrapper failed and no installed host can stand in.
pub open spec fn no_fallback_host_error(wrapper_err: Seq<char>) -> Seq<char> {
    wrapper_err + " No existing Codex native host was found to use as a fallback."@
}

/// `"{wrapper_err} No existing Codex native host was found to use as a fallback."`
pub fn fallback_host_error(wrapper_err: &str) -> (r: String)
    ensures
        r@ == no_fallback_host_error(wrapper_err@),
{
    let mut e = owned(wrapper_err);
    append_str(&mut e, " No existing Codex native host was found to use as a fallback.");
    e
}

/// The manifests that point Chrome and Chromium at a host.
pub open spec fn manifest_writes(env: BridgeEnv, host_path: Seq<char>) -> Seq<(Seq<char>, Seq<char>, Option<u32>, Seq<char>)> {
    manifest_paths_of(env).map_values(
        |p: Seq<char>| (p, native_manifest_text(host_path), None::<u32>, "native messaging manifest"@),
    )
}

/// The native messaging manifests to write for a host.
pub fn install_native_manifest_if_possible(env: &BridgeEnv, host_path: &str) -> (r: Vec<FileWrite>)
    ensures
        writes_view(r@) == manifest_writes(*env, host_path@),
{
    let paths = native_manifest_paths(env);
    let mut ws: Vec<FileWrite> = Vec::new();
    let mut i: usize = 0;
    while i < paths.len()
        invariant
            i <= paths.len(),
            string_views(paths@) == manifest_paths_of(*env),
            writes_view(ws@) == manifest_writes(*env, host_path@).take(i as int),
        decreases paths.len() - i,
    {
        let w = file_write(
            owned(paths[i].as_str()),
            native_manifest_json(host_path),
            None,
            "native messaging manifest",
        );
        let ghost before = ws@;
        ws.push(w);
        proof {
            assert(string_views(paths@).len() == paths@.len());
            assert(writes_view(before).len() == i);
            assert(ws@ == before.push(w));
            assert(string_views(paths@)[i as int] == paths@[i as int]@);
            assert(manifest_writes(*env, host_path@)[i as int] == write_view(w));
            assert(writes_view(ws@) =~= manifest_writes(*env, host_path@).take(i + 1));
        }
        i = i + 1;
    }
    proof {
        assert(manifest_writes(*env, host_path@).take(i as int) =~= manifest_writes(*env, host_path@));
    }
    ws
}

/// The new text of Codex's config that enables the browser-use and Chrome
/// plugins.
pub open spec fn enabled_config(config: Seq<char>) -> Seq<char> {
    with_plugin_stanza(with_plugin_stanza(config, BROWSER_USE_PLUGIN_NAME@), CHROME_PLUGIN_NAME@)
}

/// Enables the browser-use and Chrome plugins in the text of Codex's config.
pub fn enable_codex_plugin_config(config: &str) -> (r: String)
    ensures
        r@ == enabled_config(config@),
{
    let mut c = owned(config);
    ensure_plugin_stanza(&mut c, BROWSER_USE_PLUGIN_NAME);
    ensure_plugin_stanza(&mut c, CHROME_PLUGIN_NAME);
    c
}

/// A copy of a file write.
fn copy_write(w: &FileWrite) -> (r: FileWrite)
    ensures
        write_view(r) == write_view(*w),
{
    FileWrite { path: w.path.clone(), contents: w.contents.clone(), mode: w.mode, label: w.label.clone() }
}

/// The write of Codex's config that enables the two plugins.
pub open spec fn config_write_of(env: BridgeEnv, config: Seq<char>) -> (Seq<char>, Seq<char>, Option<u32>, Seq<char>) {
    (codex_config_path_of(env), enabled_config(config), None, "Codex config"@)
}

/// The files written before the native host, in order: the config, then,
/// when every path resolves, the bundled plugins.
pub open spec fn pre_writes_of(env: BridgeEnv, config: Seq<char>, source: Seq<char>) -> Seq<
    (Seq<char>, Seq<char>, Option<u32>, Seq<char>),
> {
    seq![config_write_of(env, config)] + if plugin_install_error(env) is None {
        plugin_install_writes(env, source)
    } else {
        Seq::empty()
    }
}

/// The app's wrapper to write, or why it cannot be made.
pub open spec fn wrapper_plan_of(env: BridgeEnv, launcher: Option<Seq<char>>) -> Result<
    (Seq<char>, Seq<char>, Option<u32>, Seq<char>),
    Seq<char>,
> {
    match wrapper_error(env, launcher) {
        Some(e) => Err(e),
        None => Ok(
            (wrapper_path_of(env)->0, wrapper_script_text(launcher->0), Some(EXECUTABLE_MODE), "native host wrapper"@),
        ),
    }
}

/// Where enabling the Linux bridge stands.
#[derive(Clone, Copy, Debug, PartialEq, Eq, Structural)]
pub enum BridgePhase {
    /// Writing the config and the bundled plugins.
    Files,
    /// Writing the app's native-host wrapper.
    Wrapper,
    /// Looking for an installed host to stand in for the wrapper.
    Fallback,
    /// Writing the native messaging manifests.
    Manifests,
    /// Ended.
    Finished,
}

/// What the caller does next.
#[derive(Debug)]
pub enum BridgeAction {
    /// Write this file (creating its directory, then setting its mode).
    Write(FileWrite),
    /// Write the app's native-host wrapper and make it executable.
    WriteWrapper(FileWrite),
    /// Look for an installed Codex native host.
    FindInstalledHost,
    /// Stop: on success, report the bridge's status.
    Finish(Result<(), String>),
}

/// What the caller reports back.
pub enum BridgeEvent {
    /// The requested write succeeded, or failed with this error.
    Wrote(Result<(), String>),
    /// The installed host found, if any.
    HostFound(Option<String>),
}

pub enum BridgeActionV {
    Write((Seq<char>, Seq<char>, Option<u32>, Seq<char>)),
    WriteWrapper((Seq<char>, Seq<char>, Option<u32>, Seq<char>)),
    FindInstalledHost,
    Finish(Result<(), Seq<char>>),
}

pub enum BridgeEventV {
    Wrote(Result<(), Seq<char>>),
    HostFound(Option<Seq<char>>),
}

pub open spec fn action_view(a: BridgeAction) -> BridgeActionV {
    match a {
        BridgeAction::Write(w) => BridgeActionV::Write(write_view(w)),
        BridgeAction::WriteWrapper(w) => BridgeActionV::WriteWrapper(write_view(w)),
        BridgeAction::FindInstalledHost => BridgeActionV::FindInstalledHost,
        BridgeAction::Finish(Ok(())) => BridgeActionV::Finish(Ok(())),
        BridgeAction::Finish(Err(e)) => BridgeActionV::Finish(Err(e@)),
    }
}

pub open spec fn bridge_event_view(e: BridgeEvent) -> BridgeEventV {
    match e {
        BridgeEvent::Wrote(Ok(())) => BridgeEventV::Wrote(Ok(())),
        BridgeEvent::Wrote(Err(x)) => BridgeEventV::Wrote(Err(x@)),
        BridgeEvent::HostFound(h) => BridgeEventV::HostFound(opt_text(h)),
    }
}

/// The state of enabling the Linux bridge, as values.
pub struct BridgeRunV {
    pub env: BridgeEnv,
    pub config: Seq<char>,
    pub source: Seq<char>,
    pub launcher: Option<Seq<char>>,
    pub phase: BridgePhase,
    pub next: nat,
    pub host: Seq<char>,
    pub wrapper_err: Seq<char>,
}

/// Enabling the Linux bridge (`enable_linux_bridge`): the caller performs
/// each action and reports how it went.
pub struct BridgeRun {
    env: BridgeEnv,
    config: String,
    source: String,
    launcher: Option<String>,
    pre: Vec<FileWrite>,
    plugin_err: Option<String>,
    wrapper: Result<FileWrite, String>,
    manifests: Vec<FileWrite>,
    phase: BridgePhase,
    next: usize,
    host: String,
    wrapper_err: String,
}

impl View for BridgeRun {
    type V = BridgeRunV;

    closed spec fn view(&self) -> BridgeRunV {
        BridgeRunV {
            env: self.env,
            config: self.config@,
            source: self.source@,
            launcher: opt_text(self.launcher),
            phase: self.phase,
            next: self.next as nat,
            host: self.host@,
            wrapper_err: self.wrapper_err@,
        }
    }
}

/// The action for the wrapper step: write it, or, when it cannot be made,
/// look for an installed host.
pub open spec fn wrapper_step(s: BridgeRunV) -> (BridgeRunV, BridgeActionV) {
    match wrapper_plan_of(s.env, s.launcher) {
        Ok(w) => (BridgeRunV { phase: BridgePhase::Wrapper, ..s }, BridgeActionV::WriteWrapper(w)),
        Err(e) => (BridgeRunV { phase: BridgePhase::Fallback, wrapper_err: e, ..s }, BridgeActionV::FindInstalledHost),
    }
}

/// The action once the host is known: the first manifest, or the end when
/// there is none.
pub open spec fn manifests_step(s: BridgeRunV, host: Seq<char>) -> (BridgeRunV, BridgeActionV) {
    let ms = manifest_writes(s.env, host);
    if ms.len() > 0 {
        (BridgeRunV { phase: BridgePhase::Manifests, next: 0, host, ..s }, BridgeActionV::Write(ms[0]))
    } else {
        (BridgeRunV { phase: BridgePhase::Finished, host, ..s }, BridgeActionV::Finish(Ok(())))
    }
}

/// The start: nothing written yet, the config first.
pub open spec fn bridge_start(env: BridgeEnv, config: Seq<char>, source: Seq<char>, launcher: Option<Seq<char>>) -> (
    BridgeRunV,
    BridgeActionV,
) {
    (
        BridgeRunV {
            env,
            config,
            source,
            launcher,
            phase: BridgePhase::Files,
            next: 0,
            host: Seq::empty(),
            wrapper_err: Seq::empty(),
        },
        BridgeActionV::Write(config_write_of(env, config)),
    )
}

/// Whether the event answers what the phase asked for.
pub open spec fn bridge_expects(s: BridgeRunV, e: BridgeEventV) -> bool {
    match s.phase {
        BridgePhase::Files | BridgePhase::Wrapper | BridgePhase::Manifests => e is Wrote,
        BridgePhase::Fallback => e is HostFound,
        BridgePhase::Finished => false,
    }
}

/// One step of enabling the bridge.  The files are written in order (the
/// config, the bundled plugins, the wrapper, the manifests) and the first
/// failed write ends it with that write's error; when the plugin paths do not
/// resolve it ends after the config; a failed wrapper is replaced by an
/// installed host, or ends it with the wrapper's error.
pub open spec fn bridge_step(s: BridgeRunV, e: BridgeEventV) -> (BridgeRunV, BridgeActionV) {
    match e {
        BridgeEventV::Wrote(Err(err)) => match s.phase {
            BridgePhase::Wrapper => (
                BridgeRunV { phase: BridgePhase::Fallback, wrapper_err: err, ..s },
                BridgeActionV::FindInstalledHost,
            ),
            _ => (BridgeRunV { phase: BridgePhase::Finished, ..s }, BridgeActionV::Finish(Err(err))),
        },
        BridgeEventV::Wrote(Ok(())) => match s.phase {
            BridgePhase::Files => {
                let pre = pre_writes_of(s.env, s.config, s.source);
                if s.next + 1 < pre.len() {
                    (BridgeRunV { next: s.next + 1, ..s }, BridgeActionV::Write(pre[s.next + 1int]))
                } else {
                    match plugin_install_error(s.env) {
                        Some(pe) => (BridgeRunV { phase: BridgePhase::Finished, ..s }, BridgeActionV::Finish(Err(pe))),
                        None => wrapper_step(s),
                    }
                }
            },
            BridgePhase::Wrapper => manifests_step(s, wrapper_path_of(s.env)->0),
            _ => {
                let ms = manifest_writes(s.env, s.host);
                if s.next + 1 < ms.len() {
                    (BridgeRunV { next: s.next + 1, ..s }, BridgeActionV::Write(ms[s.next + 1int]))
                } else {
                    (BridgeRunV { phase: BridgePhase::Finished, ..s }, BridgeActionV::Finish(Ok(())))
                }
            },
        },
        BridgeEventV::HostFound(Some(h)) => manifests_step(s, h),
        BridgeEventV::HostFound(None) => (
            BridgeRunV { phase: BridgePhase::Finished, ..s },
            BridgeActionV::Finish(Err(no_fallback_host_error(s.wrapper_err))),
        ),
    }
}

impl BridgeRun {
    /// The plans behind the state agree with its values.
    pub closed spec fn wf(&self) -> bool {
        &&& writes_view(self.pre@) == pre_writes_of(self.env, self.config@, self.source@)
        &&& opt_text(self.plugin_err) == plugin_install_error(self.env)
        &&& match self.wrapper {
            Ok(w) => wrapper_plan_of(self.env, opt_text(self.launcher)) == Ok::<
                (Seq<char>, Seq<char>, Option<u32>, Seq<char>),
                Seq<char>,
            >(write_view(w)),
            Err(e) => wrapper_plan_of(self.env, opt_text(self.launcher)) == Err::<
                (Seq<char>, Seq<char>, Option<u32>, Seq<char>),
                Seq<char>,
            >(e@),
        }
        &&& self.phase == BridgePhase::Files ==> self.next < self.pre@.len()
        &&& self.phase == BridgePhase::Wrapper ==> self.wrapper is Ok
        &&& self.phase == BridgePhase::Manifests ==> writes_view(self.manifests@) == manifest_writes(
            self.env,
            self.host@,
        ) && self.next < self.manifests@.len()
    }

    /// Where the run stands.
    pub fn phase(&self) -> (r: BridgePhase)
        ensures
            r == self@.phase,
    {
        self.phase
    }

    fn to_manifests(&mut self, host: String) -> (r: BridgeAction)
        requires
            old(self).wf(),
        ensures
            final(self).wf(),
            (final(self)@, action_view(r)) == manifests_step(old(self)@, host@),
    {
        let ms = install_native_manifest_if_possible(&self.env, host.as_str());
        self.host = host;
        if ms.len() > 0 {
            let w = copy_write(&ms[0]);
            self.manifests = ms;
            self.phase = BridgePhase::Manifests;
            self.next = 0;
            BridgeAction::Write(w)
        } else {
            self.phase = BridgePhase::Finished;
            BridgeAction::Finish(Ok(()))
        }
    }

    /// The next action, given how the last one went (`bridge_step`).
    pub fn step(&mut self, event: BridgeEvent) -> (r: BridgeAction)
        requires
            old(self).wf(),
            bridge_expects(old(self)@, bridge_event_view(event)),
        ensures
            final(self).wf(),
            (final(self)@, action_view(r)) == bridge_step(old(self)@, bridge_event_view(event)),
    {
        match event {
            BridgeEvent::Wrote(Err(err)) => {
                if self.phase == BridgePhase::Wrapper {
                    self.phase = BridgePhase::Fallback;
                    self.wrapper_err = err;
                    BridgeAction::FindInstalledHost
                } else {
                    self.phase = BridgePhase::Finished;
                    BridgeAction::Finish(Err(err))
                }
            },
            BridgeEvent::Wrote(Ok(())) => {
                if self.phase == BridgePhase::Files {
                    if self.next < self.pre.len() - 1 {
                        self.next = self.next + 1;
                        let w = copy_write(&self.pre[self.next]);
                        proof {
                            assert(writes_view(self.pre@)[self.next as int] == write_view(self.pre@[self.next as int]));
                        }
                        BridgeAction::Write(w)
                    } else {
                        match &self.plugin_err {
                            Some(pe) => {
                                let e = pe.clone();
                                self.phase = BridgePhase::Finished;
                                BridgeAction::Finish(Err(e))
                            },
                            None => match &self.wrapper {
                                Ok(w) => {
                                    let w2 = copy_write(w);
                                    self.phase = BridgePhase::Wrapper;
                                    BridgeAction::WriteWrapper(w2)
                                },
                                Err(e) => {
                                    self.wrapper_err = e.clone();
                                    self.phase = BridgePhase::Fallback;
                                    BridgeAction::FindInstalledHost
                                },
                            },
                        }
                    }
                } else if self.phase == BridgePhase::Wrapper {
                    let host = match &self.wrapper {
                        Ok(w) => w.path.clone(),
                        Err(e) => e.clone(),
                    };
                    self.to_manifests(host)
                } else {
                    if self.next < self.manifests.len() - 1 {
                        self.next = self.next + 1;
                        let w = copy_write(&self.manifests[self.next]);
                        proof {
                            assert(writes_view(self.manifests@)[self.next as int] == write_view(
                                self.manifests@[self.next as int],
                            ));
                        }
                        BridgeAction::Write(w)
                    } else {
                        self.phase = BridgePhase::Finished;
                        BridgeAction::Finish(Ok(()))
                    }
                }
            },
            BridgeEvent::HostFound(Some(h)) => self.to_manifests(h),
            BridgeEvent::HostFound(None) => {
                let e = fallback_host_error(self.wrapper_err.as_str());
                self.phase = BridgePhase::Finished;
                BridgeAction::Finish(Err(e))
            },
        }
    }
}

/// Enabling the bridge writes the config first, then the bundled plugins in
/// their order; when the plugin paths resolve, each of those is written.
pub proof fn law_bridge_writes_config_first(
    env: BridgeEnv,
    config: Seq<char>,
    source: Seq<char>,
    launcher: Option<Seq<char>>,
)
    ensures
        bridge_start(env, config, source, launcher).1 == BridgeActionV::Write(config_write_of(env, config)),
        pre_writes_of(env, config, source)[0] == config_write_of(env, config),
        plugin_install_error(env) is None ==> pre_writes_of(env, config, source).skip(1) == plugin_install_writes(
            env,
            source,
        ),
        plugin_install_error(env) is Some ==> pre_writes_of(env, config, source).len() == 1,
{
    let pre = pre_writes_of(env, config, source);
    if plugin_install_error(env) is None {
        assert(pre.skip(1) =~= plugin_install_writes(env, source));
    }
}

/// Enabling the bridge stops at the first failed write: a failed write of
/// the config, a plugin file or a manifest ends it with that write's error,
/// and an ended run takes no further event, so nothing after it is written.
pub proof fn law_bridge_stops_at_first_failed_write(s: BridgeRunV, err: Seq<char>, e: BridgeEventV)
    requires
        s.phase == BridgePhase::Files || s.phase == BridgePhase::Manifests,
    ensures
        bridge_step(s, BridgeEventV::Wrote(Err(err))).1 == BridgeActionV::Finish(Err(err)),
        bridge_step(s, BridgeEventV::Wrote(Err(err))).0.phase == BridgePhase::Finished,
        !bridge_expects(bridge_step(s, BridgeEventV::Wrote(Err(err))).0, e),
{
}

/// Starts enabling the Linux bridge for the current config text (empty when
/// it cannot be read), the bundled MCP server script and the app's
/// launcher: the first action is writing the config.
pub fn enable_linux_bridge(env: BridgeEnv, config: &str, mcp_server_source: &str, launcher: Option<String>) -> (r: (
    BridgeRun,
    BridgeAction,
))
    ensures
        r.0.wf(),
        (r.0@, action_view(r.1)) == bridge_start(env, config@, mcp_server_source@, opt_text(launcher)),
{
    let mut pre: Vec<FileWrite> = Vec::new();
    pre.push(file_write(codex_config_path(&env), enable_codex_plugin_config(config), None, "Codex config"));
    let plugins = install_openai_bundled_plugins(&env, mcp_server_source);
    let plugin_err = match plugins {
        Ok(mut ws) => {
            let ghost p0 = pre@;
            pre.append(&mut ws);
            None
        },
        Err(e) => Some(e),
    };
    proof {
        assert(writes_view(pre@) =~= pre_writes_of(env, config@, mcp_server_source@));
    }
    let wrapper = ensure_app_native_host_wrapper(&env, &launcher);
    let first = copy_write(&pre[0]);
    proof {
        assert(writes_view(pre@)[0] == write_view(pre@[0]));
    }
    let run = BridgeRun {
        env,
        config: owned(config),
        source: owned(mcp_server_source),
        launcher,
        pre,
        plugin_err,
        wrapper,
        manifests: Vec::new(),
        phase: BridgePhase::Files,
        next: 0,
        host: String::new(),
        wrapper_err: String::new(),
    };
    (run, BridgeAction::Write(first))
}

/// How deep below a search root the search for an installed host goes.
pub const HOST_SEARCH_DEPTH: usize = 8;

/// How many entries of each directory the search for a host looks at.
pub const HOST_SEARCH_ENTRIES: usize = 512;

/// How deep below a browser's configuration the search for the extension goes.
pub const EXTENSION_SEARCH_DEPTH: usize = 5;

/// How many entries of each directory the search for the extension looks at.
pub const EXTENSION_SEARCH_ENTRIES: usize = 256;

/// Whether a file name, in ASCII lower case, names a Codex native host.
pub open spec fn host_file_name(name: Seq<char>) -> bool {
    contains(lower(name), "codexextension"@) || contains(lower(name), "chrome-native-host"@)
}

/// Whether a file found in the search is taken for a Codex native host.
pub fn is_host_file_name(name: &str) -> (r: bool)
    ensures
        r == host_file_name(name@),
{
    let lowered = to_lower(name);
    str_contains(lowered.as_str(), "codexextension") || str_contains(lowered.as_str(), "chrome-native-host")
}

/// Where installed hosts are searched: Codex's plugin cache and the VS Code
/// and Cursor extension directories, under the home directory.
pub open spec fn host_search_roots_of(env: BridgeEnv) -> Seq<Seq<char>> {
    match opt_text(env.home) {
        Some(h) => seq![
            path_join(path_join(path_join(h, ".codex"@), "plugins"@), "cache"@),
            path_join(path_join(h, ".vscode"@), "extensions"@),
            path_join(path_join(h, ".cursor"@), "extensions"@),
        ],
        None => Seq::empty(),
    }
}

/// The directories searched for an installed host, in order.
pub fn host_search_roots(env: &BridgeEnv) -> (r: Vec<String>)
    ensures
        string_views(r@) == host_search_roots_of(*env),
{
    let mut r: Vec<String> = Vec::new();
    if let Some(h) = &env.home {
        let p = join_path(h.as_str(), ".codex");
        let p = join_path(p.as_str(), "plugins");
        r.push(join_path(p.as_str(), "cache"));
        let p = join_path(h.as_str(), ".vscode");
        r.push(join_path(p.as_str(), "extensions"));
        let p = join_path(h.as_str(), ".cursor");
        r.push(join_path(p.as_str(), "extensions"));
    }
    proof {
        assert(string_views(r@) =~= host_search_roots_of(*env));
    }
    r
}

/// Where the extension is searched: the Google Chrome and Chromium
/// configuration directories.
pub open spec fn extension_search_roots_of(env: BridgeEnv) -> Seq<Seq<char>> {
    match opt_text(env.home) {
        Some(h) => seq![
            path_join(path_join(h, ".config"@), "google-chrome"@),
            path_join(path_join(h, ".config"@), "chromium"@),
        ],
        None => Seq::empty(),
    }
}

/// The directories searched for the extension, in order.
pub fn extension_search_roots(env: &BridgeEnv) -> (r: Vec<String>)
    ensures
        string_views(r@) == extension_search_roots_of(*env),
{
    let mut r: Vec<String> = Vec::new();
    if let Some(h) = &env.home {
        let p = join_path(h.as_str(), ".config");
        r.push(join_path(p.as_str(), "google-chrome"));
        r.push(join_path(p.as_str(), "chromium"));
    }
    proof {
        assert(string_views(r@) =~= extension_search_roots_of(*env));
    }
    r
}

/// Where a profile directory would hold the official extension.
pub open spec fn extension_candidate_of(dir: Seq<char>) -> Seq<char> {
    path_join(path_join(dir, "Extensions"@), CHROME_EXTENSION_ID@)
}

/// `<dir>/Extensions/<extension id>`.
pub fn extension_candidate(dir: &str) -> (r: String)
    ensures
        r@ == extension_candidate_of(dir@),
{
    let p = join_path(dir, "Extensions");
    join_path(p.as_str(), CHROME_EXTENSION_ID)
}

/// The extension directory of each profile directory.
pub open spec fn extension_candidates_of(dirs: Seq<Seq<char>>) -> Seq<Seq<char>> {
    dirs.map_values(|d: Seq<char>| extension_candidate_of(d))
}

/// `<dir>/Extensions/<extension id>` for each of `dirs`, in order.
pub fn extension_candidates(dirs: &Vec<String>) -> (r: Vec<String>)
    ensures
        string_views(r@) == extension_candidates_of(string_views(dirs@)),
{
    let ghost want = extension_candidates_of(string_views(dirs@));
    let mut r: Vec<String> = Vec::new();
    let mut i: usize = 0;
    while i < dirs.len()
        invariant
            i <= dirs.len(),
            want == extension_candidates_of(string_views(dirs@)),
            r@.len() == i,
            forall|k: int| 0 <= k < i ==> #[trigger] r@[k]@ == want[k],
        decreases dirs.len() - i,
    {
        let c = extension_candidate(dirs[i].as_str());
        r.push(c);
        i = i + 1;
    }
    proof {
        assert(string_views(r@) =~= want);
    }
    r
}

/// Each of `paths` is the extension directory of one of `dirs`.
pub open spec fn each_under_a_dir(paths: Seq<Seq<char>>, dirs: Seq<Seq<char>>) -> bool {
    forall|i: int| 0 <= i < paths.len() ==> under_some_dir(#[trigger] paths[i], dirs)
}

/// `path` is the extension directory of one of `dirs`.
pub open spec fn under_some_dir(path: Seq<char>, dirs: Seq<Seq<char>>) -> bool {
    exists|j: int| 0 <= j < dirs.len() && path == extension_candidate_of(#[trigger] dirs[j])
}

/// The extension directories found, sorted, each once.
pub fn find_extension_paths(found: &Vec<String>) -> (r: Vec<String>)
    ensures
        sorted_distinct(string_views(r@), string_views(found@)),
{
    sorted_unique_paths(found)
}

/// What the bridge learned of one native messaging manifest: whether it is
/// a file, the host path it names (when it could be read and parsed), and
/// whether that host is a file.
#[derive(Clone, Debug, PartialEq, Eq)]
pub struct ManifestProbe {
    pub exists: bool,
    pub host: Option<String>,
    pub host_is_file: bool,
}

/// The `path` member of a manifest, when it is a string.
pub fn manifest_host_path(manifest: &Json) -> (r: Option<String>)
    ensures
        opt_text(r) == crate::json::jas_str_opt(crate::json::jget(manifest@, "path"@)),
{
    match manifest.get("path") {
        Some(v) => match v.as_str() {
            Some(s) => Some(owned(s.as_str())),
            None => None,
        },
        None => None,
    }
}

/// The host paths that the manifests name, in order.
pub open spec fn named_hosts(ms: Seq<ManifestProbe>) -> Seq<Seq<char>>
    decreases ms.len(),
{
    if ms.len() == 0 {
        Seq::empty()
    } else {
        opt_items(opt_text(ms[0].host)) + named_hosts(ms.drop_first())
    }
}

proof fn lemma_named_hosts_push(ms: Seq<ManifestProbe>, m: ManifestProbe)
    ensures
        named_hosts(ms.push(m)) == named_hosts(ms) + opt_items(opt_text(m.host)),
    decreases ms.len(),
{
    if ms.len() == 0 {
        assert(ms.push(m).drop_first() =~= Seq::<ManifestProbe>::empty());
        assert(named_hosts(ms.push(m).drop_first()) == Seq::<Seq<char>>::empty());
        assert(ms.push(m)[0] == m);
        assert(named_hosts(ms) == Seq::<Seq<char>>::empty());
        assert(named_hosts(ms.push(m)) =~= named_hosts(ms) + opt_items(opt_text(m.host)));
    } else {
        lemma_named_hosts_push(ms.drop_first(), m);
        assert(ms.push(m).drop_first() =~= ms.drop_first().push(m));
        assert(ms.push(m)[0] == ms[0]);
        let a = opt_items(opt_text(ms[0].host));
        let b = named_hosts(ms.drop_first());
        let c = opt_items(opt_text(m.host));
        assert(named_hosts(ms.push(m)) == a + (b + c));
        assert(named_hosts(ms) == a + b);
        assert(a + (b + c) =~= (a + b) + c);
    }
}

fn named_host_list(manifests: &Vec<ManifestProbe>) -> (r: Vec<String>)
    ensures
        string_views(r@) == named_hosts(manifests@),
{
    let mut r: Vec<String> = Vec::new();
    let mut i: usize = 0;
    proof {
        assert(string_views(r@) =~= named_hosts(manifests@.take(0)));
    }
    while i < manifests.len()
        invariant
            i <= manifests.len(),
            string_views(r@) == named_hosts(manifests@.take(i as int)),
        decreases manifests.len() - i,
    {
        proof {
            assert(manifests@.take(i + 1) =~= manifests@.take(i as int).push(manifests@[i as int]));
            lemma_named_hosts_push(manifests@.take(i as int), manifests@[i as int]);
        }
        let ghost before = string_views(r@);
        match &manifests[i].host {
            Some(h) => {
                r.push(owned(h.as_str()));
            },
            None => {},
        }
        proof {
            assert(string_views(r@) =~= before + opt_items(opt_text(manifests@[i as int].host)));
        }
        i = i + 1;
    }
    proof {
        assert(manifests@.take(i as int) =~= manifests@);
    }
    r
}

/// The hosts the manifests name, sorted, each once.
pub fn manifest_host_paths(manifests: &Vec<ManifestProbe>) -> (r: Vec<String>)
    ensures
        sorted_distinct(string_views(r@), named_hosts(manifests@)),
{
    let hosts = named_host_list(manifests);
    sorted_unique_paths(&hosts)
}

/// The app's wrapper, when it is installed as a file.
pub open spec fn existing_wrapper_of(env: BridgeEnv, wrapper_is_file: bool) -> Option<Seq<char>> {
    if wrapper_is_file {
        wrapper_path_of(env)
    } else {
        None
    }
}

/// The app's wrapper path, if the wrapper there is a file.
pub fn existing_app_native_host_wrapper(env: &BridgeEnv, wrapper_is_file: bool) -> (r: Option<String>)
    ensures
        opt_text(r) == existing_wrapper_of(*env, wrapper_is_file),
{
    if wrapper_is_file {
        app_native_host_wrapper_path(env)
    } else {
        None
    }
}

/// The first host named by a manifest that is a file.
pub open spec fn first_live_host(ms: Seq<ManifestProbe>) -> Option<Seq<char>>
    decreases ms.len(),
{
    if ms.len() == 0 {
        None
    } else if ms[0].host is Some && ms[0].host_is_file {
        opt_text(ms[0].host)
    } else {
        first_live_host(ms.drop_first())
    }
}

/// The first host found in the search roots.
pub open spec fn first_found(hits: Seq<Option<String>>) -> Option<Seq<char>>
    decreases hits.len(),
{
    if hits.len() == 0 {
        None
    } else if hits[0] is Some {
        opt_text(hits[0])
    } else {
        first_found(hits.drop_first())
    }
}

/// The host the bridge would use: none without a home directory; else the
/// app's wrapper when installed, else the first manifest host that is a
/// file, else the first host found in the search roots.
pub open spec fn host_candidate_of(
    env: BridgeEnv,
    wrapper_is_file: bool,
    manifests: Seq<ManifestProbe>,
    search_hits: Seq<Option<String>>,
) -> Option<Seq<char>> {
    if opt_text(env.home) is None {
        None
    } else if existing_wrapper_of(env, wrapper_is_file) is Some {
        existing_wrapper_of(env, wrapper_is_file)
    } else if first_live_host(manifests) is Some {
        first_live_host(manifests)
    } else {
        first_found(search_hits)
    }
}

fn first_live_host_of(ms: &Vec<ManifestProbe>) -> (r: Option<String>)
    ensures
        opt_text(r) == first_live_host(ms@),
{
    let mut i: usize = 0;
    proof {
        assert(ms@.skip(0) =~= ms@);
    }
    while i < ms.len()
        invariant
            i <= ms.len(),
            first_live_host(ms@) == first_live_host(ms@.skip(i as int)),
        decreases ms.len() - i,
    {
        proof {
            assert(ms@.skip(i as int)[0] == ms@[i as int]);
            assert(ms@.skip(i as int).drop_first() =~= ms@.skip(i + 1));
        }
        if ms[i].host_is_file {
            match &ms[i].host {
                Some(h) => {
                    return Some(owned(h.as_str()));
                },
                None => {},
            }
        }
        i = i + 1;
    }
    None
}

fn first_found_of(hits: &Vec<Option<String>>) -> (r: Option<String>)
    ensures
        opt_text(r) == first_found(hits@),
{
    let mut i: usize = 0;
    proof {
        assert(hits@.skip(0) =~= hits@);
    }
    while i < hits.len()
        invariant
            i <= hits.len(),
            first_found(hits@) == first_found(hits@.skip(i as int)),
        decreases hits.len() - i,
    {
        proof {
            assert(hits@.skip(i as int)[0] == hits@[i as int]);
            assert(hits@.skip(i as int).drop_first() =~= hits@.skip(i + 1));
        }
        match &hits[i] {
            Some(h) => {
                return Some(owned(h.as_str()));
            },
            None => {},
        }
        i = i + 1;
    }
    None
}

/// The native host to point the manifests at, from what was found on disk:
/// whether the app's wrapper is a file, the manifests (in the order of
/// `native_manifest_paths`), and the result of the search under each of
/// `host_search_roots`.
pub fn find_native_host_candidate(
    env: &BridgeEnv,
    wrapper_is_file: bool,
    manifests: &Vec<ManifestProbe>,
    search_hits: &Vec<Option<String>>,
) -> (r: Option<String>)
    ensures
        opt_text(r) == host_candidate_of(*env, wrapper_is_file, manifests@, search_hits@),
{
    if env.home.is_none() {
        return None;
    }
    if let Some(w) = existing_app_native_host_wrapper(env, wrapper_is_file) {
        return Some(w);
    }
    if let Some(h) = first_live_host_of(manifests) {
        return Some(h);
    }
    first_found_of(search_hits)
}

/// What the bridge learned of one plugin directory: whether its
/// `.codex-plugin/plugin.json` and its `.mcp.json` are files.
#[derive(Clone, Debug, PartialEq, Eq)]
pub struct PluginProbe {
    pub manifest_is_file: bool,
    pub mcp_config_is_file: bool,
}

/// What the bridge found on disk, for its status.
#[derive(Clone, Debug, PartialEq, Eq)]
pub struct BridgeProbe {
    /// The profile directories in which the walk of the browser profiles
    /// found `Extensions/<extension id>`.
    pub extension_dirs: Vec<String>,
    /// One per path of `native_manifest_paths`, in order.
    pub manifests: Vec<ManifestProbe>,
    /// The text of Codex's config, when it could be read.
    pub config: Option<String>,
    /// One per path of `openai_bundled_plugin_paths`, in order.
    pub plugins: Vec<PluginProbe>,
    /// Whether the app's wrapper is a file.
    pub wrapper_is_file: bool,
    /// The host found under each of `host_search_roots`, in order.
    pub search_hits: Vec<Option<String>>,
}

/// The state of the Linux Chrome bridge.
#[derive(Clone, Debug, Default, PartialEq, Eq)]
pub struct ChromeBridgeStatus {
    pub extension_installed: bool,
    pub extension_paths: Vec<String>,
    pub native_manifest_paths: Vec<String>,
    pub native_manifest_installed: bool,
    pub native_manifest_host_paths: Vec<String>,
    pub native_manifest_live: bool,
    pub codex_config_path: String,
    pub codex_plugins_enabled: bool,
    pub codex_plugins_installed: bool,
    pub codex_plugin_paths: Vec<String>,
    pub host_candidate: Option<String>,
    pub notes: Vec<String>,
}

/// Whether some manifest is a file.
pub open spec fn some_manifest(ms: Seq<ManifestProbe>) -> bool {
    exists|i: int| 0 <= i < ms.len() && #[trigger] ms[i].exists
}

/// Whether some manifest names a host that is a file.
pub open spec fn some_live_host(ms: Seq<ManifestProbe>) -> bool {
    exists|i: int| 0 <= i < ms.len() && #[trigger] ms[i].host is Some && ms[i].host_is_file
}

/// A plugin directory is complete: its manifest is there, and, for the one
/// named `chrome`, its MCP configuration too.
pub open spec fn plugin_ready(path: Seq<char>, p: PluginProbe) -> bool {
    p.manifest_is_file && (file_name(path) != Some("chrome"@) || p.mcp_config_is_file)
}

/// Every plugin directory is complete.
pub open spec fn plugins_ready(paths: Seq<Seq<char>>, ps: Seq<PluginProbe>) -> bool {
    &&& paths.len() <= ps.len()
    &&& forall|i: int| 0 <= i < paths.len() ==> plugin_ready(#[trigger] paths[i], ps[i])
}

/// Whether the config enables both plugins.
pub open spec fn plugins_enabled(config: Option<String>) -> bool {
    match config {
        Some(c) => config_enables_plugin(c@, CHROME_PLUGIN_NAME@) && config_enables_plugin(
            c@,
            BROWSER_USE_PLUGIN_NAME@,
        ),
        None => false,
    }
}

pub const NOTE_NO_EXTENSION: &'static str = "Official Codex Chrome extension was not found in Chrome or Chromium profiles.";

pub const NOTE_NO_MANIFEST: &'static str = "Chrome native messaging host manifest is missing.";

pub const NOTE_DEAD_MANIFEST: &'static str = "Chrome native messaging manifest points to a missing host.";

pub const NOTE_NOT_ENABLED: &'static str = "Codex Chrome plugin config is not enabled yet.";

pub const NOTE_NO_PLUGIN_FILES: &'static str = "Codex Chrome plugin files are missing from the openai-bundled cache or local marketplace.";

pub const NOTE_NO_WRAPPER: &'static str = "App native-host wrapper has not been installed yet. Use Enable Linux bridge.";

/// The notes of a status, in order: one for each missing piece.
pub open spec fn status_notes(
    extension_found: bool,
    manifest_installed: bool,
    manifest_live: bool,
    enabled: bool,
    installed: bool,
    has_host: bool,
) -> Seq<Seq<char>> {
    (if extension_found { Seq::empty() } else { seq![NOTE_NO_EXTENSION@] })
        + (if !manifest_installed {
        seq![NOTE_NO_MANIFEST@]
    } else if !manifest_live {
        seq![NOTE_DEAD_MANIFEST@]
    } else {
        Seq::empty()
    }) + (if enabled { Seq::empty() } else { seq![NOTE_NOT_ENABLED@] }) + (if installed {
        Seq::empty()
    } else {
        seq![NOTE_NO_PLUGIN_FILES@]
    }) + (if has_host { Seq::empty() } else { seq![NOTE_NO_WRAPPER@] })
}

fn any_manifest_file(ms: &Vec<ManifestProbe>) -> (r: bool)
    ensures
        r == some_manifest(ms@),
{
    let mut i: usize = 0;
    while i < ms.len()
        invariant
            i <= ms.len(),
            forall|t: int| 0 <= t < i ==> !(#[trigger] ms@[t]).exists,
        decreases ms.len() - i,
    {
        if ms[i].exists {
            return true;
        }
        i = i + 1;
    }
    false
}

fn any_live_host(ms: &Vec<ManifestProbe>) -> (r: bool)
    ensures
        r == some_live_host(ms@),
{
    let mut i: usize = 0;
    while i < ms.len()
        invariant
            i <= ms.len(),
            forall|t: int| 0 <= t < i ==> !((#[trigger] ms@[t]).host is Some && ms@[t].host_is_file),
        decreases ms.len() - i,
    {
        if ms[i].host.is_some() && ms[i].host_is_file {
            return true;
        }
        i = i + 1;
    }
    false
}

fn all_plugins_ready(paths: &Vec<String>, ps: &Vec<PluginProbe>) -> (r: bool)
    ensures
        r == plugins_ready(string_views(paths@), ps@),
{
    let ghost pv = string_views(paths@);
    if paths.len() > ps.len() {
        return false;
    }
    let mut i: usize = 0;
    while i < paths.len()
        invariant
            i <= paths.len() <= ps.len(),
            pv == string_views(paths@),
            pv.len() == paths@.len(),
            forall|t: int| 0 <= t < i ==> plugin_ready(#[trigger] pv[t], ps@[t]),
        decreases paths.len() - i,
    {
        proof {
            assert(pv[i as int] == paths@[i as int]@);
        }
        let ready = ps[i].manifest_is_file && (!file_name_is(paths[i].as_str(), "chrome")
            || ps[i].mcp_config_is_file);
        if !ready {
            return false;
        }
        i = i + 1;
    }
    true
}

fn push_note(notes: &mut Vec<String>, on: bool, note: &str)
    ensures
        string_views(final(notes)@) == string_views(old(notes)@) + (if on { seq![note@] } else { Seq::empty() }),
{
    let ghost before = string_views(notes@);
    if on {
        notes.push(owned(note));
    }
    proof {
        assert(string_views(notes@) =~= before + (if on { seq![note@] } else { Seq::<Seq<char>>::empty() }));
    }
}

/// What the bridge's state is, from the environment and what was found on
/// disk.
pub open spec fn describes_status(r: ChromeBridgeStatus, env: BridgeEnv, probe: BridgeProbe) -> bool {
    &&& sorted_distinct(
        string_views(r.extension_paths@),
        extension_candidates_of(string_views(probe.extension_dirs@)),
    )
    &&& each_under_a_dir(string_views(r.extension_paths@), string_views(probe.extension_dirs@))
    &&& r.extension_installed == (probe.extension_dirs@.len() > 0)
    &&& string_views(r.native_manifest_paths@) == manifest_paths_of(env)
    &&& r.native_manifest_installed == some_manifest(probe.manifests@)
    &&& sorted_distinct(string_views(r.native_manifest_host_paths@), named_hosts(probe.manifests@))
    &&& r.native_manifest_live == some_live_host(probe.manifests@)
    &&& r.codex_config_path@ == codex_config_path_of(env)
    &&& r.codex_plugins_enabled == plugins_enabled(probe.config)
    &&& string_views(r.codex_plugin_paths@) == plugin_paths_of(env)
    &&& r.codex_plugins_installed == plugins_ready(plugin_paths_of(env), probe.plugins@)
    &&& opt_text(r.host_candidate) == host_candidate_of(
        env,
        probe.wrapper_is_file,
        probe.manifests@,
        probe.search_hits@,
    )
    &&& string_views(r.notes@) == status_notes(
        probe.extension_dirs@.len() > 0,
        some_manifest(probe.manifests@),
        some_live_host(probe.manifests@),
        plugins_enabled(probe.config),
        plugins_ready(plugin_paths_of(env), probe.plugins@),
        host_candidate_of(env, probe.wrapper_is_file, probe.manifests@, probe.search_hits@) is Some,
    )
}

/// The bridge's state, from what was found on disk.  It only reads its
/// arguments: nothing is written.
pub fn status(env: &BridgeEnv, probe: &BridgeProbe) -> (r: ChromeBridgeStatus)
    ensures
        describes_status(r, *env, *probe),
{
    let candidates = extension_candidates(&probe.extension_dirs);
    let extension_paths = find_extension_paths(&candidates);
    proof {
        let cs = extension_candidates_of(string_views(probe.extension_dirs@));
        let rv = string_views(extension_paths@);
        reveal(sorted_distinct_upto);
        let dv = string_views(probe.extension_dirs@);
        assert forall|i: int| 0 <= i < rv.len() implies under_some_dir(#[trigger] rv[i], dv) by {
            assert(drawn_from(rv, cs, cs.len() as int, i));
            let j = choose|j: int| #![trigger cs[j]] 0 <= j < cs.len() && rv[i] == cs[j] && first_of_its_path(cs, j);
            assert(cs[j] == extension_candidate_of(dv[j]));
        }
        assert(each_under_a_dir(rv, dv));
    }
    let manifest_paths = native_manifest_paths(env);
    let installed = any_manifest_file(&probe.manifests);
    let host_paths = manifest_host_paths(&probe.manifests);
    let live = any_live_host(&probe.manifests);
    let config_path = codex_config_path(env);
    let enabled = match &probe.config {
        Some(c) => config_has_plugin(c.as_str(), CHROME_PLUGIN_NAME) && config_has_plugin(
            c.as_str(),
            BROWSER_USE_PLUGIN_NAME,
        ),
        None => false,
    };
    let plugin_paths = openai_bundled_plugin_paths(env);
    let plugins_installed = all_plugins_ready(&plugin_paths, &probe.plugins);
    let host_candidate = find_native_host_candidate(
        env,
        probe.wrapper_is_file,
        &probe.manifests,
        &probe.search_hits,
    );
    let found = probe.extension_dirs.len() > 0;
    let mut notes: Vec<String> = Vec::new();
    proof {
        assert(string_views(notes@) =~= Seq::<Seq<char>>::empty());
    }
    push_note(&mut notes, !found, NOTE_NO_EXTENSION);
    push_note(&mut notes, !installed, NOTE_NO_MANIFEST);
    push_note(&mut notes, installed && !live, NOTE_DEAD_MANIFEST);
    push_note(&mut notes, !enabled, NOTE_NOT_ENABLED);
    push_note(&mut notes, !plugins_installed, NOTE_NO_PLUGIN_FILES);
    push_note(&mut notes, host_candidate.is_none(), NOTE_NO_WRAPPER);
    proof {
        assert(string_views(notes@) =~= status_notes(found, installed, live, enabled, plugins_installed, host_candidate is Some));
    }
    ChromeBridgeStatus {
        extension_installed: found,
        extension_paths,
        native_manifest_paths: manifest_paths,
        native_manifest_installed: installed,
        native_manifest_host_paths: host_paths,
        native_manifest_live: live,
        codex_config_path: config_path,
        codex_plugins_enabled: enabled,
        codex_plugins_installed: plugins_installed,
        codex_plugin_paths: plugin_paths,
        host_candidate,
        notes,
    }
}

/// The state of the bridge as plain values.
pub open spec fn status_values(r: ChromeBridgeStatus) -> (
    (bool, Seq<Seq<char>>, Seq<Seq<char>>, bool, Seq<Seq<char>>, bool),
    (Seq<char>, bool, bool, Seq<Seq<char>>, Option<Seq<char>>, Seq<Seq<char>>),
) {
    (
        (
            r.extension_installed,
            string_views(r.extension_paths@),
            string_views(r.native_manifest_paths@),
            r.native_manifest_installed,
            string_views(r.native_manifest_host_paths@),
            r.native_manifest_live,
        ),
        (
            r.codex_config_path@,
            r.codex_plugins_enabled,
            r.codex_plugins_installed,
            string_views(r.codex_plugin_paths@),
            opt_text(r.host_candidate),
            string_views(r.notes@),
        ),
    )
}

/// The bridge's state is determined by the environment and what is on disk:
/// two readings of the same state agree in every field.
pub proof fn law_status_is_determined(
    env: BridgeEnv,
    probe: BridgeProbe,
    r1: ChromeBridgeStatus,
    r2: ChromeBridgeStatus,
)
    requires
        describes_status(r1, env, probe),
        describes_status(r2, env, probe),
    ensures
        status_values(r1) == status_values(r2),
{
    crate::paths::lemma_sorted_distinct_unique(
        string_views(r1.extension_paths@),
        string_views(r2.extension_paths@),
        extension_candidates_of(string_views(probe.extension_dirs@)),
    );
    crate::paths::lemma_sorted_distinct_unique(
        string_views(r1.native_manifest_host_paths@),
        string_views(r2.native_manifest_host_paths@),
        named_hosts(probe.manifests@),
    );
}

/// Whether `c` occurs nowhere in `s` from index `i` on.
pub open spec fn char_absent_from(s: Seq<char>, c: char, i: int) -> bool
    decreases s.len() - i,
{
    if i < 0 || i >= s.len() {
        true
    } else {
        s[i] != c && char_absent_from(s, c, i + 1)
    }
}

proof fn lemma_char_absent(s: Seq<char>, c: char, i: int, j: int)
    requires
        0 <= i <= j < s.len(),
        char_absent_from(s, c, i),
    ensures
        s[j] != c,
    decreases j - i,
{
    if i < j {
        lemma_char_absent(s, c, i + 1, j);
    }
}

/// A config with a plugin's table begins with the config it was made from.
proof fn lemma_stanza_extends(config: Seq<char>, plugin_name: Seq<char>)
    ensures
        with_plugin_stanza(config, plugin_name) =~= config + with_plugin_stanza(config, plugin_name).skip(
            config.len() as int,
        ),
        config.len() <= with_plugin_stanza(config, plugin_name).len(),
{
}

/// After `with_plugin_stanza`, the config holds the plugin's table header.
proof fn lemma_stanza_has_header(config: Seq<char>, plugin_name: Seq<char>)
    ensures
        contains(with_plugin_stanza(config, plugin_name), plugin_header(plugin_name)),
{
    let h = plugin_header(plugin_name);
    if !contains(config, h) {
        reveal_strlit("\n");
        let base = if config.len() > 0 && config.last() != '\n' {
            config.push('\n')
        } else {
            config
        };
        let r = with_plugin_stanza(config, plugin_name);
        let k: int = base.len() as int + 1;
        assert(r.subrange(k, k + h.len()) =~= h);
        lemma_occurs_found(r, h, k);
    }
}

/// A pattern in a config is still there after a plugin's table is added.
proof fn lemma_stanza_keeps(config: Seq<char>, plugin_name: Seq<char>, p: Seq<char>)
    requires
        contains(config, p),
    ensures
        contains(with_plugin_stanza(config, plugin_name), p),
        find_from(with_plugin_stanza(config, plugin_name), p, 0) == find_from(config, p, 0),
{
    lemma_stanza_extends(config, plugin_name);
    lemma_find_concat_prefix(
        config,
        with_plugin_stanza(config, plugin_name).skip(config.len() as int),
        p,
    );
}

/// Enabling the plugins in a config that enables them changes nothing: a
/// second run writes back the same text.
pub proof fn law_enable_config_idempotent(config: Seq<char>)
    ensures
        enabled_config(enabled_config(config)) == enabled_config(config),
{
    let hb = plugin_header(BROWSER_USE_PLUGIN_NAME@);
    let hc = plugin_header(CHROME_PLUGIN_NAME@);
    let x = with_plugin_stanza(config, BROWSER_USE_PLUGIN_NAME@);
    let e = enabled_config(config);
    lemma_stanza_has_header(config, BROWSER_USE_PLUGIN_NAME@);
    lemma_stanza_keeps(x, CHROME_PLUGIN_NAME@, hb);
    assert(with_plugin_stanza(e, BROWSER_USE_PLUGIN_NAME@) == e);
    lemma_stanza_has_header(x, CHROME_PLUGIN_NAME@);
    assert(with_plugin_stanza(e, CHROME_PLUGIN_NAME@) == e);
}

/// The lines a plugin's table gets: a blank line before the header is the
/// caller's; after it, `enabled = true` on a line of its own.
pub open spec fn enabled_tail() -> Seq<char> {
    "\nenabled = true\n"@
}

proof fn lemma_enabled_tail_facts()
    ensures
        enabled_tail().len() == 16,
        enabled_tail()[0] == '\n',
        enabled_tail().last() == '\n',
        find_from(enabled_tail(), "\n["@, 0) is None,
        any_enabled_line(enabled_tail()),
        until_next_table(enabled_tail()) == enabled_tail(),
{
    reveal_strlit("\nenabled = true\n");
    reveal_strlit("\n[");
    reveal_strlit("enabled = true");
    let t = enabled_tail();
    let nl = seq!['\n'];
    reveal_with_fuel(char_absent_from, 18);
    assert(char_absent_from(t, '[', 0));
    assert forall|i: int| 0 <= i implies !occurs_at(t, "\n["@, i) by {
        if occurs_at(t, "\n["@, i) {
            assert(t.subrange(i, i + 2)[1] == '[');
            lemma_char_absent(t, '[', 0, i + 1);
        }
    }
    crate::text::lemma_find_from_absent(t, "\n["@, 0);
    // The first line is empty; the second is `enabled = true`.
    assert(t.subrange(0, 1) =~= nl);
    lemma_find_from_first(t, nl, 0, 0);
    let rest = t.skip(1);
    assert(rest =~= "enabled = true"@ + nl);
    reveal_with_fuel(char_absent_from, 16);
    assert(char_absent_from(rest.take(14), '\n', 0));
    assert forall|i: int| 0 <= i < 14 implies !occurs_at(rest, nl, i) by {
        lemma_char_absent(rest.take(14), '\n', 0, i);
        assert(rest.subrange(i, i + 1)[0] == rest[i]);
    }
    assert(rest.subrange(14, 15) =~= nl);
    lemma_find_from_first(rest, nl, 0, 14);
    let line = rest.take(14);
    assert(line =~= "enabled = true"@);
    assert(trim_start(line) == line);
    assert(crate::text::trim_end(line) == line);
    assert(is_enabled_line(line));
    assert(any_enabled_line(rest));
    assert(any_enabled_line(t));
}

proof fn lemma_header_facts(name: Seq<char>)
    requires
        name == BROWSER_USE_PLUGIN_NAME@ || name == CHROME_PLUGIN_NAME@,
    ensures
        plugin_header(name)[0] == '[',
        plugin_header(name).len() > 16,
        forall|j: int| 0 <= j < plugin_header(name).len() ==> plugin_header(name)[j] != '\n',
        forall|j: int| 1 <= j < plugin_header(name).len() ==> plugin_header(name)[j] != '[',
{
    reveal_strlit("[plugins.\"");
    reveal_strlit("\"]");
    reveal_strlit("browser-use@openai-bundled");
    reveal_strlit("chrome@openai-bundled");
    let h = plugin_header(name);
    reveal_with_fuel(char_absent_from, 40);
    assert(char_absent_from(h, '\n', 0));
    assert(char_absent_from(h, '[', 1));
    assert forall|j: int| 0 <= j < h.len() implies h[j] != '\n' by {
        lemma_char_absent(h, '\n', 0, j);
    }
    assert forall|j: int| 1 <= j < h.len() implies h[j] != '[' by {
        lemma_char_absent(h, '[', 1, j);
    }
}

proof fn lemma_chrome_header_not_in_browser_use_header()
    ensures
        find_from(plugin_header(BROWSER_USE_PLUGIN_NAME@), plugin_header(CHROME_PLUGIN_NAME@), 0) is None,
{
    reveal_strlit("[plugins.\"");
    reveal_strlit("\"]");
    reveal_strlit("browser-use@openai-bundled");
    reveal_strlit("chrome@openai-bundled");
    let hb = plugin_header(BROWSER_USE_PLUGIN_NAME@);
    let hc = plugin_header(CHROME_PLUGIN_NAME@);
    lemma_header_facts(BROWSER_USE_PLUGIN_NAME@);
    assert forall|t: int| 0 <= t implies !occurs_at(hb, hc, t) by {
        if occurs_at(hb, hc, t) {
            assert(hb.subrange(t, t + hc.len())[0] == hc[0]);
            if t > 0 {
                assert(hb[t] != '[');
            } else {
                assert(hb.subrange(0, hc.len() as int)[10] == hc[10]);
            }
        }
    }
    crate::text::lemma_find_from_absent(hb, hc, 0);
}

/// The text that `with_plugin_stanza` appends to a config without the
/// plugin's header.
pub open spec fn stanza_suffix(config: Seq<char>, plugin_name: Seq<char>) -> Seq<char> {
    (if config.len() > 0 && config.last() != '\n' { seq!['\n', '\n'] } else { seq!['\n'] })
        + plugin_header(plugin_name) + enabled_tail()
}

/// A plugin's table header has no line break when its name has none.
proof fn lemma_header_one_line(name: Seq<char>)
    requires
        forall|j: int| 0 <= j < name.len() ==> name[j] != '\n',
    ensures
        plugin_header(name).len() == name.len() + 12,
        forall|j: int| 0 <= j < plugin_header(name).len() ==> plugin_header(name)[j] != '\n',
{
    reveal_strlit("[plugins.\"");
    reveal_strlit("\"]");
    let h = plugin_header(name);
    assert forall|j: int| 0 <= j < h.len() implies h[j] != '\n' by {
        if j >= 10 && j < 10 + name.len() {
            assert(h[j] == name[j - 10]);
        }
    }
}

proof fn lemma_stanza_found(config: Seq<char>, plugin_name: Seq<char>)
    requires
        forall|j: int| 0 <= j < plugin_name.len() ==> plugin_name[j] != '\n',
        !contains(config, plugin_header(plugin_name)),
    ensures
        with_plugin_stanza(config, plugin_name) == config + stanza_suffix(config, plugin_name),
        find_from(with_plugin_stanza(config, plugin_name), plugin_header(plugin_name), 0) == Some(
            with_plugin_stanza(config, plugin_name).len() - 16 - plugin_header(plugin_name).len(),
        ),
        with_plugin_stanza(config, plugin_name).skip(
            with_plugin_stanza(config, plugin_name).len() - 16,
        ) == enabled_tail(),
        with_plugin_stanza(config, plugin_name).last() == '\n',
        config_enables_plugin(with_plugin_stanza(config, plugin_name), plugin_name),
{
    reveal_strlit("\n");
    lemma_enabled_tail_facts();
    lemma_header_one_line(plugin_name);
    let h = plugin_header(plugin_name);
    let t = enabled_tail();
    let w = with_plugin_stanza(config, plugin_name);
    let pre = if config.len() > 0 && config.last() != '\n' { seq!['\n', '\n'] } else { seq!['\n'] };
    let sfx = stanza_suffix(config, plugin_name);
    assert(w =~= config + sfx);
    reveal_strlit("[plugins.\"");
    assert(h[0] == '[');
    assert(sfx =~= pre + (h + t));
    assert(sfx.subrange(pre.len() as int, pre.len() + h.len() as int) =~= h);
    assert forall|i: int| 0 <= i < pre.len() implies !occurs_at(sfx, h, i) by {
        if occurs_at(sfx, h, i) {
            assert(sfx.subrange(i, i + h.len())[0] == sfx[i]);
        }
    }
    lemma_find_from_first(sfx, h, 0, pre.len() as int);
    lemma_find_concat_after(config, sfx, h);
    let k: int = config.len() as int + pre.len() as int;
    assert(find_from(w, h, 0) == Some(k));
    assert(w.skip(k + h.len()) =~= t);
    assert(w.skip(w.len() - 16) =~= t);
}

/// Adding a plugin's table to a config without it leaves a config that
/// enables that plugin, as the bridge's status reads it, for any plugin name
/// on one line.
pub proof fn law_stanza_enables_plugin(config: Seq<char>, plugin_name: Seq<char>)
    requires
        forall|j: int| 0 <= j < plugin_name.len() ==> plugin_name[j] != '\n',
        !contains(config, plugin_header(plugin_name)),
    ensures
        config_enables_plugin(with_plugin_stanza(config, plugin_name), plugin_name),
{
    lemma_stanza_found(config, plugin_name);
}

/// Enabling the plugins in a config that has neither plugin's table leaves
/// a config that enables both, as the bridge's status reads it.
#[verifier::spinoff_prover]
#[verifier::rlimit(40)]
pub proof fn law_enable_config_enables_plugins(config: Seq<char>)
    requires
        !contains(config, plugin_header(BROWSER_USE_PLUGIN_NAME@)),
        !contains(config, plugin_header(CHROME_PLUGIN_NAME@)),
    ensures
        config_enables_plugin(enabled_config(config), CHROME_PLUGIN_NAME@),
        config_enables_plugin(enabled_config(config), BROWSER_USE_PLUGIN_NAME@),
{
    reveal_strlit("\n[");
    let b = BROWSER_USE_PLUGIN_NAME@;
    let c = CHROME_PLUGIN_NAME@;
    let hb = plugin_header(b);
    let hc = plugin_header(c);
    let t = enabled_tail();
    lemma_enabled_tail_facts();
    lemma_header_facts(b);
    lemma_header_facts(c);
    reveal_strlit("[plugins.\"");
    reveal_strlit("\"]");
    assert forall|j: int| 0 <= j < b.len() implies b[j] != '\n' by {
        assert(hb[10 + j] == b[j]);
    }
    assert forall|j: int| 0 <= j < c.len() implies c[j] != '\n' by {
        assert(hc[10 + j] == c[j]);
    }
    lemma_stanza_found(config, b);
    let x = with_plugin_stanza(config, b);
    let sb = stanza_suffix(config, b);
    let pre = if config.len() > 0 && config.last() != '\n' { seq!['\n', '\n'] } else { seq!['\n'] };
    // The Chrome header is not in the config with the browser-use table.
    lemma_chrome_header_not_in_browser_use_header();
    lemma_find_too_short(t, hc);
    lemma_find_concat_after(hb, t, hc);
    lemma_find_too_short(pre, hc);
    assert(sb =~= pre + (hb + t));
    lemma_find_concat_after(pre, hb + t, hc);
    lemma_find_concat_after(config, sb, hc);
    assert(!contains(x, hc));
    // Chrome's table is found and enabled.
    lemma_stanza_found(x, c);
    let e = with_plugin_stanza(x, c);
    assert(e == enabled_config(config));
    // Browser-use's table is found where it was; its section now runs into
    // Chrome's table, which `until_next_table` cuts off.
    let kb: int = x.len() as int - 16 - hb.len() as int;
    lemma_stanza_keeps(x, c, hb);
    assert(find_from(e, hb, 0) == Some(kb));
    let sc = stanza_suffix(x, c);
    assert(sc =~= seq!['\n'] + hc + t);
    assert(e.skip(kb + hb.len()) =~= t + sc);
    assert(sc.subrange(0, 2) =~= "\n["@);
    lemma_find_from_first(sc, "\n["@, 0, 0);
    lemma_find_concat_after(t, sc, "\n["@);
    assert(until_next_table(t + sc) =~= t);
}

/// Every native messaging manifest names the host, is of type `stdio`, and
/// allows the official extension, whatever the host path.
pub proof fn law_manifest_allows_official_extension(host_path: Seq<char>)
    ensures
        contains(native_manifest_text(host_path), NATIVE_HOST_NAME@),
        contains(native_manifest_text(host_path), "\"type\": \"stdio\""@),
        contains(
            native_manifest_text(host_path),
            "chrome-extension://"@ + CHROME_EXTENSION_ID@ + "/"@,
        ),
{
    let a = "{\n  \"name\": \""@;
    let b = "\",\n  \"description\": \"Codex Chrome native host\",\n  \"path\": \""@;
    let c = "\",\n  \"type\": \"stdio\",\n  \"allowed_origins\": [\n    \"chrome-extension://"@;
    let d = "/\"\n  ]\n}\n"@;
    reveal_strlit("{\n  \"name\": \"");
    reveal_strlit("\",\n  \"type\": \"stdio\",\n  \"allowed_origins\": [\n    \"chrome-extension://");
    reveal_strlit("/\"\n  ]\n}\n");
    reveal_strlit("\"type\": \"stdio\"");
    reveal_strlit("chrome-extension://");
    reveal_strlit("/");
    let esc = manifest_escaped(host_path);
    let n = NATIVE_HOST_NAME@;
    let id = CHROME_EXTENSION_ID@;
    let text = native_manifest_text(host_path);
    assert(text =~= a + n + b + esc + c + id + d);
    let k0: int = a.len() as int;
    assert(text.subrange(k0, k0 + n.len()) =~= n);
    lemma_occurs_found(text, n, k0);
    let k1: int = (a + n + b + esc).len() as int;
    let stdio = "\"type\": \"stdio\""@;
    assert(text.subrange(k1 + 5, k1 + 5 + stdio.len()) =~= stdio);
    lemma_occurs_found(text, stdio, k1 + 5);
    let ext = "chrome-extension://"@ + id + "/"@;
    let k2: int = (a + n + b + esc + c).len() as int - 19;
    assert(text.subrange(k2, k2 + ext.len()) =~= ext);
    lemma_occurs_found(text, ext, k2);
}

/// `r` with `prefix` in front, when there is one.
pub open spec fn prefixed(prefix: Seq<char>, r: Option<Seq<char>>) -> Option<Seq<char>> {
    match r {
        Some(w) => Some(prefix + w),
        None => None,
    }
}

/// The word `sh` reads from a text made only of quoted parts, from a state:
/// outside quotes (0) only `'` or `"` may come, and opens that quote; in
/// single quotes (1) each character stands for itself up to the closing
/// `'`; in double quotes (2) each character stands for itself up to the
/// closing `"`, except `$`, `` ` `` and `\`, which such a text does not
/// hold. `None` for any other text, or for a quote left open.
pub open spec fn sh_quoted_word(s: Seq<char>, state: int) -> Option<Seq<char>>
    decreases s.len(),
{
    if s.len() == 0 {
        if state == 0 {
            Some(Seq::empty())
        } else {
            None
        }
    } else {
        let c = s[0];
        let rest = s.drop_first();
        if state == 0 {
            if c == '\'' {
                sh_quoted_word(rest, 1)
            } else if c == '"' {
                sh_quoted_word(rest, 2)
            } else {
                None
            }
        } else if state == 1 {
            if c == '\'' {
                sh_quoted_word(rest, 0)
            } else {
                prefixed(seq![c], sh_quoted_word(rest, 1))
            }
        } else if c == '"' {
            sh_quoted_word(rest, 0)
        } else if c == '$' || c == '`' || c == '\\' {
            None
        } else {
            prefixed(seq![c], sh_quoted_word(rest, 2))
        }
    }
}

proof fn lemma_sh_reads_escaped(p: Seq<char>, t: Seq<char>)
    ensures
        sh_quoted_word(crate::text::map_char(p, '\'', "'\"'\"'"@) + t, 1) == prefixed(
            p,
            sh_quoted_word(t, 1),
        ),
    decreases p.len(),
{
    reveal_strlit("'\"'\"'");
    let q = "'\"'\"'"@;
    let m = crate::text::map_char(p, '\'', q);
    if p.len() == 0 {
        assert(m + t =~= t);
        assert(prefixed(p, sh_quoted_word(t, 1)) =~= sh_quoted_word(t, 1)) by {
            if let Some(w) = sh_quoted_word(t, 1) {
                assert(p + w =~= w);
            }
        }
    } else {
        let rest = p.drop_first();
        let mr = crate::text::map_char(rest, '\'', q);
        lemma_sh_reads_escaped(rest, t);
        let x = mr + t;
        if p[0] == '\'' {
            assert(m + t =~= q + x);
            let s0 = q + x;
            assert(s0.drop_first() =~= seq!['"', '\'', '"', '\''] + x);
            assert((seq!['"', '\'', '"', '\''] + x).drop_first() =~= seq!['\'', '"', '\''] + x);
            assert((seq!['\'', '"', '\''] + x).drop_first() =~= seq!['"', '\''] + x);
            assert((seq!['"', '\''] + x).drop_first() =~= seq!['\''] + x);
            assert((seq!['\''] + x).drop_first() =~= x);
            assert(sh_quoted_word(seq!['\''] + x, 0) == sh_quoted_word(x, 1));
            assert(sh_quoted_word(seq!['"', '\''] + x, 2) == sh_quoted_word(x, 1));
            assert(sh_quoted_word(seq!['\'', '"', '\''] + x, 2) == prefixed(seq!['\''], sh_quoted_word(x, 1)));
            assert(sh_quoted_word(seq!['"', '\'', '"', '\''] + x, 0) == prefixed(seq!['\''], sh_quoted_word(x, 1)));
            assert(sh_quoted_word(s0, 1) == prefixed(seq!['\''], sh_quoted_word(x, 1)));
        } else {
            assert(m + t =~= seq![p[0]] + x);
            assert((seq![p[0]] + x).drop_first() =~= x);
        }
        assert(p =~= seq![p[0]] + rest);
        if let Some(w) = sh_quoted_word(t, 1) {
            assert(seq![p[0]] + (rest + w) =~= p + w);
        }
    }
}

/// `sh` reads a quoted path back as the path: the wrapper script runs the
/// launcher it was written for, whatever characters its path holds.
pub proof fn law_shell_quote_reads_back(path: Seq<char>)
    ensures
        sh_quoted_word(shell_quoted(path), 0) == Some(path),
{
    reveal_strlit("'");
    reveal_strlit("'\"'\"'");
    crate::text::lemma_replace_char(path, '\'', "'\"'\"'"@);
    let m = crate::text::map_char(path, '\'', "'\"'\"'"@);
    let s0 = shell_quoted(path);
    assert("'"@ == seq!['\'']);
    assert(s0 =~= seq!['\''] + (m + seq!['\'']));
    assert(s0.drop_first() =~= m + seq!['\'']);
    lemma_sh_reads_escaped(path, seq!['\'']);
    assert(seq!['\''].drop_first() =~= Seq::<char>::empty());
    assert(sh_quoted_word(Seq::<char>::empty(), 0) == Some(Seq::<char>::empty()));
    assert(seq!['\''][0] == '\'');
    assert(sh_quoted_word(seq!['\''], 1) == Some(Seq::<char>::empty()));
    assert(path + Seq::<char>::empty() =~= path);
}

/// The characters a JSON reader takes from the inside of a string literal:
/// `\` with one of `"` `\` `/` `b` `f` `n` `r` `t` stands for the character
/// it escapes; any other character stands for itself. `None` for what a
/// JSON string cannot hold here: a bare `"` (it would end the string), a
/// control character, a `\u` escape or a lone `\`.
pub open spec fn json_string_body(s: Seq<char>) -> Option<Seq<char>>
    decreases s.len(),
{
    if s.len() == 0 {
        Some(Seq::empty())
    } else if s[0] == '\\' {
        if s.len() < 2 {
            None
        } else {
            let e = s[1];
            let c = if e == '"' || e == '\\' || e == '/' {
                Some(e)
            } else if e == 'b' {
                Some('\u{8}')
            } else if e == 'f' {
                Some('\u{c}')
            } else if e == 'n' {
                Some('\n')
            } else if e == 'r' {
                Some('\r')
            } else if e == 't' {
                Some('\t')
            } else {
                None
            };
            match c {
                Some(x) => prefixed(seq![x], json_string_body(s.skip(2))),
                None => None,
            }
        }
    } else if s[0] == '"' || (s[0] as int) < 0x20 {
        None
    } else {
        prefixed(seq![s[0]], json_string_body(s.drop_first()))
    }
}

/// The escaping of the manifest, one character at a time.
spec fn escaped_chars(p: Seq<char>) -> Seq<char> {
    crate::text::map_char(crate::text::map_char(p, '\\', seq!['\\', '\\']), '"', seq!['\\', '"'])
}

proof fn lemma_escaped_chars_reads_back(p: Seq<char>, t: Seq<char>)
    requires
        forall|i: int| 0 <= i < p.len() ==> (p[i] as int) >= 0x20,
    ensures
        json_string_body(escaped_chars(p) + t) == prefixed(p, json_string_body(t)),
    decreases p.len(),
{
    let bb = seq!['\\', '\\'];
    let bq = seq!['\\', '"'];
    if p.len() == 0 {
        assert(escaped_chars(p) =~= Seq::<char>::empty());
        assert(escaped_chars(p) + t =~= t);
        if let Some(w) = json_string_body(t) {
            assert(p + w =~= w);
        }
    } else {
        let c = p[0];
        let rest = p.drop_first();
        lemma_escaped_chars_reads_back(rest, t);
        assert(p =~= seq![c] + rest);
        crate::text::lemma_map_char_concat(seq![c], rest, '\\', bb);
        let inner_c = crate::text::map_char(seq![c], '\\', bb);
        let inner_r = crate::text::map_char(rest, '\\', bb);
        crate::text::lemma_map_char_concat(inner_c, inner_r, '"', bq);
        assert(seq![c].drop_first() =~= Seq::<char>::empty());
        let x = escaped_chars(rest) + t;
        if c == '\\' {
            assert(inner_c =~= bb);
            assert(bb.drop_first() =~= seq!['\\']);
            assert(seq!['\\'].drop_first() =~= Seq::<char>::empty());
            crate::text::lemma_map_char_absent(bb, '"', bq);
            assert(escaped_chars(p) + t =~= bb + x);
            assert((bb + x).skip(2) =~= x);
        } else if c == '"' {
            assert(inner_c =~= seq!['"']);
            assert(crate::text::map_char(Seq::<char>::empty(), '"', bq) == Seq::<char>::empty());
            assert(seq!['"'].drop_first() =~= Seq::<char>::empty());
            assert(crate::text::map_char(seq!['"'], '"', bq) =~= bq);
            assert(escaped_chars(p) + t =~= bq + x);
            assert((bq + x).skip(2) =~= x);
        } else {
            assert(inner_c =~= seq![c]);
            crate::text::lemma_map_char_absent(seq![c], '"', bq);
            assert(escaped_chars(p) + t =~= seq![c] + x);
            assert((seq![c] + x).drop_first() =~= x);
        }
        if let Some(w) = json_string_body(t) {
            assert(seq![c] + (rest + w) =~= p + w);
        }
    }
}

/// A JSON reader takes the manifest's `path` back as the host path, for a
/// path without control characters (which the manifest does not escape).
pub proof fn law_manifest_path_reads_back(host_path: Seq<char>)
    requires
        forall|i: int| 0 <= i < host_path.len() ==> (host_path[i] as int) >= 0x20,
    ensures
        json_string_body(manifest_escaped(host_path)) == Some(host_path),
{
    reveal_strlit("\\");
    reveal_strlit("\\\\");
    reveal_strlit("\"");
    reveal_strlit("\\\"");
    assert("\\"@ =~= seq!['\\']);
    assert("\\\\"@ =~= seq!['\\', '\\']);
    assert("\""@ =~= seq!['"']);
    assert("\\\""@ =~= seq!['\\', '"']);
    crate::text::lemma_replace_char(host_path, '\\', seq!['\\', '\\']);
    let once = crate::text::map_char(host_path, '\\', seq!['\\', '\\']);
    crate::text::lemma_replace_char(once, '"', seq!['\\', '"']);
    assert(manifest_escaped(host_path) == escaped_chars(host_path));
    lemma_escaped_chars_reads_back(host_path, Seq::empty());
    assert(escaped_chars(host_path) + Seq::<char>::empty() =~= escaped_chars(host_path));
    assert(host_path + Seq::<char>::empty() =~= host_path);
}

} // verus!
