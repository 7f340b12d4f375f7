use multiagent::bridge::{
    app_native_host_wrapper_path, broker_socket_path, bundled_marketplace_json,
    bundled_marketplace_path, chrome_mcp_config_json, chrome_mcp_server_path, codex_config_path,
    config_has_plugin, enable_codex_plugin_config, enable_linux_bridge,
    ensure_app_native_host_wrapper, ensure_plugin_stanza, existing_app_native_host_wrapper,
    extension_candidate, extension_search_roots, fallback_host_error, find_extension_paths,
    find_native_host_candidate, home_local_plugin_path, host_search_roots,
    install_browser_use_plugin_at, install_native_manifest_if_possible,
    install_openai_bundled_plugins, is_host_file_name, manifest_host_path, manifest_host_paths,
    native_host_wrapper_script, native_manifest_json, native_manifest_paths,
    openai_bundled_plugin_path, openai_bundled_plugin_paths, shell_quote_path, status,
    xdg_data_home, BridgeAction, BridgeEnv, BridgeEvent, BridgePhase, BridgeProbe, ManifestProbe, PluginProbe, BROWSER_USE_PLUGIN_MANIFEST,
    BROWSER_USE_PLUGIN_NAME, CHROME_EXTENSION_ID, CHROME_PLUGIN_MANIFEST, CHROME_PLUGIN_NAME,
    EXECUTABLE_MODE, NATIVE_HOST_NAME, NOTE_DEAD_MANIFEST, NOTE_NOT_ENABLED, NOTE_NO_EXTENSION,
    NOTE_NO_MANIFEST, NOTE_NO_PLUGIN_FILES, NOTE_NO_WRAPPER,
};
use multiagent::json::Json;

fn env() -> BridgeEnv {
    BridgeEnv {
        home: Some("/home/u".to_string()),
        codex_home: None,
        xdg_data_home: None,
        xdg_runtime_dir: Some("/run/user/1000".to_string()),
        temp_dir: "/tmp".to_string(),
        uid: 1000,
    }
}

fn homeless() -> BridgeEnv {
    BridgeEnv {
        home: None,
        codex_home: None,
        xdg_data_home: None,
        xdg_runtime_dir: None,
        temp_dir: "/tmp".to_string(),
        uid: 0,
    }
}

#[test]
fn native_manifest_allows_official_extension() {
    let manifest = native_manifest_json("/tmp/multiagent-codex-chrome-host");

    assert!(manifest.contains(NATIVE_HOST_NAME));
    assert!(manifest.contains(&format!("chrome-extension://{CHROME_EXTENSION_ID}/")));
    assert!(manifest.contains("\"type\": \"stdio\""));
}

#[test]
fn native_manifest_text_is_exact_and_escapes_the_path() {
    assert_eq!(
        native_manifest_json("/tmp/multiagent-codex-chrome-host"),
        "{\n  \"name\": \"com.openai.codexextension\",\n  \"description\": \"Codex Chrome native host\",\n  \"path\": \"/tmp/multiagent-codex-chrome-host\",\n  \"type\": \"stdio\",\n  \"allowed_origins\": [\n    \"chrome-extension://hehggadaopoacecdllhhajmbjkdcmajg/\"\n  ]\n}\n"
    );
    let manifest = native_manifest_json("/opt/a\\b\"c");
    assert!(manifest.contains("\"path\": \"/opt/a\\\\b\\\"c\","));
}

#[test]
fn plugin_stanza_is_appended_once() {
    let mut config = String::new();
    ensure_plugin_stanza(&mut config, CHROME_PLUGIN_NAME);
    assert_eq!(config, "\n[plugins.\"chrome@openai-bundled\"]\nenabled = true\n");
    let before = config.clone();
    ensure_plugin_stanza(&mut config, CHROME_PLUGIN_NAME);
    assert_eq!(config, before);

    let mut other = "model = \"o3\"".to_string();
    ensure_plugin_stanza(&mut other, BROWSER_USE_PLUGIN_NAME);
    assert_eq!(
        other,
        "model = \"o3\"\n\n[plugins.\"browser-use@openai-bundled\"]\nenabled = true\n"
    );
}

#[test]
fn enabling_the_config_enables_both_plugins_and_is_idempotent() {
    let enabled = enable_codex_plugin_config("model = \"o3\"\n");
    assert_eq!(
        enabled,
        "model = \"o3\"\n\n[plugins.\"browser-use@openai-bundled\"]\nenabled = true\n\n[plugins.\"chrome@openai-bundled\"]\nenabled = true\n"
    );
    assert!(config_has_plugin(&enabled, CHROME_PLUGIN_NAME));
    assert!(config_has_plugin(&enabled, BROWSER_USE_PLUGIN_NAME));
    assert_eq!(enable_codex_plugin_config(&enabled), enabled);
    let from_nothing = enable_codex_plugin_config("");
    assert!(config_has_plugin(&from_nothing, CHROME_PLUGIN_NAME));
    assert!(config_has_plugin(&from_nothing, BROWSER_USE_PLUGIN_NAME));
}

#[test]
fn config_has_plugin_reads_only_the_plugin_table() {
    let chrome = "[plugins.\"chrome@openai-bundled\"]";
    assert!(config_has_plugin(&format!("{chrome}\nenabled=true\n"), CHROME_PLUGIN_NAME));
    assert!(config_has_plugin(&format!("{chrome}\n  enabled = true  \n"), CHROME_PLUGIN_NAME));
    assert!(!config_has_plugin(&format!("{chrome}\nenabled = false\n"), CHROME_PLUGIN_NAME));
    assert!(!config_has_plugin(
        &format!("{chrome}\n[other]\nenabled = true\n"),
        CHROME_PLUGIN_NAME
    ));
    assert!(!config_has_plugin("enabled = true\n", CHROME_PLUGIN_NAME));
    assert!(!config_has_plugin(&format!("{chrome}\nenabled = true\n"), BROWSER_USE_PLUGIN_NAME));
}

#[test]
fn bridge_paths_follow_the_environment() {
    let e = env();
    assert_eq!(codex_config_path(&e), "/home/u/.codex/config.toml");
    assert_eq!(
        openai_bundled_plugin_path(&e, "chrome"),
        Some("/home/u/.codex/plugins/cache/openai-bundled/chrome/0.1.0".to_string())
    );
    assert_eq!(home_local_plugin_path(&e, "chrome"), Some("/home/u/plugins/chrome".to_string()));
    assert_eq!(
        bundled_marketplace_path(&e),
        Some("/home/u/.agents/plugins/marketplace.json".to_string())
    );
    assert_eq!(xdg_data_home(&e), Some("/home/u/.local/share".to_string()));
    assert_eq!(
        chrome_mcp_server_path(&e),
        Some("/home/u/.local/share/multiagent/chrome-plugin/chrome_mcp_server.py".to_string())
    );
    assert_eq!(
        app_native_host_wrapper_path(&e),
        Some(
            "/home/u/.local/share/multiagent/chrome-native-host/multiagent-codex-chrome-host"
                .to_string()
        )
    );
    assert_eq!(
        native_manifest_paths(&e),
        vec![
            "/home/u/.config/google-chrome/NativeMessagingHosts/com.openai.codexextension.json"
                .to_string(),
            "/home/u/.config/chromium/NativeMessagingHosts/com.openai.codexextension.json"
                .to_string(),
        ]
    );
    assert_eq!(
        openai_bundled_plugin_paths(&e),
        vec![
            "/home/u/.codex/plugins/cache/openai-bundled/browser-use/0.1.0".to_string(),
            "/home/u/plugins/browser-use".to_string(),
            "/home/u/.codex/plugins/cache/openai-bundled/chrome/0.1.0".to_string(),
            "/home/u/plugins/chrome".to_string(),
        ]
    );
    assert_eq!(broker_socket_path(&e), "/run/user/1000/multiagent-codex-chrome-host-1000.sock");
    assert_eq!(
        host_search_roots(&e),
        vec![
            "/home/u/.codex/plugins/cache".to_string(),
            "/home/u/.vscode/extensions".to_string(),
            "/home/u/.cursor/extensions".to_string(),
        ]
    );
    assert_eq!(
        extension_search_roots(&e),
        vec!["/home/u/.config/google-chrome".to_string(), "/home/u/.config/chromium".to_string()]
    );
    assert_eq!(
        extension_candidate("/home/u/.config/chromium/Default"),
        "/home/u/.config/chromium/Default/Extensions/hehggadaopoacecdllhhajmbjkdcmajg"
    );
}

#[test]
fn bridge_paths_without_a_home() {
    let e = homeless();
    assert_eq!(codex_config_path(&e), ".codex/config.toml");
    assert_eq!(openai_bundled_plugin_path(&e, "chrome"), None);
    assert!(native_manifest_paths(&e).is_empty());
    assert!(openai_bundled_plugin_paths(&e).is_empty());
    assert_eq!(broker_socket_path(&e), "/tmp/multiagent-codex-chrome-host-0.sock");
    let custom = BridgeEnv {
        codex_home: Some("/custom/codex/".to_string()),
        xdg_data_home: Some("/data".to_string()),
        ..homeless()
    };
    assert_eq!(codex_config_path(&custom), "/custom/codex/config.toml");
    assert_eq!(
        chrome_mcp_server_path(&custom),
        Some("/data/multiagent/chrome-plugin/chrome_mcp_server.py".to_string())
    );
}

#[test]
fn shell_quoting_and_wrapper_script() {
    assert_eq!(shell_quote_path("/opt/app"), "'/opt/app'");
    assert_eq!(shell_quote_path("/opt/it's app"), "'/opt/it'\"'\"'s app'");
    let script = native_host_wrapper_script("/opt/My App/app");
    assert!(script.starts_with("#!/bin/sh\ncontrol_socket=\"${CODEX_APP_SERVER_CONTROL_SOCKET:-${HOME:-}/.codex/app-server-control/app-server-control.sock}\"\n"));
    assert!(script.contains("then\nexec codex app-server proxy --sock \"$control_socket\"\nfi\n"));
    assert!(script.ends_with("exec '/opt/My App/app' --chrome-native-host \"$@\"\n"));
}

#[test]
fn mcp_config_and_marketplace_json_are_exact() {
    assert_eq!(
        chrome_mcp_config_json(&env(), "/srv/server.py"),
        "{\"mcpServers\":{\"Multiagent-chrome\":{\"args\":[\"/srv/server.py\"],\"command\":\"python3\",\"env\":{\"MULTIAGENT_CHROME_BRIDGE_SOCKET\":\"/run/user/1000/multiagent-codex-chrome-host-1000.sock\",\"MULTIAGENT_CHROME_FEATURES\":\"core,tabs,history,downloads,cursor,cdp,lifecycle\"}}}}"
    );
    assert_eq!(
        bundled_marketplace_json(),
        "{\"interface\":{\"displayName\":\"OpenAI Bundled\"},\"name\":\"openai-bundled\",\"plugins\":[{\"category\":\"Productivity\",\"name\":\"chrome\",\"policy\":{\"authentication\":\"ON_USE\",\"installation\":\"INSTALLED_BY_DEFAULT\"},\"source\":{\"path\":\"./plugins/chrome\",\"source\":\"local\"}},{\"category\":\"Productivity\",\"name\":\"browser-use\",\"policy\":{\"authentication\":\"ON_USE\",\"installation\":\"INSTALLED_BY_DEFAULT\"},\"source\":{\"path\":\"./plugins/browser-use\",\"source\":\"local\"}}]}"
    );
}

#[test]
fn bundled_plugin_install_plan() {
    let writes = install_openai_bundled_plugins(&env(), "print('server')\n").expect("paths resolve");
    let summary: Vec<(&str, Option<u32>, &str)> =
        writes.iter().map(|w| (w.path.as_str(), w.mode, w.label.as_str())).collect();
    assert_eq!(
        summary,
        vec![
            (
                "/home/u/.local/share/multiagent/chrome-plugin/chrome_mcp_server.py",
                Some(EXECUTABLE_MODE),
                "Chrome MCP server"
            ),
            (
                "/home/u/.codex/plugins/cache/openai-bundled/chrome/0.1.0/.codex-plugin/plugin.json",
                None,
                "Chrome plugin manifest"
            ),
            (
                "/home/u/.codex/plugins/cache/openai-bundled/chrome/0.1.0/.mcp.json",
                None,
                "Chrome MCP config"
            ),
            ("/home/u/plugins/chrome/.codex-plugin/plugin.json", None, "Chrome plugin manifest"),
            ("/home/u/plugins/chrome/.mcp.json", None, "Chrome MCP config"),
            (
                "/home/u/.codex/plugins/cache/openai-bundled/browser-use/0.1.0/.codex-plugin/plugin.json",
                None,
                "browser-use plugin manifest"
            ),
            (
                "/home/u/plugins/browser-use/.codex-plugin/plugin.json",
                None,
                "browser-use plugin manifest"
            ),
            ("/home/u/.agents/plugins/marketplace.json", None, "openai-bundled marketplace"),
        ]
    );
    assert_eq!(EXECUTABLE_MODE, 0o755);
    assert_eq!(writes[0].contents, "print('server')\n");
    assert_eq!(writes[1].contents, CHROME_PLUGIN_MANIFEST);
    assert_eq!(
        writes[2].contents,
        chrome_mcp_config_json(
            &env(),
            "/home/u/.local/share/multiagent/chrome-plugin/chrome_mcp_server.py"
        )
    );
    assert_eq!(writes[5].contents, BROWSER_USE_PLUGIN_MANIFEST);
    assert_eq!(writes[7].contents, bundled_marketplace_json());
    assert_eq!(install_browser_use_plugin_at("/p").path, "/p/.codex-plugin/plugin.json");
}

#[test]
fn bundled_plugin_install_errors() {
    assert_eq!(
        install_openai_bundled_plugins(&homeless(), ""),
        Err("Could not resolve Codex plugin cache directory.".to_string())
    );
    let codex_only = BridgeEnv { codex_home: Some("/c".to_string()), ..homeless() };
    assert_eq!(
        install_openai_bundled_plugins(&codex_only, ""),
        Err("Could not resolve home plugin directory.".to_string())
    );
}

#[test]
fn wrapper_plan_and_its_errors() {
    let e = env();
    let w = ensure_app_native_host_wrapper(&e, &Some("/opt/app".to_string())).expect("wrapper");
    assert_eq!(
        w.path,
        "/home/u/.local/share/multiagent/chrome-native-host/multiagent-codex-chrome-host"
    );
    assert_eq!(w.contents, native_host_wrapper_script("/opt/app"));
    assert_eq!(w.mode, Some(0o755));
    assert_eq!(
        ensure_app_native_host_wrapper(&e, &None),
        Err("Could not resolve the app executable for the Chrome native host.".to_string())
    );
    assert_eq!(
        ensure_app_native_host_wrapper(&homeless(), &Some("/opt/app".to_string())),
        Err("Could not resolve a user data directory for the Chrome native host.".to_string())
    );
    assert_eq!(
        fallback_host_error("No launcher."),
        "No launcher. No existing Codex native host was found to use as a fallback."
    );
}

#[test]
fn manifest_install_plan_points_both_browsers_at_the_host() {
    let writes = install_native_manifest_if_possible(&env(), "/opt/host");
    assert_eq!(writes.len(), 2);
    assert_eq!(writes[0].path, native_manifest_paths(&env())[0]);
    assert_eq!(writes[1].path, native_manifest_paths(&env())[1]);
    assert_eq!(writes[0].contents, native_manifest_json("/opt/host"));
    assert_eq!(writes[1].label, "native messaging manifest");
    assert!(install_native_manifest_if_possible(&homeless(), "/opt/host").is_empty());
}

#[test]
fn enable_linux_bridge_plans_every_step() {
    let launcher = Some("/opt/app".to_string());
    let (mut run, first) = enable_linux_bridge(env(), "", "source", launcher.clone());
    match first {
        BridgeAction::Write(w) => {
            assert_eq!(w.path, "/home/u/.codex/config.toml");
            assert_eq!(w.contents, enable_codex_plugin_config(""));
        }
        other => panic!("unexpected action {other:?}"),
    }
    let plugins = install_openai_bundled_plugins(&env(), "source").unwrap();
    for expected in &plugins {
        match run.step(BridgeEvent::Wrote(Ok(()))) {
            BridgeAction::Write(w) => assert_eq!(&w, expected),
            other => panic!("unexpected action {other:?}"),
        }
    }
    let wrapper = ensure_app_native_host_wrapper(&env(), &launcher).unwrap();
    match run.step(BridgeEvent::Wrote(Ok(()))) {
        BridgeAction::WriteWrapper(w) => assert_eq!(w, wrapper),
        other => panic!("unexpected action {other:?}"),
    }
    let manifests = install_native_manifest_if_possible(&env(), &wrapper.path);
    for expected in &manifests {
        match run.step(BridgeEvent::Wrote(Ok(()))) {
            BridgeAction::Write(w) => assert_eq!(&w, expected),
            other => panic!("unexpected action {other:?}"),
        }
    }
    assert!(matches!(run.step(BridgeEvent::Wrote(Ok(()))), BridgeAction::Finish(Ok(()))));
    assert_eq!(run.phase(), BridgePhase::Finished);
}

#[test]
fn enable_linux_bridge_stops_at_the_first_failed_write() {
    let (mut run, _) = enable_linux_bridge(env(), "", "source", Some("/opt/app".to_string()));
    assert!(matches!(run.step(BridgeEvent::Wrote(Ok(()))), BridgeAction::Write(_)));
    match run.step(BridgeEvent::Wrote(Err("disk full".to_string()))) {
        BridgeAction::Finish(Err(e)) => assert_eq!(e, "disk full"),
        other => panic!("unexpected action {other:?}"),
    }
    assert_eq!(run.phase(), BridgePhase::Finished);
}

#[test]
fn enable_linux_bridge_without_paths_ends_after_the_config() {
    let (mut run, first) = enable_linux_bridge(homeless(), "x = 1\n", "source", None);
    match first {
        BridgeAction::Write(w) => assert_eq!(w.path, ".codex/config.toml"),
        other => panic!("unexpected action {other:?}"),
    }
    match run.step(BridgeEvent::Wrote(Ok(()))) {
        BridgeAction::Finish(Err(e)) => {
            assert_eq!(e, install_openai_bundled_plugins(&homeless(), "source").unwrap_err())
        }
        other => panic!("unexpected action {other:?}"),
    }
}

#[test]
fn enable_linux_bridge_falls_back_to_an_installed_host() {
    let (mut run, _) = enable_linux_bridge(env(), "", "source", None);
    let plugins = install_openai_bundled_plugins(&env(), "source").unwrap();
    for _ in 0..plugins.len() {
        run.step(BridgeEvent::Wrote(Ok(())));
    }
    assert!(matches!(run.step(BridgeEvent::Wrote(Ok(()))), BridgeAction::FindInstalledHost));
    match run.step(BridgeEvent::HostFound(Some("/opt/host".to_string()))) {
        BridgeAction::Write(w) => assert_eq!(w.contents, native_manifest_json("/opt/host")),
        other => panic!("unexpected action {other:?}"),
    }
    let (mut run, _) = enable_linux_bridge(env(), "", "source", Some("/opt/app".to_string()));
    for _ in 0..plugins.len() {
        run.step(BridgeEvent::Wrote(Ok(())));
    }
    assert!(matches!(run.step(BridgeEvent::Wrote(Ok(()))), BridgeAction::WriteWrapper(_)));
    assert!(matches!(
        run.step(BridgeEvent::Wrote(Err("read-only".to_string()))),
        BridgeAction::FindInstalledHost
    ));
    match run.step(BridgeEvent::HostFound(None)) {
        BridgeAction::Finish(Err(e)) => assert_eq!(e, fallback_host_error("read-only")),
        other => panic!("unexpected action {other:?}"),
    }
}

#[test]
fn host_file_names() {
    assert!(is_host_file_name("com.openai.CodexExtension.json"));
    assert!(is_host_file_name("Chrome-Native-Host"));
    assert!(!is_host_file_name("chrome_native_host"));
}

fn probe(host: Option<&str>, host_is_file: bool) -> ManifestProbe {
    ManifestProbe { exists: host.is_some(), host: host.map(|h| h.to_string()), host_is_file }
}

#[test]
fn native_host_candidate_order() {
    let e = env();
    let manifests = vec![probe(Some("/dead/host"), false), probe(Some("/live/host"), true)];
    let hits = vec![None, Some("/home/u/.vscode/extensions/x/codexextension".to_string())];
    assert_eq!(
        find_native_host_candidate(&e, true, &manifests, &hits),
        app_native_host_wrapper_path(&e)
    );
    assert_eq!(
        find_native_host_candidate(&e, false, &manifests, &hits),
        Some("/live/host".to_string())
    );
    assert_eq!(
        find_native_host_candidate(&e, false, &vec![probe(Some("/dead/host"), false)], &hits),
        Some("/home/u/.vscode/extensions/x/codexextension".to_string())
    );
    assert_eq!(find_native_host_candidate(&e, false, &vec![], &vec![None]), None);
    assert_eq!(find_native_host_candidate(&homeless(), true, &manifests, &hits), None);
    assert_eq!(existing_app_native_host_wrapper(&e, false), None);
}

#[test]
fn manifest_hosts_are_read_sorted_and_distinct() {
    let manifest = Json::Object(vec![("path".to_string(), Json::Str("/opt/host".to_string()))]);
    assert_eq!(manifest_host_path(&manifest), Some("/opt/host".to_string()));
    let not_text = Json::Object(vec![("path".to_string(), Json::Number(1))]);
    assert_eq!(manifest_host_path(&not_text), None);
    let manifests = vec![probe(Some("/b/host"), true), probe(None, false), probe(Some("/a/host"), true), probe(Some("/b//host/"), true)];
    assert_eq!(manifest_host_paths(&manifests), vec!["/a/host".to_string(), "/b/host".to_string()]);
}

#[test]
fn extension_paths_sort_by_components() {
    let found = vec![
        "/b".to_string(),
        "/a".to_string(),
        "/a/".to_string(),
        "/a-b".to_string(),
        "/a/b".to_string(),
    ];
    assert_eq!(
        find_extension_paths(&found),
        vec!["/a".to_string(), "/a/b".to_string(), "/a-b".to_string(), "/b".to_string()]
    );
}

#[test]
fn status_reports_every_missing_piece() {
    let e = env();
    let bare = BridgeProbe {
        extension_dirs: vec![],
        manifests: vec![probe(None, false), probe(None, false)],
        config: None,
        plugins: vec![],
        wrapper_is_file: false,
        search_hits: vec![None, None, None],
    };
    let s = status(&e, &bare);
    assert!(!s.extension_installed);
    assert!(!s.native_manifest_installed);
    assert!(!s.codex_plugins_enabled);
    assert!(!s.codex_plugins_installed);
    assert_eq!(s.host_candidate, None);
    assert_eq!(s.codex_config_path, "/home/u/.codex/config.toml");
    assert_eq!(
        s.notes,
        vec![
            NOTE_NO_EXTENSION.to_string(),
            NOTE_NO_MANIFEST.to_string(),
            NOTE_NOT_ENABLED.to_string(),
            NOTE_NO_PLUGIN_FILES.to_string(),
            NOTE_NO_WRAPPER.to_string(),
        ]
    );
}

#[test]
fn status_of_a_working_bridge_has_no_notes() {
    let e = env();
    let ready = PluginProbe { manifest_is_file: true, mcp_config_is_file: true };
    let good = BridgeProbe {
        extension_dirs: vec!["/x".to_string(), "/x".to_string()],
        manifests: vec![probe(Some("/host"), true), probe(Some("/host"), true)],
        config: Some(enable_codex_plugin_config("")),
        plugins: vec![ready.clone(), ready.clone(), ready.clone(), ready],
        wrapper_is_file: true,
        search_hits: vec![None, None, None],
    };
    let s = status(&e, &good);
    assert_eq!(s, status(&e, &good));
    assert!(s.extension_installed);
    assert_eq!(s.extension_paths, vec![extension_candidate("/x")]);
    assert!(s.extension_paths[0].ends_with("/Extensions/hehggadaopoacecdllhhajmbjkdcmajg"));
    assert!(s.native_manifest_installed && s.native_manifest_live);
    assert_eq!(s.native_manifest_host_paths, vec!["/host".to_string()]);
    assert!(s.codex_plugins_enabled && s.codex_plugins_installed);
    assert_eq!(s.host_candidate, app_native_host_wrapper_path(&e));
    assert!(s.notes.is_empty());
}

#[test]
fn status_checks_the_mcp_config_only_of_the_home_chrome_plugin() {
    let e = env();
    let no_mcp = PluginProbe { manifest_is_file: true, mcp_config_is_file: false };
    let mut p = BridgeProbe {
        extension_dirs: vec!["/x".to_string()],
        manifests: vec![probe(Some("/host"), false)],
        config: Some(enable_codex_plugin_config("")),
        plugins: vec![no_mcp.clone(), no_mcp.clone(), no_mcp.clone(), no_mcp.clone()],
        wrapper_is_file: false,
        search_hits: vec![],
    };
    let s = status(&e, &p);
    assert!(!s.codex_plugins_installed);
    assert!(s.notes.contains(&NOTE_DEAD_MANIFEST.to_string()));
    p.plugins[3] = PluginProbe { manifest_is_file: true, mcp_config_is_file: true };
    assert!(status(&e, &p).codex_plugins_installed);
}

#[test]
fn manifest_path_parses_back_with_a_json_reader() {
    for host in ["/tmp/multiagent-codex-chrome-host", "/opt/a\\b\"c d", "/home/ü/x'y"] {
        let manifest = native_manifest_json(host);
        let value: serde_json::Value = serde_json::from_str(&manifest).expect("manifest is JSON");
        assert_eq!(value.get("path").and_then(|p| p.as_str()), Some(host));
        assert_eq!(value.get("name").and_then(|p| p.as_str()), Some(NATIVE_HOST_NAME));
        assert_eq!(value.get("type").and_then(|p| p.as_str()), Some("stdio"));
    }
}

#[test]
fn quoted_launcher_keeps_every_character() {
    let quoted = shell_quote_path("a'b\"c $d\\e");
    assert_eq!(quoted, "'a'\"'\"'b\"c $d\\e'");
}

#[test]
fn stanza_enables_any_one_line_plugin_name() {
    let mut config = "model = \"x\"".to_string();
    ensure_plugin_stanza(&mut config, "my-tool@local");
    assert!(config_has_plugin(&config, "my-tool@local"));
    let before = config.clone();
    ensure_plugin_stanza(&mut config, "my-tool@local");
    assert_eq!(config, before);
}
