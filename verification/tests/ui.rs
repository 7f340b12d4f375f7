use multiagent::app_info::{
    app_flavor, app_id, app_name, default_backend_kind, force_single_thread_mode,
    single_thread_layout_json,
};
use multiagent::bridge::ChromeBridgeStatus;
use multiagent::browser::{
    content_type_or_unknown, extract_html_title, external_uri_for_target, file_page, http_page,
    image_page, is_image_path, language_for_content_type, normalize_target, page_source,
    BrowserHistory, PageSource, MAX_TEXT_PREVIEW_BYTES, TRUNCATED_NOTE,
};
use multiagent::json::Json;
use multiagent::paths::{file_name_of, is_same_path, join_path, path_before, sorted_unique_paths};
use multiagent::ui_text::{
    bridge_ready, bridge_status_lines, bridge_summary, command_matches, dropped_thread_workspace,
    native_manifest_value,
    parse_thread_drop_payload, path_list, run_request, signature, workspace_display_name,
    ActionRunEntry, RunRequest,
    FeatureState, SavedActionEntry, NO_HOST_TEXT, SUMMARY_NOT_READY, SUMMARY_READY,
};

fn args(list: &[&str]) -> Vec<String> {
    list.iter().map(|a| a.to_string()).collect()
}

#[test]
fn app_flavor_prefers_env_then_flags_then_program_name() {
    assert_eq!(app_flavor(&Some("OpenCode".to_string()), &args(&["/bin/codex"])), "opencode");
    assert_eq!(
        app_flavor(&Some("CODEX".to_string()), &args(&["/bin/opencode", "--opencode"])),
        "codex"
    );
    assert_eq!(app_flavor(&Some("other".to_string()), &args(&["/bin/x", "--opencode"])), "opencode");
    assert_eq!(app_flavor(&None, &args(&["/bin/x", "--codex", "--opencode"])), "opencode");
    assert_eq!(app_flavor(&None, &args(&["/bin/x", "--codex"])), "codex");
    assert_eq!(app_flavor(&None, &args(&["/opt/OpenCode-Desk"])), "opencode");
    assert_eq!(app_flavor(&None, &args(&["/opt/opencode/multiagent"])), "codex");
    assert_eq!(app_flavor(&None, &args(&[])), "codex");
    assert_eq!(default_backend_kind(&None, &args(&["opencode"])), "opencode");
}

#[test]
fn app_names_and_single_thread_settings() {
    assert_eq!(app_id(), "dev.multiagent.multiagent");
    assert_eq!(app_name(), "MultiAGENT");
    assert_eq!(single_thread_layout_json(), "{\"version\":1,\"focusedPaneId\":1,\"panes\":[]}");
    assert_eq!(
        force_single_thread_mode(),
        vec![
            ("multiview_enabled".to_string(), "0".to_string()),
            (
                "pane_layout_v1".to_string(),
                "{\"version\":1,\"focusedPaneId\":1,\"panes\":[]}".to_string()
            ),
        ]
    );
}

#[test]
fn path_joining_and_components() {
    assert_eq!(join_path("", "x"), "x");
    assert_eq!(join_path("/a/", "b"), "/a/b");
    assert_eq!(join_path("/a", "b"), "/a/b");
    assert_eq!(join_path("/a", "/abs"), "/abs");
    assert_eq!(file_name_of("/a/b.txt"), Some("b.txt".to_string()));
    assert_eq!(file_name_of("a/b/"), Some("b".to_string()));
    assert_eq!(file_name_of("/a/.."), None);
    assert_eq!(file_name_of("/"), None);
    assert!(is_same_path("/a//b/", "/a/b"));
    assert!(is_same_path("/a/./b", "/a/b"));
    assert!(!is_same_path("./a", "a"));
    assert!(path_before("/a/b", "/a-b"));
    assert!(!path_before("/a-b", "/a/b"));
    assert!(path_before("/z", "a"));
    assert!(!path_before("/a", "/a/"));
    assert_eq!(
        sorted_unique_paths(&args(&["b", "/a/..", "/a", "./x"])),
        args(&["/a", "/a/..", "./x", "b"])
    );
}

#[test]
fn address_bar_targets() {
    assert_eq!(normalize_target("   ", Some("/ws"), false), "/ws");
    assert_eq!(normalize_target("", None, false), "");
    assert_eq!(normalize_target(" https://x.org ", None, false), "https://x.org");
    assert_eq!(normalize_target(" /tmp ", None, true), "/tmp");
    assert_eq!(normalize_target("localhost:8080", None, false), "http://localhost:8080");
    assert_eq!(normalize_target("127.0.0.1:3000/x", None, false), "http://127.0.0.1:3000/x");
    assert_eq!(normalize_target("example.com", None, false), "https://example.com");
    assert_eq!(
        normalize_target("rust  borrow\tchecker", None, false),
        "https://duckduckgo.com/?q=rust+borrow+checker"
    );
    assert_eq!(normalize_target("a.b c", None, false), "https://duckduckgo.com/?q=a.b+c");
}

#[test]
fn external_uris() {
    assert_eq!(external_uri_for_target("  ", false, false), None);
    assert_eq!(
        external_uri_for_target("file:///x", false, false),
        Some("file:///x".to_string())
    );
    assert_eq!(external_uri_for_target("/tmp/x", true, true), Some("file:///tmp/x".to_string()));
    assert_eq!(
        external_uri_for_target("example.com", false, false),
        Some("https://example.com".to_string())
    );
}

#[test]
fn image_paths_content_types_and_languages() {
    assert!(is_image_path("/a/b.PNG"));
    assert!(is_image_path("shot.webp"));
    assert!(!is_image_path("/a/.png"));
    assert!(!is_image_path("/a/b.txt"));
    assert!(!is_image_path("/a/b"));
    assert_eq!(content_type_or_unknown("  "), "unknown content");
    assert_eq!(content_type_or_unknown("text/html"), "text/html");
    assert_eq!(language_for_content_type("Text/HTML; charset=utf-8"), Some("html".to_string()));
    assert_eq!(language_for_content_type("application/xhtml+xml"), Some("html".to_string()));
    assert_eq!(language_for_content_type("application/json"), Some("json".to_string()));
    assert_eq!(language_for_content_type("text/css"), Some("css".to_string()));
    assert_eq!(language_for_content_type("application/ECMAScript"), Some("js".to_string()));
    assert_eq!(language_for_content_type("image/svg+xml"), Some("xml".to_string()));
    assert_eq!(language_for_content_type("text/plain"), None);
}

#[test]
fn html_titles() {
    assert_eq!(
        extract_html_title("<html><HEAD><TITLE>My\tPage\n</title></head>"),
        Some("My Page".to_string())
    );
    assert_eq!(
        extract_html_title("<title lang=\"en\">\n A\nB </TITLE>"),
        Some("A B".to_string())
    );
    assert_eq!(extract_html_title("<title>   </title>"), None);
    assert_eq!(extract_html_title("<title>never closed"), None);
    assert_eq!(extract_html_title("<p>no title</p>"), None);
}

#[test]
fn palette_search() {
    assert!(command_matches("Open Settings", "Preferences", "config prefs", "  SET pref "));
    assert!(command_matches("a", "b", "c", "   "));
    assert!(!command_matches("Open Settings", "Preferences", "config", "xyz"));
    assert!(!command_matches("Open Settings", "Preferences", "config", "open xyz"));
    assert!(command_matches("New thread", "", "chat", "d c"));
}

#[test]
fn workspace_names() {
    assert_eq!(workspace_display_name("/home/u/project"), "project");
    assert_eq!(workspace_display_name("/"), "/");
    assert_eq!(workspace_display_name("/home/u/ "), "/home/u/ ");
}

#[test]
fn dropped_thread_payloads() {
    let payload = Json::Object(vec![
        ("local_thread_id".to_string(), Json::Number(5)),
        ("codexThreadId".to_string(), Json::Str("t1".to_string())),
        ("workspacePath".to_string(), Json::Str("/w".to_string())),
    ]);
    assert_eq!(
        parse_thread_drop_payload(&payload),
        (Some(5), Some("t1".to_string()), Some("/w".to_string()))
    );
    let wrong_type = Json::Object(vec![
        ("localThreadId".to_string(), Json::Str("x".to_string())),
        ("local_thread_id".to_string(), Json::Number(5)),
        ("threadId".to_string(), Json::Str("a".to_string())),
        ("codexThreadId".to_string(), Json::Str("b".to_string())),
    ]);
    assert_eq!(parse_thread_drop_payload(&wrong_type), (None, Some("a".to_string()), None));
    assert_eq!(parse_thread_drop_payload(&Json::Null), (None, None, None));
}

#[test]
fn feature_state_badges() {
    assert_eq!(FeatureState::Ready.label(), "Ready");
    assert_eq!(FeatureState::Partial.label(), "Partial");
    assert_eq!(FeatureState::Upstream.label(), "Needs native support");
    assert_eq!(FeatureState::Ready.css_class(), "feature-status-ready");
    assert_eq!(FeatureState::Partial.css_class(), "feature-status-partial");
    assert_eq!(FeatureState::Upstream.css_class(), "feature-status-upstream");
}

#[test]
fn settings_page_texts() {
    assert_eq!(path_list(&vec![]), "Not found");
    assert_eq!(path_list(&args(&["/a", "/b"])), "/a\n/b");
    let mut status = ChromeBridgeStatus::default();
    status.native_manifest_paths = args(&["/m1", "/m2"]);
    assert_eq!(native_manifest_value(&status), "/m1\n/m2");
    status.native_manifest_host_paths = args(&["/h"]);
    assert_eq!(native_manifest_value(&status), "/m1\n/m2\nTarget:\n/h");
    assert!(!bridge_ready(&status));
    assert_eq!(bridge_summary(&status), SUMMARY_NOT_READY);
    let lines = bridge_status_lines(&status);
    assert_eq!(lines.len(), 4);
    assert_eq!(lines[0].title, "Official Chrome extension");
    assert_eq!(lines[0].value, "Not found");
    assert_eq!(
        lines[1].value,
        "\nChrome and browser-use config: not enabled\nPlugin files:\nNot found"
    );
    assert_eq!(lines[3].value, NO_HOST_TEXT);
    assert!(!lines[3].ok);
    status.extension_installed = true;
    status.native_manifest_live = true;
    status.codex_plugins_enabled = true;
    status.codex_plugins_installed = true;
    status.host_candidate = Some("/host".to_string());
    status.notes = args(&["n1", "n2"]);
    assert_eq!(bridge_summary(&status), SUMMARY_READY);
    let lines = bridge_status_lines(&status);
    assert_eq!(lines.len(), 5);
    assert_eq!(lines[3].value, "/host");
    assert_eq!(lines[4].title, "Notes");
    assert_eq!(lines[4].value, "n1\nn2");
    assert!(lines[4].ok);
}

#[test]
fn page_sources() {
    assert_eq!(page_source("https://a.org"), PageSource::Http("https://a.org".to_string()));
    assert_eq!(page_source("http://a"), PageSource::Http("http://a".to_string()));
    assert_eq!(
        page_source("file:///tmp/My%20File.txt"),
        PageSource::File("/tmp/My File.txt".to_string())
    );
    assert_eq!(page_source("/x"), PageSource::File("/x".to_string()));
}

#[test]
fn http_pages() {
    let page = http_page("https://e.org/", 200, "text/html", b"<title>T</title><p>x\0y</p>");
    assert_eq!(page.title, "T");
    assert_eq!(page.meta, "HTTP 200 \u{2022} text/html");
    assert_eq!(page.body, "<title>T</title><p>xy</p>");
    assert_eq!(page.language_id, Some("html".to_string()));
    assert_eq!(page.image_path, None);

    let blank = http_page("https://e.org/x", 404, "", b"  \n");
    assert_eq!(blank.title, "https://e.org/x");
    assert_eq!(blank.meta, "HTTP 404 \u{2022} unknown content");
    assert_eq!(blank.body, "No readable text body.\n\nContent-Type: ");
    assert_eq!(blank.language_id, None);

    let invalid = http_page("u", 200, "text/plain", &[b'f', 0xff]);
    assert_eq!(invalid.body, "f\u{fffd}");

    let long = vec![b'a'; MAX_TEXT_PREVIEW_BYTES + 1];
    let cut = http_page("u", 200, "text/plain", &long);
    assert_eq!(cut.body, format!("{}{}", "a".repeat(MAX_TEXT_PREVIEW_BYTES), TRUNCATED_NOTE));
}

#[test]
fn file_and_image_pages() {
    let binary = file_page("/p/a.bin", &[1, 0, 2], Some("c".to_string()));
    assert_eq!(binary.title, "a.bin");
    assert_eq!(binary.meta, "/p/a.bin \u{2022} binary");
    assert_eq!(binary.body, "Binary file preview is not supported.");
    assert_eq!(binary.language_id, None);
    let text = file_page("/p/a.rs", b"fn main() {}", Some("rust".to_string()));
    assert_eq!(text.title, "a.rs");
    assert_eq!(text.meta, "/p/a.rs");
    assert_eq!(text.body, "fn main() {}");
    assert_eq!(text.language_id, Some("rust".to_string()));
    assert_eq!(file_page("/", b"", None).title, "File");
    let image = image_page("/p/i.png");
    assert_eq!(image.title, "i.png");
    assert_eq!(image.meta, "/p/i.png");
    assert_eq!(image.body, "");
    assert_eq!(image.image_path, Some("/p/i.png".to_string()));
}

#[test]
fn actions_tab_signature() {
    let saved = vec![
        SavedActionEntry { id: "1".to_string(), title: None, command: "make".to_string() },
        SavedActionEntry {
            id: "2".to_string(),
            title: Some("Test".to_string()),
            command: "cargo test".to_string(),
        },
    ];
    let runs = vec![ActionRunEntry {
        id: "9".to_string(),
        is_running: true,
        status_text: "Running".to_string(),
        output_len: 12,
    }];
    assert_eq!(signature(Some("/w"), &saved, &runs), "/w;1::make|2:Test:cargo test;9:true:Running:12");
    assert_eq!(signature(None, &vec![], &vec![]), ";;");
}

#[test]
fn browser_history_back_forward_and_push() {
    let mut h = BrowserHistory::new();
    assert!(!h.can_go_back() && !h.can_go_forward());
    assert_eq!(h.back(), None);
    h.push("a".to_string());
    h.push("b".to_string());
    h.push("b".to_string());
    h.push("c".to_string());
    assert!(h.can_go_back());
    assert_eq!(h.back(), Some("b".to_string()));
    assert_eq!(h.back(), Some("a".to_string()));
    assert_eq!(h.back(), None);
    assert_eq!(h.forward(), Some("b".to_string()));
    h.push("d".to_string());
    assert!(!h.can_go_forward());
    assert_eq!(h.forward(), None);
    assert_eq!(h.back(), Some("b".to_string()));
    assert_eq!(h.back(), Some("a".to_string()));
    h.push("a".to_string());
    assert_eq!(h.forward(), None);
    assert_eq!(h.back(), None);
}

#[test]
fn normalizing_twice_changes_nothing() {
    for raw in [" rust   lang ", "localhost:5173", "example.com", "https://x.org"] {
        let once = normalize_target(raw, None, false);
        assert_eq!(normalize_target(&once, None, false), once);
    }
    assert_eq!(normalize_target(" rust   lang ", None, false), "https://duckduckgo.com/?q=rust+lang");
    assert_eq!(normalize_target("localhost:5173", None, false), "http://localhost:5173");
    assert_eq!(normalize_target("example.com", None, false), "https://example.com");
}

#[test]
fn run_request_checks_workspace_then_command() {
    assert_eq!(run_request(None, "", ""), Err("No active workspace.".to_string()));
    assert_eq!(run_request(Some("/w"), "   ", "t"), Err("Command cannot be empty.".to_string()));
    assert_eq!(
        run_request(Some("/w"), " cargo test ", "  "),
        Ok(RunRequest { workspace: "/w".to_string(), title: None, command: "cargo test".to_string() })
    );
    assert_eq!(
        run_request(Some("/w"), "make", " Build "),
        Ok(RunRequest {
            workspace: "/w".to_string(),
            title: Some("Build".to_string()),
            command: "make".to_string()
        })
    );
}

#[test]
fn dropped_thread_workspace_prefers_the_payload_then_the_active_worktree() {
    let rec = || Some("/recorded".to_string());
    assert_eq!(
        dropped_thread_workspace(Some("/drop".to_string()), Some("/wt"), true, rec()),
        Some("/drop".to_string())
    );
    assert_eq!(dropped_thread_workspace(None, Some(" /wt "), true, rec()), Some("/wt".to_string()));
    assert_eq!(dropped_thread_workspace(None, Some("/wt"), false, rec()), rec());
    assert_eq!(dropped_thread_workspace(None, Some("  "), true, rec()), rec());
    assert_eq!(dropped_thread_workspace(None, None, true, None), None);
}
