use gunny_launcher::binary::{
    bundled_binary_name, choose_binary, executable_candidates, is_explicit_binary_path,
    player_present, split_search_path, BinaryChoice,
};
use gunny_launcher::launch::{build_launch_command, plan_launch, RuffleConfig};
use gunny_launcher::swf::SwfInfo;
use gunny_launcher::nav::{extract_game_url, intercept_navigation, navigation_target, UrlParts};
use gunny_launcher::paths::safe_join;
use gunny_launcher::release::find_ruffle_url;

#[test]
fn ruffle_config_defaults() {
    let c = RuffleConfig::default();
    assert_eq!(c.binary, "ruffle");
    assert_eq!(c.scale, "show-all");
    assert!(c.force_scale);
    assert_eq!(c.align, "");
    assert!(c.force_align);
    assert_eq!(c.tcp_connections, "allow");
    assert!(c.socket_allow.is_empty());
    assert_eq!(c.quality, "best");
}

#[test]
fn launch_with_defaults() {
    let cmd = build_launch_command(&RuffleConfig::default(), "http://x/game.swf", false);
    assert_eq!(
        cmd.args,
        vec![
            "--scale", "show-all", "--force-scale", "--force-align", "--tcp-connections", "allow",
            "--quality", "best", "--no-gui", "http://x/game.swf",
        ]
    );
    assert_eq!(cmd.env_remove, vec!["WAYLAND_DISPLAY"]);
    assert_eq!(
        cmd.env_set,
        vec![
            ("GDK_BACKEND".to_string(), "x11".to_string()),
            ("WINIT_UNIX_BACKEND".to_string(), "x11".to_string()),
            ("WINIT_X11_SCALE_FACTOR".to_string(), "1".to_string()),
        ]
    );
}

#[test]
fn launch_with_every_setting() {
    let cfg = RuffleConfig {
        binary: "ruffle".to_string(),
        scale: "exact-fit".to_string(),
        force_scale: false,
        align: "TL".to_string(),
        force_align: false,
        tcp_connections: "".to_string(),
        socket_allow: vec!["127.0.0.1:5840".to_string(), "10.0.0.1:80".to_string()],
        quality: "".to_string(),
    };
    let cmd = build_launch_command(&cfg, "m.swf", true);
    assert_eq!(
        cmd.args,
        vec![
            "--scale", "exact-fit", "--align", "TL", "--socket-allow", "127.0.0.1:5840",
            "--socket-allow", "10.0.0.1:80", "m.swf",
        ]
    );
}

#[test]
fn launch_debug_only_drops_no_gui() {
    let cfg = RuffleConfig::default();
    let normal = build_launch_command(&cfg, "a.swf", false).args;
    let debug = build_launch_command(&cfg, "a.swf", true).args;
    let mut expected = debug.clone();
    expected.pop();
    expected.push("--no-gui".to_string());
    expected.push("a.swf".to_string());
    assert_eq!(normal, expected);
    assert_eq!(normal.last().unwrap(), "a.swf");
    assert_eq!(debug.last().unwrap(), "a.swf");
}

#[test]
fn game_url_from_parts() {
    let parts = UrlParts {
        scheme: "roadclient".to_string(),
        host: Some("https".to_string()),
        path: "//host/path".to_string(),
        query: Some("query".to_string()),
    };
    assert_eq!(extract_game_url(&parts), "https://host/path?query");
    let bare = UrlParts { scheme: "x".to_string(), host: None, path: "/p".to_string(), query: None };
    assert_eq!(extract_game_url(&bare), "https:/p");
}

#[test]
fn navigation_target_of_parts() {
    let web = UrlParts {
        scheme: "https".to_string(),
        host: Some("example.com".to_string()),
        path: "/".to_string(),
        query: None,
    };
    assert_eq!(navigation_target(&Some(web)), None);
    assert_eq!(navigation_target(&None), None);
    let game = UrlParts {
        scheme: "roadclient".to_string(),
        host: Some("http".to_string()),
        path: "//h/g".to_string(),
        query: Some("a=1".to_string()),
    };
    assert_eq!(navigation_target(&Some(game)), Some("http://h/g?a=1".to_string()));
}

#[test]
fn intercepts_game_links() {
    assert_eq!(
        intercept_navigation("roadclient://https//host/path?query"),
        Some("https://host/path?query".to_string())
    );
}

#[test]
fn lets_web_pages_through() {
    for u in ["https://example.com/login", "http://a/b", "about:blank", "data:text/plain,hi", "blob:https://a/1"] {
        assert_eq!(intercept_navigation(u), None, "{u}");
    }
    assert_eq!(intercept_navigation("not a url"), None);
}

#[test]
fn release_link_for_suffix() {
    let json = r#"[{"assets":[{"name":"a","browser_download_url":"https://gh/r/ruffle-windows-x86_64.zip"},{"browser_download_url":"https://gh/r/ruffle-linux-x86_64.tar.gz"}]}]"#;
    assert_eq!(
        find_ruffle_url(json, "linux-x86_64.tar.gz"),
        Some("https://gh/r/ruffle-linux-x86_64.tar.gz".to_string())
    );
    assert_eq!(
        find_ruffle_url(json, "windows-x86_64.zip"),
        Some("https://gh/r/ruffle-windows-x86_64.zip".to_string())
    );
    assert_eq!(find_ruffle_url(json, "macos-universal.tar.gz"), None);
    assert_eq!(find_ruffle_url("", "x"), None);
    assert_eq!(find_ruffle_url(r#""browser_download_url":"unterminated"#, "d"), None);
}

#[test]
fn release_link_ends_with_suffix() {
    let json = r#""browser_download_url":"a.zip","browser_download_url":"b.tar.gz""#;
    let found = find_ruffle_url(json, ".tar.gz").unwrap();
    assert!(found.ends_with(".tar.gz"));
    assert!(!found.contains('"'));
}

#[test]
fn join_plain_entry() {
    assert_eq!(safe_join("dest", "a/b/c.txt", false), Some("dest/a/b/c.txt".to_string()));
    assert_eq!(safe_join("dest/", "x", false), Some("dest/x".to_string()));
    assert_eq!(safe_join("", "a/b", false), Some("a/b".to_string()));
}

#[test]
fn join_drops_escaping_components() {
    assert_eq!(safe_join("dest", "../../etc/passwd", false), Some("dest/etc/passwd".to_string()));
    assert_eq!(safe_join("dest", "/abs/file", false), Some("dest/abs/file".to_string()));
    assert_eq!(safe_join("dest", "./a/./b//c/", false), Some("dest/a/b/c".to_string()));
    assert_eq!(safe_join("dest", "a/../b", false), Some("dest/a/b".to_string()));
    assert_eq!(safe_join("dest", "..", false), Some("dest".to_string()));
    assert_eq!(safe_join("dest", "...x/...", false), Some("dest/...x/...".to_string()));
}

#[test]
fn join_stays_under_base() {
    for entry in ["../x", "/etc", "a/../../b", "./", ""] {
        let joined = safe_join("/tmp/out", entry, false).unwrap();
        assert!(joined.starts_with("/tmp/out"));
        assert!(!joined["/tmp/out".len()..].split('/').any(|c| c == ".."));
    }
}

#[test]
fn explicit_binary_paths() {
    assert!(!is_explicit_binary_path("ruffle"));
    assert!(is_explicit_binary_path("./ruffle"));
    assert!(is_explicit_binary_path("/usr/bin/ruffle"));
    assert!(is_explicit_binary_path("C:\\ruffle\\ruffle.exe"));
}

#[test]
fn bundled_names() {
    assert_eq!(bundled_binary_name("ruffle", true), "ruffle.exe");
    assert_eq!(bundled_binary_name("ruffle.exe", true), "ruffle.exe");
    assert_eq!(bundled_binary_name("ruffle", false), "ruffle");
}

#[test]
fn candidates_per_directory() {
    assert_eq!(executable_candidates("ruffle", false), vec!["ruffle"]);
    assert_eq!(executable_candidates("ruffle", true), vec!["ruffle", "ruffle.exe"]);
    assert_eq!(executable_candidates("ruffle.exe", true), vec!["ruffle.exe"]);
}

#[test]
fn search_path_pieces() {
    assert_eq!(split_search_path("/a::/b", false), vec!["/a", "", "/b"]);
    assert_eq!(split_search_path("", false), vec![""]);
    assert_eq!(split_search_path("C:\\x;D:\\y", true), vec!["C:\\x", "D:\\y"]);
    assert_eq!(split_search_path("C:\\x;D:\\y", false), vec!["C", "\\x;D", "\\y"]);
    for piece in split_search_path("/a:/b:", false) {
        assert!(!piece.contains(':'));
    }
}

#[test]
fn join_windows_backslash_components() {
    assert_eq!(safe_join("C:\\d", "..\\x", true), Some("C:\\d\\x".to_string()));
    assert_eq!(safe_join("C:\\d", "a/b\\c", true), Some("C:\\d\\a\\b\\c".to_string()));
    assert_eq!(safe_join("C:\\d\\", "x", true), Some("C:\\d\\x".to_string()));
    assert_eq!(safe_join("C:\\d", ".\\a\\..\\..\\b", true), Some("C:\\d\\a\\b".to_string()));
}

#[test]
fn join_windows_prefixes_dropped() {
    assert_eq!(safe_join("C:\\d", "C:\\Windows\\x", true), Some("C:\\d\\Windows\\x".to_string()));
    assert_eq!(safe_join("C:\\d", "D:x", true), Some("C:\\d\\x".to_string()));
    assert_eq!(safe_join("C:\\d", "\\\\server\\share\\x", true), Some("C:\\d\\x".to_string()));
    assert_eq!(safe_join("C:\\d", "//server/share/x", true), Some("C:\\d\\x".to_string()));
    assert_eq!(safe_join("C:\\d", "\\\\?\\C:\\x", true), Some("C:\\d\\x".to_string()));
    assert_eq!(safe_join("C:\\d", "\\\\\\x", true), Some("C:\\d\\x".to_string()));
    assert_eq!(safe_join("C:", "x", true), Some("C:x".to_string()));
}

#[test]
fn join_windows_refuses_drive_like_parts() {
    assert_eq!(safe_join("C:\\d", "a\\C:\\x", true), None);
    assert_eq!(safe_join("C:", "x/C:y", true), Some("C:y".to_string()));
    assert_eq!(safe_join("", "a/C:y\\z", true), Some("C:y\\z".to_string()));
    assert_eq!(safe_join("C:\\d", "a/z:evil", true), None);
}

#[test]
fn join_unix_keeps_backslash_names() {
    assert_eq!(safe_join("/d", "..\\x", false), Some("/d/..\\x".to_string()));
    assert_eq!(safe_join("/d", "a/C:/x", false), Some("/d/a/C:/x".to_string()));
}

#[test]
fn join_windows_stays_under_base() {
    for entry in ["..\\..\\x", "\\evil", "C:..\\y", "a/../b\\..", ""] {
        let joined = safe_join("C:\\out", entry, true).unwrap();
        assert!(joined.starts_with("C:\\out"));
        assert!(!joined["C:\\out".len()..].split(|c| c == '\\' || c == '/').any(|c| c == ".."));
    }
}

#[test]
fn binary_choice() {
    assert!(matches!(choose_binary("/opt/ruffle", true, false, false), BinaryChoice::AsConfigured));
    assert!(matches!(choose_binary("./ruffle", false, true, false), BinaryChoice::AsConfigured));
    assert!(matches!(choose_binary("ruffle", false, true, false), BinaryChoice::OnSearchPath));
    match choose_binary("ruffle", false, false, true) {
        BinaryChoice::Bundled(name) => assert_eq!(name, "ruffle.exe"),
        _ => panic!("expected the bundled copy"),
    }
    match choose_binary("ruffle", false, false, false) {
        BinaryChoice::Bundled(name) => assert_eq!(name, "ruffle"),
        _ => panic!("expected the bundled copy"),
    }
}

#[test]
fn search_path_split_then_join() {
    for (v, w) in [("/a::/b", false), ("", false), ("C:\\x;D:\\y;", true), (":", false)] {
        let sep = if w { ";" } else { ":" };
        assert_eq!(split_search_path(v, w).join(sep), v);
    }
}

#[test]
fn release_without_links() {
    assert_eq!(find_ruffle_url(r#"{"assets":[{"name":"x.tar.gz"}]}"#, ".tar.gz"), None);
}

#[test]
fn join_windows_verbatim_prefixes() {
    assert_eq!(safe_join("C:\\d", "\\\\?\\UNC\\server\\share\\x", true), Some("C:\\d\\x".to_string()));
    assert_eq!(safe_join("C:\\d", "\\\\?\\C:\\x", true), Some("C:\\d\\x".to_string()));
    assert_eq!(safe_join("C:\\d", "\\\\?\\Volume{1}\\x", true), Some("C:\\d\\x".to_string()));
    assert_eq!(safe_join("C:\\d", "\\\\.\\COM1\\x", true), Some("C:\\d\\x".to_string()));
}

#[test]
fn join_in_two_steps() {
    for (a, b) in [("x/..", "y"), ("/a/", "/b/c"), ("..", ".."), ("p", "")] {
        let whole = safe_join("base", &format!("{a}/{b}"), false);
        let stepwise = safe_join("base", a, false).and_then(|p| safe_join(&p, b, false));
        assert_eq!(whole, stepwise);
    }
}

#[test]
fn launch_plan_for_page() {
    let none = SwfInfo { url: String::new(), dimensions: None };
    assert!(plan_launch(&none, &RuffleConfig::default(), false).is_none());
    let found = SwfInfo { url: "g.swf".to_string(), dimensions: Some((1, 2)) };
    let plan = plan_launch(&found, &RuffleConfig::default(), true).unwrap();
    assert_eq!(plan.args.last().unwrap(), "g.swf");
    assert!(!plan.args.iter().any(|a| a == "--no-gui"));
}

#[test]
fn presence_of_player() {
    assert!(player_present(&BinaryChoice::OnSearchPath, false));
    assert!(!player_present(&BinaryChoice::AsConfigured, false));
    assert!(player_present(&BinaryChoice::Bundled("r".to_string()), true));
    assert!(!player_present(&BinaryChoice::Bundled("r".to_string()), false));
}

#[test]
fn release_link_picked_is_whole_link() {
    let json = r#"x"browser_download_url":"a.zip" "browser_download_url":"b.gz""#;
    let u = find_ruffle_url(json, ".gz").unwrap();
    assert!(json.contains(&format!("\"browser_download_url\":\"{u}\"")));
    assert_eq!(find_ruffle_url(json, ".tar"), None);
}
