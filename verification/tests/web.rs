use codex_workbench::web::AssetFile;
use codex_workbench::web::child_environment;
use codex_workbench::web::ClientFrame;
use codex_workbench::web::decode_client_frame;
use codex_workbench::web::FrameDecodeError;
use codex_workbench::web::HeaderText;
use codex_workbench::web::http_url_for_addr;
use codex_workbench::web::INPUT_FRAME;
use codex_workbench::web::IpParts;
use codex_workbench::web::is_api_path;
use codex_workbench::web::origin_is_allowed;
use codex_workbench::web::RESIZE_FRAME;
use codex_workbench::web::ServerConfigError;
use codex_workbench::web::static_asset_for_path;
use codex_workbench::web::WebCommand;

#[test]
fn decodes_input_frames() {
    let frame = [INPUT_FRAME, b'h', b'i'];
    assert!(matches!(
        decode_client_frame(&frame),
        Ok(ClientFrame::Input(b"hi"))
    ));
}

#[test]
fn decodes_resize_frames() {
    let frame = [RESIZE_FRAME, 0, 120, 0, 40];
    assert!(matches!(
        decode_client_frame(&frame),
        Ok(ClientFrame::Resize {
            cols: 120,
            rows: 40
        })
    ));
}

#[test]
fn rejects_invalid_frames() {
    assert!(matches!(
        decode_client_frame(&[]),
        Err(FrameDecodeError::Empty)
    ));
    assert!(matches!(
        decode_client_frame(&[RESIZE_FRAME, 0, 80]),
        Err(FrameDecodeError::MalformedResize)
    ));
    assert!(matches!(
        decode_client_frame(&[RESIZE_FRAME, 0, 0, 0, 24]),
        Err(FrameDecodeError::ZeroResize)
    ));
    assert!(matches!(
        decode_client_frame(&[9]),
        Err(FrameDecodeError::UnknownFrameType(9))
    ));
}

fn assets() -> Vec<AssetFile> {
    [("index.html", "<html>"), ("assets/app.js", "run()")]
        .iter()
        .map(|(path, text)| AssetFile {
            path: path.to_string(),
            bytes: text.as_bytes().to_vec(),
        })
        .collect()
}

#[test]
fn serves_index_for_root_and_spa_routes() {
    let assets = assets();
    let root = static_asset_for_path("/", &assets).expect("root asset");
    let route = static_asset_for_path("/thread/123", &assets).expect("route asset");

    assert_eq!(root.path, "index.html");
    assert_eq!(route.path, "index.html");
    assert_eq!(root.content_type, "text/html; charset=utf-8");
    assert_eq!(root.cache_control, "no-store");
}

#[test]
fn rejects_path_traversal() {
    let assets = assets();
    assert!(static_asset_for_path("/../Cargo.toml", &assets).is_none());
    assert!(static_asset_for_path("/assets\\index.js", &assets).is_none());
}

#[test]
fn serves_files_by_their_names() {
    let assets = assets();
    let script = static_asset_for_path("/assets/app.js", &assets).expect("script");
    assert_eq!(script.path, "assets/app.js");
    assert_eq!(script.bytes, b"run()");
    assert_ne!(script.cache_control, "no-store");
}

fn text(s: &str) -> HeaderText {
    HeaderText::Text(s.to_string())
}

#[test]
fn origins_of_the_same_host_are_allowed() {
    let host = text("127.0.0.1:8080");
    assert!(origin_is_allowed(&HeaderText::Absent, &host));
    assert!(origin_is_allowed(&text("http://127.0.0.1:8080"), &host));
    assert!(!origin_is_allowed(&text("http://example.com"), &host));
    assert!(!origin_is_allowed(&text("not a url"), &host));
    assert!(!origin_is_allowed(&HeaderText::Unreadable, &host));
}

fn command(listen_ip: IpParts) -> WebCommand {
    WebCommand {
        listen_ip,
        listen_port: 0,
        cwd: None,
        open: false,
        command: None,
        command_args: vec!["--x".to_string()],
        codex_args: Vec::new(),
    }
}

#[test]
fn only_loopback_addresses_are_listened_on() {
    let some = |s: &str| Some(s.to_string());
    let local = IpParts::V4 {
        first: 127,
        rest: (0, 0, 1),
    };
    let config = command(local)
        .into_server_config(Vec::new(), some("/work"), some("/bin/codex"))
        .ok()
        .expect("a configuration");
    assert_eq!(config.cwd, "/work");
    assert_eq!(config.command, "/bin/codex");
    let public = IpParts::V4 {
        first: 10,
        rest: (0, 0, 1),
    };
    assert!(matches!(
        command(public).into_server_config(Vec::new(), some("/work"), some("/bin/codex")),
        Err(ServerConfigError::NotLoopback)
    ));
    let v6 = || IpParts::V6 { high: 0, low: 1 };
    assert!(matches!(
        command(v6()).into_server_config(Vec::new(), None, some("/bin/codex")),
        Err(ServerConfigError::NoCurrentDirectory)
    ));
    assert!(matches!(
        command(v6()).into_server_config(Vec::new(), some("/work"), None),
        Err(ServerConfigError::NoCurrentExecutable)
    ));
}

#[test]
fn addresses_of_the_sixth_version_are_bracketed() {
    assert_eq!(http_url_for_addr("127.0.0.1", false, 80), "http://127.0.0.1:80");
    assert_eq!(http_url_for_addr("::1", true, 8080), "http://[::1]:8080");
}

#[test]
fn children_are_told_of_a_terminal() {
    let inherited = vec![("TERM".to_string(), "dumb".to_string())];
    let environment = child_environment(inherited);
    assert_eq!(
        environment
            .iter()
            .filter(|(key, _)| key == "TERM")
            .map(|(_, value)| value.as_str())
            .collect::<Vec<_>>(),
        vec!["xterm-256color"]
    );
}

#[test]
fn interface_paths_get_no_asset() {
    assert!(is_api_path("/api/pty"));
    assert!(!is_api_path("/api"));
    assert!(!is_api_path("/assets/api/x"));
}
