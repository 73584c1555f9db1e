//! A terminal in the browser: the frames that the browser sends, the assets it may
//! load, and which pages may connect.

use vstd::prelude::*;

use crate::paths;
use crate::text;

verus! {

/// The first byte of an input frame.
pub const INPUT_FRAME: u8 = 0x00;

/// The first byte of a resize frame.
pub const RESIZE_FRAME: u8 = 0x01;

/// A frame from the browser.
#[derive(Debug, PartialEq, Eq)]
pub enum ClientFrame<'a> {
    Input(&'a [u8]),
    Resize { cols: u16, rows: u16 },
}

/// Why a frame cannot be read.
#[derive(Clone, Copy, Debug, PartialEq, Eq, Structural)]
pub enum FrameDecodeError {
    Empty,
    MalformedResize,
    ZeroResize,
    UnknownFrameType(u8),
}

/// The view of a frame.
pub ghost enum FrameView {
    Input(Seq<u8>),
    Resize { cols: u16, rows: u16 },
}

impl<'a> View for ClientFrame<'a> {
    type V = FrameView;

    open spec fn view(&self) -> FrameView {
        match self {
            ClientFrame::Input(bytes) => FrameView::Input(bytes@),
            ClientFrame::Resize { cols, rows } => FrameView::Resize { cols: *cols, rows: *rows },
        }
    }
}

/// A number from its two bytes, the high one first.
pub open spec fn be16(hi: u8, lo: u8) -> int {
    hi * 256 + lo
}

/// The frame that bytes stand for.
pub open spec fn decoded(b: Seq<u8>) -> Result<FrameView, FrameDecodeError> {
    if b.len() == 0 {
        Err(FrameDecodeError::Empty)
    } else if b[0] == INPUT_FRAME {
        Ok(FrameView::Input(b.skip(1)))
    } else if b[0] == RESIZE_FRAME {
        if b.len() != 5 {
            Err(FrameDecodeError::MalformedResize)
        } else if be16(b[1], b[2]) == 0 || be16(b[3], b[4]) == 0 {
            Err(FrameDecodeError::ZeroResize)
        } else {
            Ok(
                FrameView::Resize {
                    cols: be16(b[1], b[2]) as u16,
                    rows: be16(b[3], b[4]) as u16,
                },
            )
        }
    } else {
        Err(FrameDecodeError::UnknownFrameType(b[0]))
    }
}

/// The bytes of a frame.
pub open spec fn encoded(frame: FrameView) -> Seq<u8> {
    match frame {
        FrameView::Input(bytes) => seq![INPUT_FRAME] + bytes,
        FrameView::Resize { cols, rows } => seq![
            RESIZE_FRAME,
            (cols / 256) as u8,
            (cols % 256) as u8,
            (rows / 256) as u8,
            (rows % 256) as u8,
        ],
    }
}

/// Decoding gives back each frame that was encoded, but for a resize to nothing.
pub proof fn frames_round_trip(frame: FrameView)
    requires
        frame matches FrameView::Resize { cols, rows } ==> cols > 0 && rows > 0,
    ensures
        decoded(encoded(frame)) == Ok::<FrameView, FrameDecodeError>(frame),
{
    match frame {
        FrameView::Input(bytes) => {
            assert(encoded(frame).skip(1) =~= bytes);
        },
        FrameView::Resize { cols, rows } => {},
    }
}

/// Bytes that decode are the encoding of what they decode to.
pub proof fn decoding_loses_nothing(b: Seq<u8>)
    requires
        decoded(b) is Ok,
    ensures
        encoded(decoded(b)->Ok_0) == b,
{
    assert(encoded(decoded(b)->Ok_0) =~= b);
}

/// The frame that bytes from the browser stand for.
pub fn decode_client_frame(bytes: &[u8]) -> (r: Result<ClientFrame<'_>, FrameDecodeError>)
    ensures
        match r {
            Ok(frame) => decoded(bytes@) == Ok::<FrameView, FrameDecodeError>(frame@),
            Err(e) => decoded(bytes@) == Err::<FrameView, FrameDecodeError>(e),
        },
{
    if bytes.len() == 0 {
        return Err(FrameDecodeError::Empty);
    }
    let kind = bytes[0];
    if kind == INPUT_FRAME {
        let input = vstd::slice::slice_subrange(bytes, 1, bytes.len());
        assert(input@ =~= bytes@.skip(1));
        return Ok(ClientFrame::Input(input));
    }
    if kind == RESIZE_FRAME {
        if bytes.len() != 5 {
            return Err(FrameDecodeError::MalformedResize);
        }
        let cols: u16 = (bytes[1] as u16) * 256 + (bytes[2] as u16);
        let rows: u16 = (bytes[3] as u16) * 256 + (bytes[4] as u16);
        if cols == 0 || rows == 0 {
            return Err(FrameDecodeError::ZeroResize);
        }
        return Ok(ClientFrame::Resize { cols, rows });
    }
    Err(FrameDecodeError::UnknownFrameType(kind))
}

// ---- assets ----

/// A file of the embedded web page.
#[derive(Debug)]
pub struct AssetFile {
    pub path: String,
    pub bytes: Vec<u8>,
}

/// An asset as it is served.
#[derive(Debug)]
pub struct StaticAsset<'a> {
    pub path: &'a str,
    pub content_type: &'static str,
    pub cache_control: &'static str,
    pub bytes: &'a [u8],
}

/// Whether a piece of a request path leads out of the asset directory or names nothing.
pub open spec fn is_bad_piece(piece: Seq<char>) -> bool {
    piece.len() == 0 || piece == "."@ || piece == ".."@
}

/// Whether a path stays inside the asset directory.
pub open spec fn is_clean(path: Seq<char>) -> bool {
    let pieces = text::split_on(path, '/');
    !path.contains('\\') && forall|i: int|
        0 <= i < pieces.len() ==> !is_bad_piece(#[trigger] pieces[i])
}

/// The asset path that a request asks for, before it is checked.
pub open spec fn requested(request: Seq<char>) -> Seq<char> {
    let trimmed = if text::has_prefix(request, "/"@) {
        request.skip(1)
    } else {
        request
    };
    if trimmed.len() == 0 {
        "index.html"@
    } else {
        trimmed
    }
}

/// The asset path of a request; nothing where it would leave the asset directory.
pub open spec fn asset_path(request: Seq<char>) -> Option<Seq<char>> {
    if is_clean(requested(request)) {
        Some(requested(request))
    } else {
        None
    }
}

/// The asset path of a request.
pub fn normalize_asset_path(request_path: &str) -> (r: Option<String>)
    ensures
        text::option_view(r) == asset_path(request_path@),
{
    let request = text::chars_of(request_path);
    let n = request.len();
    proof {
        reveal_strlit("/");
    }
    let slash = text::starts_with(request.as_slice(), "/");
    let from: usize = if slash {
        1
    } else {
        0
    };
    let mut path = text::sub_vec(request.as_slice(), from, n);
    proof {
        if slash {
            assert(path@ =~= request_path@.skip(1));
        } else {
            assert(path@ =~= request_path@);
        }
    }
    if path.len() == 0 {
        path = text::chars_of("index.html");
    }
    assert(path@ == requested(request_path@));
    if text::contains_char(path.as_slice(), '\\') {
        return None;
    }
    let pieces = text::split_chars(path.as_slice(), '/');
    let ghost v = text::char_views(pieces@);
    let mut i: usize = 0;
    while i < pieces.len()
        invariant
            i <= pieces.len(),
            v == text::char_views(pieces@),
            v == text::split_on(requested(request_path@), '/'),
            forall|j: int| 0 <= j < i ==> !is_bad_piece(#[trigger] v[j]),
        decreases pieces.len() - i,
    {
        let piece = &pieces[i];
        assert(v[i as int] == piece@);
        if piece.len() == 0 || text::eq_str(piece.as_slice(), ".") || text::eq_str(
            piece.as_slice(),
            "..",
        ) {
            assert(is_bad_piece(v[i as int]));
            return None;
        }
        i = i + 1;
    }
    Some(text::string_of(path.as_slice()))
}

/// What follows the last dot of a path.
pub open spec fn extension(path: Seq<char>) -> Option<Seq<char>> {
    if paths::last_index(path, '.') >= 0 {
        Some(path.skip(paths::last_index(path, '.') + 1))
    } else {
        None
    }
}

/// The content type of an asset.
pub open spec fn content_type(path: Seq<char>) -> Seq<char> {
    match extension(path) {
        None => "application/octet-stream"@,
        Some(e) => if e == "css"@ {
            "text/css; charset=utf-8"@
        } else if e == "html"@ {
            "text/html; charset=utf-8"@
        } else if e == "js"@ {
            "text/javascript; charset=utf-8"@
        } else if e == "json"@ || e == "map"@ {
            "application/json; charset=utf-8"@
        } else if e == "svg"@ {
            "image/svg+xml"@
        } else if e == "wasm"@ {
            "application/wasm"@
        } else {
            "application/octet-stream"@
        },
    }
}

/// The content type of an asset.
pub fn content_type_for_path(path: &str) -> (r: &'static str)
    ensures
        r@ == content_type(path@),
{
    let c = text::chars_of(path);
    let dot = match paths::last_position(c.as_slice(), '.') {
        None => {
            return "application/octet-stream";
        },
        Some(i) => i,
    };
    let ext = text::sub_vec(c.as_slice(), dot + 1, c.len());
    assert(ext@ =~= path@.skip(dot + 1));
    let e = ext.as_slice();
    if text::eq_str(e, "css") {
        "text/css; charset=utf-8"
    } else if text::eq_str(e, "html") {
        "text/html; charset=utf-8"
    } else if text::eq_str(e, "js") {
        "text/javascript; charset=utf-8"
    } else if text::eq_str(e, "json") || text::eq_str(e, "map") {
        "application/json; charset=utf-8"
    } else if text::eq_str(e, "svg") {
        "image/svg+xml"
    } else if text::eq_str(e, "wasm") {
        "application/wasm"
    } else {
        "application/octet-stream"
    }
}

/// The index of the first asset from `i` on with path `path`.
pub open spec fn asset_index(assets: Seq<AssetFile>, path: Seq<char>, i: int) -> Option<int>
    decreases assets.len() - i,
{
    if i < 0 || i >= assets.len() {
        None
    } else if assets[i].path@ == path {
        Some(i)
    } else {
        asset_index(assets, path, i + 1)
    }
}

/// The asset that a request gets: the one it asks for, or else the index page, so that
/// the routes of the page itself work.
pub open spec fn served(assets: Seq<AssetFile>, request: Seq<char>) -> Option<int> {
    match asset_path(request) {
        None => None,
        Some(path) => match asset_index(assets, path, 0) {
            Some(i) => Some(i),
            None => asset_index(assets, "index.html"@, 0),
        },
    }
}

/// How long an asset may be kept: the index page never, everything else for good.
pub open spec fn cache_policy(path: Seq<char>) -> Seq<char> {
    if path == "index.html"@ {
        "no-store"@
    } else {
        "public, max-age=31536000, immutable"@
    }
}

fn find_asset(assets: &[AssetFile], path: &str) -> (r: Option<usize>)
    ensures
        match r {
            Some(i) => asset_index(assets@, path@, 0) == Some(i as int) && i < assets@.len(),
            None => asset_index(assets@, path@, 0) is None,
        },
{
    let mut i: usize = 0;
    while i < assets.len()
        invariant
            i <= assets.len(),
            asset_index(assets@, path@, 0) == asset_index(assets@, path@, i as int),
        decreases assets.len() - i,
    {
        if text::same_str(assets[i].path.as_str(), path) {
            return Some(i);
        }
        i = i + 1;
    }
    None
}

/// The asset that a request gets.
pub fn static_asset_for_path<'a>(request_path: &str, assets: &'a [AssetFile]) -> (r: Option<
    StaticAsset<'a>,
>)
    ensures
        match r {
            Some(a) => served(assets@, request_path@) matches Some(i) && 0 <= i < assets@.len()
                && a.path@ == assets@[i].path@ && a.bytes@ == assets@[i].bytes@ && a.content_type@
                == content_type(assets@[i].path@) && a.cache_control@ == cache_policy(
                assets@[i].path@,
            ),
            None => served(assets@, request_path@) is None,
        },
{
    let path = match normalize_asset_path(request_path) {
        Some(path) => path,
        None => {
            return None;
        },
    };
    let index = match find_asset(assets, path.as_str()) {
        Some(i) => i,
        None => match find_asset(assets, "index.html") {
            Some(i) => i,
            None => {
                return None;
            },
        },
    };
    let file = &assets[index];
    let is_index = text::same_str(file.path.as_str(), "index.html");
    Some(
        StaticAsset {
            path: file.path.as_str(),
            content_type: content_type_for_path(file.path.as_str()),
            cache_control: if is_index {
                "no-store"
            } else {
                "public, max-age=31536000, immutable"
            },
            bytes: file.bytes.as_slice(),
        },
    )
}

/// Whether a request path is left to the program interface and gets no asset.
pub fn is_api_path(path: &str) -> (r: bool)
    ensures
        r == text::has_prefix(path@, "/api/"@),
{
    let c = text::chars_of(path);
    text::starts_with(c.as_slice(), "/api/")
}

/// A request whose path holds a `..` piece or a backslash gets no asset.
pub proof fn traversal_is_never_served(assets: Seq<AssetFile>, request: Seq<char>, i: int)
    requires
        requested(request).contains('\\') || (0 <= i < text::split_on(
            requested(request),
            '/',
        ).len() && text::split_on(requested(request), '/')[i] == ".."@),
    ensures
        served(assets, request) is None,
{
    if !requested(request).contains('\\') {
        assert(is_bad_piece(text::split_on(requested(request), '/')[i]));
    }
}

// ---- who may connect ----

/// A request header.
#[derive(Debug)]
pub enum HeaderText {
    Absent,
    Unreadable,
    Text(String),
}

/// The host and port of a URL, as `url::Url` parses and writes it; nothing where it does
/// not parse.
pub uninterp spec fn url_authority(s: Seq<char>) -> Option<Seq<char>>;

/// Calls `url::Url::parse` and cuts the result from before its host to after its port.
/// Claims only that the outcome depends on the text alone.
#[verifier::external_body]
fn authority_of(s: &str) -> (r: Option<String>)
    ensures
        text::option_view(r) == url_authority(s@),
{
    let parsed = url::Url::parse(s).ok()?;
    Some(parsed[url::Position::BeforeHost..url::Position::AfterPort].to_string())
}

/// Whether a connection is allowed, from the origin's authority and the host header: the
/// page must come from the host that it talks to.
pub open spec fn same_host(authority: Option<Seq<char>>, host: HeaderText) -> bool {
    match (authority, host) {
        (Some(a), HeaderText::Text(h)) => text::ascii_lower(a) == text::ascii_lower(h@),
        _ => false,
    }
}

/// Whether a connection is allowed: always without an origin, and otherwise only for a
/// page from the host that it talks to.
pub open spec fn origin_allowed(origin: HeaderText, host: HeaderText) -> bool {
    match origin {
        HeaderText::Absent => true,
        HeaderText::Unreadable => false,
        HeaderText::Text(o) => same_host(url_authority(o@), host),
    }
}

/// Whether the authority of an origin is the host of the request.
pub fn authority_matches_host(authority: &Option<String>, host: &HeaderText) -> (r: bool)
    ensures
        r == same_host(text::option_view(*authority), *host),
{
    match (authority, host) {
        (Some(a), HeaderText::Text(h)) => {
            let ac = text::chars_of(a.as_str());
            let hc = text::chars_of(h.as_str());
            let al = text::to_ascii_lower(ac.as_slice());
            let hl = text::to_ascii_lower(hc.as_slice());
            text::eq_chars(al.as_slice(), hl.as_slice())
        },
        _ => false,
    }
}

/// Whether a page may connect.
pub fn origin_is_allowed(origin: &HeaderText, host: &HeaderText) -> (r: bool)
    ensures
        r == origin_allowed(*origin, *host),
{
    match origin {
        HeaderText::Absent => true,
        HeaderText::Unreadable => false,
        HeaderText::Text(o) => {
            let authority = authority_of(o.as_str());
            authority_matches_host(&authority, host)
        },
    }
}

// ---- starting the server ----

/// An IP address by its parts.
#[derive(Clone, Copy, Debug)]
pub enum IpParts {
    V4 { first: u8, rest: (u8, u8, u8) },
    V6 { high: u64, low: u64 },
}

/// Whether an address reaches only the machine itself: 127.0.0.0/8 or ::1.
pub open spec fn loopback(ip: IpParts) -> bool {
    match ip {
        IpParts::V4 { first, .. } => first == 127,
        IpParts::V6 { high, low } => high == 0 && low == 1,
    }
}

/// What the user asked the server to do.
#[derive(Debug)]
pub struct WebCommand {
    pub listen_ip: IpParts,
    pub listen_port: u16,
    pub cwd: Option<String>,
    pub open: bool,
    pub command: Option<String>,
    pub command_args: Vec<String>,
    pub codex_args: Vec<String>,
}

/// How the server runs.
#[derive(Debug)]
pub struct ServerConfig {
    pub listen_ip: IpParts,
    pub listen_port: u16,
    pub open: bool,
    pub command: String,
    pub args: Vec<String>,
    pub cwd: String,
}

/// Why the server does not start.
#[derive(Clone, Copy, Debug, PartialEq, Eq, Structural)]
pub enum ServerConfigError {
    NotLoopback,
    NoCurrentDirectory,
    NoCurrentExecutable,
}

/// `-c` before each override.
pub open spec fn override_args(overrides: Seq<Seq<char>>) -> Seq<Seq<char>> {
    Seq::new(
        2 * overrides.len(),
        |i: int|
            if i % 2 == 0 {
                "-c"@
            } else {
                overrides[i / 2]
            },
    )
}

/// Why a command is refused, if it is.
pub open spec fn config_refusal(
    c: WebCommand,
    current_dir: Option<String>,
    current_exe: Option<String>,
) -> Option<ServerConfigError> {
    if !loopback(c.listen_ip) {
        Some(ServerConfigError::NotLoopback)
    } else if c.cwd is None && current_dir is None {
        Some(ServerConfigError::NoCurrentDirectory)
    } else if c.command is None && current_exe is None {
        Some(ServerConfigError::NoCurrentExecutable)
    } else {
        None
    }
}

impl WebCommand {
    /// How the server runs: on a loopback address only, in the chosen or the current
    /// directory, with the chosen command and its arguments, or with this executable, the
    /// inherited overrides and the forwarded arguments.
    pub fn into_server_config(
        self,
        inherited_config_overrides: Vec<String>,
        current_dir: Option<String>,
        current_exe: Option<String>,
    ) -> (r: Result<ServerConfig, ServerConfigError>)
        ensures
            match r {
                Err(e) => config_refusal(self, current_dir, current_exe) == Some(e),
                Ok(config) => {
                    &&& config_refusal(self, current_dir, current_exe) is None
                    &&& config.listen_ip == self.listen_ip
                    &&& config.listen_port == self.listen_port
                    &&& config.open == self.open
                    &&& Some(config.cwd) == if self.cwd is Some {
                        self.cwd
                    } else {
                        current_dir
                    }
                    &&& match self.command {
                        Some(command) => config.command == command && config.args@
                            == self.command_args@,
                        None => Some(config.command) == current_exe && text::string_views(
                            config.args@,
                        ) == override_args(text::string_views(inherited_config_overrides@))
                            + text::string_views(self.codex_args@),
                    }
                },
            },
    {
        let is_loopback = match self.listen_ip {
            IpParts::V4 { first, .. } => first == 127,
            IpParts::V6 { high, low } => high == 0 && low == 1,
        };
        if !is_loopback {
            return Err(ServerConfigError::NotLoopback);
        }
        let cwd = match self.cwd {
            Some(cwd) => cwd,
            None => match current_dir {
                Some(dir) => dir,
                None => {
                    return Err(ServerConfigError::NoCurrentDirectory);
                },
            },
        };
        match self.command {
            Some(command) => Ok(
                ServerConfig {
                    listen_ip: self.listen_ip,
                    listen_port: self.listen_port,
                    open: self.open,
                    command,
                    args: self.command_args,
                    cwd,
                },
            ),
            None => {
                let command = match current_exe {
                    Some(exe) => exe,
                    None => {
                        return Err(ServerConfigError::NoCurrentExecutable);
                    },
                };
                let ghost v = text::string_views(inherited_config_overrides@);
                let mut args: Vec<String> = Vec::new();
                let mut i: usize = 0;
                assert(text::string_views(args@) =~= override_args(v).take(0));
                while i < inherited_config_overrides.len()
                    invariant
                        i <= inherited_config_overrides.len(),
                        v == text::string_views(inherited_config_overrides@),
                        text::string_views(args@) == override_args(v).take(2 * i),
                    decreases inherited_config_overrides.len() - i,
                {
                    let ghost before = args@;
                    args.push("-c".to_owned());
                    args.push(inherited_config_overrides[i].clone());
                    proof {
                        assert(text::string_views(args@) =~= text::string_views(before).push(
                            "-c"@,
                        ).push(v[i as int]));
                        assert((2 * i + 1) / 2 == i);
                        assert(override_args(v).take(2 * (i + 1)) =~= override_args(v).take(
                            2 * i,
                        ).push("-c"@).push(v[i as int]));
                    }
                    i = i + 1;
                }
                assert(override_args(v).take(2 * i) =~= override_args(v));
                let ghost before = args@;
                let mut forwarded = self.codex_args;
                args.append(&mut forwarded);
                assert(text::string_views(args@) =~= text::string_views(before)
                    + text::string_views(self.codex_args@));
                Ok(
                    ServerConfig {
                        listen_ip: self.listen_ip,
                        listen_port: self.listen_port,
                        open: self.open,
                        command,
                        args,
                        cwd,
                    },
                )
            },
        }
    }
}

/// The URL of the server, with an IPv6 address in brackets.
pub fn http_url_for_addr(ip: &str, is_v6: bool, port: u16) -> (r: String)
    ensures
        r@ == if is_v6 {
            "http://["@ + ip@ + "]:"@ + text::decimal(port as nat)
        } else {
            "http://"@ + ip@ + ":"@ + text::decimal(port as nat)
        },
{
    let mut r = if is_v6 {
        "http://[".to_owned()
    } else {
        "http://".to_owned()
    };
    r.push_str(ip);
    if is_v6 {
        r.push_str("]:");
    } else {
        r.push_str(":");
    }
    let digits = text::decimal_u64(port as u64);
    r.push_str(digits.as_str());
    r
}

// ---- the environment of the terminal process ----

/// The views of environment variables: names and values.
pub open spec fn env_view(vars: Seq<(String, String)>) -> Seq<(Seq<char>, Seq<char>)> {
    vars.map_values(|v: (String, String)| (v.0@, v.1@))
}

/// The position of the first variable from `i` on with name `key`, or the number of variables.
pub open spec fn var_index(vars: Seq<(Seq<char>, Seq<char>)>, key: Seq<char>, i: int) -> int
    decreases vars.len() - i,
{
    if i < 0 || i >= vars.len() {
        vars.len() as int
    } else if vars[i].0 == key {
        i
    } else {
        var_index(vars, key, i + 1)
    }
}

/// The variables with `key` set to `value`: in its place where it is there, else at the end.
pub open spec fn with_var(
    vars: Seq<(Seq<char>, Seq<char>)>,
    key: Seq<char>,
    value: Seq<char>,
) -> Seq<(Seq<char>, Seq<char>)> {
    let i = var_index(vars, key, 0);
    if 0 <= i < vars.len() {
        vars.update(i, (key, value))
    } else {
        vars.push((key, value))
    }
}

fn set_var(vars: &mut Vec<(String, String)>, key: &str, value: &str)
    ensures
        env_view(final(vars)@) == with_var(env_view(old(vars)@), key@, value@),
{
    let ghost v = env_view(vars@);
    let mut i: usize = 0;
    while i < vars.len()
        invariant
            i <= vars.len(),
            v == env_view(vars@),
            v == env_view(old(vars)@),
            var_index(v, key@, 0) == var_index(v, key@, i as int),
        decreases vars.len() - i,
    {
        assert(v[i as int].0 == vars@[i as int].0@);
        if text::same_str(vars[i].0.as_str(), key) {
            vars.set(i, (key.to_owned(), value.to_owned()));
            assert(env_view(vars@) =~= v.update(i as int, (key@, value@)));
            return;
        }
        i = i + 1;
    }
    vars.push((key.to_owned(), value.to_owned()));
    assert(env_view(vars@) =~= v.push((key@, value@)));
}

/// The environment of the terminal process: the inherited one, with what the browser
/// terminal needs to be told.
pub fn child_environment(inherited: Vec<(String, String)>) -> (r: Vec<(String, String)>)
    ensures
        env_view(r@) == with_var(
            with_var(
                with_var(
                    with_var(env_view(inherited@), "TERM"@, "xterm-256color"@),
                    "COLORTERM"@,
                    "truecolor"@,
                ),
                "TERM_PROGRAM"@,
                "wterm"@,
            ),
            "CODEX_TUI_DISABLE_KEYBOARD_ENHANCEMENT"@,
            "1"@,
        ),
{
    let mut env = inherited;
    set_var(&mut env, "TERM", "xterm-256color");
    set_var(&mut env, "COLORTERM", "truecolor");
    set_var(&mut env, "TERM_PROGRAM", "wterm");
    set_var(&mut env, "CODEX_TUI_DISABLE_KEYBOARD_ENHANCEMENT", "1");
    env
}

/// A frame that is refused is empty, of an unknown kind, or a resize that is not four bytes long or
/// has a side of zero, and the error says which.
pub proof fn refused_frames_say_why(b: Seq<u8>)
    requires
        decoded(b) is Err,
    ensures
        match decoded(b)->Err_0 {
            FrameDecodeError::Empty => b.len() == 0,
            FrameDecodeError::MalformedResize => b.len() > 0 && b[0] == 1 && b.len() != 5,
            FrameDecodeError::ZeroResize => b.len() == 5 && b[0] == 1 && (b[1] == 0 && b[2] == 0
                || b[3] == 0 && b[4] == 0),
            FrameDecodeError::UnknownFrameType(kind) => b.len() > 0 && b[0] == kind && kind > 1,
        },
{
}

proof fn lemma_asset_index(assets: Seq<AssetFile>, path: Seq<char>, i: int)
    requires
        0 <= i <= assets.len(),
    ensures
        match asset_index(assets, path, i) {
            Some(k) => i <= k < assets.len() && assets[k].path@ == path && forall|j: int|
                i <= j < k ==> (#[trigger] assets[j]).path@ != path,
            None => forall|j: int| i <= j < assets.len() ==> (#[trigger] assets[j]).path@ != path,
        },
    decreases assets.len() - i,
{
    if i < assets.len() && assets[i].path@ != path {
        lemma_asset_index(assets, path, i + 1);
    }
}

/// What is served for a clean path is the asset of that path; where there is none it is the index
/// page; and for a path that is not clean nothing is.
pub proof fn assets_are_served_under_their_path(assets: Seq<AssetFile>, request: Seq<char>)
    ensures
        !is_clean(requested(request)) ==> served(assets, request) is None,
        is_clean(requested(request)) ==> match served(assets, request) {
            Some(i) => 0 <= i < assets.len() && (assets[i].path@ == requested(request)
                || assets[i].path@ == "index.html"@ && forall|j: int|
                0 <= j < assets.len() ==> (#[trigger] assets[j]).path@ != requested(request)),
            None => forall|j: int|
                0 <= j < assets.len() ==> (#[trigger] assets[j]).path@ != requested(request)
                    && assets[j].path@ != "index.html"@,
        },
{
    lemma_asset_index(assets, requested(request), 0);
    lemma_asset_index(assets, "index.html"@, 0);
}

/// The path that a request asks for is what follows its slash, and the index page where nothing
/// follows.
pub proof fn requests_ask_for_what_follows_the_slash(path: Seq<char>)
    requires
        path.len() > 0,
    ensures
        requested(seq!['/'] + path) == path,
        path[0] != '/' ==> requested(path) == path,
        requested(seq!['/']) == "index.html"@,
        requested(Seq::empty()) == "index.html"@,
{
    reveal_strlit("/");
    let slashed = seq!['/'] + path;
    assert(slashed.subrange(0, 1) =~= "/"@);
    assert(text::has_prefix(slashed, "/"@));
    assert(slashed.skip(1) =~= path);
    let single = seq!['/'];
    assert(single.subrange(0, 1) =~= "/"@);
    assert(text::has_prefix(single, "/"@));
    assert(single.skip(1).len() == 0);
    if path[0] != '/' {
        assert(path.subrange(0, 1)[0] == path[0]);
        assert(!text::has_prefix(path, "/"@));
    }
}

/// A clean path has no empty piece, stays where it is and does not go up, and holds no backslash.
pub proof fn clean_paths_stay_inside(path: Seq<char>)
    ensures
        is_clean(path) ==> path.len() > 0 && path[0] != '/' && path.last() != '/' && !path.contains(
            '\\',
        ) && path != ".."@ && path != "."@,
{
    reveal_strlit("..");
    reveal_strlit(".");
    if is_clean(path) {
        let pieces = text::split_on(path, '/');
        text::splitting_is_undone_by_joining(path, '/');
        text::lemma_first_index(path, '/');
        if path.len() == 0 {
            assert(pieces[0] == path);
        } else if path[0] == '/' {
            assert(text::first_index(path, '/') == 0);
            assert(pieces[0] == path.take(0));
        }
        if path == ".."@ || path == "."@ {
            assert(!path.contains('/'));
            assert(pieces[0] == path);
        }
        if path.len() > 0 && path.last() == '/' {
            text::lemma_split_ends_empty(path, '/');
        }
    }
}

/// The type of a file is told by what follows the last dot of its path, whatever stands before it.
pub proof fn types_are_told_by_extension(base: Seq<char>, other: Seq<char>, ext: Seq<char>)
    requires
        !ext.contains('.'),
    ensures
        extension(base + seq!['.'] + ext) == Some(ext),
        content_type(base + seq!['.'] + ext) == content_type(other + seq!['.'] + ext),
        !base.contains('.') ==> content_type(base) == "application/octet-stream"@,
{
    lemma_extension(base, ext);
    lemma_extension(other, ext);
    paths::lemma_last_index(base, '.');
    if !base.contains('.') && paths::last_index(base, '.') >= 0 {
        assert(base.contains(base[paths::last_index(base, '.')]));
    }
}

proof fn lemma_extension(base: Seq<char>, ext: Seq<char>)
    requires
        !ext.contains('.'),
    ensures
        extension(base + seq!['.'] + ext) == Some(ext),
{
    let path = base + seq!['.'] + ext;
    paths::lemma_last_index(path, '.');
    let i = paths::last_index(path, '.');
    assert(path[base.len() as int] == '.');
    if i > base.len() {
        assert(path[i] == ext[i - base.len() - 1]);
        assert(ext.contains(path[i]));
    }
    assert(i == base.len());
    assert(path.skip(i + 1) =~= ext);
}

/// Each override is handed on behind a flag of its own, in order.
pub proof fn overrides_are_handed_on(overrides: Seq<Seq<char>>, i: int)
    requires
        0 <= i < overrides.len(),
    ensures
        override_args(overrides).len() == 2 * overrides.len(),
        override_args(overrides)[2 * i] == "-c"@,
        override_args(overrides)[2 * i + 1] == overrides[i],
{
}

/// What a variable is set to in an environment.
pub open spec fn var_value(vars: Seq<(Seq<char>, Seq<char>)>, key: Seq<char>) -> Option<Seq<char>> {
    let i = var_index(vars, key, 0);
    if 0 <= i < vars.len() {
        Some(vars[i].1)
    } else {
        None
    }
}

proof fn lemma_var_index(vars: Seq<(Seq<char>, Seq<char>)>, key: Seq<char>, i: int)
    requires
        0 <= i <= vars.len(),
    ensures
        ({
            let k = var_index(vars, key, i);
            &&& i <= k <= vars.len()
            &&& k < vars.len() ==> vars[k].0 == key
            &&& forall|j: int| i <= j < k ==> (#[trigger] vars[j]).0 != key
        }),
    decreases vars.len() - i,
{
    if i < vars.len() && vars[i].0 != key {
        lemma_var_index(vars, key, i + 1);
    }
}

/// A variable that is set has its value, all others keep theirs, and none is set twice that was not
/// before.
pub proof fn setting_a_variable_sets_it_alone(
    vars: Seq<(Seq<char>, Seq<char>)>,
    key: Seq<char>,
    value: Seq<char>,
    other: Seq<char>,
)
    ensures
        var_value(with_var(vars, key, value), key) == Some(value),
        other != key ==> var_value(with_var(vars, key, value), other) == var_value(vars, other),
        with_var(vars, key, value).len() == if var_value(vars, key) is Some {
            vars.len()
        } else {
            vars.len() + 1
        },
{
    let after = with_var(vars, key, value);
    let i = var_index(vars, key, 0);
    lemma_var_index(vars, key, 0);
    lemma_var_index(after, key, 0);
    lemma_var_index(vars, other, 0);
    lemma_var_index(after, other, 0);
    let k = var_index(after, key, 0);
    assert(after[i] == (key, value));
    if k < i {
        assert(after[k] == vars[k]);
    }
    assert(k == i);
    if other != key {
        let a = var_index(vars, other, 0);
        let b = var_index(after, other, 0);
        if a < vars.len() {
            assert(after[a] == vars[a]);
            if b < a {
                assert(after[b] == vars[b] || b == i);
            }
            assert(b == a);
        } else if b < after.len() {
            assert(b != i);
            assert(after[b] == vars[b]);
        }
    }
}

/// Hosts are compared without regard to case, and nothing matches a host that is not there.
pub proof fn hosts_match_whatever_their_case(a: Seq<char>, host: String, other: String)
    requires
        text::ascii_lower(host@) == text::ascii_lower(other@),
    ensures
        same_host(Some(a), HeaderText::Text(host)) == same_host(Some(a), HeaderText::Text(other)),
        same_host(Some(text::ascii_lower(a)), HeaderText::Text(host)) == same_host(
            Some(a),
            HeaderText::Text(host),
        ),
        same_host(Some(host@), HeaderText::Text(host)),
        !same_host(None, HeaderText::Text(host)),
        !same_host(Some(a), HeaderText::Absent),
        !same_host(Some(a), HeaderText::Unreadable),
{
    assert(text::ascii_lower(text::ascii_lower(a)) =~= text::ascii_lower(a));
}

/// A request without an origin is let in; with one it is let in exactly if its authority is the
/// host that was asked, and never if it cannot be read.
pub proof fn origins_are_let_in_by_host(origin: String, host: HeaderText)
    ensures
        origin_allowed(HeaderText::Absent, host),
        !origin_allowed(HeaderText::Unreadable, host),
        origin_allowed(HeaderText::Text(origin), host) ==> host is Text && url_authority(
            origin@,
        ) is Some && text::ascii_lower(url_authority(origin@)->0) == text::ascii_lower(
            host->Text_0@,
        ),
        url_authority(origin@) is None ==> !origin_allowed(HeaderText::Text(origin), host),
{
}

/// The server listens on nothing but the machine itself, and knows where and what to run.
pub proof fn servers_stay_on_the_machine(
    c: WebCommand,
    current_dir: Option<String>,
    current_exe: Option<String>,
)
    ensures
        config_refusal(c, current_dir, current_exe) is None ==> (c.listen_ip matches IpParts::V4 {
            first,
            ..
        } ==> first == 127) && (c.listen_ip matches IpParts::V6 { high, low } ==> high == 0 && low
            == 1),
        config_refusal(c, current_dir, current_exe) is None <==> loopback(c.listen_ip) && (
        c.cwd is Some || current_dir is Some) && (c.command is Some || current_exe is Some),
        config_refusal(c, current_dir, current_exe) == Some(ServerConfigError::NotLoopback)
            <==> !loopback(c.listen_ip),
{
}

/// The index page is never kept by a browser, and every other asset may be kept for good.
pub proof fn only_the_index_page_is_not_kept(path: Seq<char>)
    ensures
        cache_policy("index.html"@) == "no-store"@,
        path != "index.html"@ ==> cache_policy(path) == "public, max-age=31536000, immutable"@,
{
}

/// Style sheets, pages, scripts, data, drawings and programs have their types, wherever they lie and
/// whatever they are called.
pub proof fn known_files_have_their_types(base: Seq<char>, ext: Seq<char>)
    requires
        !ext.contains('.'),
    ensures
        ({
            let t = content_type(base + seq!['.'] + ext);
            &&& ext == "css"@ ==> t == "text/css; charset=utf-8"@
            &&& ext == "html"@ ==> t == "text/html; charset=utf-8"@
            &&& ext == "js"@ ==> t == "text/javascript; charset=utf-8"@
            &&& ext == "json"@ || ext == "map"@ ==> t == "application/json; charset=utf-8"@
            &&& ext == "svg"@ ==> t == "image/svg+xml"@
            &&& ext == "wasm"@ ==> t == "application/wasm"@
            &&& ext != "css"@ && ext != "html"@ && ext != "js"@ && ext != "json"@ && ext != "map"@
                && ext != "svg"@ && ext != "wasm"@ ==> t == "application/octet-stream"@
        }),
{
    lemma_extension(base, ext);
    reveal_strlit("css");
    reveal_strlit("html");
    reveal_strlit("js");
    reveal_strlit("json");
    reveal_strlit("map");
    reveal_strlit("svg");
    reveal_strlit("wasm");
    assert("css"@[0] == 'c' && "html"@[0] == 'h' && "js"@.len() == 2 && "json"@[0] == 'j'
        && "map"@[0] == 'm' && "svg"@[0] == 's' && "wasm"@[0] == 'w' && "json"@.len() == 4);
}

} // verus!
