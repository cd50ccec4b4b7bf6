//! The decisions behind the drag-and-drop interface.
//!
//! One page and a small job API: the browser uploads bytes, the server runs the
//! codec on a worker thread and the page polls for progress.
//!
//! This is a local tool, not a public service. It caps request size and limits
//! how many jobs run at once, but it does no authentication whatsoever: do not
//! expose it to an untrusted network.

use vstd::prelude::*;
use vstd::string::StringExecFns;
#[allow(unused_imports)]
use vstd::utf8::encode_utf8;

#[allow(unused_imports)]
use crate::container::looks_like_archive;
use crate::container::{is_archive, DEFAULT_LEVEL, MAX_LEVEL};
#[allow(unused_imports)]
use crate::convert::{format_named, format_table, OptionsView};
use crate::convert::{formats, Format, Kind, Options};
#[allow(unused_imports)]
use crate::download::url_error;
use crate::download::{check_url, Tool};
use crate::http::{json_string, query_param, Reply};
#[allow(unused_imports)]
use crate::http::{json_quoted, param, ReplyView};
#[allow(unused_imports)]
use crate::jobs::{JobView, RegistryView, MAX_RUNNING};
use crate::jobs::{Op, Registry};
use crate::text::{
    chars_of, parse_number, push_decimal, rsplit_once, same, strip_prefix, to_lower,
};
#[allow(unused_imports)]
use crate::text::{
    decimal, last_halves, lemma_decimal, lowered, number, text_or_none, texts_of, without_prefix,
};
#[allow(unused_imports)]
use crate::video::SettingsView;
use crate::video::{Codec, Settings};

verus! {

// ------------------------------------------------------------------- routing

/// What a request asks for.
pub enum Route {
    Page,
    /// The clip that the page plays when a job is done.
    Sound,
    Config,
    PostJob,
    PostDownload,
    /// A job; what follows `/api/jobs/` in the path.
    Job(String),
    NotFound,
}

/// What a request asks for, as contracts see it.
pub enum RouteView {
    Page,
    Sound,
    Config,
    PostJob,
    PostDownload,
    Job(Seq<char>),
    NotFound,
}

impl View for Route {
    type V = RouteView;

    open spec fn view(&self) -> RouteView {
        match self {
            Route::Page => RouteView::Page,
            Route::Sound => RouteView::Sound,
            Route::Config => RouteView::Config,
            Route::PostJob => RouteView::PostJob,
            Route::PostDownload => RouteView::PostDownload,
            Route::Job(rest) => RouteView::Job(rest@),
            Route::NotFound => RouteView::NotFound,
        }
    }
}

/// What `method` on `path` asks for.
pub open spec fn routed(method: Seq<char>, path: Seq<char>) -> RouteView {
    if method == "GET"@ && (path == "/"@ || path == "/index.html"@) {
        RouteView::Page
    } else if method == "GET"@ && path == "/done.m4a"@ {
        RouteView::Sound
    } else if method == "GET"@ && path == "/api/config"@ {
        RouteView::Config
    } else if method == "POST"@ && path == "/api/jobs"@ {
        RouteView::PostJob
    } else if method == "POST"@ && path == "/api/download"@ {
        RouteView::PostDownload
    } else if method == "GET"@ && without_prefix(path, "/api/jobs/"@) is Some {
        RouteView::Job(without_prefix(path, "/api/jobs/"@)->Some_0)
    } else {
        RouteView::NotFound
    }
}

/// What `method` on `path` asks for.
pub fn route(method: &str, path: &str) -> (r: Route)
    ensures
        r@ == routed(method@, path@),
{
    let get = same(method, "GET");
    let post = same(method, "POST");
    if get && (same(path, "/") || same(path, "/index.html")) {
        return Route::Page;
    }
    if get && same(path, "/done.m4a") {
        return Route::Sound;
    }
    if get && same(path, "/api/config") {
        return Route::Config;
    }
    if post && same(path, "/api/jobs") {
        return Route::PostJob;
    }
    if post && same(path, "/api/download") {
        return Route::PostDownload;
    }
    if get {
        match strip_prefix(path, "/api/jobs/") {
            Some(rest) => {
                return Route::Job(rest);
            },
            None => {},
        }
    }
    Route::NotFound
}

/// The reply to a request for nothing we have.
pub fn no_such_route() -> (r: Reply)
    ensures
        r@ == ReplyView::error("404 Not Found"@, "no such route"@),
{
    Reply::error("404 Not Found", "no such route")
}

/// The reply that carries the page.
pub fn page_reply(page: &[u8]) -> (r: Reply)
    ensures
        r@ == (ReplyView {
            status: "200 OK"@,
            ctype: "text/html; charset=utf-8"@,
            extra: "Cache-Control: no-store\r\n"@,
            body: page@,
        }),
{
    Reply {
        status: "200 OK",
        ctype: "text/html; charset=utf-8",
        extra: "Cache-Control: no-store\r\n".to_string(),
        body: vstd::slice::slice_to_vec(page),
    }
}

/// The reply that carries the clip.
pub fn sound_reply(sound: &[u8]) -> (r: Reply)
    ensures
        r@ == (ReplyView {
            status: "200 OK"@,
            ctype: "audio/mp4"@,
            extra: ""@,
            body: sound@,
        }),
{
    Reply {
        status: "200 OK",
        ctype: "audio/mp4",
        extra: "".to_string(),
        body: vstd::slice::slice_to_vec(sound),
    }
}

/// The reply to a request that was accepted as job `id`.
pub open spec fn accepted_reply(id: u64) -> ReplyView {
    ReplyView::json("202 Accepted"@, "{\"id\":"@ + decimal(id as nat) + "}"@)
}

/// The reply to a request that was accepted as job `id`.
pub fn accepted(id: u64) -> (r: Reply)
    ensures
        r@ == accepted_reply(id),
{
    let mut s = "{\"id\":".to_string();
    push_decimal(&mut s, id);
    s.append("}");
    Reply::json("202 Accepted", s.as_str())
}

// ------------------------------------------------------------- configuration

pub open spec fn kind_spec(kind: Kind) -> Seq<char> {
    match kind {
        Kind::Video => "video"@,
        Kind::Animation => "animation"@,
        Kind::Image => "image"@,
        Kind::Audio => "audio"@,
    }
}

/// The page's name for a kind of format.
pub fn kind_name(kind: Kind) -> (s: &'static str)
    ensures
        s@ == kind_spec(kind),
{
    match kind {
        Kind::Video => "video",
        Kind::Animation => "animation",
        Kind::Image => "image",
        Kind::Audio => "audio",
    }
}

/// A format, as JSON.
pub open spec fn format_json(f: Format) -> Seq<char> {
    "{\"ext\":"@ + json_quoted(f.ext@) + ",\"label\":"@ + json_quoted(f.label@) + ",\"kind\":"@
        + json_quoted(kind_spec(f.kind)) + "}"@
}

/// The first `n` formats, as JSON, with commas in between.
pub open spec fn formats_json(n: nat) -> Seq<char>
    decreases n,
{
    if n == 0 {
        Seq::empty()
    } else if n == 1 {
        format_json(format_table()[0])
    } else {
        formats_json((n - 1) as nat) + ","@ + format_json(format_table()[n - 1])
    }
}

/// What the page has to know, as JSON.
pub open spec fn config_spec(
    default_level: u8,
    max_body: usize,
    ffmpeg: bool,
    downloader: Option<Tool>,
) -> Seq<char> {
    "{\"default_level\":"@ + decimal(default_level as nat) + ",\"max_level\":"@ + decimal(
        MAX_LEVEL as nat,
    ) + ",\"max_size\":"@ + decimal(max_body as nat) + ",\"ffmpeg\":"@ + (if ffmpeg {
        "true"@
    } else {
        "false"@
    }) + ",\"downloader\":"@ + (match downloader {
        Some(t) => json_quoted(t.name_spec()),
        None => "null"@,
    }) + ",\"formats\":["@ + formats_json(16) + "]}"@
}

fn push_format(s: &mut String, f: Format)
    ensures
        final(s)@ == old(s)@ + format_json(f),
{
    let mut t = "{\"ext\":".to_string();
    t.append(json_string(f.ext).as_str());
    t.append(",\"label\":");
    t.append(json_string(f.label).as_str());
    t.append(",\"kind\":");
    t.append(json_string(kind_name(f.kind)).as_str());
    t.append("}");
    s.append(t.as_str());
}

/// What the page has to know, as JSON.
pub fn config_json(
    default_level: u8,
    max_body: usize,
    ffmpeg: bool,
    downloader: Option<Tool>,
) -> (s: String)
    ensures
        s@ == config_spec(default_level, max_body, ffmpeg, downloader),
{
    let mut s = "{\"default_level\":".to_string();
    push_decimal(&mut s, default_level as u64);
    s.append(",\"max_level\":");
    push_decimal(&mut s, MAX_LEVEL as u64);
    s.append(",\"max_size\":");
    push_decimal(&mut s, max_body as u64);
    s.append(",\"ffmpeg\":");
    s.append(if ffmpeg {
        "true"
    } else {
        "false"
    });
    s.append(",\"downloader\":");
    match downloader {
        Some(t) => s.append(json_string(t.name()).as_str()),
        None => s.append("null"),
    }
    s.append(",\"formats\":[");
    let table = formats();
    let mut list = String::new();
    push_format(&mut list, table[0]);
    assert(list@ =~= formats_json(1));
    let mut i: usize = 1;
    while i < 16
        invariant
            1 <= i <= 16,
            table@ == format_table(),
            list@ == formats_json(i as nat),
        decreases 16 - i,
    {
        list.append(",");
        push_format(&mut list, table[i]);
        i = i + 1;
    }
    s.append(list.as_str());
    s.append("]}");
    s
}

/// What `serve` says when it starts.
pub open spec fn greeting(
    host: Seq<char>,
    addr: Seq<char>,
    default_level: u8,
    max_size_mib: usize,
    ffmpeg: bool,
    downloader: Option<Tool>,
) -> Seq<Seq<char>> {
    seq![
        "compactor serve: http://"@ + addr,
        "default level "@ + decimal(default_level as nat) + ", upload limit "@ + decimal(
            max_size_mib as nat,
        ) + " MiB"@,
        if ffmpeg {
            "ffmpeg found: video re-encoding (fps, resolution) available"@
        } else {
            "ffmpeg not on PATH: video re-encoding disabled"@
        },
        match downloader {
            Some(t) => t.name_spec() + " found: downloading from a link available"@,
            None => "neither yt-dlp nor curl on PATH: downloading disabled"@,
        },
    ] + (if host != "127.0.0.1"@ && host != "localhost"@ {
        seq!["warning: bound to "@ + host + "; the interface has no authentication."@]
    } else {
        Seq::empty()
    }) + seq!["Ctrl-C to stop."@]
}

/// What `serve` says when it starts, line by line.
pub fn greet(
    host: &str,
    addr: &str,
    default_level: u8,
    max_size_mib: usize,
    ffmpeg: bool,
    downloader: Option<Tool>,
) -> (lines: Vec<String>)
    ensures
        texts_of(lines@) == greeting(
            host@,
            addr@,
            default_level,
            max_size_mib,
            ffmpeg,
            downloader,
        ),
{
    let mut a = "compactor serve: http://".to_string();
    a.append(addr);
    let mut b = "default level ".to_string();
    push_decimal(&mut b, default_level as u64);
    b.append(", upload limit ");
    push_decimal(&mut b, max_size_mib as u64);
    b.append(" MiB");
    let c = if ffmpeg {
        "ffmpeg found: video re-encoding (fps, resolution) available".to_string()
    } else {
        "ffmpeg not on PATH: video re-encoding disabled".to_string()
    };
    let d = match downloader {
        Some(t) => {
            let mut d = t.name().to_string();
            d.append(" found: downloading from a link available");
            d
        },
        None => "neither yt-dlp nor curl on PATH: downloading disabled".to_string(),
    };
    let mut lines: Vec<String> = Vec::new();
    lines.push(a);
    lines.push(b);
    lines.push(c);
    lines.push(d);
    if !same(host, "127.0.0.1") && !same(host, "localhost") {
        let mut w = "warning: bound to ".to_string();
        w.append(host);
        w.append("; the interface has no authentication.");
        lines.push(w);
    }
    lines.push("Ctrl-C to stop.".to_string());
    assert(texts_of(lines@) =~= greeting(
        host@,
        addr@,
        default_level,
        max_size_mib,
        ffmpeg,
        downloader,
    ));
    lines
}

/// The upload limit in bytes.
pub fn body_limit(max_size_mib: usize) -> (n: usize)
    ensures
        n == (if max_size_mib * 0x10_0000 > usize::MAX {
            usize::MAX as int
        } else {
            max_size_mib * 0x10_0000
        }),
{
    match max_size_mib.checked_mul(0x10_0000) {
        Some(n) => n,
        None => usize::MAX,
    }
}

// ---------------------------------------------------------------- parameters

/// The level that a request asks for, if it is one; `default` else.
pub open spec fn level_param(query: Seq<char>, default: u8) -> u8 {
    match param(query, "level"@) {
        Some(s) => match number(s, 255) {
            Some(n) => if n <= MAX_LEVEL {
                n as u8
            } else {
                default
            },
            None => default,
        },
        None => default,
    }
}

/// The level that a request asks for.
pub fn requested_level(query: &str, default: u8) -> (l: u8)
    ensures
        l == level_param(query@, default),
{
    match query_param(query, "level") {
        Some(s) => match parse_number(s.as_str(), 255) {
            Some(n) => if n <= MAX_LEVEL as u64 {
                n as u8
            } else {
                default
            },
            None => default,
        },
        None => default,
    }
}

/// The number that parameter `key` gives.
pub open spec fn number_param(query: Seq<char>, key: Seq<char>) -> Option<u32> {
    match param(query, key) {
        Some(s) => match number(s, u32::MAX as nat) {
            Some(n) => Some(n as u32),
            None => None,
        },
        None => None,
    }
}

fn requested_number(query: &str, key: &str) -> (r: Option<u32>)
    ensures
        r == number_param(query@, key@),
{
    match query_param(query, key) {
        Some(s) => match parse_number(s.as_str(), u32::MAX as u64) {
            Some(n) => Some(n as u32),
            None => None,
        },
        None => None,
    }
}

/// A number other than 0.
pub open spec fn positive(n: Option<u32>) -> Option<u32> {
    match n {
        Some(0) => None,
        _ => n,
    }
}

fn only_positive(n: Option<u32>) -> (r: Option<u32>)
    ensures
        r == positive(n),
{
    match n {
        Some(v) => if v == 0 {
            None
        } else {
            n
        },
        None => n,
    }
}

/// Whether parameter `key` has the value `value`.
pub open spec fn param_is(query: Seq<char>, key: Seq<char>, value: Seq<char>) -> bool {
    param(query, key) == Some(value)
}

fn requested_value(query: &str, key: &str, value: &str) -> (r: bool)
    ensures
        r == param_is(query@, key@, value@),
{
    match query_param(query, key) {
        Some(s) => same(s.as_str(), value),
        None => false,
    }
}

/// The re-encoding settings that a request asks for, with the frame rate `fps`.
/// Names are lowercased first: silently falling back to H264 on `codec=VP9`
/// would write the wrong file with no warning.
pub open spec fn asked_settings(query: Seq<char>, fps: Option<Seq<char>>) -> SettingsView {
    SettingsView {
        width: positive(number_param(query, "width"@)),
        height: positive(number_param(query, "height"@)),
        fps,
        crf: match number_param(query, "crf"@) {
            Some(c) => if c < 63 {
                c as u8
            } else {
                63
            },
            None => 28,
        },
        preset: match param(query, "preset"@) {
            Some(p) => lowered(p),
            None => "medium"@,
        },
        codec: match param(query, "codec"@) {
            Some(s) => match Codec::named(lowered(s)) {
                Some(c) => c,
                None => Codec::H264,
            },
            None => Codec::H264,
        },
        audio: !param_is(query, "audio"@, "0"@),
    }
}

/// The settings that a request asks for, with everything in range.
pub open spec fn settings_param(query: Seq<char>, fps: Option<Seq<char>>) -> SettingsView {
    asked_settings(query, fps).sanitised()
}

/// Read the re-encoding parameters out of the query string, with the frame rate
/// `fps`. Everything is optional and everything is clamped, since these values
/// come straight from a form.
pub fn video_settings(query: &str, fps: Option<String>) -> (s: Settings)
    ensures
        s@ == settings_param(query@, text_or_none(fps)),
{
    let mut s = Settings::default();
    s.width = only_positive(requested_number(query, "width"));
    s.height = only_positive(requested_number(query, "height"));
    s.fps = fps;
    s.codec = match query_param(query, "codec") {
        Some(c) => match Codec::parse(to_lower(c.as_str()).as_str()) {
            Some(c) => c,
            None => Codec::H264,
        },
        None => Codec::H264,
    };
    s.audio = !requested_value(query, "audio", "0");
    match requested_number(query, "crf") {
        Some(c) => {
            s.crf = if c < 63 {
                c as u8
            } else {
                63
            };
        },
        None => {},
    }
    match query_param(query, "preset") {
        Some(p) => {
            s.preset = to_lower(p.as_str());
        },
        None => {},
    }
    s.sanitise();
    s
}

/// The conversion options that a request asks for, with the frame rate `fps`.
pub open spec fn options_param(query: Seq<char>, fmt: Format, fps: Option<Seq<char>>) -> OptionsView {
    OptionsView {
        format: fmt,
        width: positive(number_param(query, "width"@)),
        height: positive(number_param(query, "height"@)),
        fps,
        quality: match number_param(query, "quality"@) {
            Some(q) => if q < 100 {
                q as u8
            } else {
                100
            },
            None => 75,
        },
        audio: !param_is(query, "audio"@, "0"@),
    }.sanitised()
}

/// Conversion settings from the query string, with the frame rate `fps`.
/// Everything is optional and everything is clamped: these values come straight
/// from a web form.
pub fn convert_options(query: &str, fmt: Format, fps: Option<String>) -> (o: Options)
    ensures
        o@ == options_param(query@, fmt, text_or_none(fps)),
{
    let mut o = Options::new(fmt);
    o.width = only_positive(requested_number(query, "width"));
    o.height = only_positive(requested_number(query, "height"));
    o.fps = fps;
    match requested_number(query, "quality") {
        Some(q) => {
            o.quality = if q < 100 {
                q as u8
            } else {
                100
            };
        },
        None => {},
    }
    o.audio = !requested_value(query, "audio", "0");
    o.sanitise();
    o
}

// ---------------------------------------------------------------------- jobs

/// What a job has to do.
pub enum Work {
    /// Run the codec.
    Codec,
    Video(Settings),
    Convert(Options),
}

/// What a job has to do, as contracts see it.
pub enum WorkView {
    Codec,
    Video(SettingsView),
    Convert(OptionsView),
}

impl View for Work {
    type V = WorkView;

    open spec fn view(&self) -> WorkView {
        match self {
            Work::Codec => WorkView::Codec,
            Work::Video(s) => WorkView::Video(s@),
            Work::Convert(o) => WorkView::Convert(o@),
        }
    }
}

/// A job that an upload asks for.
pub struct JobPlan {
    pub op: Op,
    pub level: u8,
    pub name: String,
    /// Extension of the produced file, for ffmpeg jobs only.
    pub out_ext: String,
    pub work: Work,
}

/// A job that an upload asks for, as contracts see it.
pub struct PlanView {
    pub op: Op,
    pub level: u8,
    pub name: Seq<char>,
    pub out_ext: Seq<char>,
    pub work: WorkView,
}

impl View for JobPlan {
    type V = PlanView;

    open spec fn view(&self) -> PlanView {
        PlanView {
            op: self.op,
            level: self.level,
            name: self.name@,
            out_ext: self.out_ext@,
            work: self.work@,
        }
    }
}

/// The operation that a request asks for. `auto` (and anything unspecified)
/// decompresses our own archives and compresses everything else.
pub open spec fn op_param(query: Seq<char>, archive: bool) -> Op {
    if param_is(query, "op"@, "compress"@) {
        Op::Compress
    } else if param_is(query, "op"@, "decompress"@) {
        Op::Decompress
    } else if param_is(query, "op"@, "video"@) {
        Op::Video
    } else if param_is(query, "op"@, "convert"@) {
        Op::Convert
    } else if archive {
        Op::Decompress
    } else {
        Op::Compress
    }
}

/// The job that an upload asks for, or the reply that refuses it.
pub open spec fn planned_job(
    query: Seq<char>,
    body: Seq<u8>,
    ffmpeg: bool,
    fps: Option<Seq<char>>,
) -> Result<PlanView, ReplyView> {
    let archive = looks_like_archive(body);
    let op = op_param(query, archive);
    let level = level_param(query, DEFAULT_LEVEL);
    let name = match param(query, "name"@) {
        Some(n) => n,
        None => "fichier"@,
    };
    let target = match param(query, "to"@) {
        Some(t) => t,
        None => ""@,
    };
    if body.len() == 0 {
        Err(ReplyView::error("400 Bad Request"@, "empty upload"@))
    } else if op == Op::Decompress && !archive {
        Err(
            ReplyView::error("400 Bad Request"@, "ce fichier n'est pas une archive Compactor"@),
        )
    } else if op == Op::Convert {
        if !ffmpeg {
            Err(
                ReplyView::error(
                    "503 Service Unavailable"@,
                    "ffmpeg est introuvable dans le PATH : la conversion est indisponible"@,
                ),
            )
        } else {
            match format_named(target) {
                None => Err(ReplyView::error("400 Bad Request"@, "format de sortie inconnu"@)),
                Some(f) => Ok(
                    PlanView {
                        op,
                        level,
                        name,
                        out_ext: f.ext@,
                        work: WorkView::Convert(options_param(query, f, fps)),
                    },
                ),
            }
        }
    } else if op == Op::Video {
        if !ffmpeg {
            Err(
                ReplyView::error(
                    "503 Service Unavailable"@,
                    "ffmpeg est introuvable dans le PATH : le ré-encodage vidéo est indisponible"@,
                ),
            )
        } else {
            let s = settings_param(query, fps);
            Ok(
                PlanView {
                    op,
                    level,
                    name,
                    out_ext: s.codec.ext_spec(),
                    work: WorkView::Video(s),
                },
            )
        }
    } else {
        Ok(PlanView { op, level, name, out_ext: ""@, work: WorkView::Codec })
    }
}

/// The operation that a request asks for.
fn requested_op(query: &str, archive: bool) -> (op: Op)
    ensures
        op == op_param(query@, archive),
{
    if requested_value(query, "op", "compress") {
        Op::Compress
    } else if requested_value(query, "op", "decompress") {
        Op::Decompress
    } else if requested_value(query, "op", "video") {
        Op::Video
    } else if requested_value(query, "op", "convert") {
        Op::Convert
    } else if archive {
        Op::Decompress
    } else {
        Op::Compress
    }
}

/// Decide what an upload asks for, `ffmpeg` being whether that is callable and
/// `fps` the frame rate the request gives.
pub fn post_job(query: &str, body: &[u8], ffmpeg: bool, fps: Option<String>) -> (r: Result<
    JobPlan,
    Reply,
>)
    ensures
        match r {
            Ok(p) => planned_job(query@, body@, ffmpeg, text_or_none(fps)) == Ok::<
                PlanView,
                ReplyView,
            >(p@),
            Err(e) => planned_job(query@, body@, ffmpeg, text_or_none(fps)) == Err::<
                PlanView,
                ReplyView,
            >(e@),
        },
{
    if body.len() == 0 {
        return Err(Reply::error("400 Bad Request", "empty upload"));
    }
    let level: u8 = requested_level(query, DEFAULT_LEVEL);
    let name = match query_param(query, "name") {
        Some(n) => n,
        None => "fichier".to_string(),
    };
    let archive = is_archive(body);
    let op = requested_op(query, archive);
    match op {
        Op::Decompress => {
            if !archive {
                return Err(
                    Reply::error("400 Bad Request", "ce fichier n'est pas une archive Compactor"),
                );
            }
            Ok(JobPlan { op, level, name, out_ext: "".to_string(), work: Work::Codec })
        },
        Op::Convert => {
            if !ffmpeg {
                return Err(
                    Reply::error(
                        "503 Service Unavailable",
                        "ffmpeg est introuvable dans le PATH : la conversion est indisponible",
                    ),
                );
            }
            let target = match query_param(query, "to") {
                Some(t) => t,
                None => "".to_string(),
            };
            match crate::convert::format(target.as_str()) {
                None => Err(Reply::error("400 Bad Request", "format de sortie inconnu")),
                Some(f) => {
                    let o = convert_options(query, f, fps);
                    Ok(
                        JobPlan {
                            op,
                            level,
                            name,
                            out_ext: f.ext.to_string(),
                            work: Work::Convert(o),
                        },
                    )
                },
            }
        },
        Op::Video => {
            if !ffmpeg {
                return Err(
                    Reply::error(
                        "503 Service Unavailable",
                        "ffmpeg est introuvable dans le PATH : le ré-encodage vidéo est indisponible",
                    ),
                );
            }
            let s = video_settings(query, fps);
            Ok(
                JobPlan {
                    op,
                    level,
                    name,
                    out_ext: s.codec.ext().to_string(),
                    work: Work::Video(s),
                },
            )
        },
        _ => Ok(JobPlan { op, level, name, out_ext: "".to_string(), work: Work::Codec }),
    }
}

/// There is room for a job, and a number for it.
pub open spec fn has_room(r: RegistryView) -> bool {
    r.running < MAX_RUNNING && r.next_id < u64::MAX
}

/// Accept the job that an upload of `size` bytes asks for, if there is room for
/// it. Its number is returned.
pub fn admit_job(jobs: &mut Registry, plan: &JobPlan, size: usize) -> (r: Result<u64, Reply>)
    requires
        old(jobs)@.valid(),
    ensures
        final(jobs)@.valid(),
        r is Ok <==> has_room(old(jobs)@),
        match r {
            Ok(id) => {
                &&& id == old(jobs)@.next_id
                &&& final(jobs)@ == old(jobs)@.with_started(
                    plan.op,
                    size,
                    plan.name@,
                    plan.out_ext@,
                )
                &&& final(jobs)@.find(id) == Some(
                    JobView::started(id, plan.op, size, plan.name@, plan.out_ext@),
                )
            },
            Err(e) => {
                &&& final(jobs)@ == old(jobs)@
                &&& e@ == ReplyView::error(
                    "503 Service Unavailable"@,
                    "trop de compressions en cours, réessayez dans un instant"@,
                )
            },
        },
{
    let id: Option<u64> = if jobs.exhausted() {
        None
    } else {
        jobs.start(plan.op, size, plan.name.as_str(), plan.out_ext.as_str())
    };
    match id {
        Some(id) => Ok(id),
        None => Err(
            Reply::error(
                "503 Service Unavailable",
                "trop de compressions en cours, réessayez dans un instant",
            ),
        ),
    }
}

/// What is decompressed is an archive, the level of a job is one the codec has,
/// and everything that reaches ffmpeg is in range.
pub proof fn law_planned_jobs(
    query: Seq<char>,
    body: Seq<u8>,
    ffmpeg: bool,
    fps: Option<Seq<char>>,
)
    ensures
        planned_job(query, body, ffmpeg, fps) matches Ok(p) ==> {
            &&& body.len() > 0
            &&& p.op == Op::Decompress ==> looks_like_archive(body)
            &&& p.level <= MAX_LEVEL
            &&& p.op.counts_time() ==> ffmpeg
            &&& p.work matches WorkView::Video(s) ==> s.sane()
            &&& p.work matches WorkView::Convert(o) ==> o.sanitised() == o && o.quality <= 100
        },
{
    crate::video::law_sane_settings(asked_settings(query, fps));
}

// ----------------------------------------------------------------- downloads

/// A download that a request asks for.
pub struct DownloadPlan {
    pub tool: Tool,
    pub url: String,
    /// Run the codec on what came back.
    pub compress: bool,
    pub level: u8,
    /// Let yt-dlp read the cookies of a browser.
    pub cookies: bool,
}

/// A download that a request asks for, as contracts see it.
pub struct DownloadView {
    pub tool: Tool,
    pub url: Seq<char>,
    pub compress: bool,
    pub level: u8,
    pub cookies: bool,
}

impl View for DownloadPlan {
    type V = DownloadView;

    open spec fn view(&self) -> DownloadView {
        DownloadView {
            tool: self.tool,
            url: self.url@,
            compress: self.compress,
            level: self.level,
            cookies: self.cookies,
        }
    }
}

/// The download that a request asks for, or the reply that refuses it.
pub open spec fn planned_download(
    query: Seq<char>,
    downloader: Option<Tool>,
    default_level: u8,
) -> Result<DownloadView, ReplyView> {
    match downloader {
        None => Err(
            ReplyView::error(
                "503 Service Unavailable"@,
                "aucun téléchargeur trouvé : installez yt-dlp ou curl et relancez le serveur"@,
            ),
        ),
        Some(tool) => match param(query, "url"@) {
            None => Err(ReplyView::error("400 Bad Request"@, "paramètre url manquant"@)),
            Some(url) => match url_error(url) {
                Some(e) => Err(ReplyView::error("400 Bad Request"@, e)),
                None => Ok(
                    DownloadView {
                        tool,
                        url,
                        compress: param_is(query, "then"@, "compress"@),
                        level: level_param(query, default_level),
                        cookies: !param_is(query, "cookies"@, "0"@),
                    },
                ),
            },
        },
    }
}

/// Decide what a download request asks for. Nothing is uploaded here: the body
/// is empty and the URL travels in the query string, so a link to a
/// several-gigabyte file costs one short request. `then=compress` chains the
/// codec onto the downloaded bytes, so the file never has to make the round trip
/// through the browser twice; `cookies=0` keeps the browser's cookies out of it.
pub fn post_download(query: &str, downloader: Option<Tool>, default_level: u8) -> (r: Result<
    DownloadPlan,
    Reply,
>)
    ensures
        match r {
            Ok(p) => planned_download(query@, downloader, default_level) == Ok::<
                DownloadView,
                ReplyView,
            >(p@),
            Err(e) => planned_download(query@, downloader, default_level) == Err::<
                DownloadView,
                ReplyView,
            >(e@),
        },
{
    let tool: Tool = match downloader {
        Some(t) => t,
        None => {
            return Err(
                Reply::error(
                    "503 Service Unavailable",
                    "aucun téléchargeur trouvé : installez yt-dlp ou curl et relancez le serveur",
                ),
            );
        },
    };
    let url = match query_param(query, "url") {
        Some(u) => u,
        None => {
            return Err(Reply::error("400 Bad Request", "paramètre url manquant"));
        },
    };
    match check_url(url.as_str()) {
        Ok(()) => {},
        Err(e) => {
            return Err(Reply::error("400 Bad Request", e.as_str()));
        },
    }
    let compress = requested_value(query, "then", "compress");
    let level: u8 = requested_level(query, default_level);
    let cookies = !requested_value(query, "cookies", "0");
    Ok(DownloadPlan { tool, url, compress, level, cookies })
}

/// The operation of a download job.
pub open spec fn download_op(compress: bool) -> Op {
    if compress {
        Op::DownloadCompress
    } else {
        Op::Download
    }
}

/// Accept a download, if there is room for it. Its size is unknown until the
/// transfer ends, and it goes by the link until the file name is known. Its
/// number is returned.
pub fn admit_download(jobs: &mut Registry, plan: &DownloadPlan) -> (r: Result<u64, Reply>)
    requires
        old(jobs)@.valid(),
    ensures
        final(jobs)@.valid(),
        r is Ok <==> has_room(old(jobs)@),
        match r {
            Ok(id) => {
                &&& id == old(jobs)@.next_id
                &&& final(jobs)@ == old(jobs)@.with_started(
                    download_op(plan.compress),
                    0,
                    plan.url@,
                    ""@,
                )
                &&& final(jobs)@.find(id) == Some(
                    JobView::started(id, download_op(plan.compress), 0, plan.url@, ""@),
                )
            },
            Err(e) => {
                &&& final(jobs)@ == old(jobs)@
                &&& e@ == ReplyView::error(
                    "503 Service Unavailable"@,
                    "trop de tâches en cours, réessayez dans un instant"@,
                )
            },
        },
{
    let op: Op = if plan.compress {
        Op::DownloadCompress
    } else {
        Op::Download
    };
    let id: Option<u64> = if jobs.exhausted() {
        None
    } else {
        jobs.start(op, 0, plan.url.as_str(), "")
    };
    match id {
        Some(id) => Ok(id),
        None => Err(
            Reply::error(
                "503 Service Unavailable",
                "trop de tâches en cours, réessayez dans un instant",
            ),
        ),
    }
}

/// Why a download of `len` bytes is refused once it has landed, if it is: the
/// result is served out of memory.
pub open spec fn landed_error(len: nat, max_body: nat) -> Option<Seq<char>> {
    if len == 0 {
        Some("le téléchargement est vide"@)
    } else if len > max_body {
        Some(
            "fichier téléchargé plus gros que la limite du serveur ("@ + decimal(max_body)
                + " octets) ; relancez avec --max-size"@,
        )
    } else {
        None
    }
}

/// Whether a download of `len` bytes is kept once it has landed.
pub fn check_landed(len: usize, max_body: usize) -> (r: Result<(), String>)
    ensures
        match r {
            Ok(()) => landed_error(len as nat, max_body as nat) is None,
            Err(e) => landed_error(len as nat, max_body as nat) == Some(e@),
        },
{
    if len == 0 {
        return Err("le téléchargement est vide".to_string());
    }
    if len > max_body {
        let mut e = "fichier téléchargé plus gros que la limite du serveur (".to_string();
        push_decimal(&mut e, max_body as u64);
        e.append(" octets) ; relancez avec --max-size");
        return Err(e);
    }
    Ok(())
}

// ----------------------------------------------------------- temporary files

/// An ASCII letter or digit.
pub open spec fn is_plain(c: char) -> bool {
    '0' <= c <= '9' || 'a' <= c <= 'z' || 'A' <= c <= 'Z'
}

/// The extension of an uploaded file, where it is short and plain. Some
/// demuxers need it to recognise the container.
pub open spec fn source_ext(name: Seq<char>) -> Seq<char> {
    match last_halves(name, '.') {
        Some((_, e)) => if e.len() <= 5 && forall|i: int|
            0 <= i < e.len() ==> is_plain(#[trigger] e[i]) {
            lowered(e)
        } else {
            "bin"@
        },
        None => "bin"@,
    }
}

/// The extension of an uploaded file, where it is short and plain.
pub fn safe_ext(name: &str) -> (s: String)
    ensures
        s@ == source_ext(name@),
{
    match rsplit_once(name, '.') {
        Some((_, e)) => {
            let v = chars_of(e.as_str());
            let mut plain = v.len() <= 5;
            let mut i: usize = 0;
            while i < v.len()
                invariant
                    i <= v@.len(),
                    v@ == e@,
                    plain == (v@.len() <= 5 && forall|j: int|
                        0 <= j < i ==> is_plain(#[trigger] e@[j])),
                decreases v@.len() - i,
            {
                let c: char = v[i];
                assert(c == e@[i as int]);
                if !(('0' <= c && c <= '9') || ('a' <= c && c <= 'z') || ('A' <= c && c <= 'Z')) {
                    plain = false;
                }
                i = i + 1;
            }
            if plain {
                to_lower(e.as_str())
            } else {
                "bin".to_string()
            }
        },
        None => "bin".to_string(),
    }
}

/// The extension that is kept is plain: it cannot lead out of a directory.
pub proof fn law_safe_ext(name: Seq<char>)
    ensures
        source_ext(name).len() <= 5,
        forall|i: int| 0 <= i < source_ext(name).len() ==> is_plain(#[trigger] source_ext(name)[i]),
{
    reveal_strlit("bin");
    assert forall|i: int| 0 <= i < source_ext(name).len() implies is_plain(
        #[trigger] source_ext(name)[i],
    ) by {
        match last_halves(name, '.') {
            Some((_, e)) => {
                if e.len() <= 5 && forall|j: int| 0 <= j < e.len() ==> is_plain(#[trigger] e[j]) {
                    assert(is_plain(e[i]));
                }
            },
            None => {},
        }
    }
}

/// The start of every temporary name of job `id`: it is built from the process
/// and job numbers, never from the uploaded file name, so a hostile name cannot
/// escape the temp directory.
pub open spec fn temp_stem(pid: u32, id: u64) -> Seq<char> {
    "compactor-"@ + decimal(pid as nat) + "-"@ + decimal(id as nat)
}

fn begin_temp(pid: u32, id: u64) -> (s: String)
    ensures
        s@ == temp_stem(pid, id),
{
    let mut s = "compactor-".to_string();
    push_decimal(&mut s, pid as u64);
    s.append("-");
    push_decimal(&mut s, id);
    s
}

/// No temporary name leads out of its directory, whatever the upload is called.
pub proof fn law_temp_names_stay_inside(pid: u32, id: u64, name: Seq<char>, i: int)
    requires
        0 <= i < (temp_stem(pid, id) + "-in."@ + source_ext(name)).len(),
    ensures
        ({
            let c = (temp_stem(pid, id) + "-in."@ + source_ext(name))[i];
            is_plain(c) || c == '-' || (c == '.' && i == temp_stem(pid, id).len() + 3)
        }),
{
    reveal_strlit("compactor-");
    reveal_strlit("-");
    reveal_strlit("-in.");
    lemma_decimal(pid as nat);
    lemma_decimal(id as nat);
    law_safe_ext(name);
    let a = "compactor-"@;
    let b = decimal(pid as nat);
    let c = "-"@;
    let d = decimal(id as nat);
    let e = "-in."@;
    let f = source_ext(name);
    let s = temp_stem(pid, id) + e + f;
    let n = a.len() + b.len() + c.len() + d.len();
    if i < a.len() {
        assert(s[i] == a[i]);
    } else if i < a.len() + b.len() {
        assert(s[i] == b[i - a.len()]);
    } else if i < a.len() + b.len() + c.len() {
        assert(s[i] == c[i - a.len() - b.len()]);
    } else if i < n {
        assert(s[i] == d[i - a.len() - b.len() - c.len()]);
    } else if i < n + e.len() {
        assert(s[i] == e[i - n]);
    } else {
        assert(s[i] == f[i - n - e.len()]);
    }
}

/// No two jobs of a process share a temporary directory.
pub proof fn law_temp_dirs_are_distinct(pid: u32, a: u64, b: u64)
    requires
        temp_stem(pid, a) + "-dl"@ == temp_stem(pid, b) + "-dl"@,
    ensures
        a == b,
{
    let front = "compactor-"@ + decimal(pid as nat) + "-"@;
    let x = temp_stem(pid, a) + "-dl"@;
    let y = temp_stem(pid, b) + "-dl"@;
    let n = front.len() as int;
    assert(x.len() == n + decimal(a as nat).len() + "-dl"@.len());
    assert(y.len() == n + decimal(b as nat).len() + "-dl"@.len());
    assert(x.subrange(n, n + decimal(a as nat).len()) =~= decimal(a as nat));
    assert(y.subrange(n, n + decimal(b as nat).len()) =~= decimal(b as nat));
    lemma_decimal(a as nat);
    lemma_decimal(b as nat);
}

/// The temporary name of the upload of job `id`.
pub fn temp_input(pid: u32, id: u64, name: &str) -> (s: String)
    ensures
        s@ == temp_stem(pid, id) + "-in."@ + source_ext(name@),
{
    let mut s = begin_temp(pid, id);
    s.append("-in.");
    s.append(safe_ext(name).as_str());
    s
}

/// The temporary name of the result of job `id`.
pub fn temp_output(pid: u32, id: u64, ext: &str) -> (s: String)
    ensures
        s@ == temp_stem(pid, id) + "-out."@ + ext@,
{
    let mut s = begin_temp(pid, id);
    s.append("-out.");
    s.append(ext);
    s
}

/// The temporary directory of download job `id`. A directory per job: the
/// downloader picks the file name itself, so it needs a place where whatever it
/// writes cannot collide with another job.
pub fn temp_dir(pid: u32, id: u64) -> (s: String)
    ensures
        s@ == temp_stem(pid, id) + "-dl"@,
{
    let mut s = begin_temp(pid, id);
    s.append("-dl");
    s
}

/// What each path is, and that there is nothing else.
pub proof fn law_routes(method: Seq<char>, path: Seq<char>, rest: Seq<char>)
    ensures
        routed("GET"@, "/"@) == RouteView::Page,
        routed("GET"@, "/index.html"@) == RouteView::Page,
        routed("GET"@, "/done.m4a"@) == RouteView::Sound,
        routed("GET"@, "/api/config"@) == RouteView::Config,
        routed("POST"@, "/api/jobs"@) == RouteView::PostJob,
        routed("POST"@, "/api/download"@) == RouteView::PostDownload,
        routed("GET"@, "/api/jobs/"@ + rest) == RouteView::Job(rest),
        method != "GET"@ && method != "POST"@ ==> routed(method, path) == RouteView::NotFound,
        path != "/api/jobs"@ && path != "/api/download"@ ==> routed("POST"@, path)
            == RouteView::NotFound,
        routed("GET"@, path) == RouteView::Page ==> path == "/"@ || path == "/index.html"@,
        routed("GET"@, path) == RouteView::Sound ==> path == "/done.m4a"@,
        routed("GET"@, path) == RouteView::Config ==> path == "/api/config"@,
        routed("GET"@, path) matches RouteView::Job(r) ==> path == "/api/jobs/"@ + r,
        routed("GET"@, path) != RouteView::PostJob && routed("GET"@, path)
            != RouteView::PostDownload,
{
    reveal_strlit("GET");
    reveal_strlit("POST");
    reveal_strlit("/");
    reveal_strlit("/index.html");
    reveal_strlit("/done.m4a");
    reveal_strlit("/api/config");
    reveal_strlit("/api/jobs");
    reveal_strlit("/api/jobs/");
    reveal_strlit("/api/download");
    assert("GET"@.len() == 3 && "POST"@.len() == 4);
    assert("/"@.len() == 1 && "/index.html"@.len() == 11 && "/done.m4a"@.len() == 9);
    assert("/api/config"@.len() == 11 && "/api/jobs"@.len() == 9 && "/api/jobs/"@.len() == 10);
    assert("/api/download"@.len() == 13);
    assert("/index.html"@[1] == 'i' && "/done.m4a"@[1] == 'd' && "/api/config"@[1] == 'a');
    assert("/api/config"@[5] == 'c' && "/api/jobs/"@[5] == 'j' && "/api/jobs/"@[1] == 'a');
    let job = "/api/jobs/"@ + rest;
    assert(job[1] == 'a' && job[5] == 'j');
    crate::text::law_prefix_and_suffix(rest, "/api/jobs/"@);
    crate::text::law_prefix_and_suffix(path, "/api/jobs/"@);
}

/// An accepted request is told the number of its job.
pub proof fn law_accepted(id: u64)
    ensures
        accepted_reply(id).status == "202 Accepted"@,
        accepted_reply(id).ctype == "application/json; charset=utf-8"@,
        accepted_reply(id).body == encode_utf8("{\"id\":"@ + decimal(id as nat) + "}"@),
{
}

/// The page is told the level that holds nobody having asked, the highest one, the
/// upload limit, what is on PATH, and the formats in the order of the table.
pub proof fn law_configuration(level: u8, max: usize, ffmpeg: bool, tool: Option<Tool>, i: nat)
    ensures
        config_spec(level, max, ffmpeg, tool) == "{\"default_level\":"@ + decimal(level as nat)
            + ",\"max_level\":"@ + decimal(9) + ",\"max_size\":"@ + decimal(max as nat)
            + ",\"ffmpeg\":"@ + (if ffmpeg {
            "true"@
        } else {
            "false"@
        }) + ",\"downloader\":"@ + (match tool {
            Some(Tool::YtDlp) => json_quoted("yt-dlp"@),
            Some(Tool::Curl) => json_quoted("curl"@),
            None => "null"@,
        }) + ",\"formats\":["@ + formats_json(16) + "]}"@,
        formats_json(1) == format_json(format_table()[0]),
        i > 0 ==> formats_json(i + 1) == formats_json(i) + ","@ + format_json(
            format_table()[i as int],
        ),
{
}

/// A format is told by its extension, its label and its kind.
pub proof fn law_format_is_told(f: Format)
    ensures
        format_json(f) == "{\"ext\":"@ + json_quoted(f.ext@) + ",\"label\":"@ + json_quoted(f.label@)
            + ",\"kind\":"@ + json_quoted(
            match f.kind {
                Kind::Video => "video"@,
                Kind::Animation => "animation"@,
                Kind::Image => "image"@,
                Kind::Audio => "audio"@,
            },
        ) + "}"@,
{
}

/// What `serve` says when it starts: where it listens, with what limits, what is on
/// PATH, and a warning where it is not this machine alone that reaches it.
pub proof fn law_greeting(
    host: Seq<char>,
    addr: Seq<char>,
    level: u8,
    mib: usize,
    ffmpeg: bool,
    tool: Option<Tool>,
)
    ensures
        ({
            let g = greeting(host, addr, level, mib, ffmpeg, tool);
            let local = host == "127.0.0.1"@ || host == "localhost"@;
            &&& g[0] == "compactor serve: http://"@ + addr
            &&& g[1] == "default level "@ + decimal(level as nat) + ", upload limit "@ + decimal(
                mib as nat,
            ) + " MiB"@
            &&& ffmpeg ==> g[2] == "ffmpeg found: video re-encoding (fps, resolution) available"@
            &&& !ffmpeg ==> g[2] == "ffmpeg not on PATH: video re-encoding disabled"@
            &&& tool == Some(Tool::YtDlp) ==> g[3] == "yt-dlp"@
                + " found: downloading from a link available"@
            &&& tool == Some(Tool::Curl) ==> g[3] == "curl"@
                + " found: downloading from a link available"@
            &&& tool is None ==> g[3]
                == "neither yt-dlp nor curl on PATH: downloading disabled"@
            &&& local ==> g.len() == 5
            &&& !local ==> g.len() == 6 && g[4] == "warning: bound to "@ + host
                + "; the interface has no authentication."@
            &&& g.last() == "Ctrl-C to stop."@
        }),
{
}

/// A level from 0 to 9 is taken; without one, or with anything else, it is the
/// default.
pub proof fn law_requested_level(query: Seq<char>, default: u8, n: nat)
    ensures
        param(query, "level"@) is None ==> level_param(query, default) == default,
        param(query, "level"@) == Some(decimal(n)) && n <= 9 ==> level_param(query, default) == n,
        param(query, "level"@) == Some(decimal(n)) && 9 < n <= 255 ==> level_param(query, default)
            == default,
        (param(query, "level"@) matches Some(s) && number(s, 255) is None) ==> level_param(
            query,
            default,
        ) == default,
{
    if n <= 255 {
        crate::text::law_decimal_is_read_back(n, 255);
    }
}

/// The size that is asked for in range is the size that is planned, each under its
/// own name; 0, or nothing, leaves it as it is, and so does what is no number.
pub proof fn law_requested_sizes(
    query: Seq<char>,
    f: Format,
    fps: Option<Seq<char>>,
    n: nat,
)
    ensures
        param(query, "width"@) == Some(decimal(n)) && 16 <= n <= 7680 ==> settings_param(
            query,
            fps,
        ).width == Some(n as u32) && options_param(query, f, fps).width == Some(n as u32),
        param(query, "height"@) == Some(decimal(n)) && 16 <= n <= 7680 ==> settings_param(
            query,
            fps,
        ).height == Some(n as u32) && options_param(query, f, fps).height == Some(n as u32),
        param(query, "width"@) is None || param(query, "width"@) == Some(decimal(0)) || (param(
            query,
            "width"@,
        ) matches Some(s) && number(s, u32::MAX as nat) is None) ==> settings_param(
            query,
            fps,
        ).width is None && options_param(query, f, fps).width is None,
        param(query, "height"@) is None || param(query, "height"@) == Some(decimal(0)) || (param(
            query,
            "height"@,
        ) matches Some(s) && number(s, u32::MAX as nat) is None) ==> settings_param(
            query,
            fps,
        ).height is None && options_param(query, f, fps).height is None,
        param(query, "width"@) == Some(decimal(n)) && 7680 < n <= u32::MAX ==> settings_param(
            query,
            fps,
        ).width == Some(7680u32) && options_param(query, f, fps).width == Some(7680u32),
        param(query, "height"@) == Some(decimal(n)) && 7680 < n <= u32::MAX ==> settings_param(
            query,
            fps,
        ).height == Some(7680u32) && options_param(query, f, fps).height == Some(7680u32),
        param(query, "width"@) == Some(decimal(n)) && 0 < n < 16 ==> settings_param(
            query,
            fps,
        ).width == Some(16u32) && options_param(query, f, fps).width == Some(16u32),
        param(query, "height"@) == Some(decimal(n)) && 0 < n < 16 ==> settings_param(
            query,
            fps,
        ).height == Some(16u32) && options_param(query, f, fps).height == Some(16u32),
{
    if n <= u32::MAX {
        crate::text::law_decimal_is_read_back(n, u32::MAX as nat);
    }
    crate::text::law_decimal_is_read_back(0, u32::MAX as nat);
}

/// The frame rate is the one that came, the sound stays unless `audio=0` says
/// otherwise, and the format is the one that was named.
pub proof fn law_requested_sound(query: Seq<char>, f: Format, fps: Option<Seq<char>>)
    ensures
        settings_param(query, fps).fps == fps && options_param(query, f, fps).fps == fps,
        options_param(query, f, fps).format == f,
        param(query, "audio"@) == Some("0"@) ==> !settings_param(query, fps).audio
            && !options_param(query, f, fps).audio,
        param(query, "audio"@) != Some("0"@) ==> settings_param(query, fps).audio && options_param(
            query,
            f,
            fps,
        ).audio,
{
}

/// The quality of a conversion is the one asked for, up to 100, or 75.
pub proof fn law_requested_quality(query: Seq<char>, f: Format, fps: Option<Seq<char>>, n: nat)
    ensures
        param(query, "quality"@) == Some(decimal(n)) && n <= 100 ==> options_param(
            query,
            f,
            fps,
        ).quality == n,
        param(query, "quality"@) == Some(decimal(n)) && 100 < n <= u32::MAX ==> options_param(
            query,
            f,
            fps,
        ).quality == 100,
        param(query, "quality"@) is None ==> options_param(query, f, fps).quality == 75,
        (param(query, "quality"@) matches Some(s) && number(s, u32::MAX as nat) is None)
            ==> options_param(query, f, fps).quality == 75,
{
    if n <= u32::MAX {
        crate::text::law_decimal_is_read_back(n, u32::MAX as nat);
    }
}

/// The CRF of a re-encode is the one asked for, up to what the encoder takes, or
/// 28.
pub proof fn law_requested_crf(query: Seq<char>, fps: Option<Seq<char>>, n: nat)
    ensures
        ({
            let s = settings_param(query, fps);
            let max: nat = if s.codec == Codec::Vp9 || s.codec == Codec::Av1 {
                63
            } else {
                51
            };
            &&& param(query, "crf"@) == Some(decimal(n)) && n <= max ==> s.crf == n
            &&& param(query, "crf"@) == Some(decimal(n)) && max < n <= u32::MAX ==> s.crf == max
            &&& param(query, "crf"@) is None ==> s.crf == 28
            &&& (param(query, "crf"@) matches Some(t) && number(t, u32::MAX as nat) is None)
                ==> s.crf == 28
        }),
{
    if n <= u32::MAX {
        crate::text::law_decimal_is_read_back(n, u32::MAX as nat);
    }
    crate::video::law_codec_traits(settings_param(query, fps).codec);
}

/// The codec and the preset of a re-encode are those named, in capitals or not; it
/// is H264 at a medium pace where there is no such one.
pub proof fn law_requested_codec(query: Seq<char>, fps: Option<Seq<char>>, name: Seq<char>)
    ensures
        ({
            let s = settings_param(query, fps);
            &&& param(query, "codec"@) == Some(name) && lowered(name) == "vp9"@ ==> s.codec
                == Codec::Vp9
            &&& param(query, "codec"@) == Some(name) && lowered(name) == "av1"@ ==> s.codec
                == Codec::Av1
            &&& param(query, "codec"@) == Some(name) && (lowered(name) == "h265"@ || lowered(name)
                == "hevc"@) ==> s.codec == Codec::H265
            &&& param(query, "codec"@) == Some(name) && Codec::named(lowered(name)) is None
                ==> s.codec == Codec::H264
            &&& param(query, "codec"@) is None ==> s.codec == Codec::H264
            &&& param(query, "preset"@) == Some(name) && (lowered(name) == "fast"@ || lowered(name)
                == "slow"@ || lowered(name) == "veryslow"@ || lowered(name) == "ultrafast"@)
                ==> s.preset == lowered(name)
            &&& param(query, "preset"@) is None ==> s.preset == "medium"@
        }),
{
    crate::video::law_codec_names(lowered(name));
    crate::video::law_presets(asked_settings(query, fps));
}

/// The operation is the one named; without one, archives are decompressed and
/// everything else is compressed.
pub proof fn law_requested_operation(query: Seq<char>, archive: bool)
    ensures
        param(query, "op"@) == Some("compress"@) ==> op_param(query, archive) == Op::Compress,
        param(query, "op"@) == Some("decompress"@) ==> op_param(query, archive) == Op::Decompress,
        param(query, "op"@) == Some("video"@) ==> op_param(query, archive) == Op::Video,
        param(query, "op"@) == Some("convert"@) ==> op_param(query, archive) == Op::Convert,
        param(query, "op"@) is None || param(query, "op"@) == Some("auto"@) ==> op_param(query, true)
            == Op::Decompress && op_param(query, false) == Op::Compress,
{
    reveal_strlit("compress");
    reveal_strlit("decompress");
    reveal_strlit("video");
    reveal_strlit("convert");
    reveal_strlit("auto");
    assert("compress"@.len() == 8 && "decompress"@.len() == 10 && "video"@.len() == 5);
    assert("convert"@.len() == 7 && "auto"@.len() == 4);
}

/// An upload becomes the job that was asked for, under the name and at the level
/// that were given.
pub proof fn law_job_is_as_asked(
    query: Seq<char>,
    body: Seq<u8>,
    ffmpeg: bool,
    fps: Option<Seq<char>>,
)
    ensures
        planned_job(query, body, ffmpeg, fps) matches Ok(p) ==> {
            &&& p.op == op_param(query, looks_like_archive(body))
            &&& param(query, "name"@) matches Some(n) ==> p.name == n
            &&& param(query, "name"@) is None ==> p.name == "fichier"@
            &&& p.level == level_param(query, 6)
            &&& p.op == Op::Video ==> p.work == WorkView::Video(settings_param(query, fps))
                && p.out_ext == (if settings_param(query, fps).codec == Codec::Vp9 {
                "webm"@
            } else {
                "mp4"@
            })
            &&& p.op == Op::Convert ==> (format_named(
                match param(query, "to"@) {
                    Some(t) => t,
                    None => ""@,
                },
            ) matches Some(f) && p.work == WorkView::Convert(options_param(query, f, fps))
                && p.out_ext == f.ext@)
            &&& p.op == Op::Compress || p.op == Op::Decompress ==> p.work == WorkView::Codec
                && p.out_ext.len() == 0
        },
{
    reveal_strlit("");
    crate::video::law_codec_traits(settings_param(query, fps).codec);
}

/// An upload is refused where it is empty, where it is to be decompressed and is no
/// archive, where it takes ffmpeg and there is none, and where the format is
/// unknown; otherwise it is accepted.
pub proof fn law_refused_jobs(
    query: Seq<char>,
    body: Seq<u8>,
    ffmpeg: bool,
    fps: Option<Seq<char>>,
)
    ensures
        ({
            let r = planned_job(query, body, ffmpeg, fps);
            let op = op_param(query, looks_like_archive(body));
            let to = match param(query, "to"@) {
                Some(t) => t,
                None => ""@,
            };
            &&& body.len() == 0 ==> r == Err::<PlanView, ReplyView>(
                ReplyView::error("400 Bad Request"@, "empty upload"@),
            )
            &&& body.len() > 0 && op == Op::Compress ==> r is Ok
            &&& body.len() > 0 && op == Op::Decompress && looks_like_archive(body) ==> r is Ok
            &&& body.len() > 0 && op == Op::Decompress && !looks_like_archive(body) ==> r == Err::<
                PlanView,
                ReplyView,
            >(ReplyView::error("400 Bad Request"@, "ce fichier n'est pas une archive Compactor"@))
            &&& body.len() > 0 && op == Op::Video && ffmpeg ==> r is Ok
            &&& body.len() > 0 && op == Op::Video && !ffmpeg ==> r == Err::<PlanView, ReplyView>(
                ReplyView::error(
                    "503 Service Unavailable"@,
                    "ffmpeg est introuvable dans le PATH : le ré-encodage vidéo est indisponible"@,
                ),
            )
            &&& body.len() > 0 && op == Op::Convert && !ffmpeg ==> r == Err::<PlanView, ReplyView>(
                ReplyView::error(
                    "503 Service Unavailable"@,
                    "ffmpeg est introuvable dans le PATH : la conversion est indisponible"@,
                ),
            )
            &&& body.len() > 0 && op == Op::Convert && ffmpeg && format_named(to) is Some ==> r is Ok
            &&& body.len() > 0 && op == Op::Convert && ffmpeg && format_named(to) is None ==> r == Err::<PlanView, ReplyView>(
                ReplyView::error("400 Bad Request"@, "format de sortie inconnu"@),
            )
        }),
{
}

/// Two jobs at most run at once.
pub proof fn law_room(r: RegistryView)
    requires
        r.next_id < u64::MAX,
    ensures
        has_room(r) <==> r.running == 0 || r.running == 1,
{
}

/// A download takes the address and the level that were given, compresses only
/// where `then=compress` says so, and leaves the cookies alone only where
/// `cookies=0` does.
pub proof fn law_requested_download(query: Seq<char>, tool: Tool, default: u8, url: Seq<char>)
    requires
        param(query, "url"@) == Some(url),
        url_error(url) is None,
    ensures
        planned_download(query, Some(tool), default) matches Ok(d) && {
            &&& d.tool == tool && d.url == url && d.level == level_param(query, default)
            &&& param(query, "then"@) == Some("compress"@) ==> d.compress
            &&& param(query, "then"@) != Some("compress"@) ==> !d.compress
            &&& param(query, "cookies"@) == Some("0"@) ==> !d.cookies
            &&& param(query, "cookies"@) != Some("0"@) ==> d.cookies
        },
{
}

/// A download is refused without a program for it, without an address, and with
/// one that cannot be taken.
pub proof fn law_refused_downloads(query: Seq<char>, tool: Tool, default: u8)
    ensures
        planned_download(query, None, default) == Err::<DownloadView, ReplyView>(
            ReplyView::error(
                "503 Service Unavailable"@,
                "aucun téléchargeur trouvé : installez yt-dlp ou curl et relancez le serveur"@,
            ),
        ),
        param(query, "url"@) is None ==> planned_download(query, Some(tool), default) == Err::<
            DownloadView,
            ReplyView,
        >(ReplyView::error("400 Bad Request"@, "paramètre url manquant"@)),
        (param(query, "url"@) matches Some(u) && url_error(u) is Some) ==> planned_download(
            query,
            Some(tool),
            default,
        ) == Err::<DownloadView, ReplyView>(
            ReplyView::error("400 Bad Request"@, url_error(param(query, "url"@)->Some_0)->Some_0),
        ),
        download_op(true) == Op::DownloadCompress,
        download_op(false) == Op::Download,
{
}

/// What has landed is kept from one byte up to the limit.
pub proof fn law_landed(len: nat, max: nat)
    ensures
        0 < len <= max ==> landed_error(len, max) is None,
        landed_error(0, max) == Some("le téléchargement est vide"@),
        len > max ==> (len > 0 ==> landed_error(len, max) == Some(
            "fichier téléchargé plus gros que la limite du serveur ("@ + decimal(max)
                + " octets) ; relancez avec --max-size"@,
        )),
{
}

/// A short and plain extension is kept, in lower case; any other becomes `bin`.
pub proof fn law_extensions(stem: Seq<char>, e: Seq<char>)
    requires
        !e.contains('.'),
    ensures
        ({
            let name = stem.push('.') + e;
            let plain = forall|i: int|
                0 <= i < e.len() ==> ('0' <= #[trigger] e[i] <= '9' || 'a' <= e[i] <= 'z' || 'A'
                    <= e[i] <= 'Z');
            &&& e.len() <= 5 && plain ==> source_ext(name) == lowered(e)
            &&& !(e.len() <= 5 && plain) ==> source_ext(name) == "bin"@
        }),
        source_ext(e) == "bin"@,
{
    crate::text::law_halves_of_joined(stem, '.', e);
    crate::text::law_halves(e, '.');
    match last_halves(e, '.') {
        Some((a, b)) => {
            assert((a.push('.') + b)[a.len() as int] == '.');
        },
        None => {},
    }
    assert forall|i: int| 0 <= i < e.len() implies (is_plain(#[trigger] e[i]) <==> ('0' <= e[i]
        <= '9' || 'a' <= e[i] <= 'z' || 'A' <= e[i] <= 'Z')) by {}
}

/// A temporary name is built from the process and job numbers.
pub proof fn law_temp_names(pid: u32, id: u64)
    ensures
        temp_stem(pid, id) == "compactor-"@ + decimal(pid as nat) + "-"@ + decimal(id as nat),
{
}

/// A plan is seen as what it is called, with what it carries.
pub proof fn law_plan_view(p: JobPlan, d: DownloadPlan, s: Settings, o: Options, rest: String)
    ensures
        p@.op == p.op && p@.level == p.level && p@.name == p.name@ && p@.out_ext == p.out_ext@
            && p@.work == p.work@,
        d@.tool == d.tool && d@.url == d.url@ && d@.compress == d.compress && d@.level == d.level
            && d@.cookies == d.cookies,
        Work::Codec@ == WorkView::Codec,
        Work::Video(s)@ == WorkView::Video(s@),
        Work::Convert(o)@ == WorkView::Convert(o@),
        Route::Page@ == RouteView::Page && Route::Sound@ == RouteView::Sound,
        Route::Config@ == RouteView::Config && Route::NotFound@ == RouteView::NotFound,
        Route::PostJob@ == RouteView::PostJob && Route::PostDownload@ == RouteView::PostDownload,
        Route::Job(rest)@ == RouteView::Job(rest@),
{
}

} // verus!
