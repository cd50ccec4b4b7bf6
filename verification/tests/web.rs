//! Requests, replies and the job registry.

use compactor::compress;
use compactor::download::Tool;
use compactor::http::{
    head_status, json_string, parse_head, percent_decode, query_param, read_request, url_decode,
    HeadStatus, Reply,
};
use compactor::jobs::{download_name, get_job, propose_name, safe_for_header, Job, Op, Registry,
    State};
use compactor::server::{
    accepted, admit_download, admit_job, body_limit, check_landed, config_json, convert_options,
    greet, no_such_route, page_reply, post_download, post_job, requested_level, route, safe_ext,
    sound_reply, temp_dir, temp_input, temp_output, video_settings, JobPlan, Route, Work,
};
use compactor::video::Codec;

fn text(r: &Reply) -> String {
    String::from_utf8(r.body.clone()).unwrap()
}

fn refusal(r: Result<JobPlan, Reply>) -> (&'static str, String) {
    match r {
        Ok(_) => panic!("accepted"),
        Err(r) => (r.status, text(&r)),
    }
}

fn accepted_plan(r: Result<JobPlan, Reply>) -> JobPlan {
    match r {
        Ok(p) => p,
        Err(r) => panic!("refused: {}", text(&r)),
    }
}

// ------------------------------------------------------------------ requests

#[test]
fn heads_end_with_a_blank_line() {
    let status = |s: &[u8]| head_status(&s.to_vec());
    assert_eq!(status(b"GET / HTTP/1.1\r\n\r\n"), HeadStatus::Complete);
    assert_eq!(status(b"GET /\n\n"), HeadStatus::Complete);
    assert_eq!(status(b"GET /\r\n\n"), HeadStatus::Complete);
    assert_eq!(status(b"GET /\n\r\n"), HeadStatus::More);
    assert_eq!(status(b""), HeadStatus::More);
    assert_eq!(status(&vec![b'a'; 16384]), HeadStatus::More);
    assert_eq!(status(&vec![b'a'; 16385]), HeadStatus::TooLarge);
    let mut full = vec![b'a'; 16382];
    full.extend_from_slice(b"\n\n");
    assert_eq!(status(&full), HeadStatus::Complete);
    full.insert(0, b'a');
    assert_eq!(status(&full), HeadStatus::TooLarge);
}

#[test]
fn large_heads_are_refused() {
    let mut head = b"GET / HTTP/1.1\r\nX: ".to_vec();
    head.resize(16380, b'a');
    head.extend_from_slice(b"\r\n\r\n");
    assert_eq!(read_request(&head, 0).unwrap().path, "/");
    head.insert(20, b'a');
    assert_eq!(read_request(&head, 0).unwrap_err(), "request headers too large");
}

#[test]
fn request_heads() {
    let h = parse_head(
        "POST /api/jobs?op=video&name=a HTTP/1.1\r\nHost: x\r\nContent-LENGTH : 12 \r\n\r\n",
        100,
    )
    .unwrap();
    assert_eq!((h.method.as_str(), h.path.as_str()), ("POST", "/api/jobs"));
    assert_eq!((h.query.as_str(), h.len), ("op=video&name=a", 12));
    let h = parse_head("GET /x\n\n", 0).unwrap();
    assert_eq!((h.method.as_str(), h.path.as_str()), ("GET", "/x"));
    assert_eq!((h.query.as_str(), h.len), ("", 0));
    let h = parse_head("  GET \t /?a?b  HTTP/1.1", 0).unwrap();
    assert_eq!((h.method.as_str(), h.path.as_str(), h.query.as_str()), ("GET", "/", "a?b"));
    // The last length counts.
    let h = parse_head("GET /\nContent-Length: 5\nContent-Length: 7\n\n", 10).unwrap();
    assert_eq!(h.len, 7);
}

#[test]
fn refused_heads() {
    let e = |s: &str, max: usize| parse_head(s, max).unwrap_err();
    assert_eq!(e("", 0), "empty request");
    assert_eq!(e("\r\n\r\n", 0), "malformed request line");
    assert_eq!(e("GET\r\n\r\n", 0), "malformed request line");
    assert_eq!(e("GET /\nContent-Length: x\n\n", 0), "malformed Content-Length");
    assert_eq!(e("GET /\nContent-Length: -1\n\n", 0), "malformed Content-Length");
    assert_eq!(e("GET /\nContent-Length: 1x\nContent-Length: 1\n\n", 9), "malformed Content-Length");
    assert_eq!(
        e("GET /\nContent-Length: 11\n\n", 10),
        "upload too large (11 bytes, limit 10); raise it with --max-size"
    );
}

#[test]
fn heads_need_not_be_text() {
    let h = read_request(&b"GET /\xff\xc3\xa9?q=\xfe HTTP/1.1\r\n\r\n".to_vec(), 0).unwrap();
    assert_eq!(h.path, "/\u{fffd}é");
    assert_eq!(h.query, "q=\u{fffd}");
    assert!(read_request(&Vec::new(), 0).is_err());
}

#[test]
fn percent_escapes() {
    assert_eq!(url_decode("a+b%20c%C3%A9"), "a b cé");
    assert_eq!(url_decode("%"), "%");
    assert_eq!(url_decode("%4"), "%4");
    assert_eq!(url_decode("%41"), "A");
    assert_eq!(url_decode("%4g%"), "%4g%");
    assert_eq!(url_decode("%zz%41"), "%zzA");
    assert_eq!(url_decode("%+1"), "% 1");
    assert_eq!(url_decode("%-9"), "%-9");
    assert_eq!(url_decode("%++"), "%  ");
    assert_eq!(url_decode("%ff"), "\u{fffd}");
    assert_eq!(url_decode("%é9"), "%é9");
    assert_eq!(url_decode("déjà"), "déjà");
    assert_eq!(percent_decode(b"%00%fF+"), [0, 255, 32]);
}

#[test]
fn query_parameters() {
    let q = "a=1&b&c=&a=2&d=x%3Dy=z&=e";
    let get = |k: &str| query_param(q, k);
    assert_eq!(get("a").as_deref(), Some("1"));
    assert_eq!(get("b"), None);
    assert_eq!(get("c").as_deref(), Some(""));
    assert_eq!(get("d").as_deref(), Some("x=y=z"));
    assert_eq!(get("").as_deref(), Some("e"));
    assert_eq!(get("z"), None);
    assert_eq!(query_param("", "a"), None);
}

#[test]
fn json_literals() {
    assert_eq!(json_string(""), "\"\"");
    assert_eq!(json_string("a\"b\\c\n\r\t\u{1}\u{1f}é\u{7f}"), "\"a\\\"b\\\\c\\n\\r\\t\\u0001\\u001fé\u{7f}\"");
}

#[test]
fn replies() {
    let r = Reply::error("404 Not Found", "no \"x\"");
    assert_eq!(
        r.head(),
        "HTTP/1.1 404 Not Found\r\nContent-Type: application/json; charset=utf-8\r\n\
         Content-Length: 20\r\nConnection: close\r\n\r\n"
    );
    assert_eq!(text(&r), "{\"error\":\"no \\\"x\\\"\"}");
    assert_eq!(text(&accepted(17)), "{\"id\":17}");
    assert_eq!(accepted(1).status, "202 Accepted");
    let r = page_reply(b"<html>");
    assert_eq!(
        r.head(),
        "HTTP/1.1 200 OK\r\nContent-Type: text/html; charset=utf-8\r\nContent-Length: 6\r\n\
         Connection: close\r\nCache-Control: no-store\r\n\r\n"
    );
    assert_eq!(sound_reply(b"x").ctype, "audio/mp4");
    assert_eq!(text(&no_such_route()), "{\"error\":\"no such route\"}");
}

#[test]
fn routes() {
    assert!(matches!(route("GET", "/"), Route::Page));
    assert!(matches!(route("GET", "/index.html"), Route::Page));
    assert!(matches!(route("GET", "/done.m4a"), Route::Sound));
    assert!(matches!(route("GET", "/api/config"), Route::Config));
    assert!(matches!(route("POST", "/api/jobs"), Route::PostJob));
    assert!(matches!(route("POST", "/api/download"), Route::PostDownload));
    assert!(matches!(route("GET", "/api/jobs/7/result"), Route::Job(s) if s == "7/result"));
    assert!(matches!(route("GET", "/api/jobs/"), Route::Job(s) if s.is_empty()));
    assert!(matches!(route("GET", "/api/jobs"), Route::NotFound));
    assert!(matches!(route("POST", "/"), Route::NotFound));
    assert!(matches!(route("get", "/"), Route::NotFound));
    assert!(matches!(route("POST", "/api/jobs/7"), Route::NotFound));
}

#[test]
fn configuration() {
    let json = config_json(6, 536870912, true, Some(Tool::YtDlp));
    assert!(json.starts_with(
        "{\"default_level\":6,\"max_level\":9,\"max_size\":536870912,\"ffmpeg\":true,\
         \"downloader\":\"yt-dlp\",\"formats\":[{\"ext\":\"mp4\",\"label\":\"MP4 (H.264)\",\
         \"kind\":\"video\"},{\"ext\":\"webm\","
    ));
    assert!(json.contains("{\"ext\":\"gif\",\"label\":\"GIF animé\",\"kind\":\"animation\"}"));
    assert!(json.ends_with("{\"ext\":\"wav\",\"label\":\"WAV\",\"kind\":\"audio\"}]}"));
    assert!(config_json(0, 0, false, None).contains("\"ffmpeg\":false,\"downloader\":null,"));
    assert_eq!(body_limit(512), 512 * 1024 * 1024);
    assert_eq!(body_limit(usize::MAX), usize::MAX);
}

#[test]
fn greetings() {
    assert_eq!(
        greet("127.0.0.1", "127.0.0.1:8787", 6, 512, true, Some(Tool::Curl)),
        [
            "compactor serve: http://127.0.0.1:8787",
            "default level 6, upload limit 512 MiB",
            "ffmpeg found: video re-encoding (fps, resolution) available",
            "curl found: downloading from a link available",
            "Ctrl-C to stop.",
        ]
    );
    let lines = greet("0.0.0.0", "0.0.0.0:1", 0, 1, false, None);
    assert_eq!(lines[2], "ffmpeg not on PATH: video re-encoding disabled");
    assert_eq!(lines[3], "neither yt-dlp nor curl on PATH: downloading disabled");
    assert_eq!(lines[4], "warning: bound to 0.0.0.0; the interface has no authentication.");
}

// --------------------------------------------------------------------- plans

#[test]
fn uploads_choose_their_operation() {
    let archive = compress(b"hello", 0);
    let op = |q: &str, body: &[u8]| accepted_plan(post_job(q, body, true, None)).op;
    assert_eq!(op("", b"x"), Op::Compress);
    assert_eq!(op("", &archive), Op::Decompress);
    assert_eq!(op("op=auto", &archive), Op::Decompress);
    assert_eq!(op("op=compress", &archive), Op::Compress);
    assert_eq!(op("op=decompress", &archive), Op::Decompress);
    assert_eq!(op("op=video", b"x"), Op::Video);
    assert_eq!(op("op=convert&to=png", b"x"), Op::Convert);
    let p = accepted_plan(post_job("level=9&name=a%20b", b"x", false, None));
    assert_eq!((p.level, p.name.as_str(), p.out_ext.as_str()), (9, "a b", ""));
    let p = accepted_plan(post_job("level=10", b"x", false, None));
    assert_eq!((p.level, p.name.as_str()), (6, "fichier"));
}

#[test]
fn refused_uploads() {
    assert_eq!(
        refusal(post_job("", b"", true, None)),
        ("400 Bad Request", "{\"error\":\"empty upload\"}".to_string())
    );
    assert_eq!(
        refusal(post_job("op=decompress", b"x", true, None)),
        (
            "400 Bad Request",
            "{\"error\":\"ce fichier n'est pas une archive Compactor\"}".to_string()
        )
    );
    assert_eq!(
        refusal(post_job("op=convert&to=png", b"x", false, None)).1,
        "{\"error\":\"ffmpeg est introuvable dans le PATH : la conversion est indisponible\"}"
    );
    assert_eq!(
        refusal(post_job("op=convert&to=exe", b"x", true, None)),
        ("400 Bad Request", "{\"error\":\"format de sortie inconnu\"}".to_string())
    );
    assert_eq!(
        refusal(post_job("op=convert", b"x", true, None)).0,
        "400 Bad Request"
    );
    assert_eq!(
        refusal(post_job("op=video", b"x", false, None)),
        (
            "503 Service Unavailable",
            "{\"error\":\"ffmpeg est introuvable dans le PATH : le ré-encodage vidéo est \
             indisponible\"}"
                .to_string()
        )
    );
}

#[test]
fn ffmpeg_uploads_know_their_extension() {
    let p = accepted_plan(post_job("op=video&codec=VP9", b"x", true, Some("30".to_string())));
    assert_eq!(p.out_ext, "webm");
    match p.work {
        Work::Video(s) => {
            assert_eq!(s.codec, Codec::Vp9);
            assert_eq!(s.fps.as_deref(), Some("30"));
        }
        _ => panic!(),
    }
    let p = accepted_plan(post_job("op=convert&to=.JPG&quality=40", b"x", true, None));
    assert_eq!(p.out_ext, "jpg");
    match p.work {
        Work::Convert(o) => assert_eq!((o.format.ext, o.quality), ("jpg", 40)),
        _ => panic!(),
    }
}

#[test]
fn settings_of_a_form() {
    let s = video_settings("", None);
    assert_eq!((s.width, s.height, s.crf, s.preset.as_str()), (None, None, 28, "medium"));
    assert_eq!((s.codec, s.audio), (Codec::H264, true));
    let s = video_settings(
        "width=0&height=99999&crf=200&preset=SLOW&codec=hevc&audio=0",
        Some("24".to_string()),
    );
    assert_eq!((s.width, s.height, s.crf, s.preset.as_str()), (None, Some(7680), 51, "slow"));
    assert_eq!((s.codec, s.audio, s.fps.as_deref()), (Codec::H265, false, Some("24")));
    let s = video_settings("codec=av1&crf=200&width=-5&preset=x&audio=1", None);
    assert_eq!((s.width, s.crf, s.preset.as_str(), s.audio), (None, 63, "medium", true));
    let f = compactor::convert::format("webp").unwrap();
    let o = convert_options("width=5&quality=1000&audio=0", f, None);
    assert_eq!((o.width, o.height, o.quality, o.audio), (Some(16), None, 100, false));
    let o = convert_options("", f, Some("5".to_string()));
    assert_eq!((o.quality, o.audio, o.fps.as_deref()), (75, true, Some("5")));
    assert_eq!(requested_level("level=3", 8), 3);
    assert_eq!(requested_level("level=%2B3", 8), 3);
    assert_eq!(requested_level("level=+3", 8), 8);
    assert_eq!(requested_level("level=30", 8), 8);
    assert_eq!(requested_level("level=300", 8), 8);
    assert_eq!(requested_level("", 8), 8);
}

#[test]
fn download_requests() {
    let ok = |q: &str| match post_download(q, Some(Tool::Curl), 4) {
        Ok(p) => p,
        Err(r) => panic!("{}", text(&r)),
    };
    let p = ok("url=https%3A%2F%2Fx%2Fa&then=compress&level=2");
    assert_eq!((p.url.as_str(), p.compress, p.level, p.cookies), ("https://x/a", true, 2, true));
    let p = ok("url=http://x&cookies=0");
    assert_eq!((p.compress, p.level, p.cookies), (false, 4, false));
    assert!(p.tool == Tool::Curl);
    let bad = |q: &str, t| match post_download(q, t, 4) {
        Ok(_) => panic!("accepted"),
        Err(r) => (r.status, text(&r)),
    };
    assert_eq!(
        bad("url=http://x", None),
        (
            "503 Service Unavailable",
            "{\"error\":\"aucun téléchargeur trouvé : installez yt-dlp ou curl et relancez le \
             serveur\"}"
                .to_string()
        )
    );
    assert_eq!(
        bad("", Some(Tool::Curl)),
        ("400 Bad Request", "{\"error\":\"paramètre url manquant\"}".to_string())
    );
    assert_eq!(
        bad("url=file:///x", Some(Tool::Curl)).1,
        "{\"error\":\"l'adresse doit commencer par http:// ou https://\"}"
    );
    assert_eq!(check_landed(1, 1), Ok(()));
    assert_eq!(check_landed(0, 1), Err("le téléchargement est vide".to_string()));
    assert_eq!(
        check_landed(2, 1),
        Err("fichier téléchargé plus gros que la limite du serveur (1 octets) ; relancez avec \
             --max-size"
            .to_string())
    );
}

#[test]
fn temporary_names() {
    assert_eq!(safe_ext("clip.MP4"), "mp4");
    assert_eq!(safe_ext("clip.tar.gz"), "gz");
    assert_eq!(safe_ext("clip"), "bin");
    assert_eq!(safe_ext("clip."), "");
    assert_eq!(safe_ext("clip.toolong"), "bin");
    assert_eq!(safe_ext("x.a/../"), "bin");
    assert_eq!(safe_ext("x.é"), "bin");
    assert_eq!(temp_input(12, 34, "a/../b.MKV"), "compactor-12-34-in.mkv");
    assert_eq!(temp_output(12, 34, "webm"), "compactor-12-34-out.webm");
    assert_eq!(temp_dir(12, 34), "compactor-12-34-dl");
}

// ---------------------------------------------------------------------- jobs

#[test]
fn names_for_results() {
    let name = |op, base: &str, ext: &str| propose_name(op, base, ext);
    assert_eq!(name(Op::Compress, "a.txt", ""), "a.txt.cpt");
    assert_eq!(name(Op::DownloadCompress, "a.txt", ""), "a.txt.cpt");
    assert_eq!(name(Op::Decompress, "a.txt.cpt", ""), "a.txt");
    assert_eq!(name(Op::Decompress, "a.txt", ""), "a.txt");
    assert_eq!(name(Op::Download, "a.txt", ""), "a.txt");
    assert_eq!(name(Op::Video, "a.b.mov", "mp4"), "a.b-reencode.mp4");
    assert_eq!(name(Op::Video, "a", "mp4"), "a-reencode.mp4");
    assert_eq!(name(Op::Convert, "a.MP4", "mp4"), "a-converti.mp4");
    assert_eq!(name(Op::Convert, "a.mov", "mp4"), "a.mp4");
    assert_eq!(name(Op::Convert, "a", "mp4"), "a.mp4");
    assert_eq!(safe_for_header("a\"b\\c\r\nd"), "a_b_c__d");
    let job = |name: &str| Job {
        id: 1,
        state: State::Done,
        done: 0,
        total: 0,
        in_size: 0,
        out_size: 0,
        secs: String::new(),
        op: Op::Compress,
        name: name.to_string(),
        out_ext: String::new(),
        error: String::new(),
        result: Vec::new(),
    };
    assert_eq!(download_name(&job("C:\\dir/sub\\a.txt")), "a.txt.cpt");
    assert_eq!(download_name(&job("../../etc/passwd")), "passwd.cpt");
    assert_eq!(download_name(&job("dir/")), "fichier.cpt");
    assert_eq!(download_name(&job("")), "fichier.cpt");
}

#[test]
fn the_life_of_a_job() {
    let mut r = Registry::new();
    let id = r.start(Op::Compress, 100, "dir/a\"b.txt", "").unwrap();
    assert_eq!(id, 1);
    assert!(r.is_running(1));
    let status = |r: &Registry, rest: &str| {
        let reply = get_job(r, rest);
        (reply.status, text(&reply))
    };
    assert_eq!(
        status(&r, "1"),
        (
            "200 OK",
            "{\"state\":\"running\",\"op\":\"compress\",\"done\":0,\"total\":100,\
             \"unit\":\"bytes\",\"in_size\":100,\"out_size\":0,\"secs\":0.000,\
             \"name\":\"dir/a\\\"b.txt\",\"error\":\"\"}"
                .to_string()
        )
    );
    r.set_done(1, 40);
    assert!(status(&r, "1").1.contains("\"done\":40,\"total\":100"));
    assert_eq!(
        status(&r, "1/result"),
        ("409 Conflict", "{\"error\":\"tâche non terminée\"}".to_string())
    );
    r.finish(1, Ok((vec![1, 2, 3], "1.250".to_string())));
    assert!(!r.is_running(1));
    assert!(status(&r, "1").1.starts_with(
        "{\"state\":\"done\",\"op\":\"compress\",\"done\":100,\"total\":100,\"unit\":\"bytes\",\
         \"in_size\":100,\"out_size\":3,\"secs\":1.250,"
    ));
    let reply = get_job(&r, "1/result");
    assert_eq!(reply.body, [1, 2, 3]);
    assert_eq!(reply.ctype, "application/octet-stream");
    assert_eq!(
        reply.extra,
        "Content-Disposition: attachment; filename=\"a_b.txt.cpt\"\r\n"
    );
    assert_eq!(
        status(&r, "x"),
        ("400 Bad Request", "{\"error\":\"identifiant de tâche invalide\"}".to_string())
    );
    assert_eq!(
        status(&r, "2"),
        ("404 Not Found", "{\"error\":\"tâche inconnue ou expirée\"}".to_string())
    );
}

#[test]
fn a_failed_job_tells_why() {
    let mut r = Registry::new();
    let id = r.start(Op::Decompress, 5, "x", "").unwrap();
    r.finish(id, Err("checksum".to_string()));
    assert!(text(&get_job(&r, "1")).contains("\"state\":\"failed\""));
    assert!(text(&get_job(&r, "1")).contains("\"error\":\"checksum\""));
    assert_eq!(get_job(&r, "1/result").status, "409 Conflict");
}

#[test]
fn footage_is_counted_in_milliseconds() {
    let mut r = Registry::new();
    let id = r.start(Op::Video, 1000, "a.mov", "mp4").unwrap();
    let has = |r: &Registry, s: &str| text(&get_job(r, "1")).contains(s);
    assert!(has(&r, "\"done\":0,\"total\":0,\"unit\":\"ms\",\"in_size\":1000"));
    r.set_footage(id, 700);
    assert!(has(&r, "\"done\":700,\"total\":0"));
    r.set_total(id, 5000);
    r.set_footage(id, 6000);
    assert!(has(&r, "\"done\":5000,\"total\":5000"));
    r.set_footage(id, 10);
    assert!(has(&r, "\"done\":10,\"total\":5000"));
}

#[test]
fn a_download_learns_its_name() {
    let mut r = Registry::new();
    let id = r.start(Op::Download, 0, "http://x", "").unwrap();
    r.set_file(id, "clip.mp4".to_string(), 77);
    assert!(text(&get_job(&r, "1")).contains(
        "\"done\":77,\"total\":77,\"unit\":\"bytes\",\"in_size\":77,\"out_size\":0,\
         \"secs\":0.000,\"name\":\"clip.mp4\""
    ));
    r.set_progress(id, 0, 0);
    assert!(text(&get_job(&r, "1")).contains("\"done\":0,\"total\":1,"));
    r.set_done(99, 5);
    assert!(!r.is_running(99));
}

#[test]
fn two_jobs_at_a_time_and_thirty_two_in_all() {
    let mut r = Registry::new();
    let old = r.start(Op::Compress, 1, "old", "").unwrap();
    for i in 2..=32 {
        let id = r.start(Op::Compress, 1, "x", "").unwrap();
        assert_eq!(id, i);
        assert_eq!(r.start(Op::Compress, 1, "x", ""), None);
        r.finish(id, Ok((Vec::new(), "0.000".to_string())));
    }
    // The registry is full. The oldest finished job goes, not the running one.
    let id = r.start(Op::Compress, 1, "new", "").unwrap();
    assert_eq!(id, 33);
    assert!(r.is_running(old));
    assert_eq!(get_job(&r, "2").status, "404 Not Found");
    assert_eq!(get_job(&r, "3").status, "200 OK");
    assert_eq!(get_job(&r, "33").status, "200 OK");
    assert!(!r.exhausted());
}

#[test]
fn temporary_directories_do_not_collide() {
    let dirs: Vec<String> = (1..200).map(|id| temp_dir(7, id)).collect();
    for (i, d) in dirs.iter().enumerate() {
        assert!(!dirs[..i].contains(d));
        assert!(!d.contains('/') && !d.contains('\\'));
    }
}

#[test]
fn a_third_job_is_turned_away() {
    let mut r = Registry::new();
    let plan = accepted_plan(post_job("op=video&name=a.mov", b"xyz", true, None));
    let download = match post_download("url=http://x&then=compress", Some(Tool::Curl), 4) {
        Ok(p) => p,
        Err(r) => panic!("{}", text(&r)),
    };
    assert_eq!(admit_job(&mut r, &plan, 3).unwrap(), 1);
    assert_eq!(admit_download(&mut r, &download).unwrap(), 2);
    assert!(text(&get_job(&r, "1")).contains("\"op\":\"video\",\"done\":0,\"total\":0"));
    assert!(text(&get_job(&r, "2")).contains("\"op\":\"download-compress\""));
    assert!(text(&get_job(&r, "2")).contains("\"name\":\"http://x\""));
    let busy = admit_job(&mut r, &plan, 3).unwrap_err();
    assert_eq!(busy.status, "503 Service Unavailable");
    assert_eq!(
        text(&busy),
        "{\"error\":\"trop de compressions en cours, réessayez dans un instant\"}"
    );
    assert_eq!(
        text(&admit_download(&mut r, &download).unwrap_err()),
        "{\"error\":\"trop de tâches en cours, réessayez dans un instant\"}"
    );
    r.finish(1, Err("x".to_string()));
    assert_eq!(admit_download(&mut r, &download).unwrap(), 3);
}
