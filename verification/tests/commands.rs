//! The command line.

use compactor::cli::{
    check_output, dispatch, file_action, parse_args, parse_level, plan_convert, plan_download,
    plan_video, same_file, Action, FileAction, Opts, Resolved, USAGE,
};
use compactor::compress;
use compactor::download::Tool;
use compactor::video::Codec;

fn strings(list: &[&str]) -> Vec<String> {
    list.iter().map(|s| s.to_string()).collect()
}

fn numeric(list: &[&str]) -> Vec<bool> {
    list.iter().map(|s| s.parse::<f32>().is_ok()).collect()
}

fn opts(list: &[&str]) -> Opts {
    match parse_args(&strings(list), &numeric(list)) {
        Ok(o) => o,
        Err(e) => panic!("{e}"),
    }
}

fn error(list: &[&str]) -> String {
    match parse_args(&strings(list), &numeric(list)) {
        Ok(_) => panic!("accepted"),
        Err(e) => e,
    }
}

fn act(list: &[&str]) -> Result<Action, String> {
    dispatch(&strings(list), &numeric(list))
}

#[test]
fn levels() {
    assert_eq!(parse_level("0"), Ok(0));
    assert_eq!(parse_level("9"), Ok(9));
    for s in ["10", "-1", "", "x", "256"] {
        assert_eq!(parse_level(s), Err("level must be 0..9".to_string()));
    }
}

#[test]
fn standard_options() {
    let o = opts(&[]);
    assert_eq!((o.level, o.force, o.quiet, o.port, o.max_size), (6, false, false, 8787, 512));
    assert_eq!((o.host.as_str(), o.compress, o.cookies, o.quality), ("127.0.0.1", false, true, 75));
    assert!(o.to.is_none() && o.files.is_empty());
    assert_eq!((o.video.crf, o.video.preset.as_str(), o.video.audio), (28, "medium", true));
}

#[test]
fn every_option() {
    let o = opts(&[
        "a", "-l", "3", "--port", "80", "--host", "::1", "--max-size", "7", "--width", "640",
        "--height", "480", "--fps", "29.97", "--crf", "70", "--codec", "HEVC", "--preset", "Fast",
        "--to", "webp", "--quality", "100", "--no-audio", "--no-cookies", "-c", "-f", "-q", "b",
        "-",
    ]);
    assert_eq!((o.level, o.port, o.host.as_str(), o.max_size), (3, 80, "::1", 7));
    assert_eq!((o.video.width, o.video.height), (Some(640), Some(480)));
    assert_eq!((o.video.fps.as_deref(), o.video.crf), (Some("29.97"), 70));
    assert_eq!((o.video.codec, o.video.preset.as_str()), (Codec::H265, "Fast"));
    assert_eq!((o.to.as_deref(), o.quality, o.video.audio), (Some("webp"), 100, false));
    assert!(o.compress && o.force && o.quiet && !o.cookies);
    assert_eq!(o.files, ["a", "b", "-"]);
    let o = opts(&["--level", "4", "-l9", "--format", "gif", "--compress", "--force", "--quiet"]);
    assert_eq!((o.level, o.to.as_deref()), (9, Some("gif")));
    assert!(o.compress && o.force && o.quiet);
}

#[test]
fn values_that_are_missing() {
    for (flag, name) in [
        ("-l", "-l"),
        ("--level", "-l"),
        ("--port", "--port"),
        ("--host", "--host"),
        ("--max-size", "--max-size"),
        ("--width", "--width"),
        ("--height", "--height"),
        ("--fps", "--fps"),
        ("--crf", "--crf"),
        ("--codec", "--codec"),
        ("--preset", "--preset"),
        ("--to", "--to"),
        ("--format", "--to"),
        ("--quality", "--quality"),
    ] {
        assert_eq!(error(&["a", flag]), format!("{name} needs a value"));
    }
}

#[test]
fn values_that_are_wrong() {
    assert_eq!(error(&["-l", "x"]), "level must be 0..9");
    assert_eq!(error(&["-lx"]), "level must be 0..9");
    assert_eq!(error(&["--port", "65536"]), "port must be 1..65535");
    assert_eq!(error(&["--max-size", "1.5"]), "--max-size must be a whole number of MiB");
    assert_eq!(error(&["--width", "x"]), "--width must be a whole number of pixels");
    assert_eq!(error(&["--height", "-1"]), "--height must be a whole number of pixels");
    assert_eq!(error(&["--fps", "fast"]), "--fps must be a number");
    assert_eq!(error(&["--crf", "256"]), "--crf must be 0..63");
    assert_eq!(error(&["--codec", "Mpeg2"]), "unknown codec 'Mpeg2' (h264, h265, vp9, av1)");
    assert_eq!(error(&["--quality", "101"]), "--quality must be 0..100");
    assert_eq!(error(&["--quality", "x"]), "--quality must be 0..100");
    assert_eq!(error(&["-x"]), "unknown option -x");
    assert_eq!(error(&["--nope", "a"]), "unknown option --nope");
}

#[test]
fn commands() {
    assert!(matches!(act(&[]), Ok(Action::Usage)));
    for help in ["-h", "--help", "help"] {
        assert!(matches!(act(&[help, "--nope"]), Ok(Action::Usage)));
    }
    assert!(matches!(act(&["serve", "--port", "1"]), Ok(Action::Serve(o)) if o.port == 1));
    assert!(matches!(act(&["serve", "x"]), Err(e) if e == "unexpected extra argument 'x'"));
    assert!(matches!(act(&["c"]), Err(e) if e == "missing input file"));
    assert!(matches!(act(&["nope"]), Err(e) if e == "missing input file"));
    assert!(matches!(act(&["video", "a"]), Ok(Action::Video(o)) if o.files == ["a"]));
    assert!(matches!(act(&["video", "a", "b", "c"]), Err(e)
        if e == "unexpected extra argument 'c'"));
    assert!(matches!(act(&["convert", "a", "b"]), Ok(Action::Convert(_))));
    assert!(matches!(act(&["dl", "u"]), Ok(Action::Download(_))));
    assert!(matches!(act(&["download", "u", "d"]), Ok(Action::Download(_))));
    assert!(matches!(act(&["c", "a"]), Ok(Action::Read { cmd, opts })
        if cmd == "c" && opts.files == ["a"]));
    assert!(matches!(act(&["c", "-x"]), Err(e) if e == "unknown option -x"));
}

#[test]
fn what_is_done_with_a_file() {
    let archive = compress(b"hello", 0);
    let go = |cmd: &str, files: &[&str], data: &[u8]| file_action(cmd, &opts(files), data);
    for cmd in ["c", "compress"] {
        assert!(matches!(go(cmd, &["a"], b""), Ok(FileAction::Compress(o)) if o == "a.cpt"));
        assert!(matches!(go(cmd, &["a", "b"], b""), Ok(FileAction::Compress(o)) if o == "b"));
    }
    for cmd in ["d", "x", "decompress"] {
        assert!(matches!(go(cmd, &["a.cpt"], &archive), Ok(FileAction::Decompress(o))
            if o == "a"));
        assert!(matches!(go(cmd, &["a", "b"], &archive), Ok(FileAction::Decompress(o))
            if o == "b"));
        assert!(matches!(go(cmd, &["a"], b"x"), Err(e) if e == "a is not a Compactor archive"));
        assert!(matches!(go(cmd, &["a"], &archive), Err(e) if e
            == "cannot infer output name (input does not end in .cpt); give it explicitly"));
    }
    assert!(matches!(go("t", &["a"], b""), Ok(FileAction::Test)));
    assert!(matches!(go("test", &["a"], b""), Ok(FileAction::Test)));
    assert!(matches!(go("bench", &["a"], b""), Ok(FileAction::Bench)));
    assert!(matches!(go("t", &["a", "b"], b""), Err(e) if e == "unexpected extra argument 'b'"));
    assert!(matches!(go("c", &["a", "b", "d"], b""), Err(e)
        if e == "unexpected extra argument 'd'"));
    assert!(matches!(go("zip", &["a"], b""), Err(e)
        if e == format!("unknown command 'zip'\n\n{USAGE}")));
}

#[test]
fn usage_names_every_command() {
    assert!(USAGE.starts_with("compactor — advanced lossless compressor"));
    for s in ["serve", "video", "convert --to EXT", "dl <url>", "bench", "--no-cookies"] {
        assert!(USAGE.contains(s));
    }
}

#[test]
fn outputs_are_not_overwritten() {
    assert_eq!(check_output("a", false, false), Ok(()));
    assert_eq!(check_output("a", true, true), Ok(()));
    assert_eq!(
        check_output("a", true, false),
        Err("a already exists (use -f to overwrite)".to_string())
    );
}

#[test]
fn one_file_under_two_names() {
    let pair = |a: &str, b: &str| {
        Some(Resolved { alike: a == b, a: a.to_string(), b: b.to_string() })
    };
    assert!(same_file(true, &None, false));
    assert!(!same_file(false, &None, false));
    assert!(same_file(false, &pair("/d/a", "/d/a"), false));
    assert!(!same_file(false, &pair("/d/a", "/d/A"), false));
    assert!(same_file(false, &pair("C:\\a", "c:\\A"), true));
    assert!(!same_file(false, &pair("/d/a", "/d/b"), true));
}

#[test]
fn video_plans() {
    let o = opts(&["clip.mov", "--crf", "90", "--preset", "Fast", "--width", "1"]);
    let (s, out) = plan_video(&o, true, Some("30".to_string()), false).ok().unwrap();
    assert_eq!(out, "clip-reencode.mp4");
    assert_eq!((s.crf, s.preset.as_str(), s.width), (51, "medium", Some(16)));
    assert_eq!(s.fps.as_deref(), Some("30"));
    let (_, out) = plan_video(&opts(&["clip", "--codec", "vp9"]), true, None, false).ok().unwrap();
    assert_eq!(out, "clip-reencode.webm");
    let (_, out) = plan_video(&opts(&["clip", "b.mp4"]), true, None, false).ok().unwrap();
    assert_eq!(out, "b.mp4");
    let (_, out) = plan_video(&opts(&["./clip"]), true, None, false).ok().unwrap();
    assert_eq!(out, "./clip-reencode.mp4");
    let (_, out) = plan_video(&opts(&["v1.2\\clip"]), true, None, true).ok().unwrap();
    assert_eq!(out, "v1.2\\clip-reencode.mp4");
    // Elsewhere a backslash is a character like any other.
    let (_, out) = plan_video(&opts(&["v1.2\\clip"]), true, None, false).ok().unwrap();
    assert_eq!(out, "v1-reencode.mp4");
    assert_eq!(
        plan_video(&o, false, None, false).err().unwrap(),
        "ffmpeg was not found on PATH; the `video` command needs it"
    );
}

#[test]
fn convert_plans() {
    let plan = |list: &[&str]| plan_convert(&opts(list), true, None, false);
    let (o, out) = plan(&["clip.mp4", "--to", "webp", "--quality", "5", "--no-audio"])
        .ok()
        .unwrap();
    assert_eq!((o.format.ext, o.quality, o.audio, out.as_str()), ("webp", 5, false, "clip.webp"));
    let (o, out) = plan(&["clip.mp4", "poster.JPG"]).ok().unwrap();
    assert_eq!((o.format.ext, out.as_str()), ("jpg", "poster.JPG"));
    // `--to` has the last word.
    let (o, out) = plan(&["clip.mp4", "x.jpg", "--to", "png"]).ok().unwrap();
    assert_eq!((o.format.ext, out.as_str()), ("png", "x.jpg"));
    let list = "mp4, webm, mkv, mov, gif, webp, png, jpg, bmp, tiff, mp3, m4a, opus, ogg, flac, \
                wav";
    assert_eq!(
        plan(&["clip.mp4"]).err().unwrap(),
        format!("missing target format: give --to EXT (one of {list})")
    );
    assert_eq!(
        plan(&["clip.mp4", "out"]).err().unwrap(),
        format!("missing target format: give --to EXT (one of {list})")
    );
    let (_, out) = plan(&["./clip", "--to", "mp3"]).ok().unwrap();
    assert_eq!(out, "./clip.mp3");
    let (_, out) = plan(&["a.tar\\b", "--to", "mp3"]).ok().unwrap();
    assert_eq!(out, "a.mp3");
    let windows = plan_convert(&opts(&["a.tar\\b", "--to", "mp3"]), true, None, true);
    assert_eq!(windows.ok().unwrap().1, "a.tar\\b.mp3");
    let (_, out) = plan(&["../a.b/c.d.wav", "--to", "mp3"]).ok().unwrap();
    assert_eq!(out, "../a.b/c.d.mp3");
    assert_eq!(
        plan(&["clip.mp4", "./out"]).err().unwrap(),
        format!("missing target format: give --to EXT (one of {list})")
    );
    assert_eq!(
        plan(&["clip.mp4", "out.exe"]).err().unwrap(),
        format!("unknown format 'exe' (one of {list})")
    );
    assert_eq!(
        plan_convert(&opts(&["a", "b.png"]), false, None, false).err().unwrap(),
        "ffmpeg was not found on PATH; the `convert` command needs it"
    );
}

#[test]
fn download_plans() {
    let plan = |list: &[&str], t| plan_download(&opts(list), t);
    assert_eq!(
        plan(&["http://x"], Some(Tool::Curl)),
        Ok((Tool::Curl, ".".to_string()))
    );
    assert_eq!(
        plan(&["http://x", "d"], Some(Tool::YtDlp)),
        Ok((Tool::YtDlp, "d".to_string()))
    );
    assert_eq!(
        plan(&["http://x"], None),
        Err("neither yt-dlp nor curl was found on PATH; the `dl` command needs one of them"
            .to_string())
    );
    assert_eq!(
        plan(&["ftp://x"], Some(Tool::Curl)),
        Err("l'adresse doit commencer par http:// ou https://".to_string())
    );
}
