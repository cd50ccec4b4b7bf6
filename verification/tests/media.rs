//! Conversion and re-encoding: what ffmpeg is asked for.

use compactor::args::Arg;
use compactor::convert::{convert, formats, names, reports_progress, Kind, Options};
use compactor::video::{
    duration_args, failure, keep_error, known_preset, progress_micros, transcode, Codec, Settings,
    PRESETS,
};

fn show(list: Vec<Arg>) -> String {
    list.into_iter()
        .map(|a| match a {
            Arg::Text(s) => s,
            Arg::Input => "<in>".to_string(),
            Arg::Output => "<out>".to_string(),
        })
        .collect::<Vec<String>>()
        .join(" ")
}

fn options(ext: &str) -> Options {
    Options::new(compactor::convert::format(ext).unwrap())
}

const HEAD: &str = "-hide_banner -loglevel error -nostdin -y -i <in> ";
const TAIL: &str = " -progress pipe:1 -nostats <out>";

fn body(o: &Options) -> String {
    let s = show(convert(o));
    s.strip_prefix(HEAD).unwrap().strip_suffix(TAIL).unwrap().to_string()
}

#[test]
fn every_format_is_found_by_its_extension() {
    for f in formats() {
        let found = compactor::convert::format(f.ext).unwrap();
        assert_eq!(found.ext, f.ext);
        assert_eq!(found.label, f.label);
        assert!(found.kind == f.kind);
        assert_eq!(compactor::convert::format(&f.ext.to_uppercase()).unwrap().ext, f.ext);
        assert_eq!(compactor::convert::format(&format!(" ..{} ", f.ext)).unwrap().ext, f.ext);
    }
    assert_eq!(
        names(),
        "mp4, webm, mkv, mov, gif, webp, png, jpg, bmp, tiff, mp3, m4a, opus, ogg, flac, wav"
    );
}

#[test]
fn spellings_people_type() {
    let ext = |s: &str| compactor::convert::format(s).map(|f| f.ext);
    assert_eq!(ext("jpeg"), Some("jpg"));
    assert_eq!(ext("tif"), Some("tiff"));
    assert_eq!(ext("matroska"), Some("mkv"));
    assert_eq!(ext("m4v"), Some("mp4"));
    assert_eq!(ext("oga"), Some("ogg"));
    assert_eq!(ext(".jpeg"), Some("jpg"));
    // Aliases are known in lower case only.
    assert_eq!(ext("JPEG"), None);
    assert_eq!(ext(""), None);
    assert_eq!(ext("exe"), None);
    assert_eq!(ext(". png"), None);
}

#[test]
fn quality_scales_agree_with_real_arithmetic() {
    for quality in 0..=255u8 {
        let mut o = options("jpg");
        o.quality = quality;
        let q = quality as f64 / 100.0;
        assert_eq!(o.qscale(), (31.0 - q * 29.0).round().clamp(2.0, 31.0) as u32);
        for max in [51u32, 63] {
            let hi = max as f64;
            assert_eq!(o.crf(max), ((1.0 - q) * hi).round().clamp(4.0, hi) as u32);
        }
        assert_eq!(o.audio_kbps(), (64 + quality as u32 * 2).clamp(64, 320));
    }
}

#[test]
fn video_targets() {
    assert_eq!(
        body(&options("mp4")),
        "-c:v libx264 -preset medium -crf 13 -pix_fmt yuv420p -movflags +faststart \
         -c:a aac -b:a 128k"
    );
    assert_eq!(
        body(&options("mkv")),
        "-c:v libx264 -preset medium -crf 13 -pix_fmt yuv420p -c:a aac -b:a 128k"
    );
    let mut o = options("webm");
    o.width = Some(640);
    o.fps = Some("12".to_string());
    assert_eq!(
        body(&o),
        "-vf fps=12,scale=640:-2:flags=lanczos -c:v libvpx-vp9 -b:v 0 -crf 16 \
         -c:a libopus -b:a 128k"
    );
    o.audio = false;
    o.width = None;
    o.fps = None;
    assert_eq!(body(&o), "-c:v libvpx-vp9 -b:v 0 -crf 16 -an");
}

#[test]
fn animation_targets() {
    let palette = "split[a][b];[a]palettegen=stats_mode=diff[p];[b][p]paletteuse=dither=bayer:\
                   bayer_scale=5:diff_mode=rectangle";
    assert_eq!(body(&options("gif")), format!("-an -filter_complex {palette} -loop 0"));
    let mut o = options("gif");
    o.height = Some(100);
    o.fps = Some("12.5".to_string());
    assert_eq!(
        body(&o),
        format!("-an -filter_complex fps=12.5,scale=-2:100:flags=lanczos,{palette} -loop 0")
    );
    let mut o = options("webp");
    o.quality = 80;
    o.width = Some(10);
    o.height = Some(20);
    assert_eq!(
        body(&o),
        "-an -vf scale=10:20:flags=lanczos -c:v libwebp -loop 0 -preset picture -q:v 80"
    );
}

#[test]
fn image_targets() {
    assert_eq!(body(&options("jpg")), "-frames:v 1 -an -qscale:v 9");
    assert_eq!(body(&options("png")), "-frames:v 1 -an -compression_level 9");
    let mut o = options("bmp");
    o.fps = Some("30".to_string());
    o.width = Some(64);
    // A still has no frame rate.
    assert_eq!(body(&o), "-vf scale=64:-2:flags=lanczos -frames:v 1 -an");
}

#[test]
fn audio_targets() {
    for (ext, args) in [
        ("mp3", "-vn -c:a libmp3lame -b:a 214k"),
        ("m4a", "-vn -c:a aac -b:a 214k"),
        ("opus", "-vn -c:a libopus -b:a 214k"),
        ("ogg", "-vn -c:a libvorbis -b:a 214k"),
        ("flac", "-vn -c:a flac"),
        ("wav", "-vn -c:a pcm_s16le"),
    ] {
        assert_eq!(body(&options(ext)), args);
        assert!(compactor::convert::format(ext).unwrap().kind == Kind::Audio);
    }
}

#[test]
fn options_are_clamped() {
    let mut o = options("mp4");
    assert_eq!((o.quality, o.audio), (75, true));
    o.width = Some(1);
    o.height = Some(100_000);
    o.quality = 200;
    o.sanitise();
    assert_eq!((o.width, o.height, o.quality), (Some(16), Some(7680), 100));
    o.sanitise();
    assert_eq!((o.width, o.height, o.quality), (Some(16), Some(7680), 100));
}

#[test]
fn codecs() {
    for (name, codec) in [
        ("h264", Codec::H264),
        ("x264", Codec::H264),
        ("avc", Codec::H264),
        ("h265", Codec::H265),
        ("x265", Codec::H265),
        ("hevc", Codec::H265),
        ("vp9", Codec::Vp9),
        ("av1", Codec::Av1),
    ] {
        assert_eq!(Codec::parse(name), Some(codec));
    }
    assert_eq!(Codec::parse("VP9"), None);
    assert_eq!(Codec::Vp9.ext(), "webm");
    assert_eq!(Codec::Av1.ext(), "mp4");
    assert_eq!(Codec::H265.max_crf(), 51);
    assert_eq!(Codec::Av1.max_crf(), 63);
}

#[test]
fn settings_are_clamped() {
    let mut s = Settings::default();
    s.width = Some(0);
    s.height = Some(9000);
    s.crf = 60;
    s.preset = "placebo".to_string();
    s.sanitise();
    assert_eq!((s.width, s.height, s.crf), (Some(16), Some(7680), 51));
    assert_eq!(s.preset, "medium");
    s.codec = Codec::Vp9;
    s.crf = 60;
    s.preset = "veryslow".to_string();
    s.sanitise();
    assert_eq!((s.crf, s.preset.as_str()), (60, "veryslow"));
    for p in PRESETS {
        assert!(known_preset(p));
    }
    assert!(!known_preset("Medium"));
}

#[test]
fn re_encodes() {
    let args = |s: &Settings| {
        let t = show(transcode(s));
        t.strip_prefix(HEAD).unwrap().strip_suffix(TAIL).unwrap().to_string()
    };
    let mut s = Settings::default();
    assert_eq!(
        args(&s),
        "-c:v libx264 -crf 28 -preset medium -pix_fmt yuv420p -movflags +faststart \
         -c:a aac -b:a 128k"
    );
    s.height = Some(720);
    s.fps = Some("30".to_string());
    s.codec = Codec::H265;
    s.audio = false;
    assert_eq!(
        args(&s),
        "-vf fps=30,scale=-2:720 -c:v libx265 -crf 28 -preset medium -pix_fmt yuv420p \
         -movflags +faststart -an"
    );
    s.codec = Codec::Vp9;
    s.audio = true;
    s.fps = None;
    s.width = Some(640);
    assert_eq!(
        args(&s),
        "-vf scale=640:720 -c:v libvpx-vp9 -crf 28 -b:v 0 -c:a libopus -b:a 128k"
    );
    s.codec = Codec::Av1;
    s.width = None;
    s.height = None;
    assert_eq!(args(&s), "-c:v libsvtav1 -crf 28 -c:a aac -b:a 128k");
    assert_eq!(
        show(duration_args()),
        "-v error -show_entries format=duration -of default=noprint_wrappers=1:nokey=1 <in>"
    );
}

#[test]
fn progress_lines() {
    assert_eq!(progress_micros("out_time_us=1500000"), Some(1_500_000));
    assert_eq!(progress_micros("out_time_us= 7 "), Some(7));
    assert_eq!(progress_micros("out_time_us=+7"), Some(7));
    assert_eq!(progress_micros("out_time_us=-0"), Some(0));
    assert_eq!(progress_micros("out_time_us=-5"), None);
    assert_eq!(progress_micros("out_time_us=-+0"), None);
    assert_eq!(progress_micros("out_time_us=N/A"), None);
    assert_eq!(progress_micros("out_time_us="), None);
    assert_eq!(progress_micros("out_time_us=9223372036854775807"), Some(i64::MAX as u64));
    assert_eq!(progress_micros("out_time_us=9223372036854775808"), None);
    assert_eq!(progress_micros("frame=3"), None);
    assert_eq!(progress_micros(" out_time_us=3"), None);
}

#[test]
fn the_last_line_is_reported() {
    let mut tail = Vec::new();
    assert_eq!(failure(&tail), "ffmpeg: no output");
    for i in 0..20 {
        keep_error(&mut tail, format!(" line {i} "));
        keep_error(&mut tail, "  ".to_string());
    }
    assert_eq!(tail.len(), 8);
    assert_eq!(tail[0], " line 12 ");
    assert_eq!(failure(&tail), "ffmpeg: line 19");
}

#[test]
fn quality_changes_nothing_for_lossless_formats() {
    for ext in ["png", "flac", "wav"] {
        let mut o = options(ext);
        let before = body(&o);
        o.quality = 3;
        assert_eq!(body(&o), before);
    }
    let mut o = options("mp3");
    let before = body(&o);
    o.quality = 3;
    assert_ne!(body(&o), before);
}

#[test]
fn stills_report_no_progress() {
    for ext in ["png", "jpg", "bmp", "tiff"] {
        assert!(!reports_progress(&options(ext).format));
    }
    for ext in ["mp4", "gif", "webp", "mp3", "wav"] {
        assert!(reports_progress(&options(ext).format));
    }
}

#[test]
fn higher_quality_is_never_worse() {
    let mut last = (u32::MAX, u32::MAX, 0);
    for quality in 0..=255u8 {
        let mut o = options("mp4");
        o.quality = quality;
        let now = (o.crf(51), o.qscale(), o.audio_kbps());
        assert!(now.0 <= last.0 && now.1 <= last.1 && now.2 >= last.2);
        last = now;
    }
    assert_eq!(last, (4, 2, 320));
}
