//! Optional video re-encoding, delegated to ffmpeg.
//!
//! This is *lossy* and has nothing to do with the context-mixing codec: it
//! throws pixels and frames away on purpose. It exists because that is the only
//! thing that actually shrinks a video: a lossless pass over an already encoded
//! MP4 gains close to nothing.
//!
//! ffmpeg is looked up on PATH and never bundled; when it is missing the
//! feature is simply reported as unavailable.

use vstd::prelude::*;
use vstd::string::StringExecFns;

use crate::args::{Arg, ArgList};
#[allow(unused_imports)]
use crate::args::{args_of, word, ArgView};
use crate::convert::{begin_ffmpeg, clamp_pixels, end_ffmpeg, filter_chain};
#[allow(unused_imports)]
use crate::convert::{
    chain, ffmpeg_head, ffmpeg_tail, fps_filter, sane_pixels, scale_filter,
};
use crate::text::{chars_of, parse_number, same, strip_prefix, text_between, trim};
#[allow(unused_imports)]
use crate::text::{
    all_digits, decimal, digits_value, number, text_or_none, texts_of, trimmed, without_prefix,
};

verus! {

#[derive(Clone, Copy, Debug, PartialEq, Eq, Structural)]
pub enum Codec {
    H264,
    H265,
    Vp9,
    Av1,
}

impl Codec {
    /// The codec that `s` names, in lower case.
    pub open spec fn named(s: Seq<char>) -> Option<Codec> {
        if s == "h264"@ || s == "x264"@ || s == "avc"@ {
            Some(Codec::H264)
        } else if s == "h265"@ || s == "x265"@ || s == "hevc"@ {
            Some(Codec::H265)
        } else if s == "vp9"@ {
            Some(Codec::Vp9)
        } else if s == "av1"@ {
            Some(Codec::Av1)
        } else {
            None
        }
    }

    pub fn parse(s: &str) -> (r: Option<Codec>)
        ensures
            r == Codec::named(s@),
    {
        if same(s, "h264") || same(s, "x264") || same(s, "avc") {
            Some(Codec::H264)
        } else if same(s, "h265") || same(s, "x265") || same(s, "hevc") {
            Some(Codec::H265)
        } else if same(s, "vp9") {
            Some(Codec::Vp9)
        } else if same(s, "av1") {
            Some(Codec::Av1)
        } else {
            None
        }
    }

    pub open spec fn encoder_spec(self) -> Seq<char> {
        match self {
            Codec::H264 => "libx264"@,
            Codec::H265 => "libx265"@,
            Codec::Vp9 => "libvpx-vp9"@,
            Codec::Av1 => "libsvtav1"@,
        }
    }

    /// ffmpeg's name for the encoder.
    pub fn encoder(self) -> (s: &'static str)
        ensures
            s@ == self.encoder_spec(),
    {
        match self {
            Codec::H264 => "libx264",
            Codec::H265 => "libx265",
            Codec::Vp9 => "libvpx-vp9",
            Codec::Av1 => "libsvtav1",
        }
    }

    pub open spec fn ext_spec(self) -> Seq<char> {
        match self {
            Codec::Vp9 => "webm"@,
            _ => "mp4"@,
        }
    }

    /// Container extension that every build of ffmpeg will accept for this
    /// encoder.
    pub fn ext(self) -> (s: &'static str)
        ensures
            s@ == self.ext_spec(),
    {
        match self {
            Codec::Vp9 => "webm",
            _ => "mp4",
        }
    }

    pub open spec fn max_crf_spec(self) -> u8 {
        match self {
            Codec::Vp9 | Codec::Av1 => 63,
            _ => 51,
        }
    }

    /// Highest CRF value the encoder accepts. libsvtav1 and libvpx-vp9 go to
    /// 63, x264/x265 to 51.
    pub fn max_crf(self) -> (n: u8)
        ensures
            n == self.max_crf_spec(),
    {
        match self {
            Codec::Vp9 | Codec::Av1 => 63,
            _ => 51,
        }
    }

    /// x264 and x265 take a speed preset; the other encoders do not.
    pub open spec fn takes_preset(self) -> bool {
        self == Codec::H264 || self == Codec::H265
    }
}

/// How many stderr lines are kept while ffmpeg runs. Only the last one is ever
/// reported, the others are context when it is uninformative.
pub const ERR_TAIL: usize = 8;

pub const PRESETS: [&'static str; 9] = [
    "ultrafast",
    "superfast",
    "veryfast",
    "faster",
    "fast",
    "medium",
    "slow",
    "slower",
    "veryslow",
];

/// A preset that x264 and x265 know.
pub open spec fn is_preset(s: Seq<char>) -> bool {
    exists|i: int| 0 <= i < 9 && #[trigger] PRESETS@[i]@ == s
}

/// What a re-encode is to produce.
pub struct Settings {
    /// Target width in pixels; `None` derives it from the height.
    pub width: Option<u32>,
    /// Target height in pixels; `None` derives it from the width.
    pub height: Option<u32>,
    /// Target frame rate, as ffmpeg is given it; `None` keeps the source rate.
    pub fps: Option<String>,
    /// Constant-quality value. Lower is better quality and a bigger file.
    pub crf: u8,
    /// x264/x265 speed preset, ignored by the other encoders.
    pub preset: String,
    pub codec: Codec,
    /// Keep the audio track (re-encoded to AAC/Opus) or drop it.
    pub audio: bool,
}

/// Settings, as contracts see them.
pub struct SettingsView {
    pub width: Option<u32>,
    pub height: Option<u32>,
    pub fps: Option<Seq<char>>,
    pub crf: u8,
    pub preset: Seq<char>,
    pub codec: Codec,
    pub audio: bool,
}

impl View for Settings {
    type V = SettingsView;

    open spec fn view(&self) -> SettingsView {
        SettingsView {
            width: self.width,
            height: self.height,
            fps: text_or_none(self.fps),
            crf: self.crf,
            preset: self.preset@,
            codec: self.codec,
            audio: self.audio,
        }
    }
}

impl SettingsView {
    /// The settings that nobody has changed.
    pub open spec fn standard() -> SettingsView {
        SettingsView {
            width: None,
            height: None,
            fps: None,
            crf: 28,
            preset: "medium"@,
            codec: Codec::H264,
            audio: true,
        }
    }

    /// Everything is in a range that ffmpeg accepts.
    pub open spec fn sane(self) -> bool {
        &&& self.width matches Some(w) ==> 16 <= w <= 7680
        &&& self.height matches Some(h) ==> 16 <= h <= 7680
        &&& self.crf <= self.codec.max_crf_spec()
        &&& is_preset(self.preset)
    }

    /// The settings with everything in range.
    pub open spec fn sanitised(self) -> SettingsView {
        SettingsView {
            width: sane_pixels(self.width),
            height: sane_pixels(self.height),
            crf: if self.crf > self.codec.max_crf_spec() {
                self.codec.max_crf_spec()
            } else {
                self.crf
            },
            preset: if is_preset(self.preset) {
                self.preset
            } else {
                "medium"@
            },
            ..self
        }
    }
}

/// Sanitised settings are in range, sanitising them again changes nothing, and
/// what was in range stays as it was.
pub proof fn law_sane_settings(s: SettingsView)
    ensures
        s.sanitised().sane(),
        s.sanitised().sanitised() == s.sanitised(),
        s.sane() ==> s.sanitised() == s,
        s.sanitised().width is None <==> s.width is None,
        s.sanitised().height is None <==> s.height is None,
        s.width matches Some(w) && 16 <= w <= 7680 ==> s.sanitised().width == s.width,
        s.height matches Some(h) && 16 <= h <= 7680 ==> s.sanitised().height == s.height,
        s.crf <= s.codec.max_crf_spec() ==> s.sanitised().crf == s.crf,
        s.sanitised().preset == (if is_preset(s.preset) {
            s.preset
        } else {
            "medium"@
        }),
        s.sanitised().fps == s.fps,
        s.sanitised().codec == s.codec,
        s.sanitised().audio == s.audio,
{
    assert(PRESETS@[5]@ == "medium"@);
}

impl Default for Settings {
    fn default() -> (s: Self)
        ensures
            s@ == SettingsView::standard(),
    {
        Settings {
            width: None,
            height: None,
            fps: None,
            crf: 28,
            preset: "medium".to_string(),
            codec: Codec::H264,
            audio: true,
        }
    }
}

impl Settings {
    /// Clamp everything to a range ffmpeg accepts. Values arrive from a web
    /// form, so nothing here may be trusted. (The frame rate is clamped where
    /// it is read.)
    pub fn sanitise(&mut self)
        ensures
            final(self)@ == old(self)@.sanitised(),
    {
        // 16..7680 covers thumbnails up to 8K; odd sizes are handled by the
        // `-2` in the scale filter, which rounds to an even number.
        self.width = clamp_pixels(self.width);
        self.height = clamp_pixels(self.height);
        let max: u8 = self.codec.max_crf();
        if self.crf > max {
            self.crf = max;
        }
        if !known_preset(self.preset.as_str()) {
            self.preset = "medium".to_string();
        }
    }

    /// Frame rate and scaling, as a filter chain.
    pub open spec fn filter_spec(self) -> Option<Seq<char>> {
        chain(fps_filter(self.fps), scale_filter(self.width, self.height, ""@))
    }

    /// Frame rate and scaling, as a filter chain.
    pub fn filter(&self) -> (r: Option<String>)
        ensures
            match r {
                Some(s) => self.filter_spec() == Some(s@),
                None => self.filter_spec() is None,
            },
    {
        filter_chain(&self.fps, self.width, self.height, "")
    }
}

/// Whether `s` is a preset that x264 and x265 know.
pub fn known_preset(s: &str) -> (r: bool)
    ensures
        r == is_preset(s@),
{
    let mut i: usize = 0;
    while i < 9
        invariant
            i <= 9,
            forall|j: int| 0 <= j < i ==> #[trigger] PRESETS@[j]@ != s@,
        decreases 9 - i,
    {
        if same(PRESETS[i], s) {
            assert(PRESETS@[i as int]@ == s@);
            return true;
        }
        i = i + 1;
    }
    false
}

/// The ffprobe arguments that ask for the duration of the input, in seconds.
pub open spec fn duration_spec() -> Seq<ArgView> {
    seq![
        word("-v"@),
        word("error"@),
        word("-show_entries"@),
        word("format=duration"@),
        word("-of"@),
        word("default=noprint_wrappers=1:nokey=1"@),
        ArgView::Input,
    ]
}

/// The ffprobe arguments that ask for the duration of the input, in seconds.
pub fn duration_args() -> (list: Vec<Arg>)
    ensures
        args_of(list@) == duration_spec(),
{
    let mut a = ArgList::new();
    a.text("-v");
    a.text("error");
    a.text("-show_entries");
    a.text("format=duration");
    a.text("-of");
    a.text("default=noprint_wrappers=1:nokey=1");
    a.input();
    assert(a@ =~= duration_spec());
    a.finish()
}

/// The ffmpeg arguments of a re-encode. The x264 and x265 files get the chroma
/// subsampling and the moov atom at the front that let them play in a browser
/// and start before they are fully downloaded. Without an explicit bitrate of 0
/// libvpx treats `-crf` as a ceiling on a bitrate-targeted encode instead of
/// constant quality.
pub open spec fn transcode_args(set: Settings) -> Seq<ArgView> {
    let filter = match set.filter_spec() {
        Some(f) => seq![word("-vf"@), word(f)],
        None => Seq::empty(),
    };
    let picture = seq![
        word("-c:v"@),
        word(set.codec.encoder_spec()),
        word("-crf"@),
        word(decimal(set.crf as nat)),
    ];
    let speed = if set.codec.takes_preset() {
        seq![
            word("-preset"@),
            word(set.preset@),
            word("-pix_fmt"@),
            word("yuv420p"@),
            word("-movflags"@),
            word("+faststart"@),
        ]
    } else if set.codec == Codec::Vp9 {
        seq![word("-b:v"@), word("0"@)]
    } else {
        Seq::empty()
    };
    let sound = if !set.audio {
        seq![word("-an"@)]
    } else if set.codec == Codec::Vp9 {
        seq![word("-c:a"@), word("libopus"@), word("-b:a"@), word("128k"@)]
    } else {
        seq![word("-c:a"@), word("aac"@), word("-b:a"@), word("128k"@)]
    };
    ffmpeg_head() + filter + picture + speed + sound + ffmpeg_tail()
}

/// The ffmpeg arguments that re-encode the input into the output.
pub fn transcode(set: &Settings) -> (list: Vec<Arg>)
    ensures
        args_of(list@) == transcode_args(*set),
{
    let mut a = begin_ffmpeg();
    match set.filter() {
        Some(f) => {
            a.text("-vf");
            a.text(f.as_str());
        },
        None => {},
    }
    a.text("-c:v");
    a.text(set.codec.encoder());
    a.text("-crf");
    a.number(set.crf as u64);
    if set.codec == Codec::H264 || set.codec == Codec::H265 {
        a.text("-preset");
        a.text(set.preset.as_str());
        a.text("-pix_fmt");
        a.text("yuv420p");
        a.text("-movflags");
        a.text("+faststart");
    } else if set.codec == Codec::Vp9 {
        a.text("-b:v");
        a.text("0");
    }
    if !set.audio {
        a.text("-an");
    } else if set.codec == Codec::Vp9 {
        a.text("-c:a");
        a.text("libopus");
        a.text("-b:a");
        a.text("128k");
    } else {
        a.text("-c:a");
        a.text("aac");
        a.text("-b:a");
        a.text("128k");
    }
    end_ffmpeg(&mut a);
    assert(a@ =~= transcode_args(*set));
    a.finish()
}

/// The number that `s` spells as a 64-bit integer, unless it is negative.
pub open spec fn not_negative(s: Seq<char>) -> Option<nat> {
    if s.len() > 0 && s[0] == '-' {
        if all_digits(s.skip(1)) && digits_value(s.skip(1)) == 0 {
            Some(0)
        } else {
            None
        }
    } else {
        number(s, 0x7fff_ffff_ffff_ffff)
    }
}

/// The position that a line of ffmpeg's progress output reports, in
/// microseconds of footage written.
pub open spec fn reported_time(line: Seq<char>) -> Option<nat> {
    match without_prefix(line, "out_time_us="@) {
        Some(v) => not_negative(trimmed(v)),
        None => None,
    }
}

/// The position that a line of ffmpeg's progress output reports, in
/// microseconds of footage written.
pub fn progress_micros(line: &str) -> (r: Option<u64>)
    ensures
        match r {
            Some(us) => reported_time(line@) == Some(us as nat),
            None => reported_time(line@) is None,
        },
{
    match strip_prefix(line, "out_time_us=") {
        None => None,
        Some(v) => {
            let t = trim(v.as_str());
            let c = chars_of(t.as_str());
            if c.len() > 0 && c[0] == '-' {
                let rest = text_between(&c, 1, c.len());
                assert(rest@ =~= t@.skip(1));
                if c.len() > 1 && c[1] == '+' {
                    assert(!all_digits(rest@)) by {
                        assert(rest@[0] == '+');
                    }
                    return None;
                }
                match parse_number(rest.as_str(), 0) {
                    Some(_) => Some(0),
                    None => None,
                }
            } else {
                parse_number(t.as_str(), 0x7fff_ffff_ffff_ffff)
            }
        },
    }
}

/// The log once `line` has come: blank lines are skipped, and only the end is
/// kept, since keeping more would just let a broken file grow it without bound.
pub open spec fn tail_with(tail: Seq<Seq<char>>, line: Seq<char>) -> Seq<Seq<char>> {
    if trimmed(line).len() == 0 {
        tail
    } else if tail.len() == ERR_TAIL {
        tail.skip(1).push(line)
    } else {
        tail.push(line)
    }
}

/// Add a line to the log of a run.
pub fn keep_error(tail: &mut Vec<String>, line: String)
    ensures
        texts_of(final(tail)@) == tail_with(texts_of(old(tail)@), line@),
        old(tail)@.len() <= ERR_TAIL ==> final(tail)@.len() <= ERR_TAIL,
{
    if trim(line.as_str()).as_str().is_empty() {
        return;
    }
    if tail.len() == ERR_TAIL {
        tail.remove(0);
        assert(texts_of(tail@) =~= texts_of(old(tail)@).skip(1));
    }
    let ghost before = texts_of(tail@);
    tail.push(line);
    assert(texts_of(tail@) =~= before.push(line@));
}

/// ffmpeg's last line is the useful one; the rest is usually noise.
pub open spec fn failure_text(tail: Seq<Seq<char>>) -> Seq<char> {
    "ffmpeg: "@ + (if tail.len() > 0 {
        trimmed(tail.last())
    } else {
        "no output"@
    })
}

/// The message for a run that failed with the given log.
pub fn failure(tail: &Vec<String>) -> (s: String)
    ensures
        s@ == failure_text(texts_of(tail@)),
{
    let mut s = "ffmpeg: ".to_string();
    if tail.len() > 0 {
        s.append(trim(tail[tail.len() - 1].as_str()).as_str());
    } else {
        s.append("no output");
    }
    s
}

/// Sizes are kept within 16 and 7680 pixels and the CRF within what the encoder
/// takes; whatever is within stays as it was, and the rest as well.
pub proof fn law_settings_in_range_are_kept(s: SettingsView)
    ensures
        ({
            let n = s.sanitised();
            let max: u8 = if s.codec == Codec::Vp9 || s.codec == Codec::Av1 {
                63
            } else {
                51
            };
            &&& s.width matches Some(w) ==> n.width == Some(
                if w < 16 {
                    16u32
                } else if w > 7680 {
                    7680u32
                } else {
                    w
                },
            )
            &&& s.height matches Some(h) ==> n.height == Some(
                if h < 16 {
                    16u32
                } else if h > 7680 {
                    7680u32
                } else {
                    h
                },
            )
            &&& s.width is None ==> n.width is None
            &&& s.height is None ==> n.height is None
            &&& n.crf == (if s.crf > max {
                max
            } else {
                s.crf
            })
            &&& n.fps == s.fps && n.codec == s.codec && n.audio == s.audio
            &&& n.preset == s.preset || n.preset == "medium"@
        }),
{
}

/// A preset is one of nine, and any of them is kept.
pub proof fn law_presets(s: SettingsView)
    ensures
        ({
            let known = s.preset == "ultrafast"@ || s.preset == "superfast"@ || s.preset
                == "veryfast"@ || s.preset == "faster"@ || s.preset == "fast"@ || s.preset
                == "medium"@ || s.preset == "slow"@ || s.preset == "slower"@ || s.preset
                == "veryslow"@;
            &&& known ==> s.sanitised().preset == s.preset
            &&& !known ==> s.sanitised().preset == "medium"@
        }),
{
    let t = PRESETS@;
    assert(t[0]@ == "ultrafast"@ && t[1]@ == "superfast"@ && t[2]@ == "veryfast"@ && t[3]@
        == "faster"@ && t[4]@ == "fast"@ && t[5]@ == "medium"@ && t[6]@ == "slow"@ && t[7]@
        == "slower"@ && t[8]@ == "veryslow"@);
}

/// Nobody having said otherwise: H.264 at a CRF of 28 and medium speed, with the
/// size, the frame rate and the sound of the source.
pub proof fn law_standard_settings()
    ensures
        ({
            let s = SettingsView::standard();
            &&& s.width is None && s.height is None && s.fps is None
            &&& s.crf == 28 && s.preset == "medium"@ && s.codec == Codec::H264 && s.audio
        }),
{
}

/// A field of the settings is what it is called.
pub proof fn law_settings_view(s: Settings)
    ensures
        s@.width == s.width && s@.height == s.height && s@.crf == s.crf,
        s@.preset == s.preset@ && s@.codec == s.codec && s@.audio == s.audio,
        s.fps is None <==> s@.fps is None,
        s.fps matches Some(f) ==> s@.fps == Some(f@),
{
}

/// The codecs go by the names that people and encoders give them.
pub proof fn law_codec_names(s: Seq<char>)
    ensures
        s == "h264"@ || s == "x264"@ || s == "avc"@ ==> Codec::named(s) == Some(Codec::H264),
        s == "h265"@ || s == "x265"@ || s == "hevc"@ ==> Codec::named(s) == Some(Codec::H265),
        s == "vp9"@ ==> Codec::named(s) == Some(Codec::Vp9),
        s == "av1"@ ==> Codec::named(s) == Some(Codec::Av1),
        Codec::named(s) is Some ==> s == "h264"@ || s == "x264"@ || s == "avc"@ || s == "h265"@ || s
            == "x265"@ || s == "hevc"@ || s == "vp9"@ || s == "av1"@,
{
    reveal_strlit("h264");
    reveal_strlit("x264");
    reveal_strlit("avc");
    reveal_strlit("h265");
    reveal_strlit("x265");
    reveal_strlit("hevc");
    reveal_strlit("vp9");
    reveal_strlit("av1");
    assert("h264"@[3] == '4' && "x264"@[3] == '4' && "h265"@[3] == '5' && "x265"@[3] == '5'
        && "hevc"@[3] == 'c');
    assert("avc"@[2] == 'c' && "vp9"@[2] == '9' && "av1"@[2] == '1');
}

/// The filters of a re-encode: the frame rate first, then the size.
pub proof fn law_re_encode_filters(s: Settings)
    ensures
        ({
            let size = scale_filter(s.width, s.height, ""@);
            &&& s.fps is None ==> s.filter_spec() == size
            &&& s.fps is Some && size is None ==> s.filter_spec() == Some("fps="@ + s.fps->Some_0@)
            &&& s.fps is Some && size is Some ==> s.filter_spec() == Some(
                "fps="@ + s.fps->Some_0@ + ","@ + size->Some_0,
            )
        }),
{
}

/// What a re-encode asks of ffmpeg: the filters, the encoder of the codec at the
/// CRF asked for, the preset for x264 and x265 and constant quality for VP9, and
/// the sound, or none on request.
pub proof fn law_re_encode(s: Settings)
    ensures
        ({
            let filter = match s.filter_spec() {
                Some(f) => seq![ArgView::Text("-vf"@), ArgView::Text(f)],
                None => Seq::empty(),
            };
            let x26 = s.codec == Codec::H264 || s.codec == Codec::H265;
            let picture = seq![
                ArgView::Text("-c:v"@),
                ArgView::Text(
                    match s.codec {
                        Codec::H264 => "libx264"@,
                        Codec::H265 => "libx265"@,
                        Codec::Vp9 => "libvpx-vp9"@,
                        Codec::Av1 => "libsvtav1"@,
                    },
                ),
                ArgView::Text("-crf"@),
                ArgView::Text(decimal(s.crf as nat)),
            ];
            let more = if x26 {
                seq![
                    ArgView::Text("-preset"@),
                    ArgView::Text(s.preset@),
                    ArgView::Text("-pix_fmt"@),
                    ArgView::Text("yuv420p"@),
                    ArgView::Text("-movflags"@),
                    ArgView::Text("+faststart"@),
                ]
            } else if s.codec == Codec::Vp9 {
                seq![ArgView::Text("-b:v"@), ArgView::Text("0"@)]
            } else {
                Seq::empty()
            };
            let sound = if s.audio {
                seq![
                    ArgView::Text("-c:a"@),
                    ArgView::Text(
                        if s.codec == Codec::Vp9 {
                            "libopus"@
                        } else {
                            "aac"@
                        },
                    ),
                    ArgView::Text("-b:a"@),
                    ArgView::Text("128k"@),
                ]
            } else {
                seq![ArgView::Text("-an"@)]
            };
            let a = transcode_args(s);
            let n = a.len() as int;
            &&& n >= 16
            &&& a[0] == ArgView::Text("-hide_banner"@) && a[1] == ArgView::Text("-loglevel"@)
            &&& a[2] == ArgView::Text("error"@) && a[3] == ArgView::Text("-nostdin"@)
            &&& a[4] == ArgView::Text("-y"@) && a[5] == ArgView::Text("-i"@)
            &&& a[6] == ArgView::Input
            &&& a.subrange(7, n - 4) == filter + picture + more + sound
            &&& a[n - 4] == ArgView::Text("-progress"@) && a[n - 3] == ArgView::Text("pipe:1"@)
            &&& a[n - 2] == ArgView::Text("-nostats"@) && a[n - 1] == ArgView::Output
        }),
{
    let filter = match s.filter_spec() {
        Some(f) => seq![ArgView::Text("-vf"@), ArgView::Text(f)],
        None => Seq::empty(),
    };
    let a = transcode_args(s);
    let n = a.len() as int;
    let inner = a.subrange(7, n - 4);
    assert(filter.len() <= 2);
    assert(inner.take(filter.len() as int) =~= filter);
}

/// A result goes into the container that its codec is at home in, and each codec
/// has its own highest CRF.
pub proof fn law_codec_traits(c: Codec)
    ensures
        c.ext_spec() == (if c == Codec::Vp9 {
            "webm"@
        } else {
            "mp4"@
        }),
        c.max_crf_spec() == (if c == Codec::Vp9 || c == Codec::Av1 {
            63u8
        } else {
            51u8
        }),
{
}

/// The time that ffmpeg gives in microseconds is read, and nothing else is.
pub proof fn law_progress_lines(n: nat, line: Seq<char>)
    ensures
        n <= 0x7fff_ffff_ffff_ffff ==> reported_time("out_time_us="@ + decimal(n)) == Some(n),
        n > 0 ==> reported_time("out_time_us=-"@ + decimal(n)) is None,
        reported_time(line) is Some ==> exists|rest: Seq<char>|
            line == #[trigger] ("out_time_us="@ + rest),
        reported_time(line) matches Some(t) ==> t <= 0x7fff_ffff_ffff_ffff,
{
    let p = "out_time_us="@;
    let d = decimal(n);
    crate::text::law_prefix_and_suffix(d, p);
    crate::text::law_decimal_is_short(n);
    crate::text::lemma_decimal(n);
    crate::text::law_decimal_is_read_back(n, if n <= 0x7fff_ffff_ffff_ffff {
        0x7fff_ffff_ffff_ffff
    } else {
        n
    });
    crate::text::law_trim_undoes_padding(d, ' ');
    assert(!crate::text::is_space(d[0]) && !crate::text::is_space(d.last()));
    let m = seq!['-'] + d;
    reveal_strlit("out_time_us=");
    reveal_strlit("out_time_us=-");
    assert("out_time_us=-"@ + d =~= p + m);
    crate::text::law_prefix_and_suffix(m, p);
    crate::text::law_trim_undoes_padding(m, ' ');
    assert(m.last() == d.last());
    assert(m.skip(1) =~= d);
    crate::text::law_prefix_and_suffix(line, p);
    if reported_time(line) is Some {
        let rest = without_prefix(line, p)->Some_0;
        assert(line == p + rest);
    }
}

/// Blank lines are not kept, and of the others the last eight are; the last one
/// is what a failure is put down to.
pub proof fn law_last_lines_are_kept(tail: Seq<Seq<char>>, line: Seq<char>)
    ensures
        trimmed(line).len() == 0 ==> tail_with(tail, line) == tail,
        trimmed(line).len() > 0 ==> tail_with(tail, line).last() == line && failure_text(
            tail_with(tail, line),
        ) == "ffmpeg: "@ + trimmed(line),
        trimmed(line).len() > 0 && tail.len() < 8 ==> tail_with(tail, line).drop_last() == tail,
        trimmed(line).len() > 0 && tail.len() == 8 ==> tail_with(tail, line).drop_last()
            == tail.skip(1),
        failure_text(seq![]) == "ffmpeg: no output"@,
{
    reveal_strlit("ffmpeg: ");
    reveal_strlit("no output");
    reveal_strlit("ffmpeg: no output");
    assert("ffmpeg: "@ + "no output"@ =~= "ffmpeg: no output"@);
    if trimmed(line).len() > 0 {
        if tail.len() == 8 {
            assert(tail_with(tail, line).drop_last() =~= tail.skip(1));
        } else {
            assert(tail_with(tail, line).drop_last() =~= tail);
        }
    }
}

/// ffprobe is asked for the duration of the input and nothing else, as a bare
/// number.
pub proof fn law_duration_is_asked()
    ensures
        duration_spec() == seq![
            ArgView::Text("-v"@),
            ArgView::Text("error"@),
            ArgView::Text("-show_entries"@),
            ArgView::Text("format=duration"@),
            ArgView::Text("-of"@),
            ArgView::Text("default=noprint_wrappers=1:nokey=1"@),
            ArgView::Input,
        ],
{
}

/// White space around a time does not count, and no time at all is none.
pub proof fn law_blank_times(n: nat)
    requires
        n <= 0x7fff_ffff_ffff_ffff,
    ensures
        reported_time("out_time_us="@ + decimal(n).push('\r')) == Some(n),
        reported_time("out_time_us="@) is None,
        reported_time("out_time_us=-"@) is None,
{
    let p = "out_time_us="@;
    let d = decimal(n);
    let none = Seq::<char>::empty();
    reveal_strlit("out_time_us=");
    reveal_strlit("out_time_us=-");
    crate::text::law_decimal_is_short(n);
    crate::text::law_decimal_is_read_back(n, 0x7fff_ffff_ffff_ffff);
    crate::text::law_white_space('\r');
    crate::text::law_prefix_and_suffix(d.push('\r'), p);
    crate::text::law_trim_undoes_padding(d, '\r');
    assert(!crate::text::is_space(d[0]) && !crate::text::is_space(d.last()));
    assert(p =~= p + none);
    crate::text::law_prefix_and_suffix(none, p);
    assert(trimmed(none).len() == 0);
    crate::text::law_number(none, '0', 0x7fff_ffff_ffff_ffff);
    let m = seq!['-'];
    assert("out_time_us=-"@ =~= p + m);
    crate::text::law_prefix_and_suffix(m, p);
    crate::text::law_trim_undoes_padding(m, ' ');
    assert(m.skip(1) =~= none);
    assert(trimmed(m) == m);
}

} // verus!
