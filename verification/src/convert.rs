//! Format conversion, delegated to ffmpeg.
//!
//! Same footing as [`crate::video`]: this is *lossy* for every format that has
//! a quality knob, and it exists because a lossless pass cannot turn an MP4
//! into a WebP. The target format decides the whole command line: codec, frame
//! handling, whether audio survives. Everything a caller can choose lives in
//! [`Options`].

use vstd::prelude::*;
use vstd::string::StringExecFns;

use crate::args::{Arg, ArgList};
#[allow(unused_imports)]
use crate::args::{args_of, word, ArgView};
#[allow(unused_imports)]
use crate::logistic::clamped;
use crate::text::{chars_of, push_decimal, same, same_ignoring_case, text_between, trim_span};
#[allow(unused_imports)]
use crate::text::{decimal, lower, lowered, text_or_none, trimmed};

verus! {

/// What a target format produces. It decides whether the source's audio and
/// its extra frames are kept.
#[derive(Clone, Copy, Debug, PartialEq, Eq, Structural)]
pub enum Kind {
    /// Moving picture, with audio when the container holds it.
    Video,
    /// Moving picture with no audio track at all (GIF, animated WebP).
    Animation,
    /// A single frame; only the first one is written.
    Image,
    /// Audio only; the video stream is dropped.
    Audio,
}

#[derive(Clone, Copy, Debug)]
pub struct Format {
    /// File extension, and the name accepted on the command line and in the
    /// web form.
    pub ext: &'static str,
    pub kind: Kind,
    /// Shown in the interface.
    pub label: &'static str,
}

/// Everything that can be produced. Formats whose encoder is not compiled into
/// the local ffmpeg simply fail at run time with ffmpeg's own message, which is
/// clearer than anything guessed here.
pub open spec fn format_table() -> Seq<Format> {
    seq![
        Format { ext: "mp4", kind: Kind::Video, label: "MP4 (H.264)" },
        Format { ext: "webm", kind: Kind::Video, label: "WebM (VP9)" },
        Format { ext: "mkv", kind: Kind::Video, label: "MKV (H.264)" },
        Format { ext: "mov", kind: Kind::Video, label: "MOV (H.264)" },
        Format { ext: "gif", kind: Kind::Animation, label: "GIF animé" },
        Format { ext: "webp", kind: Kind::Animation, label: "WebP (animé si vidéo)" },
        Format { ext: "png", kind: Kind::Image, label: "PNG" },
        Format { ext: "jpg", kind: Kind::Image, label: "JPEG" },
        Format { ext: "bmp", kind: Kind::Image, label: "BMP" },
        Format { ext: "tiff", kind: Kind::Image, label: "TIFF" },
        Format { ext: "mp3", kind: Kind::Audio, label: "MP3" },
        Format { ext: "m4a", kind: Kind::Audio, label: "M4A (AAC)" },
        Format { ext: "opus", kind: Kind::Audio, label: "Opus" },
        Format { ext: "ogg", kind: Kind::Audio, label: "OGG (Vorbis)" },
        Format { ext: "flac", kind: Kind::Audio, label: "FLAC" },
        Format { ext: "wav", kind: Kind::Audio, label: "WAV" },
    ]
}

/// Everything that can be produced, in the order of the interface.
pub fn formats() -> (t: [Format; 16])
    ensures
        t@ == format_table(),
{
    let t = [
        Format { ext: "mp4", kind: Kind::Video, label: "MP4 (H.264)" },
        Format { ext: "webm", kind: Kind::Video, label: "WebM (VP9)" },
        Format { ext: "mkv", kind: Kind::Video, label: "MKV (H.264)" },
        Format { ext: "mov", kind: Kind::Video, label: "MOV (H.264)" },
        Format { ext: "gif", kind: Kind::Animation, label: "GIF animé" },
        Format { ext: "webp", kind: Kind::Animation, label: "WebP (animé si vidéo)" },
        Format { ext: "png", kind: Kind::Image, label: "PNG" },
        Format { ext: "jpg", kind: Kind::Image, label: "JPEG" },
        Format { ext: "bmp", kind: Kind::Image, label: "BMP" },
        Format { ext: "tiff", kind: Kind::Image, label: "TIFF" },
        Format { ext: "mp3", kind: Kind::Audio, label: "MP3" },
        Format { ext: "m4a", kind: Kind::Audio, label: "M4A (AAC)" },
        Format { ext: "opus", kind: Kind::Audio, label: "Opus" },
        Format { ext: "ogg", kind: Kind::Audio, label: "OGG (Vorbis)" },
        Format { ext: "flac", kind: Kind::Audio, label: "FLAC" },
        Format { ext: "wav", kind: Kind::Audio, label: "WAV" },
    ];
    assert(t@ =~= format_table());
    t
}

/// `s` without the dots at its start.
pub open spec fn undotted(s: Seq<char>) -> Seq<char>
    decreases s.len(),
{
    if s.len() > 0 && s[0] == '.' {
        undotted(s.skip(1))
    } else {
        s
    }
}

/// The extension that is meant by the spellings people actually type.
pub open spec fn unaliased(s: Seq<char>) -> Seq<char> {
    if s == "jpeg"@ {
        "jpg"@
    } else if s == "tif"@ {
        "tiff"@
    } else if s == "matroska"@ {
        "mkv"@
    } else if s == "m4v"@ {
        "mp4"@
    } else if s == "oga"@ {
        "ogg"@
    } else {
        s
    }
}

/// The first format from entry `i` on with extension `ext`, whatever its case.
pub open spec fn format_from(ext: Seq<char>, i: int) -> Option<Format>
    decreases format_table().len() - i,
{
    if i >= format_table().len() {
        None
    } else if lowered(format_table()[i].ext@) == lowered(ext) {
        Some(format_table()[i])
    } else {
        format_from(ext, i + 1)
    }
}

/// The format that `name` names.
pub open spec fn format_named(name: Seq<char>) -> Option<Format> {
    format_from(unaliased(undotted(trimmed(name))), 0)
}

/// Look a format up by extension. Aliases the spellings people actually type.
pub fn format(name: &str) -> (r: Option<Format>)
    ensures
        r == format_named(name@),
{
    let v = chars_of(name);
    let (from, to) = trim_span(&v, 0, v.len());
    assert(v@.subrange(0, v@.len() as int) =~= name@);
    let mut a: usize = from;
    while a < to && v[a] == '.'
        invariant
            from <= a <= to <= v@.len(),
            undotted(v@.subrange(a as int, to as int)) == undotted(trimmed(name@)),
        decreases to - a,
    {
        assert(v@.subrange(a as int, to as int).skip(1) =~= v@.subrange(a + 1, to as int));
        a = a + 1;
    }
    let typed = text_between(&v, a, to);
    assert(typed@ == undotted(trimmed(name@)));
    let ext: &str = if same(typed.as_str(), "jpeg") {
        "jpg"
    } else if same(typed.as_str(), "tif") {
        "tiff"
    } else if same(typed.as_str(), "matroska") {
        "mkv"
    } else if same(typed.as_str(), "m4v") {
        "mp4"
    } else if same(typed.as_str(), "oga") {
        "ogg"
    } else {
        typed.as_str()
    };
    let table = formats();
    let mut i: usize = 0;
    while i < 16
        invariant
            i <= 16,
            table@ == format_table(),
            format_table().len() == 16,
            ext@ == unaliased(undotted(trimmed(name@))),
            format_from(ext@, i as int) == format_named(name@),
        decreases 16 - i,
    {
        if same_ignoring_case(table[i].ext, ext) {
            return Some(table[i]);
        }
        i = i + 1;
    }
    None
}

/// The extensions of the first `n` formats, with commas in between.
pub open spec fn names_of(n: nat) -> Seq<char>
    decreases n,
{
    if n == 0 {
        Seq::empty()
    } else if n == 1 {
        format_table()[0].ext@
    } else {
        names_of((n - 1) as nat) + ", "@ + format_table()[n - 1].ext@
    }
}

/// Comma-separated list of every target, for error messages and usage text.
pub fn names() -> (s: String)
    ensures
        s@ == names_of(16),
{
    let table = formats();
    let mut s = table[0].ext.to_string();
    let mut i: usize = 1;
    while i < 16
        invariant
            1 <= i <= 16,
            table@ == format_table(),
            s@ == names_of(i as nat),
        decreases 16 - i,
    {
        s.append(", ");
        s.append(table[i].ext);
        i = i + 1;
    }
    s
}

/// What a conversion is to produce.
pub struct Options {
    pub format: Format,
    /// Target width in pixels; `None` derives it from the height.
    pub width: Option<u32>,
    /// Target height in pixels; `None` derives it from the width.
    pub height: Option<u32>,
    /// Target frame rate, as ffmpeg is given it; `None` keeps the source rate.
    /// Ignored for a still image and for audio.
    pub fps: Option<String>,
    /// 0..100, higher is better quality and a bigger file. Every format maps it
    /// to whatever scale its encoder uses.
    pub quality: u8,
    /// Keep the audio track when the target can hold one.
    pub audio: bool,
}

/// Options, as contracts see them.
pub struct OptionsView {
    pub format: Format,
    pub width: Option<u32>,
    pub height: Option<u32>,
    pub fps: Option<Seq<char>>,
    pub quality: u8,
    pub audio: bool,
}

impl View for Options {
    type V = OptionsView;

    open spec fn view(&self) -> OptionsView {
        OptionsView {
            format: self.format,
            width: self.width,
            height: self.height,
            fps: text_or_none(self.fps),
            quality: self.quality,
            audio: self.audio,
        }
    }
}

impl OptionsView {
    /// The options that nobody has changed.
    pub open spec fn standard(format: Format) -> OptionsView {
        OptionsView { format, width: None, height: None, fps: None, quality: 75, audio: true }
    }

    /// The options with everything in range.
    pub open spec fn sanitised(self) -> OptionsView {
        OptionsView {
            width: sane_pixels(self.width),
            height: sane_pixels(self.height),
            quality: if self.quality > 100 {
                100
            } else {
                self.quality
            },
            ..self
        }
    }
}

/// A size in pixels, within what ffmpeg accepts.
pub open spec fn sane_pixels(v: Option<u32>) -> Option<u32> {
    match v {
        Some(n) => Some(clamped(n as int, 16, 7680) as u32),
        None => None,
    }
}

/// A size in pixels, within what ffmpeg accepts.
pub fn clamp_pixels(v: Option<u32>) -> (r: Option<u32>)
    ensures
        r == sane_pixels(v),
{
    match v {
        Some(n) => Some(if n < 16 {
            16
        } else if n > 7680 {
            7680
        } else {
            n
        }),
        None => None,
    }
}

/// The scale filter for the given sides. `-2` means "derive from the other
/// side, rounded to an even number", which the video codecs require; giving
/// both sides is an explicit request to stretch.
pub open spec fn scale_filter(
    width: Option<u32>,
    height: Option<u32>,
    flags: Seq<char>,
) -> Option<Seq<char>> {
    match (width, height) {
        (Some(w), Some(h)) => Some(
            "scale="@ + decimal(w as nat) + ":"@ + decimal(h as nat) + flags,
        ),
        (Some(w), None) => Some("scale="@ + decimal(w as nat) + ":-2"@ + flags),
        (None, Some(h)) => Some("scale=-2:"@ + decimal(h as nat) + flags),
        (None, None) => None,
    }
}

/// The scale filter for the given sides.
pub fn scale_text(width: Option<u32>, height: Option<u32>, flags: &str) -> (r: Option<String>)
    ensures
        match r {
            Some(s) => scale_filter(width, height, flags@) == Some(s@),
            None => scale_filter(width, height, flags@) is None,
        },
{
    match (width, height) {
        (Some(w), Some(h)) => {
            let mut s = "scale=".to_string();
            push_decimal(&mut s, w as u64);
            s.append(":");
            push_decimal(&mut s, h as u64);
            s.append(flags);
            Some(s)
        },
        (Some(w), None) => {
            let mut s = "scale=".to_string();
            push_decimal(&mut s, w as u64);
            s.append(":-2");
            s.append(flags);
            Some(s)
        },
        (None, Some(h)) => {
            let mut s = "scale=-2:".to_string();
            push_decimal(&mut s, h as u64);
            s.append(flags);
            Some(s)
        },
        (None, None) => None,
    }
}

/// Two filters as a chain; either may be missing.
pub open spec fn chain(a: Option<Seq<char>>, b: Option<Seq<char>>) -> Option<Seq<char>> {
    match (a, b) {
        (Some(x), Some(y)) => Some(x + ","@ + y),
        (Some(x), None) => Some(x),
        (None, y) => y,
    }
}

/// The frame rate filter.
pub open spec fn fps_filter(fps: Option<String>) -> Option<Seq<char>> {
    match fps {
        Some(f) => Some("fps="@ + f@),
        None => None,
    }
}

/// The frame rate filter and the scale filter, as a chain.
pub fn filter_chain(
    fps: &Option<String>,
    width: Option<u32>,
    height: Option<u32>,
    flags: &str,
) -> (r: Option<String>)
    ensures
        match r {
            Some(s) => chain(fps_filter(*fps), scale_filter(width, height, flags@)) == Some(s@),
            None => chain(fps_filter(*fps), scale_filter(width, height, flags@)) is None,
        },
{
    let scale = scale_text(width, height, flags);
    match fps {
        Some(f) => {
            let mut s = "fps=".to_string();
            s.append(f.as_str());
            match scale {
                Some(t) => {
                    s.append(",");
                    s.append(t.as_str());
                },
                None => {},
            }
            Some(s)
        },
        None => scale,
    }
}

impl Options {
    pub fn new(format: Format) -> (o: Options)
        ensures
            o@ == OptionsView::standard(format),
    {
        Options { format, width: None, height: None, fps: None, quality: 75, audio: true }
    }

    /// Clamp everything to a range ffmpeg accepts. Values arrive from a web
    /// form, so nothing here may be trusted. (The frame rate is clamped where
    /// it is read.)
    pub fn sanitise(&mut self)
        ensures
            final(self)@ == old(self)@.sanitised(),
    {
        self.width = clamp_pixels(self.width);
        self.height = clamp_pixels(self.height);
        if self.quality > 100 {
            self.quality = 100;
        }
    }

    /// Scaling and frame rate, as a filter chain.
    pub open spec fn filter_spec(self) -> Option<Seq<char>> {
        chain(
            if self.format.kind == Kind::Image {
                None
            } else {
                fps_filter(self.fps)
            },
            scale_filter(self.width, self.height, ":flags=lanczos"@),
        )
    }

    /// Scaling and frame rate, as a filter chain. Shared by every kind, so the
    /// GIF palette pass can splice it in front of its own filters.
    pub fn filter(&self) -> (r: Option<String>)
        ensures
            match r {
                Some(s) => self.filter_spec() == Some(s@),
                None => self.filter_spec() is None,
            },
    {
        if self.format.kind == Kind::Image {
            scale_text(self.width, self.height, ":flags=lanczos")
        } else {
            filter_chain(&self.fps, self.width, self.height, ":flags=lanczos")
        }
    }

    /// 31 less 29 hundredths of the quality, rounded.
    pub open spec fn qscale_spec(self) -> int {
        clamped((3150 - 29 * self.quality) / 100, 2, 31)
    }

    /// JPEG and friends take `-qscale:v`, where 2 is best and 31 is worst: the
    /// opposite direction and a different range from ours.
    pub fn qscale(&self) -> (q: u32)
        ensures
            q == self.qscale_spec(),
    {
        let q: i32 = 3150 - 29 * self.quality as i32;
        if q < 200 {
            2
        } else {
            (q / 100) as u32
        }
    }

    /// What is left of `max` at this quality, rounded.
    pub open spec fn crf_spec(self, max: int) -> int {
        clamped(((100 - self.quality) * max + 50) / 100, 4, max)
    }

    /// Constant-quality value for the video codecs, where 0 is best. x264 and
    /// x265 stop at 51, VP9 at 63; the low end is left alone because a CRF of 0
    /// on a re-encode is a waste of bytes.
    pub fn crf(&self, max: u32) -> (c: u32)
        requires
            4 <= max <= 63,
        ensures
            c == self.crf_spec(max as int),
    {
        if self.quality > 100 {
            assert((100 - self.quality) * max + 50 < 100) by (nonlinear_arith)
                requires
                    self.quality > 100,
                    max > 0,
            ;
            return 4;
        }
        let left: u32 = 100 - self.quality as u32;
        assert(0 <= left * max <= 100 * max) by (nonlinear_arith)
            requires
                0 <= left <= 100,
                max > 0,
        ;
        let c: u32 = (left * max + 50) / 100;
        if c < 4 {
            4
        } else {
            c
        }
    }

    /// 64 kbit/s and two more for each step of quality.
    pub open spec fn kbps_spec(self) -> int {
        clamped(64 + 2 * self.quality, 64, 320)
    }

    /// Audio bitrate in kbit/s, for the encoders that want one.
    pub fn audio_kbps(&self) -> (k: u32)
        ensures
            k == self.kbps_spec(),
    {
        let k: u32 = 64 + self.quality as u32 * 2;
        if k > 320 {
            320
        } else {
            k
        }
    }

    /// `-vf` and the filter chain, if there is one.
    pub open spec fn filter_args(self) -> Seq<ArgView> {
        match self.filter_spec() {
            Some(f) => seq![word("-vf"@), word(f)],
            None => Seq::empty(),
        }
    }

    fn push_filter(&self, a: &mut ArgList)
        ensures
            final(a)@ == old(a)@ + self.filter_args(),
    {
        match self.filter() {
            Some(f) => {
                a.text("-vf");
                a.text(f.as_str());
            },
            None => {},
        }
        assert(a@ =~= old(a)@ + self.filter_args());
    }

    /// The picture of a moving picture. Without an explicit bitrate of 0 libvpx
    /// treats `-crf` as a ceiling on a bitrate-targeted encode, not constant
    /// quality. The others get the chroma subsampling that every player accepts
    /// and, where the container has one, a moov atom at the front so the result
    /// starts before it is fully downloaded.
    pub open spec fn picture_args(self) -> Seq<ArgView> {
        let ext = self.format.ext@;
        if ext == "webm"@ {
            seq![
                word("-c:v"@),
                word("libvpx-vp9"@),
                word("-b:v"@),
                word("0"@),
                word("-crf"@),
                word(decimal(self.crf_spec(63) as nat)),
            ]
        } else {
            seq![
                word("-c:v"@),
                word("libx264"@),
                word("-preset"@),
                word("medium"@),
                word("-crf"@),
                word(decimal(self.crf_spec(51) as nat)),
                word("-pix_fmt"@),
                word("yuv420p"@),
            ] + (if ext == "mp4"@ || ext == "mov"@ {
                seq![word("-movflags"@), word("+faststart"@)]
            } else {
                Seq::empty()
            })
        }
    }

    fn push_picture(&self, a: &mut ArgList)
        ensures
            final(a)@ == old(a)@ + self.picture_args(),
    {
        if same(self.format.ext, "webm") {
            a.text("-c:v");
            a.text("libvpx-vp9");
            a.text("-b:v");
            a.text("0");
            a.text("-crf");
            a.number(self.crf(63) as u64);
        } else {
            a.text("-c:v");
            a.text("libx264");
            a.text("-preset");
            a.text("medium");
            a.text("-crf");
            a.number(self.crf(51) as u64);
            a.text("-pix_fmt");
            a.text("yuv420p");
            if same(self.format.ext, "mp4") || same(self.format.ext, "mov") {
                a.text("-movflags");
                a.text("+faststart");
            }
        }
        assert(a@ =~= old(a)@ + self.picture_args());
    }

    /// The sound of a moving picture.
    pub open spec fn sound_args(self) -> Seq<ArgView> {
        if !self.audio {
            seq![word("-an"@)]
        } else if self.format.ext@ == "webm"@ {
            seq![word("-c:a"@), word("libopus"@), word("-b:a"@), word("128k"@)]
        } else {
            seq![word("-c:a"@), word("aac"@), word("-b:a"@), word("128k"@)]
        }
    }

    fn push_sound(&self, a: &mut ArgList)
        ensures
            final(a)@ == old(a)@ + self.sound_args(),
    {
        if !self.audio {
            a.text("-an");
        } else if same(self.format.ext, "webm") {
            a.text("-c:a");
            a.text("libopus");
            a.text("-b:a");
            a.text("128k");
        } else {
            a.text("-c:a");
            a.text("aac");
            a.text("-b:a");
            a.text("128k");
        }
        assert(a@ =~= old(a)@ + self.sound_args());
    }

    /// The arguments for a moving picture.
    pub open spec fn video_args(self) -> Seq<ArgView> {
        self.filter_args() + self.picture_args() + self.sound_args()
    }

    fn push_video(&self, a: &mut ArgList)
        ensures
            final(a)@ == old(a)@ + self.video_args(),
    {
        self.push_filter(a);
        self.push_picture(a);
        self.push_sound(a);
        assert(a@ =~= old(a)@ + self.video_args());
    }

    /// The palette passes of a GIF, after the filters there are. A GIF holds 256
    /// colours, and ffmpeg's default palette is a fixed one that turns gradients
    /// into mud. Generating the palette from the actual frames costs one extra
    /// filter and is the whole difference between a usable GIF and a cheap one.
    pub open spec fn palette_filter(self) -> Seq<char> {
        let pre = match self.filter_spec() {
            Some(f) => f + ","@,
            None => ""@,
        };
        pre
            + "split[a][b];[a]palettegen=stats_mode=diff[p];[b][p]paletteuse=dither=bayer:bayer_scale=5:diff_mode=rectangle"@
    }

    /// The arguments for a picture that moves in silence: neither container
    /// carries sound.
    pub open spec fn animation_args(self) -> Seq<ArgView> {
        if self.format.ext@ == "gif"@ {
            seq![
                word("-an"@),
                word("-filter_complex"@),
                word(self.palette_filter()),
                word("-loop"@),
                word("0"@),
            ]
        } else {
            seq![word("-an"@)] + self.filter_args() + seq![
                word("-c:v"@),
                word("libwebp"@),
                word("-loop"@),
                word("0"@),
                word("-preset"@),
                word("picture"@),
                word("-q:v"@),
                word(decimal(self.quality as nat)),
            ]
        }
    }

    fn push_animation(&self, a: &mut ArgList)
        ensures
            final(a)@ == old(a)@ + self.animation_args(),
    {
        a.text("-an");
        if same(self.format.ext, "gif") {
            let mut f = match self.filter() {
                Some(f) => {
                    let mut f = f;
                    f.append(",");
                    f
                },
                None => "".to_string(),
            };
            f.append(
                "split[a][b];[a]palettegen=stats_mode=diff[p];[b][p]paletteuse=dither=bayer:bayer_scale=5:diff_mode=rectangle",
            );
            a.text("-filter_complex");
            a.text(f.as_str());
            a.text("-loop");
            a.text("0");
        } else {
            self.push_filter(a);
            a.text("-c:v");
            a.text("libwebp");
            a.text("-loop");
            a.text("0");
            a.text("-preset");
            a.text("picture");
            a.text("-q:v");
            a.number(self.quality as u64);
        }
        assert(a@ =~= old(a)@ + self.animation_args());
    }

    /// The arguments for a still. A video source would otherwise write one file
    /// per frame, and ffmpeg refuses without a numbered pattern in the name. PNG
    /// is lossless; more effort only buys a smaller file.
    pub open spec fn image_args(self) -> Seq<ArgView> {
        let ext = self.format.ext@;
        self.filter_args() + seq![word("-frames:v"@), word("1"@), word("-an"@)] + (if ext
            == "jpg"@ {
            seq![word("-qscale:v"@), word(decimal(self.qscale_spec() as nat))]
        } else if ext == "png"@ {
            seq![word("-compression_level"@), word("9"@)]
        } else {
            Seq::empty()
        })
    }

    fn push_image(&self, a: &mut ArgList)
        ensures
            final(a)@ == old(a)@ + self.image_args(),
    {
        self.push_filter(a);
        a.text("-frames:v");
        a.text("1");
        a.text("-an");
        if same(self.format.ext, "jpg") {
            a.text("-qscale:v");
            a.number(self.qscale() as u64);
        } else if same(self.format.ext, "png") {
            a.text("-compression_level");
            a.text("9");
        }
        assert(a@ =~= old(a)@ + self.image_args());
    }

    /// The encoder of an audio format, and whether it wants a bitrate: FLAC and
    /// WAV are lossless and would ignore one.
    pub open spec fn audio_encoder(self) -> (Seq<char>, bool) {
        let ext = self.format.ext@;
        if ext == "mp3"@ {
            ("libmp3lame"@, true)
        } else if ext == "m4a"@ {
            ("aac"@, true)
        } else if ext == "opus"@ {
            ("libopus"@, true)
        } else if ext == "ogg"@ {
            ("libvorbis"@, true)
        } else if ext == "flac"@ {
            ("flac"@, false)
        } else {
            ("pcm_s16le"@, false)
        }
    }

    /// The arguments for sound alone.
    pub open spec fn audio_args(self) -> Seq<ArgView> {
        let (encoder, lossy) = self.audio_encoder();
        seq![word("-vn"@), word("-c:a"@), word(encoder)] + (if lossy {
            seq![word("-b:a"@), word(decimal(self.kbps_spec() as nat) + "k"@)]
        } else {
            Seq::empty()
        })
    }

    fn push_audio(&self, a: &mut ArgList)
        ensures
            final(a)@ == old(a)@ + self.audio_args(),
    {
        let ext = self.format.ext;
        let (encoder, lossy): (&str, bool) = if same(ext, "mp3") {
            ("libmp3lame", true)
        } else if same(ext, "m4a") {
            ("aac", true)
        } else if same(ext, "opus") {
            ("libopus", true)
        } else if same(ext, "ogg") {
            ("libvorbis", true)
        } else if same(ext, "flac") {
            ("flac", false)
        } else {
            ("pcm_s16le", false)
        };
        a.text("-vn");
        a.text("-c:a");
        a.text(encoder);
        if lossy {
            let mut kbps = crate::text::decimal_text(self.audio_kbps() as u64);
            kbps.append("k");
            a.text("-b:a");
            a.text(kbps.as_str());
        }
        assert(a@ =~= old(a)@ + self.audio_args());
    }
}

/// Sanitised options are in range, and sanitising them again changes nothing.
pub proof fn law_sane_options(o: OptionsView)
    ensures
        o.sanitised().sanitised() == o.sanitised(),
        o.sanitised().quality <= 100,
        o.sanitised().width matches Some(w) ==> 16 <= w <= 7680,
        o.sanitised().height matches Some(h) ==> 16 <= h <= 7680,
        o.sanitised().width is None <==> o.width is None,
        o.sanitised().height is None <==> o.height is None,
{
}

/// Higher is better and bigger on every scale: a lower CRF, a lower `qscale`, a
/// higher bitrate.
pub proof fn law_quality_is_monotonic(a: Options, b: Options, max: int)
    requires
        a.quality <= b.quality,
        max >= 4,
    ensures
        b.crf_spec(max) <= a.crf_spec(max),
        b.qscale_spec() <= a.qscale_spec(),
        a.kbps_spec() <= b.kbps_spec(),
        4 <= a.crf_spec(max) <= max,
        2 <= a.qscale_spec() <= 31,
        64 <= a.kbps_spec() <= 320,
{
    assert((100 - b.quality) * max <= (100 - a.quality) * max) by (nonlinear_arith)
        requires
            a.quality <= b.quality,
            max >= 4,
    ;
}

/// What every ffmpeg run begins with.
pub open spec fn ffmpeg_head() -> Seq<ArgView> {
    seq![
        word("-hide_banner"@),
        word("-loglevel"@),
        word("error"@),
        word("-nostdin"@),
        word("-y"@),
        word("-i"@),
        ArgView::Input,
    ]
}

/// What every followed ffmpeg run ends with.
pub open spec fn ffmpeg_tail() -> Seq<ArgView> {
    seq![word("-progress"@), word("pipe:1"@), word("-nostats"@), ArgView::Output]
}

/// Begin an ffmpeg argument list.
pub fn begin_ffmpeg() -> (a: ArgList)
    ensures
        a@ == ffmpeg_head(),
{
    let mut a = ArgList::new();
    a.text("-hide_banner");
    a.text("-loglevel");
    a.text("error");
    a.text("-nostdin");
    a.text("-y");
    a.text("-i");
    a.input();
    assert(a@ =~= ffmpeg_head());
    a
}

/// End the argument list of a followed ffmpeg run.
pub fn end_ffmpeg(a: &mut ArgList)
    ensures
        final(a)@ == old(a)@ + ffmpeg_tail(),
{
    a.text("-progress");
    a.text("pipe:1");
    a.text("-nostats");
    a.output();
    assert(a@ =~= old(a)@ + ffmpeg_tail());
}

/// Whether progress is reported on a conversion to `format`: a still image is a
/// single frame, so there is none.
pub fn reports_progress(format: &Format) -> (r: bool)
    ensures
        r == (format.kind != Kind::Image),
{
    format.kind != Kind::Image
}

/// The ffmpeg arguments of a conversion.
pub open spec fn convert_args(opts: Options) -> Seq<ArgView> {
    ffmpeg_head() + (match opts.format.kind {
        Kind::Video => opts.video_args(),
        Kind::Animation => opts.animation_args(),
        Kind::Image => opts.image_args(),
        Kind::Audio => opts.audio_args(),
    }) + ffmpeg_tail()
}

/// The quality changes nothing for PNG, FLAC and WAV, which are lossless.
pub proof fn law_lossless_ignores_quality(o: Options, quality: u8)
    requires
        ({
            let ext = o.format.ext@;
            ||| o.format.kind == Kind::Image && ext == "png"@
            ||| o.format.kind == Kind::Audio && (ext == "flac"@ || ext == "wav"@)
        }),
    ensures
        convert_args(Options { quality, ..o }) == convert_args(o),
{
    let p = Options { quality, ..o };
    reveal_strlit("png");
    reveal_strlit("jpg");
    reveal_strlit("flac");
    reveal_strlit("wav");
    reveal_strlit("mp3");
    reveal_strlit("m4a");
    reveal_strlit("opus");
    reveal_strlit("ogg");
    assert("png"@[0] == 'p' && "jpg"@[0] == 'j');
    assert("flac"@[0] == 'f' && "opus"@[0] == 'o');
    assert("wav"@[0] == 'w' && "mp3"@[0] == 'm' && "m4a"@[0] == 'm' && "ogg"@[0] == 'o');
    assert(p.filter_args() == o.filter_args());
    assert(p.image_args() =~= o.image_args() || o.format.kind != Kind::Image);
    assert(p.audio_args() =~= o.audio_args() || o.format.kind != Kind::Audio);
}

/// The ffmpeg arguments that convert the input into the output, whose name must
/// carry the extension of `opts.format`.
pub fn convert(opts: &Options) -> (list: Vec<Arg>)
    ensures
        args_of(list@) == convert_args(*opts),
{
    let mut a = begin_ffmpeg();
    match opts.format.kind {
        Kind::Video => opts.push_video(&mut a),
        Kind::Animation => opts.push_animation(&mut a),
        Kind::Image => opts.push_image(&mut a),
        Kind::Audio => opts.push_audio(&mut a),
    }
    end_ffmpeg(&mut a);
    a.finish()
}

/// Sizes are kept within 16 and 7680 pixels, the quality within 100, and
/// whatever is within stays as it was; so do the frame rate and the sound.
pub proof fn law_options_in_range_are_kept(o: OptionsView)
    ensures
        ({
            let s = o.sanitised();
            &&& o.width matches Some(w) ==> s.width == Some(
                if w < 16 {
                    16u32
                } else if w > 7680 {
                    7680u32
                } else {
                    w
                },
            )
            &&& o.height matches Some(h) ==> s.height == Some(
                if h < 16 {
                    16u32
                } else if h > 7680 {
                    7680u32
                } else {
                    h
                },
            )
            &&& o.width is None ==> s.width is None
            &&& o.height is None ==> s.height is None
            &&& s.quality == (if o.quality > 100 {
                100
            } else {
                o.quality
            })
            &&& s.fps == o.fps && s.audio == o.audio && s.format == o.format
        }),
{
}

/// Nobody having said otherwise, the size and the frame rate are those of the
/// source, the quality is 75, and the sound is kept.
pub proof fn law_standard_options(f: Format)
    ensures
        ({
            let o = OptionsView::standard(f);
            &&& o.format == f && o.width is None && o.height is None && o.fps is None
            &&& o.quality == 75 && o.audio
        }),
{
}

/// A field of the options is what it is called.
pub proof fn law_options_view(o: Options)
    ensures
        o@.format == o.format && o@.width == o.width && o@.height == o.height,
        o@.quality == o.quality && o@.audio == o.audio,
        o.fps is None <==> o@.fps is None,
        o.fps matches Some(f) ==> o@.fps == Some(f@),
{
}

/// One side given, the other one follows; both given, the picture is stretched;
/// none given, it is left alone.
pub proof fn law_scaling(w: u32, h: u32, flags: Seq<char>)
    ensures
        scale_filter(Some(w), None, flags) == Some(
            "scale="@ + decimal(w as nat) + ":-2"@ + flags,
        ),
        scale_filter(None, Some(h), flags) == Some("scale=-2:"@ + decimal(h as nat) + flags),
        scale_filter(Some(w), Some(h), flags) == Some(
            "scale="@ + decimal(w as nat) + ":"@ + decimal(h as nat) + flags,
        ),
        scale_filter(None, None, flags) is None,
{
}

/// The filters of a conversion: the frame rate first, unless a still is made,
/// then the size.
pub proof fn law_conversion_filters(o: Options)
    ensures
        ({
            let size = scale_filter(o.width, o.height, ":flags=lanczos"@);
            let still = o.format.kind == Kind::Image;
            &&& o.fps is None || still ==> o.filter_spec() == size
            &&& !still && (o.fps matches Some(f) && size is None) ==> o.filter_spec() == Some(
                "fps="@ + o.fps->Some_0@,
            )
            &&& !still && o.fps is Some && size is Some ==> o.filter_spec() == Some(
                "fps="@ + o.fps->Some_0@ + ","@ + size->Some_0,
            )
        }),
{
}

/// The scales of the encoders: CRF and `qscale` fall as the quality rises, each
/// to the nearest whole number, and the bitrate rises by two for each step.
pub proof fn law_quality_scales(o: Options, max: int)
    requires
        o.quality <= 100,
        max == 51 || max == 63,
    ensures
        ({
            let left = (100 - o.quality) * max;
            let crf = o.crf_spec(max);
            let q = o.qscale_spec();
            &&& left >= 350 ==> -50 <= left - 100 * crf < 50
            &&& left < 350 ==> crf == 4
            &&& -50 <= 3100 - 29 * o.quality - 100 * q < 50
            &&& o.kbps_spec() == 64 + 2 * o.quality
        }),
{
    assert(0 <= (100 - o.quality) * max <= 100 * max) by (nonlinear_arith)
        requires
            0 <= o.quality <= 100,
            max > 0,
    ;
}

/// Every conversion reads the input quietly and without asking, overwrites the
/// output, which stands last, and reports its progress.
pub proof fn law_conversions_read_and_write(o: Options)
    ensures
        ({
            let a = convert_args(o);
            let n = a.len() as int;
            &&& n >= 11
            &&& a[0] == ArgView::Text("-hide_banner"@) && a[1] == ArgView::Text("-loglevel"@)
            &&& a[2] == ArgView::Text("error"@) && a[3] == ArgView::Text("-nostdin"@)
            &&& a[4] == ArgView::Text("-y"@) && a[5] == ArgView::Text("-i"@)
            &&& a[6] == ArgView::Input
            &&& a[n - 4] == ArgView::Text("-progress"@) && a[n - 3] == ArgView::Text("pipe:1"@)
            &&& a[n - 2] == ArgView::Text("-nostats"@) && a[n - 1] == ArgView::Output
            &&& a.subrange(7, n - 4) == (match o.format.kind {
                Kind::Video => o.video_args(),
                Kind::Animation => o.animation_args(),
                Kind::Image => o.image_args(),
                Kind::Audio => o.audio_args(),
            })
        }),
{
    let a = convert_args(o);
    let n = a.len() as int;
    assert(a.subrange(7, n - 4) =~= (match o.format.kind {
        Kind::Video => o.video_args(),
        Kind::Animation => o.animation_args(),
        Kind::Image => o.image_args(),
        Kind::Audio => o.audio_args(),
    }));
}

/// Filters reach ffmpeg as one argument, and only if there are any.
pub proof fn law_filters_are_handed_on(o: Options)
    ensures
        o.filter_spec() is None ==> o.filter_args().len() == 0,
        o.filter_spec() matches Some(f) ==> o.filter_args() == seq![
            ArgView::Text("-vf"@),
            ArgView::Text(f),
        ],
{
}

/// Moving pictures with sound: VP9 and Opus in WebM, H.264 and AAC in the others,
/// at the quality asked for; the sound is dropped on request.
pub proof fn law_video_targets(o: Options)
    ensures
        ({
            let webm = o.format.ext@ == "webm"@;
            let front = o.format.ext@ == "mp4"@ || o.format.ext@ == "mov"@;
            let crf = |max: int| ArgView::Text(decimal(o.crf_spec(max) as nat));
            let picture = if webm {
                seq![
                    ArgView::Text("-c:v"@),
                    ArgView::Text("libvpx-vp9"@),
                    ArgView::Text("-b:v"@),
                    ArgView::Text("0"@),
                    ArgView::Text("-crf"@),
                    crf(63),
                ]
            } else if front {
                seq![
                    ArgView::Text("-c:v"@),
                    ArgView::Text("libx264"@),
                    ArgView::Text("-preset"@),
                    ArgView::Text("medium"@),
                    ArgView::Text("-crf"@),
                    crf(51),
                    ArgView::Text("-pix_fmt"@),
                    ArgView::Text("yuv420p"@),
                    ArgView::Text("-movflags"@),
                    ArgView::Text("+faststart"@),
                ]
            } else {
                seq![
                    ArgView::Text("-c:v"@),
                    ArgView::Text("libx264"@),
                    ArgView::Text("-preset"@),
                    ArgView::Text("medium"@),
                    ArgView::Text("-crf"@),
                    crf(51),
                    ArgView::Text("-pix_fmt"@),
                    ArgView::Text("yuv420p"@),
                ]
            };
            let sound = if o.audio {
                seq![
                    ArgView::Text("-c:a"@),
                    ArgView::Text(
                        if webm {
                            "libopus"@
                        } else {
                            "aac"@
                        },
                    ),
                    ArgView::Text("-b:a"@),
                    ArgView::Text("128k"@),
                ]
            } else {
                seq![ArgView::Text("-an"@)]
            };
            o.video_args() == o.filter_args() + picture + sound
        }),
{
    let webm = o.format.ext@ == "webm"@;
    let front = o.format.ext@ == "mp4"@ || o.format.ext@ == "mov"@;
    let crf = |max: int| ArgView::Text(decimal(o.crf_spec(max) as nat));
    if webm {
        assert(o.picture_args() =~= seq![
            ArgView::Text("-c:v"@),
            ArgView::Text("libvpx-vp9"@),
            ArgView::Text("-b:v"@),
            ArgView::Text("0"@),
            ArgView::Text("-crf"@),
            crf(63),
        ]);
    } else if front {
        assert(o.picture_args() =~= seq![
            ArgView::Text("-c:v"@),
            ArgView::Text("libx264"@),
            ArgView::Text("-preset"@),
            ArgView::Text("medium"@),
            ArgView::Text("-crf"@),
            crf(51),
            ArgView::Text("-pix_fmt"@),
            ArgView::Text("yuv420p"@),
            ArgView::Text("-movflags"@),
            ArgView::Text("+faststart"@),
        ]);
    } else {
        assert(o.picture_args() =~= seq![
            ArgView::Text("-c:v"@),
            ArgView::Text("libx264"@),
            ArgView::Text("-preset"@),
            ArgView::Text("medium"@),
            ArgView::Text("-crf"@),
            crf(51),
            ArgView::Text("-pix_fmt"@),
            ArgView::Text("yuv420p"@),
        ]);
    }
}

/// Animations are silent and loop for ever: a GIF with a palette of its own,
/// WebP at the quality asked for.
pub proof fn law_animation_targets(o: Options)
    ensures
        ({
            let palette =
                "split[a][b];[a]palettegen=stats_mode=diff[p];[b][p]paletteuse=dither=bayer:bayer_scale=5:diff_mode=rectangle"@;
            let filter = match o.filter_spec() {
                Some(f) => f + ","@ + palette,
                None => palette,
            };
            o.format.ext@ == "gif"@ ==> o.animation_args() == seq![
                ArgView::Text("-an"@),
                ArgView::Text("-filter_complex"@),
                ArgView::Text(filter),
                ArgView::Text("-loop"@),
                ArgView::Text("0"@),
            ]
        }),
        o.format.ext@ != "gif"@ ==> o.animation_args() == seq![ArgView::Text("-an"@)]
            + o.filter_args() + seq![
            ArgView::Text("-c:v"@),
            ArgView::Text("libwebp"@),
            ArgView::Text("-loop"@),
            ArgView::Text("0"@),
            ArgView::Text("-preset"@),
            ArgView::Text("picture"@),
            ArgView::Text("-q:v"@),
            ArgView::Text(decimal(o.quality as nat)),
        ],
{
    reveal_strlit("");
    let palette =
        "split[a][b];[a]palettegen=stats_mode=diff[p];[b][p]paletteuse=dither=bayer:bayer_scale=5:diff_mode=rectangle"@;
    assert(""@ + palette =~= palette);
}

/// Stills are the first frame, without sound: JPEG at the quality asked for, PNG
/// as small as it gets.
pub proof fn law_image_targets(o: Options)
    ensures
        ({
            let first = o.filter_args() + seq![
                ArgView::Text("-frames:v"@),
                ArgView::Text("1"@),
                ArgView::Text("-an"@),
            ];
            let ext = o.format.ext@;
            &&& ext == "jpg"@ ==> o.image_args() == first + seq![
                ArgView::Text("-qscale:v"@),
                ArgView::Text(decimal(o.qscale_spec() as nat)),
            ]
            &&& ext == "png"@ ==> o.image_args() == first + seq![
                ArgView::Text("-compression_level"@),
                ArgView::Text("9"@),
            ]
            &&& ext != "jpg"@ && ext != "png"@ ==> o.image_args() == first
        }),
{
    reveal_strlit("jpg");
    reveal_strlit("png");
    assert("jpg"@[0] == 'j' && "png"@[0] == 'p');
}

/// Sound alone: the encoder goes by the extension, and the lossy ones get a
/// bitrate.
pub proof fn law_audio_targets(o: Options)
    ensures
        ({
            let ext = o.format.ext@;
            let lossy = |encoder: Seq<char>|
                seq![
                    ArgView::Text("-vn"@),
                    ArgView::Text("-c:a"@),
                    ArgView::Text(encoder),
                    ArgView::Text("-b:a"@),
                    ArgView::Text(decimal(o.kbps_spec() as nat) + "k"@),
                ];
            let lossless = |encoder: Seq<char>|
                seq![ArgView::Text("-vn"@), ArgView::Text("-c:a"@), ArgView::Text(encoder)];
            &&& ext == "mp3"@ ==> o.audio_args() == lossy("libmp3lame"@)
            &&& ext == "m4a"@ ==> o.audio_args() == lossy("aac"@)
            &&& ext == "opus"@ ==> o.audio_args() == lossy("libopus"@)
            &&& ext == "ogg"@ ==> o.audio_args() == lossy("libvorbis"@)
            &&& ext == "flac"@ ==> o.audio_args() == lossless("flac"@)
            &&& ext == "wav"@ ==> o.audio_args() == lossless("pcm_s16le"@)
        }),
{
    lemma_extensions_differ();
}

/// The extensions are told apart by what they spell.
proof fn lemma_extensions_differ()
    ensures
        "mp3"@ != "m4a"@,
        "mp3"@ != "ogg"@,
        "mp3"@ != "wav"@,
        "m4a"@ != "ogg"@,
        "m4a"@ != "wav"@,
        "ogg"@ != "wav"@,
        "opus"@ != "flac"@,
        "mp3"@.len() == 3 && "m4a"@.len() == 3 && "ogg"@.len() == 3 && "wav"@.len() == 3,
        "opus"@.len() == 4 && "flac"@.len() == 4,
{
    reveal_strlit("mp3");
    reveal_strlit("m4a");
    reveal_strlit("ogg");
    reveal_strlit("wav");
    reveal_strlit("opus");
    reveal_strlit("flac");
    assert("mp3"@[1] == 'p' && "m4a"@[1] == '4');
    assert("mp3"@[0] == 'm' && "ogg"@[0] == 'o' && "wav"@[0] == 'w' && "m4a"@[0] == 'm');
    assert("opus"@[0] == 'o' && "flac"@[0] == 'f');
}

/// A format is found by its extension in any case, and makes what it is known to
/// make.
pub proof fn law_formats_by_extension(name: Seq<char>)
    ensures
        lowered(name) == "mp4"@ ==> (format_named(name) matches Some(f) && f.ext@ == "mp4"@
            && f.kind == Kind::Video),
        lowered(name) == "webm"@ ==> (format_named(name) matches Some(f) && f.ext@ == "webm"@
            && f.kind == Kind::Video),
        lowered(name) == "mkv"@ ==> (format_named(name) matches Some(f) && f.ext@ == "mkv"@
            && f.kind == Kind::Video),
        lowered(name) == "mov"@ ==> (format_named(name) matches Some(f) && f.ext@ == "mov"@
            && f.kind == Kind::Video),
        lowered(name) == "gif"@ ==> (format_named(name) matches Some(f) && f.ext@ == "gif"@
            && f.kind == Kind::Animation),
        lowered(name) == "webp"@ ==> (format_named(name) matches Some(f) && f.ext@ == "webp"@
            && f.kind == Kind::Animation),
        lowered(name) == "png"@ ==> (format_named(name) matches Some(f) && f.ext@ == "png"@
            && f.kind == Kind::Image),
        lowered(name) == "jpg"@ ==> (format_named(name) matches Some(f) && f.ext@ == "jpg"@
            && f.kind == Kind::Image),
        lowered(name) == "bmp"@ ==> (format_named(name) matches Some(f) && f.ext@ == "bmp"@
            && f.kind == Kind::Image),
        lowered(name) == "tiff"@ ==> (format_named(name) matches Some(f) && f.ext@ == "tiff"@
            && f.kind == Kind::Image),
        lowered(name) == "mp3"@ ==> (format_named(name) matches Some(f) && f.ext@ == "mp3"@
            && f.kind == Kind::Audio),
        lowered(name) == "m4a"@ ==> (format_named(name) matches Some(f) && f.ext@ == "m4a"@
            && f.kind == Kind::Audio),
        lowered(name) == "opus"@ ==> (format_named(name) matches Some(f) && f.ext@ == "opus"@
            && f.kind == Kind::Audio),
        lowered(name) == "ogg"@ ==> (format_named(name) matches Some(f) && f.ext@ == "ogg"@
            && f.kind == Kind::Audio),
        lowered(name) == "flac"@ ==> (format_named(name) matches Some(f) && f.ext@ == "flac"@
            && f.kind == Kind::Audio),
        lowered(name) == "wav"@ ==> (format_named(name) matches Some(f) && f.ext@ == "wav"@
            && f.kind == Kind::Audio),
{
    lemma_table();
    let t = format_table();
    if lowered(name) == "mp4"@ {
        lemma_format_found(name, 0);
    }
    if lowered(name) == "webm"@ {
        lemma_format_found(name, 1);
    }
    if lowered(name) == "mkv"@ {
        lemma_format_found(name, 2);
    }
    if lowered(name) == "mov"@ {
        lemma_format_found(name, 3);
    }
    if lowered(name) == "gif"@ {
        lemma_format_found(name, 4);
    }
    if lowered(name) == "webp"@ {
        lemma_format_found(name, 5);
    }
    if lowered(name) == "png"@ {
        lemma_format_found(name, 6);
    }
    if lowered(name) == "jpg"@ {
        lemma_format_found(name, 7);
    }
    if lowered(name) == "bmp"@ {
        lemma_format_found(name, 8);
    }
    if lowered(name) == "tiff"@ {
        lemma_format_found(name, 9);
    }
    if lowered(name) == "mp3"@ {
        lemma_format_found(name, 10);
    }
    if lowered(name) == "m4a"@ {
        lemma_format_found(name, 11);
    }
    if lowered(name) == "opus"@ {
        lemma_format_found(name, 12);
    }
    if lowered(name) == "ogg"@ {
        lemma_format_found(name, 13);
    }
    if lowered(name) == "flac"@ {
        lemma_format_found(name, 14);
    }
    if lowered(name) == "wav"@ {
        lemma_format_found(name, 15);
    }
}

proof fn lemma_format_found(name: Seq<char>, k: int)
    requires
        0 <= k < 16,
        lowered(name) == format_table()[k].ext@,
    ensures
        format_named(name) == Some(format_table()[k]),
{
    lemma_table();
    let t = format_table();
    assert(lowered(t[k].ext@) == t[k].ext@);
    let n = name.len() as int;
    assert(lowered(name).len() == n);
    assert(n >= 3);
    assert(lower(name[0]) == t[k].ext@[0] && lower(name[n - 1]) == t[k].ext@[n - 1]);
    crate::text::law_trim_undoes_padding(name, ' ');
    assert(trimmed(name) == name);
    assert(undotted(name) == name);
    lemma_alias_is_no_format(name, k);
    lemma_format_from(name, 0, k);
}

proof fn lemma_format_from(ext: Seq<char>, i: int, k: int)
    requires
        0 <= i <= k < 16,
        lowered(ext) == format_table()[k].ext@,
    ensures
        format_from(ext, i) == Some(format_table()[k]),
    decreases k - i,
{
    lemma_table();
    let t = format_table();
    assert(lowered(t[i].ext@) == t[i].ext@);
    if i < k {
        assert(t[i].ext@ != t[k].ext@);
        lemma_format_from(ext, i + 1, k);
    }
}

proof fn lemma_alias_is_no_format(name: Seq<char>, k: int)
    requires
        0 <= k < 16,
        lowered(name) == format_table()[k].ext@,
    ensures
        unaliased(name) == name,
{
    reveal_strlit("jpeg");
    reveal_strlit("tif");
    reveal_strlit("matroska");
    reveal_strlit("m4v");
    reveal_strlit("oga");
    lemma_table();
    let t = format_table();
    let e = t[k].ext@;
    assert(name.len() == e.len());
    assert forall|i: int| 0 <= i < name.len() implies lower(#[trigger] name[i]) == e[i] by {
        assert(lowered(name)[i] == lower(name[i]));
    }
    assert("jpeg"@[0] == 'j' && "jpeg"@.len() == 4);
    assert("tif"@[0] == 't' && "tif"@.len() == 3);
    assert("matroska"@.len() == 8);
    assert("m4v"@[2] == 'v' && "m4v"@[1] == '4' && "m4v"@.len() == 3);
    assert("oga"@[2] == 'a' && "oga"@[0] == 'o' && "oga"@.len() == 3);
}

/// The extensions of the table are in lower case and differ.
proof fn lemma_table()
    ensures
        format_table().len() == 16,
        forall|i: int|
            0 <= i < 16 ==> lowered((#[trigger] format_table()[i]).ext@) == format_table()[i].ext@,
        forall|i: int| 0 <= i < 16 ==> 3 <= (#[trigger] format_table()[i]).ext@.len() <= 4,
        forall|i: int, j: int|
            0 <= i < j < 16 ==> (#[trigger] format_table()[i]).ext@ != (
            #[trigger] format_table()[j]).ext@,
        forall|i: int|
            0 <= i < 16 ==> {
                let e = (#[trigger] format_table()[i]).ext@;
                &&& 'a' <= e[0] <= 'z'
                &&& ('a' <= e.last() <= 'z' || '0' <= e.last() <= '9')
                &&& !(e.len() == 3 && e[0] == 't')
                &&& !(e.len() == 4 && e[0] == 'j')
                &&& !(e.len() == 3 && e[1] == '4' && e[2] == 'v')
                &&& !(e.len() == 3 && e[0] == 'o' && e[2] == 'a')
            },
{
    let t = format_table();
    reveal_strlit("mp4");
    reveal_strlit("webm");
    reveal_strlit("mkv");
    reveal_strlit("mov");
    reveal_strlit("gif");
    reveal_strlit("webp");
    reveal_strlit("png");
    reveal_strlit("jpg");
    reveal_strlit("bmp");
    reveal_strlit("tiff");
    reveal_strlit("mp3");
    reveal_strlit("m4a");
    reveal_strlit("opus");
    reveal_strlit("ogg");
    reveal_strlit("flac");
    reveal_strlit("wav");
    assert("mp4"@.len() == 3 && "mp4"@[0] == 'm' && "mp4"@[1] == 'p' && "mp4"@[2] == '4');
    assert(lowered("mp4"@) =~= "mp4"@);
    assert("webm"@.len() == 4 && "webm"@[0] == 'w' && "webm"@[1] == 'e' && "webm"@[2] == 'b' && "webm"@[3] == 'm');
    assert(lowered("webm"@) =~= "webm"@);
    assert("mkv"@.len() == 3 && "mkv"@[0] == 'm' && "mkv"@[1] == 'k' && "mkv"@[2] == 'v');
    assert(lowered("mkv"@) =~= "mkv"@);
    assert("mov"@.len() == 3 && "mov"@[0] == 'm' && "mov"@[1] == 'o' && "mov"@[2] == 'v');
    assert(lowered("mov"@) =~= "mov"@);
    assert("gif"@.len() == 3 && "gif"@[0] == 'g' && "gif"@[1] == 'i' && "gif"@[2] == 'f');
    assert(lowered("gif"@) =~= "gif"@);
    assert("webp"@.len() == 4 && "webp"@[0] == 'w' && "webp"@[1] == 'e' && "webp"@[2] == 'b' && "webp"@[3] == 'p');
    assert(lowered("webp"@) =~= "webp"@);
    assert("png"@.len() == 3 && "png"@[0] == 'p' && "png"@[1] == 'n' && "png"@[2] == 'g');
    assert(lowered("png"@) =~= "png"@);
    assert("jpg"@.len() == 3 && "jpg"@[0] == 'j' && "jpg"@[1] == 'p' && "jpg"@[2] == 'g');
    assert(lowered("jpg"@) =~= "jpg"@);
    assert("bmp"@.len() == 3 && "bmp"@[0] == 'b' && "bmp"@[1] == 'm' && "bmp"@[2] == 'p');
    assert(lowered("bmp"@) =~= "bmp"@);
    assert("tiff"@.len() == 4 && "tiff"@[0] == 't' && "tiff"@[1] == 'i' && "tiff"@[2] == 'f' && "tiff"@[3] == 'f');
    assert(lowered("tiff"@) =~= "tiff"@);
    assert("mp3"@.len() == 3 && "mp3"@[0] == 'm' && "mp3"@[1] == 'p' && "mp3"@[2] == '3');
    assert(lowered("mp3"@) =~= "mp3"@);
    assert("m4a"@.len() == 3 && "m4a"@[0] == 'm' && "m4a"@[1] == '4' && "m4a"@[2] == 'a');
    assert(lowered("m4a"@) =~= "m4a"@);
    assert("opus"@.len() == 4 && "opus"@[0] == 'o' && "opus"@[1] == 'p' && "opus"@[2] == 'u' && "opus"@[3] == 's');
    assert(lowered("opus"@) =~= "opus"@);
    assert("ogg"@.len() == 3 && "ogg"@[0] == 'o' && "ogg"@[1] == 'g' && "ogg"@[2] == 'g');
    assert(lowered("ogg"@) =~= "ogg"@);
    assert("flac"@.len() == 4 && "flac"@[0] == 'f' && "flac"@[1] == 'l' && "flac"@[2] == 'a' && "flac"@[3] == 'c');
    assert(lowered("flac"@) =~= "flac"@);
    assert("wav"@.len() == 3 && "wav"@[0] == 'w' && "wav"@[1] == 'a' && "wav"@[2] == 'v');
    assert(lowered("wav"@) =~= "wav"@);
    assert forall|i: int, j: int| 0 <= i < j < 16 implies (#[trigger] t[i]).ext@ != (
    #[trigger] t[j]).ext@ by {
        let a = t[i].ext@;
        let b = t[j].ext@;
        if a == b {
            assert(a.len() == b.len() && a[0] == b[0] && a[1] == b[1] && a[2] == b[2] && a.last()
                == b.last());
        }
    }
}

/// The other spellings stand for the extension that is meant; dots in front and
/// white space around do not count; and nothing else is a format.
pub proof fn law_format_spellings(name: Seq<char>)
    ensures
        name == "jpeg"@ ==> unaliased(name) == "jpg"@,
        name == "tif"@ ==> unaliased(name) == "tiff"@,
        name == "matroska"@ ==> unaliased(name) == "mkv"@,
        name == "m4v"@ ==> unaliased(name) == "mp4"@,
        name == "oga"@ ==> unaliased(name) == "ogg"@,
        unaliased(name) == name || name == "jpeg"@ || name == "tif"@ || name == "matroska"@ || name
            == "m4v"@ || name == "oga"@,
        undotted(seq!['.'] + name) == undotted(name),
        name.len() > 0 && name[0] != '.' ==> undotted(name) == name,
        format_named(name) matches Some(f) ==> format_table().contains(f) && lowered(f.ext@)
            == lowered(unaliased(undotted(trimmed(name)))),
{
    reveal_strlit("jpeg");
    reveal_strlit("tif");
    reveal_strlit("matroska");
    reveal_strlit("m4v");
    reveal_strlit("oga");
    assert("tif"@[0] == 't' && "m4v"@[0] == 'm' && "oga"@[0] == 'o');
    assert("jpeg"@.len() == 4 && "tif"@.len() == 3 && "matroska"@.len() == 8 && "m4v"@.len() == 3
        && "oga"@.len() == 3);
    assert((seq!['.'] + name).skip(1) =~= name);
    lemma_found_is_there(unaliased(undotted(trimmed(name))), 0);
}

proof fn lemma_found_is_there(ext: Seq<char>, i: int)
    requires
        0 <= i,
    ensures
        format_from(ext, i) matches Some(f) ==> format_table().contains(f) && lowered(f.ext@)
            == lowered(ext),
    decreases format_table().len() - i,
{
    if i < format_table().len() && lowered(format_table()[i].ext@) != lowered(ext) {
        lemma_found_is_there(ext, i + 1);
    }
}

/// The formats are listed by extension in the order of the table, with commas.
pub proof fn law_names_are_listed(n: nat)
    requires
        0 < n < 16,
    ensures
        names_of(1) == format_table()[0].ext@,
        names_of(n + 1) == names_of(n) + ", "@ + format_table()[n as int].ext@,
{
}

} // verus!
