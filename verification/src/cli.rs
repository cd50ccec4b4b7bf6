//! The decisions of the command line front end.

use vstd::prelude::*;
use vstd::string::StringExecFns;

#[allow(unused_imports)]
use crate::container::looks_like_archive;
use crate::container::{is_archive, DEFAULT_LEVEL, MAX_LEVEL};
#[allow(unused_imports)]
use crate::convert::{format_named, names_of, OptionsView};
use crate::convert::{names, Options};
#[allow(unused_imports)]
use crate::download::url_error;
use crate::download::{check_url, Tool};
use crate::text::{
    chars_of, find_char, parse_number, rsplit_once, same, same_ignoring_case, starts_with,
    strip_suffix, text_between, to_lower,
};
#[allow(unused_imports)]
use crate::text::{
    last_at, last_halves, lemma_first_at, lemma_last_at, lowered, number, stands_at, text_or_none,
    texts_of, without_suffix,
};
#[allow(unused_imports)]
use crate::video::SettingsView;
use crate::video::{Codec, Settings};

verus! {

pub const USAGE: &'static str = "\
compactor — advanced lossless compressor (context mixing + arithmetic coding)

USAGE:
    compactor c [-l 0..9] <input> [output]   compress   (default output: <input>.cpt)
    compactor d <input> [output]             decompress (default output: <input> without .cpt)
    compactor t [-l 0..9] <input>            round-trip self-test, no files written
    compactor bench [-l 0..9] <input>        compress, verify and report size and speed
    compactor serve [--port N]               drag-and-drop web interface on localhost
    compactor video [video options] <in> [out]  re-encode a video (lossy, needs ffmpeg)
    compactor convert --to EXT <in> [out]    convert between formats (needs ffmpeg)
    compactor dl <url> [dir]                 download a link (needs yt-dlp or curl)

OPTIONS:
    -l N          compression level 0..9 (default 6). Higher = more memory, better ratio.
    -f            overwrite the output file if it exists.
    -q            quiet: no statistics on stderr.
    --port N      port for `serve` (default 8787).
    --host ADDR   address for `serve` (default 127.0.0.1; anything else exposes
                  the interface to your network).
    --max-size N  largest upload `serve` accepts, in MiB (default 512).

VIDEO OPTIONS (for `video`; lossy re-encode through ffmpeg, which must be on PATH):
    --width N     output width in pixels; the height follows the aspect ratio.
    --height N    output height in pixels; the width follows the aspect ratio.
                  Giving both stretches the picture.
    --fps F       output frame rate (1..240). Default: keep the source rate.
    --crf N       constant quality, lower is better (0..51, or 0..63 for vp9/av1).
                  Default 28.
    --codec NAME  h264 (default), h265, vp9 or av1.
    --preset NAME x264/x265 speed preset, ultrafast..veryslow (default medium).
    --no-audio    drop the audio track.

DOWNLOAD OPTIONS (for `dl`; goes through yt-dlp when present, else curl):
    -c            compress the downloaded file to <name>.cpt and delete the
                  original.
    -l N          level for that compression.
    --no-cookies  do not let yt-dlp read the cookies of a browser.

CONVERT OPTIONS (for `convert`; goes through ffmpeg too):
    --to EXT      target format. Also read from the output file name when given.
    --quality N   0..100, higher is better and bigger (default 75). Mapped to
                  whatever scale the target encoder uses.
    --width, --height, --fps, --no-audio behave as above.
";

/// What the command line gives.
pub struct Opts {
    pub level: u8,
    pub force: bool,
    pub quiet: bool,
    pub port: u16,
    pub host: String,
    pub max_size: usize,
    /// `dl -c`: compress what was downloaded.
    pub compress: bool,
    /// Let yt-dlp read the cookies of a browser.
    pub cookies: bool,
    pub to: Option<String>,
    pub quality: u8,
    /// The frame rate is as it was typed.
    pub video: Settings,
    pub files: Vec<String>,
}

/// What the command line gives, as contracts see it.
#[verifier::ext_equal]
pub struct OptsView {
    pub level: u8,
    pub force: bool,
    pub quiet: bool,
    pub port: u16,
    pub host: Seq<char>,
    pub max_size: usize,
    pub compress: bool,
    pub cookies: bool,
    pub to: Option<Seq<char>>,
    pub quality: u8,
    pub video: SettingsView,
    pub files: Seq<Seq<char>>,
}

impl View for Opts {
    type V = OptsView;

    open spec fn view(&self) -> OptsView {
        OptsView {
            level: self.level,
            force: self.force,
            quiet: self.quiet,
            port: self.port,
            host: self.host@,
            max_size: self.max_size,
            compress: self.compress,
            cookies: self.cookies,
            to: text_or_none(self.to),
            quality: self.quality,
            video: self.video@,
            files: texts_of(self.files@),
        }
    }
}

impl OptsView {
    /// What a command line without options gives.
    pub open spec fn standard() -> OptsView {
        OptsView {
            level: DEFAULT_LEVEL,
            force: false,
            quiet: false,
            port: 8787,
            host: "127.0.0.1"@,
            max_size: 512,
            compress: false,
            cookies: true,
            to: None,
            quality: 75,
            video: SettingsView::standard(),
            files: Seq::empty(),
        }
    }
}

/// The level that `s` spells.
pub open spec fn level_spec(s: Seq<char>) -> Option<u8> {
    match number(s, 255) {
        Some(n) => if n <= MAX_LEVEL {
            Some(n as u8)
        } else {
            None
        },
        None => None,
    }
}

/// The level that `s` spells.
pub fn parse_level(s: &str) -> (r: Result<u8, String>)
    ensures
        match r {
            Ok(l) => level_spec(s@) == Some(l),
            Err(e) => level_spec(s@) is None && e@ == "level must be 0..9"@,
        },
{
    match parse_number(s, 255) {
        Some(n) => if n <= MAX_LEVEL as u64 {
            Ok(n as u8)
        } else {
            Err("level must be 0..9".to_string())
        },
        None => Err("level must be 0..9".to_string()),
    }
}

/// An option that takes a value.
#[derive(Clone, Copy, Debug, PartialEq, Eq, Structural)]
pub enum Flag {
    Level,
    Port,
    Host,
    MaxSize,
    Width,
    Height,
    Fps,
    Crf,
    Codec,
    Preset,
    To,
    Quality,
}

/// The option that `s` names, if it takes a value.
pub open spec fn flag_named(s: Seq<char>) -> Option<Flag> {
    if s == "-l"@ || s == "--level"@ {
        Some(Flag::Level)
    } else if s == "--port"@ {
        Some(Flag::Port)
    } else if s == "--host"@ {
        Some(Flag::Host)
    } else if s == "--max-size"@ {
        Some(Flag::MaxSize)
    } else if s == "--width"@ {
        Some(Flag::Width)
    } else if s == "--height"@ {
        Some(Flag::Height)
    } else if s == "--fps"@ {
        Some(Flag::Fps)
    } else if s == "--crf"@ {
        Some(Flag::Crf)
    } else if s == "--codec"@ {
        Some(Flag::Codec)
    } else if s == "--preset"@ {
        Some(Flag::Preset)
    } else if s == "--to"@ || s == "--format"@ {
        Some(Flag::To)
    } else if s == "--quality"@ {
        Some(Flag::Quality)
    } else {
        None
    }
}

fn flag(s: &str) -> (r: Option<Flag>)
    ensures
        r == flag_named(s@),
{
    if same(s, "-l") || same(s, "--level") {
        Some(Flag::Level)
    } else if same(s, "--port") {
        Some(Flag::Port)
    } else if same(s, "--host") {
        Some(Flag::Host)
    } else if same(s, "--max-size") {
        Some(Flag::MaxSize)
    } else if same(s, "--width") {
        Some(Flag::Width)
    } else if same(s, "--height") {
        Some(Flag::Height)
    } else if same(s, "--fps") {
        Some(Flag::Fps)
    } else if same(s, "--crf") {
        Some(Flag::Crf)
    } else if same(s, "--codec") {
        Some(Flag::Codec)
    } else if same(s, "--preset") {
        Some(Flag::Preset)
    } else if same(s, "--to") || same(s, "--format") {
        Some(Flag::To)
    } else if same(s, "--quality") {
        Some(Flag::Quality)
    } else {
        None
    }
}

impl Flag {
    /// The message for an option whose value is missing.
    pub open spec fn missing_spec(self) -> Seq<char> {
        match self {
            Flag::Level => "-l needs a value"@,
            Flag::Port => "--port needs a value"@,
            Flag::Host => "--host needs a value"@,
            Flag::MaxSize => "--max-size needs a value"@,
            Flag::Width => "--width needs a value"@,
            Flag::Height => "--height needs a value"@,
            Flag::Fps => "--fps needs a value"@,
            Flag::Crf => "--crf needs a value"@,
            Flag::Codec => "--codec needs a value"@,
            Flag::Preset => "--preset needs a value"@,
            Flag::To => "--to needs a value"@,
            Flag::Quality => "--quality needs a value"@,
        }
    }

    fn missing(self) -> (s: &'static str)
        ensures
            s@ == self.missing_spec(),
    {
        match self {
            Flag::Level => "-l needs a value",
            Flag::Port => "--port needs a value",
            Flag::Host => "--host needs a value",
            Flag::MaxSize => "--max-size needs a value",
            Flag::Width => "--width needs a value",
            Flag::Height => "--height needs a value",
            Flag::Fps => "--fps needs a value",
            Flag::Crf => "--crf needs a value",
            Flag::Codec => "--codec needs a value",
            Flag::Preset => "--preset needs a value",
            Flag::To => "--to needs a value",
            Flag::Quality => "--quality needs a value",
        }
    }
}

/// `o` once `flag` has been given the value `v`; `numeric` tells whether `v`
/// spells a decimal number.
pub open spec fn with_value(o: OptsView, flag: Flag, v: Seq<char>, numeric: bool) -> Result<
    OptsView,
    Seq<char>,
> {
    match flag {
        Flag::Level => match level_spec(v) {
            Some(level) => Ok(OptsView { level, ..o }),
            None => Err("level must be 0..9"@),
        },
        Flag::Port => match number(v, 65535) {
            Some(n) => Ok(OptsView { port: n as u16, ..o }),
            None => Err("port must be 1..65535"@),
        },
        Flag::Host => Ok(OptsView { host: v, ..o }),
        Flag::MaxSize => match number(v, usize::MAX as nat) {
            Some(n) => Ok(OptsView { max_size: n as usize, ..o }),
            None => Err("--max-size must be a whole number of MiB"@),
        },
        Flag::Width => match number(v, u32::MAX as nat) {
            Some(n) => Ok(
                OptsView { video: SettingsView { width: Some(n as u32), ..o.video }, ..o },
            ),
            None => Err("--width must be a whole number of pixels"@),
        },
        Flag::Height => match number(v, u32::MAX as nat) {
            Some(n) => Ok(
                OptsView { video: SettingsView { height: Some(n as u32), ..o.video }, ..o },
            ),
            None => Err("--height must be a whole number of pixels"@),
        },
        Flag::Fps => if numeric {
            Ok(OptsView { video: SettingsView { fps: Some(v), ..o.video }, ..o })
        } else {
            Err("--fps must be a number"@)
        },
        Flag::Crf => match number(v, 255) {
            Some(n) => Ok(OptsView { video: SettingsView { crf: n as u8, ..o.video }, ..o }),
            None => Err("--crf must be 0..63"@),
        },
        Flag::Codec => match Codec::named(lowered(v)) {
            Some(codec) => Ok(OptsView { video: SettingsView { codec, ..o.video }, ..o }),
            None => Err("unknown codec '"@ + v + "' (h264, h265, vp9, av1)"@),
        },
        Flag::Preset => Ok(OptsView { video: SettingsView { preset: v, ..o.video }, ..o }),
        Flag::To => Ok(OptsView { to: Some(v), ..o }),
        Flag::Quality => match number(v, u32::MAX as nat) {
            Some(n) => if n <= 100 {
                Ok(OptsView { quality: n as u8, ..o })
            } else {
                Err("--quality must be 0..100"@)
            },
            None => Err("--quality must be 0..100"@),
        },
    }
}

/// `o` once the argument `s` has come, which takes no value.
pub open spec fn with_switch(o: OptsView, s: Seq<char>) -> Result<OptsView, Seq<char>> {
    if s == "--no-audio"@ {
        Ok(OptsView { video: SettingsView { audio: false, ..o.video }, ..o })
    } else if s == "--no-cookies"@ {
        Ok(OptsView { cookies: false, ..o })
    } else if s == "-c"@ || s == "--compress"@ {
        Ok(OptsView { compress: true, ..o })
    } else if s == "-f"@ || s == "--force"@ {
        Ok(OptsView { force: true, ..o })
    } else if s == "-q"@ || s == "--quiet"@ {
        Ok(OptsView { quiet: true, ..o })
    } else if s.len() > 1 && s[0] == '-' {
        Err("unknown option "@ + s)
    } else {
        Ok(OptsView { files: o.files.push(s), ..o })
    }
}

/// What the arguments from `i` on make of `o`; `numeric` tells of each argument
/// whether it spells a decimal number.
pub open spec fn parsed_from(
    args: Seq<Seq<char>>,
    numeric: Seq<bool>,
    i: int,
    o: OptsView,
) -> Result<OptsView, Seq<char>>
    decreases args.len() - i,
{
    if i >= args.len() {
        Ok(o)
    } else {
        let s = args[i];
        match flag_named(s) {
            Some(flag) => if i + 1 >= args.len() {
                Err(flag.missing_spec())
            } else {
                match with_value(o, flag, args[i + 1], numeric[i + 1]) {
                    Ok(next) => parsed_from(args, numeric, i + 2, next),
                    Err(e) => Err(e),
                }
            },
            None => if stands_at(s, "-l"@, 0) && s.len() > 2 {
                match level_spec(s.skip(2)) {
                    Some(level) => parsed_from(args, numeric, i + 1, OptsView { level, ..o }),
                    None => Err("level must be 0..9"@),
                }
            } else {
                match with_switch(o, s) {
                    Ok(next) => parsed_from(args, numeric, i + 1, next),
                    Err(e) => Err(e),
                }
            },
        }
    }
}

/// What the arguments of a command give.
pub open spec fn parsed_args(args: Seq<Seq<char>>, numeric: Seq<bool>) -> Result<
    OptsView,
    Seq<char>,
> {
    parsed_from(args, numeric, 0, OptsView::standard())
}

/// Give `flag` the value `v`.
fn set_value(o: &mut Opts, flag: Flag, v: &String, numeric: bool) -> (r: Result<(), String>)
    ensures
        match r {
            Ok(()) => with_value(old(o)@, flag, v@, numeric) == Ok::<OptsView, Seq<char>>(
                final(o)@,
            ),
            Err(e) => with_value(old(o)@, flag, v@, numeric) == Err::<OptsView, Seq<char>>(e@),
        },
{
    let s: &str = v.as_str();
    match flag {
        Flag::Level => {
            o.level = parse_level(s)?;
        },
        Flag::Port => match parse_number(s, 65535) {
            Some(n) => {
                o.port = n as u16;
            },
            None => {
                return Err("port must be 1..65535".to_string());
            },
        },
        Flag::Host => {
            o.host = v.clone();
        },
        Flag::MaxSize => match parse_number(s, usize::MAX as u64) {
            Some(n) => {
                o.max_size = n as usize;
            },
            None => {
                return Err("--max-size must be a whole number of MiB".to_string());
            },
        },
        Flag::Width => match parse_number(s, u32::MAX as u64) {
            Some(n) => {
                o.video.width = Some(n as u32);
            },
            None => {
                return Err("--width must be a whole number of pixels".to_string());
            },
        },
        Flag::Height => match parse_number(s, u32::MAX as u64) {
            Some(n) => {
                o.video.height = Some(n as u32);
            },
            None => {
                return Err("--height must be a whole number of pixels".to_string());
            },
        },
        Flag::Fps => {
            if !numeric {
                return Err("--fps must be a number".to_string());
            }
            o.video.fps = Some(v.clone());
        },
        Flag::Crf => match parse_number(s, 255) {
            Some(n) => {
                o.video.crf = n as u8;
            },
            None => {
                return Err("--crf must be 0..63".to_string());
            },
        },
        Flag::Codec => match Codec::parse(to_lower(s).as_str()) {
            Some(c) => {
                o.video.codec = c;
            },
            None => {
                let mut e = "unknown codec '".to_string();
                e.append(s);
                e.append("' (h264, h265, vp9, av1)");
                return Err(e);
            },
        },
        Flag::Preset => {
            o.video.preset = v.clone();
        },
        Flag::To => {
            o.to = Some(v.clone());
        },
        Flag::Quality => match parse_number(s, u32::MAX as u64) {
            Some(n) => {
                if n > 100 {
                    return Err("--quality must be 0..100".to_string());
                }
                o.quality = n as u8;
            },
            None => {
                return Err("--quality must be 0..100".to_string());
            },
        },
    }
    Ok(())
}

/// Take the argument `v`, which takes no value.
fn set_switch(o: &mut Opts, v: &String) -> (r: Result<(), String>)
    ensures
        match r {
            Ok(()) => with_switch(old(o)@, v@) == Ok::<OptsView, Seq<char>>(final(o)@),
            Err(e) => with_switch(old(o)@, v@) == Err::<OptsView, Seq<char>>(e@),
        },
{
    let s: &str = v.as_str();
    if same(s, "--no-audio") {
        o.video.audio = false;
    } else if same(s, "--no-cookies") {
        o.cookies = false;
    } else if same(s, "-c") || same(s, "--compress") {
        o.compress = true;
    } else if same(s, "-f") || same(s, "--force") {
        o.force = true;
    } else if same(s, "-q") || same(s, "--quiet") {
        o.quiet = true;
    } else {
        let c = chars_of(s);
        if c.len() > 1 && c[0] == '-' {
            let mut e = "unknown option ".to_string();
            e.append(s);
            return Err(e);
        }
        o.files.push(v.clone());
        assert(o@.files =~= old(o)@.files.push(v@));
    }
    Ok(())
}

/// Read the arguments of a command; `numeric` tells of each of them whether it
/// spells a decimal number.
pub fn parse_args(args: &[String], numeric: &[bool]) -> (r: Result<Opts, String>)
    requires
        args@.len() == numeric@.len(),
    ensures
        match r {
            Ok(o) => parsed_args(texts_of(args@), numeric@) == Ok::<OptsView, Seq<char>>(o@),
            Err(e) => parsed_args(texts_of(args@), numeric@) == Err::<OptsView, Seq<char>>(e@),
        },
{
    let mut o = Opts {
        level: DEFAULT_LEVEL,
        force: false,
        quiet: false,
        port: 8787,
        host: "127.0.0.1".to_string(),
        max_size: 512,
        compress: false,
        cookies: true,
        to: None,
        quality: 75,
        video: Settings::default(),
        files: Vec::new(),
    };
    let ghost list = texts_of(args@);
    assert(o@ =~= OptsView::standard());
    let mut i: usize = 0;
    while i < args.len()
        invariant
            i <= args@.len() == numeric@.len(),
            list == texts_of(args@),
            parsed_from(list, numeric@, i as int, o@) == parsed_args(list, numeric@),
        decreases args@.len() - i,
    {
        let s: &String = &args[i];
        assert(list[i as int] == s@);
        match flag(s.as_str()) {
            Some(f) => {
                if args.len() - i < 2 {
                    return Err(f.missing().to_string());
                }
                assert(list[i + 1] == args@[i + 1]@);
                set_value(&mut o, f, &args[i + 1], numeric[i + 1])?;
                i = i + 2;
            },
            None => {
                let v = chars_of(s.as_str());
                if starts_with(s.as_str(), "-l") && v.len() > 2 {
                    let rest = text_between(&v, 2, v.len());
                    assert(rest@ =~= s@.skip(2));
                    o.level = parse_level(rest.as_str())?;
                } else {
                    set_switch(&mut o, s)?;
                }
                i = i + 1;
            },
        }
    }
    Ok(o)
}

/// Why the files that were given are too many, if they are.
pub open spec fn extra_file(files: Seq<Seq<char>>, max: int) -> Option<Seq<char>> {
    if files.len() > max {
        Some("unexpected extra argument '"@ + files[max] + "'"@)
    } else {
        None
    }
}

/// Refuse more than `max` files.
pub fn expect_files(opts: &Opts, max: usize) -> (r: Result<(), String>)
    ensures
        match r {
            Ok(()) => extra_file(opts@.files, max as int) is None,
            Err(e) => extra_file(opts@.files, max as int) == Some(e@),
        },
{
    if opts.files.len() > max {
        let mut e = "unexpected extra argument '".to_string();
        e.append(opts.files[max].as_str());
        e.append("'");
        return Err(e);
    }
    Ok(())
}

/// What a command line asks for. From `Video` on, the first file is there.
pub enum Action {
    Usage,
    Serve(Opts),
    Video(Opts),
    Convert(Opts),
    Download(Opts),
    /// Read the first file, and ask [`file_action`] what to do with it.
    Read { cmd: String, opts: Opts },
}

/// What a command line asks for, as contracts see it.
pub enum ActionView {
    Usage,
    Serve(OptsView),
    Video(OptsView),
    Convert(OptsView),
    Download(OptsView),
    Read { cmd: Seq<char>, opts: OptsView },
}

impl View for Action {
    type V = ActionView;

    open spec fn view(&self) -> ActionView {
        match self {
            Action::Usage => ActionView::Usage,
            Action::Serve(o) => ActionView::Serve(o@),
            Action::Video(o) => ActionView::Video(o@),
            Action::Convert(o) => ActionView::Convert(o@),
            Action::Download(o) => ActionView::Download(o@),
            Action::Read { cmd, opts } => ActionView::Read { cmd: cmd@, opts: opts@ },
        }
    }
}

/// What the command line `argv` asks for.
pub open spec fn dispatched(argv: Seq<Seq<char>>, numeric: Seq<bool>) -> Result<
    ActionView,
    Seq<char>,
> {
    let cmd = argv[0];
    if argv.len() == 0 || cmd == "-h"@ || cmd == "--help"@ || cmd == "help"@ {
        Ok(ActionView::Usage)
    } else {
        match parsed_args(argv.skip(1), numeric.skip(1)) {
            Err(e) => Err(e),
            Ok(o) => if cmd == "serve"@ {
                match extra_file(o.files, 0) {
                    Some(e) => Err(e),
                    None => Ok(ActionView::Serve(o)),
                }
            } else if o.files.len() == 0 {
                Err("missing input file"@)
            } else if cmd == "video"@ {
                match extra_file(o.files, 2) {
                    Some(e) => Err(e),
                    None => Ok(ActionView::Video(o)),
                }
            } else if cmd == "convert"@ {
                match extra_file(o.files, 2) {
                    Some(e) => Err(e),
                    None => Ok(ActionView::Convert(o)),
                }
            } else if cmd == "dl"@ || cmd == "download"@ {
                match extra_file(o.files, 2) {
                    Some(e) => Err(e),
                    None => Ok(ActionView::Download(o)),
                }
            } else {
                Ok(ActionView::Read { cmd, opts: o })
            },
        }
    }
}

/// What the command line `argv`, without the program's name, asks for;
/// `numeric` tells of each argument whether it spells a decimal number.
pub fn dispatch(argv: &[String], numeric: &[bool]) -> (r: Result<Action, String>)
    requires
        argv@.len() == numeric@.len(),
    ensures
        match r {
            Ok(a) => dispatched(texts_of(argv@), numeric@) == Ok::<ActionView, Seq<char>>(a@),
            Err(e) => dispatched(texts_of(argv@), numeric@) == Err::<ActionView, Seq<char>>(e@),
        },
{
    if argv.len() == 0 {
        return Ok(Action::Usage);
    }
    let cmd: &str = argv[0].as_str();
    assert(texts_of(argv@)[0] == cmd@);
    if same(cmd, "-h") || same(cmd, "--help") || same(cmd, "help") {
        return Ok(Action::Usage);
    }
    let rest = vstd::slice::slice_subrange(argv, 1, argv.len());
    let flags = vstd::slice::slice_subrange(numeric, 1, numeric.len());
    assert(texts_of(rest@) =~= texts_of(argv@).skip(1));
    assert(flags@ =~= numeric@.skip(1));
    let opts = parse_args(rest, flags)?;
    if same(cmd, "serve") {
        expect_files(&opts, 0)?;
        return Ok(Action::Serve(opts));
    }
    if opts.files.len() == 0 {
        return Err("missing input file".to_string());
    }
    if same(cmd, "video") {
        expect_files(&opts, 2)?;
        return Ok(Action::Video(opts));
    }
    if same(cmd, "convert") {
        expect_files(&opts, 2)?;
        return Ok(Action::Convert(opts));
    }
    if same(cmd, "dl") || same(cmd, "download") {
        expect_files(&opts, 2)?;
        return Ok(Action::Download(opts));
    }
    Ok(Action::Read { cmd: cmd.to_string(), opts })
}

/// What to do with a file that has been read.
pub enum FileAction {
    /// Compress it to the file of the given name.
    Compress(String),
    /// Decompress it to the file of the given name.
    Decompress(String),
    Test,
    Bench,
}

/// What to do with a file that has been read, as contracts see it.
pub enum FileView {
    Compress(Seq<char>),
    Decompress(Seq<char>),
    Test,
    Bench,
}

impl View for FileAction {
    type V = FileView;

    open spec fn view(&self) -> FileView {
        match self {
            FileAction::Compress(out) => FileView::Compress(out@),
            FileAction::Decompress(out) => FileView::Decompress(out@),
            FileAction::Test => FileView::Test,
            FileAction::Bench => FileView::Bench,
        }
    }
}

/// What `cmd` does with a file, `archive` being whether it looks like one.
pub open spec fn file_action_spec(cmd: Seq<char>, files: Seq<Seq<char>>, archive: bool) -> Result<
    FileView,
    Seq<char>,
> {
    let input = files[0];
    if cmd == "c"@ || cmd == "compress"@ {
        match extra_file(files, 2) {
            Some(e) => Err(e),
            None => Ok(
                FileView::Compress(
                    if files.len() > 1 {
                        files[1]
                    } else {
                        input + ".cpt"@
                    },
                ),
            ),
        }
    } else if cmd == "d"@ || cmd == "x"@ || cmd == "decompress"@ {
        match extra_file(files, 2) {
            Some(e) => Err(e),
            None => if !archive {
                Err(input + " is not a Compactor archive"@)
            } else if files.len() > 1 {
                Ok(FileView::Decompress(files[1]))
            } else {
                match without_suffix(input, ".cpt"@) {
                    Some(out) => Ok(FileView::Decompress(out)),
                    None => Err(
                        "cannot infer output name (input does not end in .cpt); give it explicitly"@,
                    ),
                }
            },
        }
    } else if cmd == "t"@ || cmd == "test"@ {
        match extra_file(files, 1) {
            Some(e) => Err(e),
            None => Ok(FileView::Test),
        }
    } else if cmd == "bench"@ {
        match extra_file(files, 1) {
            Some(e) => Err(e),
            None => Ok(FileView::Bench),
        }
    } else {
        Err("unknown command '"@ + cmd + "'\n\n"@ + USAGE@)
    }
}

/// Decide what `cmd` does with the first file, whose contents are `data`.
pub fn file_action(cmd: &str, opts: &Opts, data: &[u8]) -> (r: Result<FileAction, String>)
    requires
        opts.files@.len() > 0,
    ensures
        match r {
            Ok(a) => file_action_spec(cmd@, opts@.files, looks_like_archive(data@)) == Ok::<
                FileView,
                Seq<char>,
            >(a@),
            Err(e) => file_action_spec(cmd@, opts@.files, looks_like_archive(data@)) == Err::<
                FileView,
                Seq<char>,
            >(e@),
        },
{
    let input: &String = &opts.files[0];
    assert(opts@.files[0] == input@);
    if same(cmd, "c") || same(cmd, "compress") {
        expect_files(opts, 2)?;
        if opts.files.len() > 1 {
            return Ok(FileAction::Compress(opts.files[1].clone()));
        }
        let mut out = input.clone();
        out.append(".cpt");
        return Ok(FileAction::Compress(out));
    }
    if same(cmd, "d") || same(cmd, "x") || same(cmd, "decompress") {
        expect_files(opts, 2)?;
        if !is_archive(data) {
            let mut e = input.clone();
            e.append(" is not a Compactor archive");
            return Err(e);
        }
        if opts.files.len() > 1 {
            return Ok(FileAction::Decompress(opts.files[1].clone()));
        }
        return match strip_suffix(input.as_str(), ".cpt") {
            Some(out) => Ok(FileAction::Decompress(out)),
            None => Err(
                "cannot infer output name (input does not end in .cpt); give it explicitly".to_string(),
            ),
        };
    }
    if same(cmd, "t") || same(cmd, "test") {
        expect_files(opts, 1)?;
        return Ok(FileAction::Test);
    }
    if same(cmd, "bench") {
        expect_files(opts, 1)?;
        return Ok(FileAction::Bench);
    }
    let mut e = "unknown command '".to_string();
    e.append(cmd);
    e.append("'\n\n");
    e.append(USAGE);
    Err(e)
}

/// With no output path, `d` writes to what `c` read: the two names undo each
/// other.
pub proof fn law_default_names(input: Seq<char>)
    ensures
        file_action_spec("c"@, seq![input], false) matches Ok(FileView::Compress(out))
            && file_action_spec("d"@, seq![out], true) == Ok::<FileView, Seq<char>>(
            FileView::Decompress(input),
        ),
{
    reveal_strlit("c");
    reveal_strlit("d");
    reveal_strlit("compress");
    reveal_strlit(".cpt");
    let out = input + ".cpt"@;
    assert("c"@[0] == 'c' && "d"@[0] == 'd');
    assert(seq![out][0] == out && seq![input][0] == input);
    assert(out.subrange(out.len() - 4, out.len() as int) =~= ".cpt"@);
    assert(out.take(out.len() - 4) =~= input);
    assert("d"@ != "compress"@) by {
        assert("d"@.len() == 1 && "compress"@.len() == 8);
    }
}

/// Why a file that is there may not be written, if that is so.
pub open spec fn output_error(path: Seq<char>, exists: bool, force: bool) -> Option<Seq<char>> {
    if exists && !force {
        Some(path + " already exists (use -f to overwrite)"@)
    } else {
        None
    }
}

/// Whether the file called `path` may be written, `exists` being whether it is
/// there.
pub fn check_output(path: &str, exists: bool, force: bool) -> (r: Result<(), String>)
    ensures
        match r {
            Ok(()) => output_error(path@, exists, force) is None,
            Err(e) => output_error(path@, exists, force) == Some(e@),
        },
{
    if exists && !force {
        let mut e = path.to_string();
        e.append(" already exists (use -f to overwrite)");
        return Err(e);
    }
    Ok(())
}

/// Two paths with their directories resolved.
pub struct Resolved {
    /// They are the same path.
    pub alike: bool,
    pub a: String,
    pub b: String,
}

/// Whether two paths name the same file. A plain comparison misses `a.mp4`
/// against `./a.mp4`, and ffmpeg reading and writing one file at once destroys
/// it. `alike` is whether they are the same as they are written, `resolved` what
/// they are once their directories are resolved, if that can be done. Windows
/// file names are case-insensitive, so `SRC.mp4` and `src.mp4` are the same file
/// there.
pub fn same_file(alike: bool, resolved: &Option<Resolved>, windows: bool) -> (r: bool)
    ensures
        r == (alike || (resolved matches Some(p) && if windows {
            lowered(p.a@) == lowered(p.b@)
        } else {
            p.alike
        })),
{
    if alike {
        return true;
    }
    match resolved {
        Some(p) => if windows {
            same_ignoring_case(p.a.as_str(), p.b.as_str())
        } else {
            p.alike
        },
        None => false,
    }
}

/// `c` separates the components of a path. A backslash does so on Windows; it
/// is a character like any other elsewhere.
pub open spec fn is_separator(c: char, windows: bool) -> bool {
    c == '/' || (windows && c == '\\')
}

/// `s` goes on into another directory.
pub open spec fn has_separator(s: Seq<char>, windows: bool) -> bool {
    exists|i: int| 0 <= i < s.len() && is_separator(#[trigger] s[i], windows)
}

/// A path before and after the last dot of its last component.
pub open spec fn path_halves(path: Seq<char>, windows: bool) -> Option<(Seq<char>, Seq<char>)> {
    match last_halves(path, '.') {
        Some((stem, ext)) if !has_separator(ext, windows) => Some((stem, ext)),
        _ => None,
    }
}

/// A path without its extension.
pub open spec fn stem_of(path: Seq<char>, windows: bool) -> Seq<char> {
    match path_halves(path, windows) {
        Some((stem, _)) => stem,
        None => path,
    }
}

/// A path before and after the last dot of its last component.
fn split_ext(path: &str, windows: bool) -> (r: Option<(String, String)>)
    ensures
        match r {
            Some((stem, ext)) => path_halves(path@, windows) == Some((stem@, ext@)),
            None => path_halves(path@, windows) is None,
        },
{
    match rsplit_once(path, '.') {
        Some((stem, ext)) => {
            let v = chars_of(ext.as_str());
            let slash = find_char(&v, '/', 0);
            let backslash = find_char(&v, '\\', 0);
            proof {
                lemma_first_at(v@, '/', 0);
                lemma_first_at(v@, '\\', 0);
            }
            if slash < v.len() {
                assert(is_separator(ext@[slash as int], windows));
                None
            } else if windows && backslash < v.len() {
                assert(is_separator(ext@[backslash as int], windows));
                None
            } else {
                Some((stem, ext))
            }
        },
        None => None,
    }
}

/// A path without its extension.
fn stem(path: &str, windows: bool) -> (s: String)
    ensures
        s@ == stem_of(path@, windows),
{
    match split_ext(path, windows) {
        Some((s, _)) => s,
        None => path.to_string(),
    }
}

/// A default output name goes by the input without its extension.
pub proof fn law_stem_drops_the_extension(path: Seq<char>, ext: Seq<char>, windows: bool)
    requires
        !ext.contains('.'),
        !has_separator(ext, windows),
    ensures
        stem_of(path + "."@ + ext, windows) == path,
{
    reveal_strlit(".");
    let full = path + "."@ + ext;
    let n = path.len() as int;
    lemma_last_at(full, '.', full.len() as int);
    let i = last_at(full, '.', full.len() as int);
    assert(full[n] == '.');
    if i > n {
        assert(ext[i - n - 1] == '.');
    }
    assert(full.take(n) =~= path);
    assert(full.skip(n + 1) =~= ext);
}

/// A default output name goes by the whole input where its file name has no
/// dot, whatever dots its directory has.
pub proof fn law_stem_keeps_a_bare_name(
    dir: Seq<char>,
    separator: char,
    name: Seq<char>,
    windows: bool,
)
    requires
        is_separator(separator, windows),
        !name.contains('.'),
    ensures
        stem_of(dir.push(separator) + name, windows) == dir.push(separator) + name,
        stem_of(name, windows) == name,
{
    let path = dir.push(separator) + name;
    let n = dir.len() as int;
    lemma_last_at(name, '.', name.len() as int);
    lemma_last_at(path, '.', path.len() as int);
    let i = last_at(path, '.', path.len() as int);
    assert(path[n] == separator);
    if i > n {
        assert(name[i - n - 1] == '.');
    } else if i >= 0 {
        assert(is_separator(path.skip(i + 1)[n - i - 1], windows));
    }
}

/// The re-encode that the options ask for, with the frame rate `fps`, and the
/// name of the result.
pub open spec fn video_spec(
    o: OptsView,
    ffmpeg: bool,
    fps: Option<Seq<char>>,
    windows: bool,
) -> Result<(SettingsView, Seq<char>), Seq<char>> {
    let set = SettingsView { fps, ..o.video }.sanitised();
    if !ffmpeg {
        Err("ffmpeg was not found on PATH; the `video` command needs it"@)
    } else if o.files.len() > 1 {
        Ok((set, o.files[1]))
    } else {
        Ok((set, stem_of(o.files[0], windows) + "-reencode."@ + set.codec.ext_spec()))
    }
}

/// The re-encode that the options ask for and the name of the result, `ffmpeg`
/// being whether that is callable, `fps` the frame rate, in range, and `windows`
/// whether paths are written as there.
pub fn plan_video(opts: &Opts, ffmpeg: bool, fps: Option<String>, windows: bool) -> (r: Result<
    (Settings, String),
    String,
>)
    requires
        opts.files@.len() > 0,
    ensures
        match r {
            Ok((s, out)) => video_spec(opts@, ffmpeg, text_or_none(fps), windows) == Ok::<
                (SettingsView, Seq<char>),
                Seq<char>,
            >((s@, out@)),
            Err(e) => video_spec(opts@, ffmpeg, text_or_none(fps), windows) == Err::<
                (SettingsView, Seq<char>),
                Seq<char>,
            >(e@),
        },
{
    if !ffmpeg {
        return Err("ffmpeg was not found on PATH; the `video` command needs it".to_string());
    }
    let mut set = Settings {
        width: opts.video.width,
        height: opts.video.height,
        fps,
        crf: opts.video.crf,
        preset: opts.video.preset.clone(),
        codec: opts.video.codec,
        audio: opts.video.audio,
    };
    set.sanitise();
    if opts.files.len() > 1 {
        return Ok((set, opts.files[1].clone()));
    }
    let mut out = stem(opts.files[0].as_str(), windows);
    out.append("-reencode.");
    out.append(set.codec.ext());
    Ok((set, out))
}

/// Everything that reaches ffmpeg is in range.
pub proof fn law_video_is_sane(
    o: OptsView,
    ffmpeg: bool,
    fps: Option<Seq<char>>,
    windows: bool,
)
    ensures
        video_spec(o, ffmpeg, fps, windows) matches Ok((s, _)) ==> s.sane(),
{
    crate::video::law_sane_settings(SettingsView { fps, ..o.video });
}

/// The target that the options name: `--to`, or the extension of an explicit
/// output name. `convert clip.mp4 clip.webp` says the same thing twice
/// otherwise.
pub open spec fn target_of(o: OptsView, windows: bool) -> Option<Seq<char>> {
    match o.to {
        Some(t) => Some(t),
        None => if o.files.len() > 1 {
            match path_halves(o.files[1], windows) {
                Some((_, ext)) => Some(ext),
                None => None,
            }
        } else {
            None
        },
    }
}

/// The conversion that the options ask for, with the frame rate `fps`, and the
/// name of the result.
pub open spec fn convert_spec(
    o: OptsView,
    ffmpeg: bool,
    fps: Option<Seq<char>>,
    windows: bool,
) -> Result<(OptionsView, Seq<char>), Seq<char>> {
    if !ffmpeg {
        Err("ffmpeg was not found on PATH; the `convert` command needs it"@)
    } else {
        match target_of(o, windows) {
            None => Err(
                "missing target format: give --to EXT (one of "@ + names_of(16) + ")"@,
            ),
            Some(named) => match format_named(named) {
                None => Err(
                    "unknown format '"@ + named + "' (one of "@ + names_of(16) + ")"@,
                ),
                Some(format) => {
                    let options = OptionsView {
                        format,
                        width: o.video.width,
                        height: o.video.height,
                        fps,
                        quality: o.quality,
                        audio: o.video.audio,
                    }.sanitised();
                    let out = if o.files.len() > 1 {
                        o.files[1]
                    } else {
                        stem_of(o.files[0], windows) + "."@ + format.ext@
                    };
                    Ok((options, out))
                },
            },
        }
    }
}

/// The conversion that the options ask for and the name of the result, `ffmpeg`
/// being whether that is callable, `fps` the frame rate, in range, and `windows`
/// whether paths are written as there.
pub fn plan_convert(opts: &Opts, ffmpeg: bool, fps: Option<String>, windows: bool) -> (r: Result<
    (Options, String),
    String,
>)
    requires
        opts.files@.len() > 0,
    ensures
        match r {
            Ok((o, out)) => convert_spec(opts@, ffmpeg, text_or_none(fps), windows) == Ok::<
                (OptionsView, Seq<char>),
                Seq<char>,
            >((o@, out@)),
            Err(e) => convert_spec(opts@, ffmpeg, text_or_none(fps), windows) == Err::<
                (OptionsView, Seq<char>),
                Seq<char>,
            >(e@),
        },
{
    if !ffmpeg {
        return Err("ffmpeg was not found on PATH; the `convert` command needs it".to_string());
    }
    let named: Option<String> = match &opts.to {
        Some(t) => Some(t.clone()),
        None => if opts.files.len() > 1 {
            match split_ext(opts.files[1].as_str(), windows) {
                Some((_, ext)) => Some(ext),
                None => None,
            }
        } else {
            None
        },
    };
    let named: String = match named {
        Some(n) => n,
        None => {
            let mut e = "missing target format: give --to EXT (one of ".to_string();
            e.append(names().as_str());
            e.append(")");
            return Err(e);
        },
    };
    let format = match crate::convert::format(named.as_str()) {
        Some(f) => f,
        None => {
            let mut e = "unknown format '".to_string();
            e.append(named.as_str());
            e.append("' (one of ");
            e.append(names().as_str());
            e.append(")");
            return Err(e);
        },
    };
    let mut o = Options::new(format);
    o.width = opts.video.width;
    o.height = opts.video.height;
    o.fps = fps;
    o.quality = opts.quality;
    o.audio = opts.video.audio;
    o.sanitise();
    if opts.files.len() > 1 {
        return Ok((o, opts.files[1].clone()));
    }
    let mut out = stem(opts.files[0].as_str(), windows);
    out.append(".");
    out.append(format.ext);
    Ok((o, out))
}

/// The download that the options ask for: the tool to use and the directory to
/// write to.
pub open spec fn download_spec(o: OptsView, tool: Option<Tool>) -> Result<
    (Tool, Seq<char>),
    Seq<char>,
> {
    match tool {
        None => Err(
            "neither yt-dlp nor curl was found on PATH; the `dl` command needs one of them"@,
        ),
        Some(t) => match url_error(o.files[0]) {
            Some(e) => Err(e),
            None => Ok(
                (
                    t,
                    if o.files.len() > 1 {
                        o.files[1]
                    } else {
                        "."@
                    },
                ),
            ),
        },
    }
}

/// The download that the options ask for, `tool` being what is callable.
pub fn plan_download(opts: &Opts, tool: Option<Tool>) -> (r: Result<(Tool, String), String>)
    requires
        opts.files@.len() > 0,
    ensures
        match r {
            Ok((t, dir)) => download_spec(opts@, tool) == Ok::<(Tool, Seq<char>), Seq<char>>(
                (t, dir@),
            ),
            Err(e) => download_spec(opts@, tool) == Err::<(Tool, Seq<char>), Seq<char>>(e@),
        },
{
    let t: Tool = match tool {
        Some(t) => t,
        None => {
            return Err(
                "neither yt-dlp nor curl was found on PATH; the `dl` command needs one of them".to_string(),
            );
        },
    };
    check_url(opts.files[0].as_str())?;
    let dir = if opts.files.len() > 1 {
        opts.files[1].clone()
    } else {
        ".".to_string()
    };
    Ok((t, dir))
}

/// The conversion that is planned is the one asked for: the width is the width,
/// the height the height, each within 16 and 7680 pixels; the quality is the
/// quality, up to 100; the frame rate and the sound are as asked.
pub proof fn law_conversion_is_as_asked(
    o: OptsView,
    ffmpeg: bool,
    fps: Option<Seq<char>>,
    windows: bool,
)
    ensures
        convert_spec(o, ffmpeg, fps, windows) matches Ok((c, _)) ==> {
            &&& o.video.width is None ==> c.width is None
            &&& o.video.width matches Some(w) ==> c.width == Some(
                if w < 16 {
                    16u32
                } else if w > 7680 {
                    7680u32
                } else {
                    w
                },
            )
            &&& o.video.height is None ==> c.height is None
            &&& o.video.height matches Some(h) ==> c.height == Some(
                if h < 16 {
                    16u32
                } else if h > 7680 {
                    7680u32
                } else {
                    h
                },
            )
            &&& c.quality == (if o.quality > 100 {
                100
            } else {
                o.quality
            })
            &&& c.fps == fps
            &&& c.audio == o.video.audio
        },
{
    if let Some(named) = target_of(o, windows) {
        if let Some(format) = format_named(named) {
            crate::convert::law_options_in_range_are_kept(
                OptionsView {
                    format,
                    width: o.video.width,
                    height: o.video.height,
                    fps,
                    quality: o.quality,
                    audio: o.video.audio,
                },
            );
        }
    }
}

/// A width that is asked for alone is the only size of the conversion, and so is
/// a height.
pub proof fn law_one_size_is_planned(
    o: OptsView,
    n: u32,
    ffmpeg: bool,
    fps: Option<Seq<char>>,
    windows: bool,
)
    requires
        16 <= n <= 7680,
    ensures
        o.video.width == Some(n) && o.video.height is None ==> {
            &&& convert_spec(o, ffmpeg, fps, windows) matches Ok((c, _)) ==> c.width == Some(n)
                && c.height is None
            &&& video_spec(o, ffmpeg, fps, windows) matches Ok((s, _)) ==> s.width == Some(n)
                && s.height is None
        },
        o.video.width is None && o.video.height == Some(n) ==> {
            &&& convert_spec(o, ffmpeg, fps, windows) matches Ok((c, _)) ==> c.width is None
                && c.height == Some(n)
            &&& video_spec(o, ffmpeg, fps, windows) matches Ok((s, _)) ==> s.width is None
                && s.height == Some(n)
        },
{
    law_conversion_is_as_asked(o, ffmpeg, fps, windows);
    law_video_is_as_asked(o, ffmpeg, fps, windows);
}

/// The re-encode that is planned is the one asked for: the width is the width,
/// the height the height, each within 16 and 7680 pixels; the CRF is the CRF, up
/// to what the encoder takes; the codec, the frame rate and the sound are as
/// asked, and so is the preset where there is such a one.
pub proof fn law_video_is_as_asked(
    o: OptsView,
    ffmpeg: bool,
    fps: Option<Seq<char>>,
    windows: bool,
)
    ensures
        video_spec(o, ffmpeg, fps, windows) matches Ok((s, _)) ==> {
            let max: u8 = if o.video.codec == Codec::Vp9 || o.video.codec == Codec::Av1 {
                63
            } else {
                51
            };
            &&& o.video.width is None ==> s.width is None
            &&& o.video.width matches Some(w) ==> s.width == Some(
                if w < 16 {
                    16u32
                } else if w > 7680 {
                    7680u32
                } else {
                    w
                },
            )
            &&& o.video.height is None ==> s.height is None
            &&& o.video.height matches Some(h) ==> s.height == Some(
                if h < 16 {
                    16u32
                } else if h > 7680 {
                    7680u32
                } else {
                    h
                },
            )
            &&& s.crf == (if o.video.crf > max {
                max
            } else {
                o.video.crf
            })
            &&& s.codec == o.video.codec
            &&& s.fps == fps
            &&& s.audio == o.video.audio
            &&& o.video.preset == "fast"@ || o.video.preset == "slow"@ || o.video.preset
                == "medium"@ || o.video.preset == "veryslow"@ || o.video.preset == "ultrafast"@
                ==> s.preset == o.video.preset
        },
{
    crate::video::law_settings_in_range_are_kept(SettingsView { fps, ..o.video });
    crate::video::law_presets(SettingsView { fps, ..o.video });
}

/// With ffmpeg at hand a re-encode is always planned, and without it never; the
/// result is called as asked.
pub proof fn law_video_is_planned(o: OptsView, fps: Option<Seq<char>>, windows: bool)
    ensures
        video_spec(o, true, fps, windows) is Ok,
        video_spec(o, false, fps, windows) == Err::<(SettingsView, Seq<char>), Seq<char>>(
            "ffmpeg was not found on PATH; the `video` command needs it"@,
        ),
        o.files.len() > 1 ==> (video_spec(o, true, fps, windows) matches Ok((_, out)) && out
            == o.files[1]),
{
}

/// With no name asked for, the result goes by the file that is read, with the
/// extension of what it has become in place of its own.
pub proof fn law_default_results(
    o: OptsView,
    name: Seq<char>,
    ext: Seq<char>,
    fps: Option<Seq<char>>,
    windows: bool,
)
    requires
        o.files == seq![name + "."@ + ext],
        !ext.contains('.'),
        !ext.contains('/'),
        !ext.contains('\\'),
    ensures
        video_spec(o, true, fps, windows) matches Ok((_, out)) && out == name + "-reencode."@ + (
        if o.video.codec == Codec::Vp9 {
            "webm"@
        } else {
            "mp4"@
        }),
        convert_spec(o, true, fps, windows) matches Ok((c, out)) ==> out == name + "."@
            + c.format.ext@,
{
    law_stem_drops_the_extension(name, ext, windows);
    crate::video::law_codec_traits(o.video.codec);
}

/// Where there is a format of that name, a file is converted to the one that
/// `--to` names, and without it to the one that the name of the result ends in;
/// the result is called as asked.
pub proof fn law_target_is_as_asked(
    o: OptsView,
    name: Seq<char>,
    ext: Seq<char>,
    fps: Option<Seq<char>>,
    windows: bool,
)
    requires
        o.files.len() > 1,
        o.files[1] == name + "."@ + ext,
        !ext.contains('.'),
        !ext.contains('/'),
        !ext.contains('\\'),
    ensures
        ({
            let named = match o.to {
                Some(t) => t,
                None => ext,
            };
            match format_named(named) {
                Some(f) => convert_spec(o, true, fps, windows) matches Ok((c, out)) && c.format == f
                    && out == name + "."@ + ext,
                None => convert_spec(o, true, fps, windows) == Err::<
                    (OptionsView, Seq<char>),
                    Seq<char>,
                >("unknown format '"@ + named + "' (one of "@ + names_of(16) + ")"@),
            }
        }),
{
    reveal_strlit(".");
    assert(name + "."@ + ext =~= name.push('.') + ext);
    crate::text::law_halves_of_joined(name, '.', ext);
    if has_separator(ext, windows) {
        let i = choose|i: int| 0 <= i < ext.len() && is_separator(#[trigger] ext[i], windows);
        assert(ext.contains(ext[i]));
    }
}

/// A conversion needs ffmpeg, and a target that is named somewhere.
pub proof fn law_conversion_is_refused(o: OptsView, fps: Option<Seq<char>>, windows: bool)
    ensures
        convert_spec(o, false, fps, windows) == Err::<(OptionsView, Seq<char>), Seq<char>>(
            "ffmpeg was not found on PATH; the `convert` command needs it"@,
        ),
        o.to is None && (o.files.len() < 2 || !o.files[1].contains('.')) ==> convert_spec(
            o,
            true,
            fps,
            windows,
        ) == Err::<(OptionsView, Seq<char>), Seq<char>>(
            "missing target format: give --to EXT (one of "@ + names_of(16) + ")"@,
        ),
        (o.to matches Some(t) && format_named(t) is Some) ==> convert_spec(
            o,
            true,
            fps,
            windows,
        ) is Ok,
{
    if o.files.len() >= 2 {
        crate::text::law_halves(o.files[1], '.');
        match last_halves(o.files[1], '.') {
            Some((a, b)) => {
                assert((a.push('.') + b)[a.len() as int] == '.');
                assert(o.files[1][a.len() as int] == '.');
            },
            None => {},
        }
    }
}

/// A slash separates the parts of a path, a backslash only on Windows, and
/// nothing else does.
pub proof fn law_separators(c: char, dir: Seq<char>, name: Seq<char>)
    requires
        !name.contains('.'),
    ensures
        is_separator('/', true) && is_separator('/', false),
        is_separator('\\', true) && !is_separator('\\', false),
        c != '/' && c != '\\' ==> !is_separator(c, true) && !is_separator(c, false),
        stem_of(dir.push('/') + name, false) == dir.push('/') + name,
        stem_of(dir.push('/') + name, true) == dir.push('/') + name,
        stem_of(dir.push('\\') + name, true) == dir.push('\\') + name,
{
    law_stem_keeps_a_bare_name(dir, '/', name, false);
    law_stem_keeps_a_bare_name(dir, '/', name, true);
    law_stem_keeps_a_bare_name(dir, '\\', name, true);
}

/// A download takes the tool there is, to the directory that is named or to this
/// one, and an address that can be taken.
pub proof fn law_download_is_as_asked(o: OptsView, tool: Option<Tool>, t: Tool)
    ensures
        download_spec(o, None) == Err::<(Tool, Seq<char>), Seq<char>>(
            "neither yt-dlp nor curl was found on PATH; the `dl` command needs one of them"@,
        ),
        url_error(o.files[0]) matches Some(e) ==> download_spec(o, Some(t)) == Err::<
            (Tool, Seq<char>),
            Seq<char>,
        >(e),
        url_error(o.files[0]) is None && o.files.len() > 1 ==> download_spec(o, Some(t)) == Ok::<
            (Tool, Seq<char>),
            Seq<char>,
        >((t, o.files[1])),
        url_error(o.files[0]) is None && o.files.len() == 1 ==> download_spec(o, Some(t)) == Ok::<
            (Tool, Seq<char>),
            Seq<char>,
        >((t, "."@)),
{
}

/// Only a file that is there is kept from being overwritten, and only as long as
/// that is not asked for.
pub proof fn law_outputs_are_kept(path: Seq<char>)
    ensures
        output_error(path, true, false) == Some(path + " already exists (use -f to overwrite)"@),
        output_error(path, true, true) is None,
        output_error(path, false, false) is None,
        output_error(path, false, true) is None,
{
}

/// What no option says otherwise; the arguments are read from the first on, each
/// against that.
pub proof fn law_standard_line(args: Seq<Seq<char>>, numeric: Seq<bool>)
    ensures
        parsed_args(seq![], numeric) matches Ok(o) && parsed_args(args, numeric) == parsed_from(
            args,
            numeric,
            0,
            o,
        ),
        parsed_args(seq![], numeric) matches Ok(o) && {
            &&& o.level == 6 && !o.force && !o.quiet && o.port == 8787 && o.host == "127.0.0.1"@
            &&& o.max_size == 512 && !o.compress && o.cookies && o.to is None && o.quality == 75
            &&& o.video.width is None && o.video.height is None && o.video.fps is None
            &&& o.video.crf == 28 && o.video.codec == Codec::H264 && o.video.preset == "medium"@
            &&& o.video.audio && o.files.len() == 0
        },
{
}

proof fn lemma_flags()
    ensures
        flag_named("-l"@) == Some(Flag::Level),
        flag_named("--level"@) == Some(Flag::Level),
        flag_named("--port"@) == Some(Flag::Port),
        flag_named("--host"@) == Some(Flag::Host),
        flag_named("--max-size"@) == Some(Flag::MaxSize),
        flag_named("--width"@) == Some(Flag::Width),
        flag_named("--height"@) == Some(Flag::Height),
        flag_named("--fps"@) == Some(Flag::Fps),
        flag_named("--crf"@) == Some(Flag::Crf),
        flag_named("--codec"@) == Some(Flag::Codec),
        flag_named("--preset"@) == Some(Flag::Preset),
        flag_named("--to"@) == Some(Flag::To),
        flag_named("--format"@) == Some(Flag::To),
        flag_named("--quality"@) == Some(Flag::Quality),
{
    reveal_strlit("-l");
    reveal_strlit("--level");
    reveal_strlit("--port");
    reveal_strlit("--host");
    reveal_strlit("--max-size");
    reveal_strlit("--width");
    reveal_strlit("--height");
    reveal_strlit("--fps");
    reveal_strlit("--crf");
    reveal_strlit("--codec");
    reveal_strlit("--preset");
    reveal_strlit("--to");
    reveal_strlit("--format");
    reveal_strlit("--quality");
    assert("-l"@.len() == 2 && "--level"@.len() == 7 && "--port"@.len() == 6);
    assert("--host"@.len() == 6 && "--max-size"@.len() == 10 && "--width"@.len() == 7);
    assert("--height"@.len() == 8 && "--fps"@.len() == 5 && "--crf"@.len() == 5);
    assert("--codec"@.len() == 7 && "--preset"@.len() == 8 && "--to"@.len() == 4);
    assert("--format"@.len() == 8 && "--quality"@.len() == 9);
    assert("--level"@[2] == 'l' && "--width"@[2] == 'w' && "--codec"@[2] == 'c');
    assert("--port"@[2] == 'p' && "--host"@[2] == 'h');
    assert("--height"@[2] == 'h' && "--preset"@[2] == 'p' && "--format"@[2] == 'f');
    assert("--fps"@[2] == 'f' && "--crf"@[2] == 'c');
}

/// An option that takes a number sets what it names to that number, and nothing
/// else; one that is out of range is refused.
pub proof fn law_numbers_are_taken(
    args: Seq<Seq<char>>,
    numeric: Seq<bool>,
    i: int,
    o: OptsView,
    n: nat,
)
    requires
        0 <= i,
        i + 1 < args.len(),
        args[i + 1] == crate::text::decimal(n),
    ensures
        args[i] == "--width"@ && n <= u32::MAX ==> parsed_from(args, numeric, i, o) == parsed_from(
            args,
            numeric,
            i + 2,
            OptsView { video: SettingsView { width: Some(n as u32), ..o.video }, ..o },
        ),
        args[i] == "--height"@ && n <= u32::MAX ==> parsed_from(args, numeric, i, o) == parsed_from(
            args,
            numeric,
            i + 2,
            OptsView { video: SettingsView { height: Some(n as u32), ..o.video }, ..o },
        ),
        args[i] == "--crf"@ && n <= 255 ==> parsed_from(args, numeric, i, o) == parsed_from(
            args,
            numeric,
            i + 2,
            OptsView { video: SettingsView { crf: n as u8, ..o.video }, ..o },
        ),
        args[i] == "--quality"@ && n <= 100 ==> parsed_from(args, numeric, i, o) == parsed_from(
            args,
            numeric,
            i + 2,
            OptsView { quality: n as u8, ..o },
        ),
        args[i] == "--quality"@ && 100 < n <= u32::MAX ==> parsed_from(args, numeric, i, o) == Err::<
            OptsView,
            Seq<char>,
        >("--quality must be 0..100"@),
        args[i] == "--port"@ && n <= 65535 ==> parsed_from(args, numeric, i, o) == parsed_from(
            args,
            numeric,
            i + 2,
            OptsView { port: n as u16, ..o },
        ),
        args[i] == "--max-size"@ && n <= usize::MAX ==> parsed_from(args, numeric, i, o)
            == parsed_from(args, numeric, i + 2, OptsView { max_size: n as usize, ..o }),
        (args[i] == "-l"@ || args[i] == "--level"@) && n <= 9 ==> parsed_from(args, numeric, i, o)
            == parsed_from(args, numeric, i + 2, OptsView { level: n as u8, ..o }),
        (args[i] == "-l"@ || args[i] == "--level"@) && 9 < n <= 255 ==> parsed_from(
            args,
            numeric,
            i,
            o,
        ) == Err::<OptsView, Seq<char>>("level must be 0..9"@),
{
    lemma_flags();
    if n <= u32::MAX {
        crate::text::law_decimal_is_read_back(n, u32::MAX as nat);
    }
    if n <= 255 {
        crate::text::law_decimal_is_read_back(n, 255);
    }
    if n <= 65535 {
        crate::text::law_decimal_is_read_back(n, 65535);
    }
    if n <= usize::MAX {
        crate::text::law_decimal_is_read_back(n, usize::MAX as nat);
    }
}

/// What is no number, or too large a one, is refused where a number belongs.
pub proof fn law_numbers_are_asked_for(
    args: Seq<Seq<char>>,
    numeric: Seq<bool>,
    i: int,
    o: OptsView,
)
    requires
        0 <= i,
        i + 1 < args.len(),
    ensures
        args[i] == "--width"@ && number(args[i + 1], u32::MAX as nat) is None ==> parsed_from(
            args,
            numeric,
            i,
            o,
        ) == Err::<OptsView, Seq<char>>("--width must be a whole number of pixels"@),
        args[i] == "--height"@ && number(args[i + 1], u32::MAX as nat) is None ==> parsed_from(
            args,
            numeric,
            i,
            o,
        ) == Err::<OptsView, Seq<char>>("--height must be a whole number of pixels"@),
        args[i] == "--crf"@ && number(args[i + 1], 255) is None ==> parsed_from(
            args,
            numeric,
            i,
            o,
        ) == Err::<OptsView, Seq<char>>("--crf must be 0..63"@),
        args[i] == "--quality"@ && number(args[i + 1], u32::MAX as nat) is None ==> parsed_from(
            args,
            numeric,
            i,
            o,
        ) == Err::<OptsView, Seq<char>>("--quality must be 0..100"@),
        args[i] == "--port"@ && number(args[i + 1], 65535) is None ==> parsed_from(
            args,
            numeric,
            i,
            o,
        ) == Err::<OptsView, Seq<char>>("port must be 1..65535"@),
        args[i] == "--max-size"@ && number(args[i + 1], usize::MAX as nat) is None ==> parsed_from(
            args,
            numeric,
            i,
            o,
        ) == Err::<OptsView, Seq<char>>("--max-size must be a whole number of MiB"@),
        (args[i] == "-l"@ || args[i] == "--level"@) && number(args[i + 1], 255) is None
            ==> parsed_from(args, numeric, i, o) == Err::<OptsView, Seq<char>>(
            "level must be 0..9"@,
        ),
        args[i] == "--fps"@ && !numeric[i + 1] ==> parsed_from(args, numeric, i, o) == Err::<
            OptsView,
            Seq<char>,
        >("--fps must be a number"@),
        args[i] == "--codec"@ && Codec::named(lowered(args[i + 1])) is None ==> parsed_from(
            args,
            numeric,
            i,
            o,
        ) == Err::<OptsView, Seq<char>>(
            "unknown codec '"@ + args[i + 1] + "' (h264, h265, vp9, av1)"@,
        ),
{
    lemma_flags();
}

/// An option that takes a text sets what it names to that text, and nothing else.
pub proof fn law_texts_are_taken(args: Seq<Seq<char>>, numeric: Seq<bool>, i: int, o: OptsView)
    requires
        0 <= i,
        i + 1 < args.len(),
    ensures
        args[i] == "--host"@ ==> parsed_from(args, numeric, i, o) == parsed_from(
            args,
            numeric,
            i + 2,
            OptsView { host: args[i + 1], ..o },
        ),
        args[i] == "--preset"@ ==> parsed_from(args, numeric, i, o) == parsed_from(
            args,
            numeric,
            i + 2,
            OptsView { video: SettingsView { preset: args[i + 1], ..o.video }, ..o },
        ),
        args[i] == "--to"@ || args[i] == "--format"@ ==> parsed_from(args, numeric, i, o)
            == parsed_from(args, numeric, i + 2, OptsView { to: Some(args[i + 1]), ..o }),
        args[i] == "--fps"@ && numeric[i + 1] ==> parsed_from(args, numeric, i, o) == parsed_from(
            args,
            numeric,
            i + 2,
            OptsView { video: SettingsView { fps: Some(args[i + 1]), ..o.video }, ..o },
        ),
        args[i] == "--codec"@ && Codec::named(lowered(args[i + 1])) is Some ==> parsed_from(
            args,
            numeric,
            i,
            o,
        ) == parsed_from(
            args,
            numeric,
            i + 2,
            OptsView {
                video: SettingsView {
                    codec: Codec::named(lowered(args[i + 1]))->Some_0,
                    ..o.video
                },
                ..o
            },
        ),
{
    lemma_flags();
}

/// An option that ends the line lacks its value.
pub proof fn law_values_are_missed(args: Seq<Seq<char>>, numeric: Seq<bool>, o: OptsView)
    requires
        args.len() > 0,
    ensures
        ({
            let last = args.last();
            let r = parsed_from(args, numeric, args.len() - 1, o);
            let e = Err::<OptsView, Seq<char>>(last + " needs a value"@);
            &&& last == "-l"@ || last == "--port"@ || last == "--host"@ || last == "--max-size"@
                || last == "--width"@ || last == "--height"@ || last == "--fps"@ || last == "--crf"@
                || last == "--codec"@ || last == "--preset"@ || last == "--to"@ || last
                == "--quality"@ ==> r == e
            &&& last == "--level"@ ==> r == Err::<OptsView, Seq<char>>("-l needs a value"@)
            &&& last == "--format"@ ==> r == Err::<OptsView, Seq<char>>("--to needs a value"@)
        }),
{
    lemma_flags();
    reveal_strlit(" needs a value");
    reveal_strlit("-l");
    reveal_strlit("--port");
    reveal_strlit("--host");
    reveal_strlit("--max-size");
    reveal_strlit("--width");
    reveal_strlit("--height");
    reveal_strlit("--fps");
    reveal_strlit("--crf");
    reveal_strlit("--codec");
    reveal_strlit("--preset");
    reveal_strlit("--to");
    reveal_strlit("--quality");
    reveal_strlit("-l needs a value");
    reveal_strlit("--port needs a value");
    reveal_strlit("--host needs a value");
    reveal_strlit("--max-size needs a value");
    reveal_strlit("--width needs a value");
    reveal_strlit("--height needs a value");
    reveal_strlit("--fps needs a value");
    reveal_strlit("--crf needs a value");
    reveal_strlit("--codec needs a value");
    reveal_strlit("--preset needs a value");
    reveal_strlit("--to needs a value");
    reveal_strlit("--quality needs a value");
    assert("-l needs a value"@ =~= "-l"@ + " needs a value"@);
    assert("--port needs a value"@ =~= "--port"@ + " needs a value"@);
    assert("--host needs a value"@ =~= "--host"@ + " needs a value"@);
    assert("--max-size needs a value"@ =~= "--max-size"@ + " needs a value"@);
    assert("--width needs a value"@ =~= "--width"@ + " needs a value"@);
    assert("--height needs a value"@ =~= "--height"@ + " needs a value"@);
    assert("--fps needs a value"@ =~= "--fps"@ + " needs a value"@);
    assert("--crf needs a value"@ =~= "--crf"@ + " needs a value"@);
    assert("--codec needs a value"@ =~= "--codec"@ + " needs a value"@);
    assert("--preset needs a value"@ =~= "--preset"@ + " needs a value"@);
    assert("--to needs a value"@ =~= "--to"@ + " needs a value"@);
    assert("--quality needs a value"@ =~= "--quality"@ + " needs a value"@);
}

proof fn lemma_no_flag(s: Seq<char>)
    requires
        s.len() == 2 ==> s[1] != 'l',
        s.len() > 2 ==> s[1] != 'l' && s[2] != 'l' && s[2] != 'p' && s[2] != 'h' && s[2] != 'm'
            && s[2] != 'w' && s[2] != 'c' && s[2] != 't' && s != "--fps"@ && s != "--format"@ && s
            != "--quality"@,
    ensures
        flag_named(s) is None,
        !(stands_at(s, "-l"@, 0) && s.len() > 2),
{
    reveal_strlit("-l");
    reveal_strlit("--level");
    reveal_strlit("--port");
    reveal_strlit("--host");
    reveal_strlit("--max-size");
    reveal_strlit("--width");
    reveal_strlit("--height");
    reveal_strlit("--fps");
    reveal_strlit("--crf");
    reveal_strlit("--codec");
    reveal_strlit("--preset");
    reveal_strlit("--to");
    reveal_strlit("--format");
    reveal_strlit("--quality");
    assert("-l"@[1] == 'l');
    assert("--level"@[2] == 'l' && "--width"@[2] == 'w' && "--codec"@[2] == 'c');
    assert("--port"@[2] == 'p' && "--host"@[2] == 'h' && "--max-size"@[2] == 'm');
    assert("--height"@[2] == 'h' && "--preset"@[2] == 'p' && "--crf"@[2] == 'c');
    assert("--to"@[2] == 't');
    if stands_at(s, "-l"@, 0) && s.len() > 2 {
        assert(s.subrange(0, 2)[1] == s[1]);
    }
}

/// A switch sets what it names, and nothing else.
pub proof fn law_switches(args: Seq<Seq<char>>, numeric: Seq<bool>, i: int, o: OptsView)
    requires
        0 <= i < args.len(),
    ensures
        args[i] == "--no-audio"@ ==> parsed_from(args, numeric, i, o) == parsed_from(
            args,
            numeric,
            i + 1,
            OptsView { video: SettingsView { audio: false, ..o.video }, ..o },
        ),
        args[i] == "--no-cookies"@ ==> parsed_from(args, numeric, i, o) == parsed_from(
            args,
            numeric,
            i + 1,
            OptsView { cookies: false, ..o },
        ),
        args[i] == "-c"@ ==> parsed_from(args, numeric, i, o) == parsed_from(
            args,
            numeric,
            i + 1,
            OptsView { compress: true, ..o },
        ),
        args[i] == "-f"@ || args[i] == "--force"@ ==> parsed_from(args, numeric, i, o)
            == parsed_from(args, numeric, i + 1, OptsView { force: true, ..o }),
        args[i] == "-q"@ || args[i] == "--quiet"@ ==> parsed_from(args, numeric, i, o)
            == parsed_from(args, numeric, i + 1, OptsView { quiet: true, ..o }),
{
    lemma_switches();
}

proof fn lemma_switches()
    ensures
        forall|s: Seq<char>|
            #![trigger flag_named(s)]
            s == "--no-audio"@ || s == "--no-cookies"@ || s == "-c"@ || s == "-f"@ || s
                == "--force"@ || s == "-q"@ || s == "--quiet"@ ==> flag_named(s) is None && !(
            stands_at(s, "-l"@, 0) && s.len() > 2),
        "--no-audio"@ != "--no-cookies"@,
        "-c"@ != "--no-audio"@ && "-c"@ != "--no-cookies"@,
        "-f"@ != "--no-audio"@ && "-f"@ != "--no-cookies"@ && "-f"@ != "-c"@ && "-f"@
            != "--compress"@,
        "--force"@ != "--no-audio"@ && "--force"@ != "--no-cookies"@ && "--force"@ != "-c"@
            && "--force"@ != "--compress"@,
        "-q"@ != "--no-audio"@ && "-q"@ != "--no-cookies"@ && "-q"@ != "-c"@ && "-q"@
            != "--compress"@ && "-q"@ != "-f"@ && "-q"@ != "--force"@,
        "--quiet"@ != "--no-audio"@ && "--quiet"@ != "--no-cookies"@ && "--quiet"@ != "-c"@
            && "--quiet"@ != "--compress"@ && "--quiet"@ != "-f"@ && "--quiet"@ != "--force"@,
{
    reveal_strlit("--no-audio");
    reveal_strlit("--no-cookies");
    reveal_strlit("-c");
    reveal_strlit("--compress");
    reveal_strlit("-f");
    reveal_strlit("--force");
    reveal_strlit("-q");
    reveal_strlit("--quiet");
    reveal_strlit("--fps");
    reveal_strlit("--format");
    reveal_strlit("--quality");
    assert("-c"@[1] == 'c' && "-f"@[1] == 'f' && "-q"@[1] == 'q');
    assert("--no-audio"@[1] == '-' && "--no-audio"@[2] == 'n');
    assert("--no-cookies"@[1] == '-' && "--no-cookies"@[2] == 'n');
    assert("--force"@[1] == '-' && "--force"@[2] == 'f');
    assert("--quiet"@[1] == '-' && "--quiet"@[2] == 'q');
    assert("--fps"@.len() == 5 && "--format"@.len() == 8 && "--quality"@.len() == 9);
    lemma_no_flag("--no-audio"@);
    lemma_no_flag("--no-cookies"@);
    lemma_no_flag("-c"@);
    lemma_no_flag("-f"@);
    lemma_no_flag("--force"@);
    lemma_no_flag("-q"@);
    lemma_no_flag("--quiet"@);
}

/// `--compress` asks for the same as `-c`.
pub proof fn law_long_compress(args: Seq<Seq<char>>, numeric: Seq<bool>, i: int, o: OptsView)
    requires
        0 <= i < args.len(),
        args[i] == "--compress"@,
    ensures
        parsed_from(args, numeric, i, o) == parsed_from(
            args,
            numeric,
            i + 1,
            OptsView { compress: true, ..o },
        ),
{
    reveal_strlit("--compress");
    reveal_strlit("--no-audio");
    reveal_strlit("--no-cookies");
    reveal_strlit("--max-size");
    reveal_strlit("-l");
    reveal_strlit("--level");
    reveal_strlit("--port");
    reveal_strlit("--host");
    reveal_strlit("--width");
    reveal_strlit("--height");
    reveal_strlit("--fps");
    reveal_strlit("--crf");
    reveal_strlit("--codec");
    reveal_strlit("--preset");
    reveal_strlit("--to");
    reveal_strlit("--format");
    reveal_strlit("--quality");
    let s = "--compress"@;
    assert(s.len() == 10 && s[1] == '-' && s[2] == 'c');
    assert("--no-audio"@[2] == 'n' && "--max-size"@[2] == 'm');
    assert(s.subrange(0, 2)[1] == s[1]);
    assert("-l"@[1] == 'l');
}

/// The level may stand right behind `-l`.
pub proof fn law_joined_level(
    args: Seq<Seq<char>>,
    numeric: Seq<bool>,
    i: int,
    o: OptsView,
    n: nat,
)
    requires
        0 <= i < args.len(),
        args[i] == "-l"@ + crate::text::decimal(n),
        n <= 255,
    ensures
        n <= 9 ==> parsed_from(args, numeric, i, o) == parsed_from(
            args,
            numeric,
            i + 1,
            OptsView { level: n as u8, ..o },
        ),
        n > 9 ==> parsed_from(args, numeric, i, o) == Err::<OptsView, Seq<char>>(
            "level must be 0..9"@,
        ),
{
    let d = crate::text::decimal(n);
    let s = args[i];
    crate::text::law_decimal_is_read_back(n, 255);
    crate::text::law_decimal_is_short(n);
    reveal_strlit("-l");
    reveal_strlit("--level");
    reveal_strlit("--port");
    reveal_strlit("--host");
    reveal_strlit("--max-size");
    reveal_strlit("--width");
    reveal_strlit("--height");
    reveal_strlit("--fps");
    reveal_strlit("--crf");
    reveal_strlit("--codec");
    reveal_strlit("--preset");
    reveal_strlit("--to");
    reveal_strlit("--format");
    reveal_strlit("--quality");
    assert(s[1] == 'l' && s.len() > 2);
    assert(s.subrange(0, 2) =~= "-l"@);
    assert(s.skip(2) =~= d);
    assert("--level"@[1] == '-' && "--port"@[1] == '-' && "--host"@[1] == '-');
    assert("--max-size"@[1] == '-' && "--width"@[1] == '-' && "--height"@[1] == '-');
    assert("--fps"@[1] == '-' && "--crf"@[1] == '-' && "--codec"@[1] == '-');
    assert("--preset"@[1] == '-' && "--to"@[1] == '-' && "--format"@[1] == '-');
    assert("--quality"@[1] == '-');
}

/// What does not begin with a dash, or is one, is the name of a file.
pub proof fn law_files_are_collected(
    args: Seq<Seq<char>>,
    numeric: Seq<bool>,
    i: int,
    o: OptsView,
)
    requires
        0 <= i < args.len(),
        args[i].len() <= 1 || args[i][0] != '-',
    ensures
        parsed_from(args, numeric, i, o) == parsed_from(
            args,
            numeric,
            i + 1,
            OptsView { files: o.files.push(args[i]), ..o },
        ),
{
    let s = args[i];
    lemma_dashes();
    assert(flag_named(s) is None);
    reveal_strlit("-l");
    if stands_at(s, "-l"@, 0) {
        assert("-l"@[0] == '-');
        assert(s.subrange(0, 2)[0] == s[0]);
    }
}

proof fn lemma_dashes()
    ensures
        forall|s: Seq<char>|
            #![trigger flag_named(s)]
            flag_named(s) is Some ==> s.len() > 1 && s[0] == '-',
        "--no-audio"@.len() > 1 && "--no-audio"@[0] == '-',
        "--no-cookies"@.len() > 1 && "--no-cookies"@[0] == '-',
        "-c"@.len() > 1 && "-c"@[0] == '-',
        "--compress"@.len() > 1 && "--compress"@[0] == '-',
        "-f"@.len() > 1 && "-f"@[0] == '-',
        "--force"@.len() > 1 && "--force"@[0] == '-',
        "-q"@.len() > 1 && "-q"@[0] == '-',
        "--quiet"@.len() > 1 && "--quiet"@[0] == '-',
{
    reveal_strlit("-l");
    reveal_strlit("--level");
    reveal_strlit("--port");
    reveal_strlit("--host");
    reveal_strlit("--max-size");
    reveal_strlit("--width");
    reveal_strlit("--height");
    reveal_strlit("--fps");
    reveal_strlit("--crf");
    reveal_strlit("--codec");
    reveal_strlit("--preset");
    reveal_strlit("--to");
    reveal_strlit("--format");
    reveal_strlit("--quality");
    reveal_strlit("--no-audio");
    reveal_strlit("--no-cookies");
    reveal_strlit("-c");
    reveal_strlit("--compress");
    reveal_strlit("-f");
    reveal_strlit("--force");
    reveal_strlit("-q");
    reveal_strlit("--quiet");
}

/// What begins with a dash and is no option is refused.
pub proof fn law_unknown_options(args: Seq<Seq<char>>, numeric: Seq<bool>, i: int, o: OptsView)
    requires
        0 <= i < args.len(),
        args[i].len() > 1,
        args[i][0] == '-',
        args[i][1] != 'l',
        !seq![
            "--level"@,
            "--port"@,
            "--host"@,
            "--max-size"@,
            "--width"@,
            "--height"@,
            "--fps"@,
            "--crf"@,
            "--codec"@,
            "--preset"@,
            "--to"@,
            "--format"@,
            "--quality"@,
            "--no-audio"@,
            "--no-cookies"@,
            "-c"@,
            "--compress"@,
            "-f"@,
            "--force"@,
            "-q"@,
            "--quiet"@,
        ].contains(args[i]),
    ensures
        parsed_from(args, numeric, i, o) == Err::<OptsView, Seq<char>>(
            "unknown option "@ + args[i],
        ),
{
    let s = args[i];
    let known = seq![
        "--level"@,
        "--port"@,
        "--host"@,
        "--max-size"@,
        "--width"@,
        "--height"@,
        "--fps"@,
        "--crf"@,
        "--codec"@,
        "--preset"@,
        "--to"@,
        "--format"@,
        "--quality"@,
        "--no-audio"@,
        "--no-cookies"@,
        "-c"@,
        "--compress"@,
        "-f"@,
        "--force"@,
        "-q"@,
        "--quiet"@,
    ];
    assert forall|k: int| 0 <= k < known.len() implies s != #[trigger] known[k] by {
        assert(known.contains(known[k]));
    }
    assert(s != known[0] && s != known[1] && s != known[2] && s != known[3] && s != known[4] && s
        != known[5] && s != known[6]);
    assert(s != known[7] && s != known[8] && s != known[9] && s != known[10] && s != known[11] && s
        != known[12] && s != known[13]);
    assert(s != known[14] && s != known[15] && s != known[16] && s != known[17] && s != known[18]
        && s != known[19] && s != known[20]);
    reveal_strlit("-l");
    assert("-l"@[1] == 'l');
    if stands_at(s, "-l"@, 0) {
        assert(s.subrange(0, 2)[1] == s[1]);
    }
}

proof fn lemma_commands()
    ensures
        forall|c: Seq<char>|
            #![trigger c.len()]
            c == "serve"@ || c == "video"@ || c == "convert"@ || c == "dl"@ || c == "download"@
                ==> c != "-h"@ && c != "--help"@ && c != "help"@,
        "serve"@ != "video"@ && "serve"@ != "convert"@ && "serve"@ != "dl"@ && "serve"@
            != "download"@,
        "video"@ != "convert"@ && "video"@ != "dl"@ && "video"@ != "download"@,
        "convert"@ != "dl"@ && "convert"@ != "download"@ && "dl"@ != "download"@,
{
    reveal_strlit("-h");
    reveal_strlit("--help");
    reveal_strlit("help");
    reveal_strlit("serve");
    reveal_strlit("video");
    reveal_strlit("convert");
    reveal_strlit("dl");
    reveal_strlit("download");
    assert("-h"@.len() == 2 && "--help"@.len() == 6 && "help"@.len() == 4);
    assert("serve"@.len() == 5 && "video"@.len() == 5 && "convert"@.len() == 7);
    assert("dl"@.len() == 2 && "download"@.len() == 8);
    assert("serve"@[0] == 's' && "video"@[0] == 'v' && "dl"@[0] == 'd' && "-h"@[0] == '-');
}

/// What each command takes: `serve` no file, `video`, `convert` and `dl` one or
/// two, the rest one at least.
pub proof fn law_commands(argv: Seq<Seq<char>>, numeric: Seq<bool>, o: OptsView)
    requires
        argv.len() > 0,
        parsed_args(argv.skip(1), numeric.skip(1)) == Ok::<OptsView, Seq<char>>(o),
    ensures
        ({
            let cmd = argv[0];
            let r = dispatched(argv, numeric);
            let n = o.files.len();
            &&& cmd == "serve"@ && n == 0 ==> r == Ok::<ActionView, Seq<char>>(ActionView::Serve(o))
            &&& cmd == "video"@ && 1 <= n <= 2 ==> r == Ok::<ActionView, Seq<char>>(
                ActionView::Video(o),
            )
            &&& cmd == "convert"@ && 1 <= n <= 2 ==> r == Ok::<ActionView, Seq<char>>(
                ActionView::Convert(o),
            )
            &&& (cmd == "dl"@ || cmd == "download"@) && 1 <= n <= 2 ==> r == Ok::<
                ActionView,
                Seq<char>,
            >(ActionView::Download(o))
            &&& cmd == "serve"@ && n > 0 ==> r == Err::<ActionView, Seq<char>>(
                "unexpected extra argument '"@ + o.files[0] + "'"@,
            )
            &&& (cmd == "video"@ || cmd == "convert"@ || cmd == "dl"@ || cmd == "download"@) && n
                > 2 ==> r == Err::<ActionView, Seq<char>>(
                "unexpected extra argument '"@ + o.files[2] + "'"@,
            )
            &&& cmd != "serve"@ && cmd != "-h"@ && cmd != "--help"@ && cmd != "help"@ && n == 0
                ==> r == Err::<ActionView, Seq<char>>("missing input file"@)
            &&& cmd != "serve"@ && cmd != "video"@ && cmd != "convert"@ && cmd != "dl"@ && cmd
                != "download"@ && cmd != "-h"@ && cmd != "--help"@ && cmd != "help"@ && n > 0 ==> r
                == Ok::<ActionView, Seq<char>>(ActionView::Read { cmd, opts: o })
        }),
{
    lemma_commands();
    assert(argv[0].len() >= 0);
}

/// Nothing, or a plea for help, is answered with the usage; otherwise options
/// that cannot be read are refused.
pub proof fn law_help(argv: Seq<Seq<char>>, numeric: Seq<bool>, e: Seq<char>)
    ensures
        argv.len() == 0 ==> dispatched(argv, numeric) == Ok::<ActionView, Seq<char>>(
            ActionView::Usage,
        ),
        argv.len() > 0 && (argv[0] == "-h"@ || argv[0] == "--help"@ || argv[0] == "help"@)
            ==> dispatched(argv, numeric) == Ok::<ActionView, Seq<char>>(ActionView::Usage),
        argv.len() > 0 && argv[0] != "-h"@ && argv[0] != "--help"@ && argv[0] != "help"@
            && parsed_args(argv.skip(1), numeric.skip(1)) == Err::<OptsView, Seq<char>>(e)
            ==> dispatched(argv, numeric) == Err::<ActionView, Seq<char>>(e),
{
}

/// What each command does with the file it reads.
pub proof fn law_file_commands(cmd: Seq<char>, files: Seq<Seq<char>>, archive: bool)
    requires
        files.len() > 0,
    ensures
        ({
            let r = file_action_spec(cmd, files, archive);
            let c = cmd == "c"@ || cmd == "compress"@;
            let d = cmd == "d"@ || cmd == "x"@ || cmd == "decompress"@;
            let t = cmd == "t"@ || cmd == "test"@;
            let b = cmd == "bench"@;
            &&& c && files.len() == 1 ==> r == Ok::<FileView, Seq<char>>(
                FileView::Compress(files[0] + ".cpt"@),
            )
            &&& c && files.len() == 2 ==> r == Ok::<FileView, Seq<char>>(
                FileView::Compress(files[1]),
            )
            &&& d && archive && files.len() == 2 ==> r == Ok::<FileView, Seq<char>>(
                FileView::Decompress(files[1]),
            )
            &&& d && !archive && files.len() <= 2 ==> r == Err::<FileView, Seq<char>>(
                files[0] + " is not a Compactor archive"@,
            )
            &&& t && files.len() == 1 ==> r == Ok::<FileView, Seq<char>>(FileView::Test)
            &&& b && files.len() == 1 ==> r == Ok::<FileView, Seq<char>>(FileView::Bench)
            &&& (c || d) && files.len() > 2 ==> r == Err::<FileView, Seq<char>>(
                "unexpected extra argument '"@ + files[2] + "'"@,
            )
            &&& (t || b) && files.len() > 1 ==> r == Err::<FileView, Seq<char>>(
                "unexpected extra argument '"@ + files[1] + "'"@,
            )
            &&& !(c || d || t || b) ==> r == Err::<FileView, Seq<char>>(
                "unknown command '"@ + cmd + "'\n\n"@ + USAGE@,
            )
        }),
{
    lemma_file_commands();
}

proof fn lemma_file_commands()
    ensures
        "c"@ != "d"@ && "c"@ != "x"@ && "c"@ != "decompress"@ && "c"@ != "t"@ && "c"@ != "test"@
            && "c"@ != "bench"@,
        "compress"@ != "d"@ && "compress"@ != "x"@ && "compress"@ != "decompress"@ && "compress"@
            != "t"@ && "compress"@ != "test"@ && "compress"@ != "bench"@,
        "d"@ != "t"@ && "d"@ != "test"@ && "d"@ != "bench"@,
        "x"@ != "t"@ && "x"@ != "test"@ && "x"@ != "bench"@,
        "decompress"@ != "t"@ && "decompress"@ != "test"@ && "decompress"@ != "bench"@,
        "t"@ != "bench"@ && "test"@ != "bench"@,
{
    reveal_strlit("c");
    reveal_strlit("compress");
    reveal_strlit("d");
    reveal_strlit("x");
    reveal_strlit("decompress");
    reveal_strlit("t");
    reveal_strlit("test");
    reveal_strlit("bench");
    assert("c"@.len() == 1 && "compress"@.len() == 8 && "d"@.len() == 1);
    assert("x"@.len() == 1 && "decompress"@.len() == 10 && "t"@.len() == 1);
    assert("test"@.len() == 4 && "bench"@.len() == 5);
    assert("c"@[0] == 'c' && "d"@[0] == 'd' && "x"@[0] == 'x' && "t"@[0] == 't');
}

/// An archive is decompressed to its name without `.cpt`, and has to have one.
pub proof fn law_archive_names(cmd: Seq<char>, name: Seq<char>, other: Seq<char>)
    requires
        cmd == "d"@ || cmd == "x"@ || cmd == "decompress"@,
        other.len() > 0,
        other.last() != 't',
    ensures
        file_action_spec(cmd, seq![name + ".cpt"@], true) == Ok::<FileView, Seq<char>>(
            FileView::Decompress(name),
        ),
        file_action_spec(cmd, seq![other], true) == Err::<FileView, Seq<char>>(
            "cannot infer output name (input does not end in .cpt); give it explicitly"@,
        ),
{
    lemma_file_commands();
    reveal_strlit(".cpt");
    crate::text::law_prefix_and_suffix(name, ".cpt"@);
    crate::text::law_prefix_and_suffix(other, ".cpt"@);
    if without_suffix(other, ".cpt"@) is Some {
        let r = without_suffix(other, ".cpt"@)->Some_0;
        assert((r + ".cpt"@).last() == 't');
    }
}

/// A field of the options is what it is called.
pub proof fn law_opts_view(o: Opts)
    ensures
        o@.level == o.level && o@.force == o.force && o@.quiet == o.quiet && o@.port == o.port,
        o@.host == o.host@ && o@.max_size == o.max_size && o@.compress == o.compress,
        o@.cookies == o.cookies && o@.quality == o.quality && o@.video == o.video@,
        o@.files == texts_of(o.files@) && o@.to == text_or_none(o.to),
{
}

/// An action is seen as what it is called, with what it carries.
pub proof fn law_action_view(o: Opts, name: String)
    ensures
        Action::Usage@ == ActionView::Usage,
        Action::Serve(o)@ == ActionView::Serve(o@),
        Action::Video(o)@ == ActionView::Video(o@),
        Action::Convert(o)@ == ActionView::Convert(o@),
        Action::Download(o)@ == ActionView::Download(o@),
        (Action::Read { cmd: name, opts: o })@ == (ActionView::Read { cmd: name@, opts: o@ }),
        FileAction::Compress(name)@ == FileView::Compress(name@),
        FileAction::Decompress(name)@ == FileView::Decompress(name@),
        FileAction::Test@ == FileView::Test,
        FileAction::Bench@ == FileView::Bench,
{
}

} // verus!
