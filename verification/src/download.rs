//! Fetching a file from a URL, delegated to `yt-dlp` or `curl`.
//!
//! Speaking HTTPS by hand is not a reasonable thing to write here, so the
//! download is handed to whichever of the two tools is on PATH. `yt-dlp` is
//! preferred when both are present: it handles plain file links through its
//! generic extractor *and* the media sites `curl` cannot see, so nothing is
//! lost by picking it first.
//!
//! Arguments are passed as separate argv entries and the URL is validated
//! before it is used, so no user-supplied string is ever interpreted by a
//! shell nor mistaken for an option.

use vstd::prelude::*;
use vstd::string::StringExecFns;

use crate::args::{Arg, ArgList};
#[allow(unused_imports)]
use crate::args::{args_of, word, ArgView};
use crate::convert::begin_ffmpeg;
#[allow(unused_imports)]
use crate::convert::ffmpeg_head;
use crate::text::{
    chars_of, contains, is_white_space, join, push_signed, same, starts_with, to_lower,
};
#[allow(unused_imports)]
use crate::text::{
    holds, is_space, joined, lowered, signed, stands_at, texts_of,
};

verus! {

/// Lines of the child's stderr kept for the error message.
pub const KEEP_LINES: usize = 8;

#[derive(Clone, Copy, Debug, PartialEq, Eq, Structural)]
pub enum Tool {
    YtDlp,
    Curl,
}

impl Tool {
    pub open spec fn name_spec(self) -> Seq<char> {
        match self {
            Tool::YtDlp => "yt-dlp"@,
            Tool::Curl => "curl"@,
        }
    }

    pub fn name(self) -> (s: &'static str)
        ensures
            s@ == self.name_spec(),
    {
        match self {
            Tool::YtDlp => "yt-dlp",
            Tool::Curl => "curl",
        }
    }
}

/// The downloader to use, given which of the tools are callable, or `None` when
/// neither is.
pub fn available(yt_dlp: bool, curl: bool) -> (r: Option<Tool>)
    ensures
        r == (if yt_dlp {
            Some(Tool::YtDlp)
        } else if curl {
            Some(Tool::Curl)
        } else {
            None
        }),
{
    if yt_dlp {
        Some(Tool::YtDlp)
    } else if curl {
        Some(Tool::Curl)
    } else {
        None
    }
}

/// A control character.
pub open spec fn is_control(c: char) -> bool {
    (c as u32) < 0x20 || 0x7f <= (c as u32) <= 0x9f
}

/// A character that no URL may hold.
pub open spec fn forbidden_in_url(c: char) -> bool {
    is_space(c) || is_control(c)
}

/// An `http` or `https` URL, in upper or lower case.
pub open spec fn is_web_url(url: Seq<char>) -> bool {
    stands_at(lowered(url), "http://"@, 0) || stands_at(lowered(url), "https://"@, 0)
}

/// Why `url` is refused, if it is.
pub open spec fn url_error(url: Seq<char>) -> Option<Seq<char>> {
    if !is_web_url(url) {
        Some("l'adresse doit commencer par http:// ou https://"@)
    } else if vstd::utf8::encode_utf8(url).len() > 4096 {
        Some("adresse trop longue"@)
    } else if exists|i: int| 0 <= i < url.len() && forbidden_in_url(#[trigger] url[i]) {
        Some("adresse invalide : espaces ou caractères de contrôle"@)
    } else {
        None
    }
}

/// Accept only what we are willing to hand to a downloader: an absolute http
/// or https URL, no whitespace and no control characters. A string starting
/// with `-` would otherwise be read as an option by both tools, and every
/// other scheme (`file:`, `ftp:`, ...) is a way to read something local that
/// the caller never meant to expose.
pub fn check_url(url: &str) -> (r: Result<(), String>)
    ensures
        match r {
            Ok(()) => url_error(url@) is None,
            Err(e) => url_error(url@) == Some(e@),
        },
{
    let lower = to_lower(url);
    if !(starts_with(lower.as_str(), "http://") || starts_with(lower.as_str(), "https://")) {
        return Err("l'adresse doit commencer par http:// ou https://".to_string());
    }
    if url.as_bytes().len() > 4096 {
        return Err("adresse trop longue".to_string());
    }
    let v = chars_of(url);
    let mut i: usize = 0;
    while i < v.len()
        invariant
            i <= v@.len(),
            v@ == url@,
            is_web_url(url@),
            vstd::utf8::encode_utf8(url@).len() <= 4096,
            forall|j: int| 0 <= j < i ==> !forbidden_in_url(#[trigger] v@[j]),
        decreases v@.len() - i,
    {
        let code: u32 = v[i] as u32;
        if is_white_space(v[i]) || code < 0x20 || (0x7f <= code && code <= 0x9f) {
            assert(forbidden_in_url(url@[i as int]));
            return Err("adresse invalide : espaces ou caractères de contrôle".to_string());
        }
        i = i + 1;
    }
    Ok(())
}

/// What is accepted is never read as an option, holds no white space and no
/// control characters, and names no local file.
pub proof fn law_accepted_url(url: Seq<char>)
    requires
        url_error(url) is None,
    ensures
        url.len() >= 7,
        url[0] == 'h' || url[0] == 'H',
        is_web_url(url),
        forall|i: int| 0 <= i < url.len() ==> !is_space(#[trigger] url[i]),
        forall|i: int| 0 <= i < url.len() ==> !is_control(#[trigger] url[i]),
{
    reveal_strlit("http://");
    reveal_strlit("https://");
    let l = lowered(url);
    if stands_at(l, "http://"@, 0) {
        assert(l.subrange(0, 7)[0] == "http://"@[0]);
    } else {
        assert(l.subrange(0, 8)[0] == "https://"@[0]);
    }
    assert(l[0] == 'h');
    assert forall|i: int| 0 <= i < url.len() implies !is_space(#[trigger] url[i]) && !is_control(
        url[i],
    ) by {
        assert(!forbidden_in_url(url[i]));
    }
}

/// One way of asking a downloader for the file.
#[derive(Clone, Copy, Debug)]
pub enum Plan {
    /// yt-dlp with the browser's cookies: the request then looks like a
    /// signed-in person, which is what YouTube wants before it will serve the
    /// adaptive MP4 streams all the way to the end.
    YtDlpCookies(&'static str),
    /// yt-dlp as itself. Enough for every site that does not fight back, and
    /// for YouTube whenever the anonymous player still works.
    YtDlpPlain,
    /// yt-dlp restricted to the mobile-web player, whose only format is the
    /// old single-file progressive MP4: 360p, and the whole point: that URL
    /// does not expire mid-transfer. Low quality, but it is what stands
    /// between a 403 and nothing at all.
    YtDlpProgressive,
    Curl,
}

/// The attempts to make, best quality first. The cookie attempt is only listed
/// when the user allowed it *and* a browser profile exists to read.
pub open spec fn plan_list(tool: Tool, cookies: bool, profile: Option<&'static str>) -> Seq<Plan> {
    match tool {
        Tool::Curl => seq![Plan::Curl],
        Tool::YtDlp => match profile {
            Some(browser) if cookies => seq![
                Plan::YtDlpCookies(browser),
                Plan::YtDlpPlain,
                Plan::YtDlpProgressive,
            ],
            _ => seq![Plan::YtDlpPlain, Plan::YtDlpProgressive],
        },
    }
}

/// The attempts to make, best quality first.
pub fn plans(tool: Tool, cookies: bool, profile: Option<&'static str>) -> (v: Vec<Plan>)
    ensures
        v@ == plan_list(tool, cookies, profile),
{
    let mut v: Vec<Plan> = Vec::new();
    match tool {
        Tool::Curl => {
            v.push(Plan::Curl);
        },
        Tool::YtDlp => {
            match profile {
                Some(browser) => if cookies {
                    v.push(Plan::YtDlpCookies(browser));
                },
                None => {},
            }
            v.push(Plan::YtDlpPlain);
            v.push(Plan::YtDlpProgressive);
        },
    }
    assert(v@ =~= plan_list(tool, cookies, profile));
    v
}

/// What to do next about a download.
pub enum Next {
    /// Run a downloader, after emptying the directory if `clear` is set. A file
    /// that it leaves behind is the result.
    Run { plan: Plan, clear: bool },
    /// Find out whether curl is callable.
    AskCurl,
    /// Give up, after emptying the directory if `clear` is set.
    Fail { message: String, clear: bool },
}

/// What to do next about a download, as contracts see it.
pub enum NextView {
    Run { plan: Plan, clear: bool },
    AskCurl,
    Fail { message: Seq<char>, clear: bool },
}

impl View for Next {
    type V = NextView;

    open spec fn view(&self) -> NextView {
        match self {
            Next::Run { plan, clear } => NextView::Run { plan: *plan, clear: *clear },
            Next::AskCurl => NextView::AskCurl,
            Next::Fail { message, clear } => NextView::Fail { message: message@, clear: *clear },
        }
    }
}

/// yt-dlp saying this means it recognises neither the site nor the file: a
/// plain link to something it has no extractor for. Retrying it with other
/// player settings cannot help, and curl fetches exactly that kind of URL.
pub open spec fn is_plain_link(error: Seq<char>) -> bool {
    holds(error, "Unsupported URL"@)
}

/// What to do next about a download after the given attempts have failed,
/// `curl` being whether curl is callable, once that is known.
pub open spec fn fetch_next(
    tool: Tool,
    url: Seq<char>,
    cookies: bool,
    profile: Option<&'static str>,
    failures: Seq<Seq<char>>,
    curl: Option<bool>,
) -> NextView {
    let plans = plan_list(tool, cookies, profile);
    let n = failures.len() as int;
    match url_error(url) {
        Some(e) => NextView::Fail { message: e, clear: false },
        None => if n == 0 {
            NextView::Run { plan: plans[0], clear: false }
        } else if n >= 2 && is_plain_link(failures[n - 2]) {
            // curl has had its turn.
            NextView::Fail { message: failures[n - 1], clear: false }
        } else if is_plain_link(failures[n - 1]) {
            match curl {
                None => NextView::AskCurl,
                Some(true) => NextView::Run { plan: Plan::Curl, clear: true },
                Some(false) => NextView::Fail { message: failures[n - 1], clear: true },
            }
        } else if n < plans.len() {
            NextView::Run { plan: plans[n], clear: true }
        } else {
            NextView::Fail { message: failures[n - 1], clear: true }
        },
    }
}

/// Decide how to go on with the download of `url`.
///
/// With yt-dlp the download is attempted more than once, with different
/// settings. YouTube hands out adaptive stream URLs and then refuses them with
/// a 403 partway through unless the request carries a signed-in session, and
/// there is no way to know in advance which variant this machine can actually
/// finish, so the attempts run best quality first and stop at the first one
/// that completes. Every attempt starts from an empty directory, so the
/// remains of a transfer that died at 8% are never mistaken for the result.
///
/// `failures` are the errors of the attempts so far, `profile` the browser
/// whose cookies may be used, and `curl` whether curl is callable, once asked.
pub fn fetch(
    tool: Tool,
    url: &str,
    cookies: bool,
    profile: Option<&'static str>,
    failures: &Vec<String>,
    curl: Option<bool>,
) -> (next: Next)
    ensures
        next@ == fetch_next(tool, url@, cookies, profile, texts_of(failures@), curl),
{
    match check_url(url) {
        Err(e) => {
            return Next::Fail { message: e, clear: false };
        },
        Ok(()) => {},
    }
    let plans = plans(tool, cookies, profile);
    let n: usize = failures.len();
    if n == 0 {
        return Next::Run { plan: plans[0], clear: false };
    }
    let last: &String = &failures[n - 1];
    if n >= 2 && contains(failures[n - 2].as_str(), "Unsupported URL") {
        return Next::Fail { message: last.clone(), clear: false };
    }
    if contains(last.as_str(), "Unsupported URL") {
        match curl {
            None => Next::AskCurl,
            Some(true) => Next::Run { plan: Plan::Curl, clear: true },
            Some(false) => Next::Fail { message: last.clone(), clear: true },
        }
    } else if n < plans.len() {
        Next::Run { plan: plans[n], clear: true }
    } else {
        Next::Fail { message: last.clone(), clear: true }
    }
}

/// Every attempt that has failed was called for.
pub open spec fn called_for(
    tool: Tool,
    url: Seq<char>,
    cookies: bool,
    profile: Option<&'static str>,
    failures: Seq<Seq<char>>,
    curl: Option<bool>,
) -> bool {
    forall|k: int|
        0 <= k < failures.len() ==> (#[trigger] fetch_next(
            tool,
            url,
            cookies,
            profile,
            failures.take(k),
            curl,
        )) is Run
}

/// A download never runs more than one attempt more than there are plans: four
/// at the most.
pub proof fn law_attempts_are_bounded(
    tool: Tool,
    url: Seq<char>,
    cookies: bool,
    profile: Option<&'static str>,
    failures: Seq<Seq<char>>,
    curl: Option<bool>,
)
    requires
        called_for(tool, url, cookies, profile, failures, curl),
    ensures
        failures.len() <= plan_list(tool, cookies, profile).len() + 1 <= 4,
{
    let m = plan_list(tool, cookies, profile).len() as int;
    if failures.len() > m + 1 {
        let a = failures.take(m);
        let b = failures.take(m + 1);
        assert(fetch_next(tool, url, cookies, profile, a, curl) is Run);
        assert(fetch_next(tool, url, cookies, profile, b, curl) is Run);
        assert(b[m - 1] == failures[m - 1] && a[m - 1] == failures[m - 1]);
    }
}

/// Every attempt but the first starts from an empty directory; an address that
/// is refused starts none.
pub proof fn law_attempts_start_clean(
    tool: Tool,
    url: Seq<char>,
    cookies: bool,
    profile: Option<&'static str>,
    failures: Seq<Seq<char>>,
    curl: Option<bool>,
)
    ensures
        fetch_next(tool, url, cookies, profile, failures, curl) matches NextView::Run {
            clear,
            ..
        } ==> clear == (failures.len() > 0) && url_error(url) is None,
{
}

/// Without the user's leave no browser's cookies are read.
pub proof fn law_no_cookies_without_leave(tool: Tool, profile: Option<&'static str>, i: int)
    requires
        0 <= i < plan_list(tool, false, profile).len(),
    ensures
        !(plan_list(tool, false, profile)[i] is YtDlpCookies),
{
}

/// Format selection for yt-dlp: a video comes back as MP4 whenever the site
/// offers one, because that is the container everything else here reads without
/// argument.
///
/// Sites that only serve VP9/Opus hand out video and audio as separate WebM
/// streams, and gluing them into an MP4 is ffmpeg's job. Without ffmpeg those
/// selectors would fail outright, so the chain falls back to whatever single
/// file the site has. The last `/b` in both chains is what makes a plain file
/// link still work: the generic extractor has one format and it is not a video
/// at all.
pub open spec fn mp4_spec(ffmpeg: bool) -> Seq<ArgView> {
    if ffmpeg {
        seq![
            word("-f"@),
            word("bv*[ext=mp4]+ba[ext=m4a]/b[ext=mp4]/bv*+ba/b"@),
            word("--merge-output-format"@),
            word("mp4"@),
            word("--remux-video"@),
            word("mp4"@),
        ]
    } else {
        seq![word("-f"@), word("b[ext=mp4]/b"@)]
    }
}

fn mp4_args(a: &mut ArgList, ffmpeg: bool)
    ensures
        final(a)@ == old(a)@ + mp4_spec(ffmpeg),
{
    if ffmpeg {
        a.text("-f");
        a.text("bv*[ext=mp4]+ba[ext=m4a]/b[ext=mp4]/bv*+ba/b");
        // Only applies when two streams had to be joined.
        a.text("--merge-output-format");
        a.text("mp4");
        // And this one rewrites a finished WebM/MKV video into MP4 without
        // re-encoding it. Non-video downloads are left alone.
        a.text("--remux-video");
        a.text("mp4");
    } else {
        a.text("-f");
        a.text("b[ext=mp4]/b");
    }
    assert(a@ =~= old(a)@ + mp4_spec(ffmpeg));
}

/// The arguments of every yt-dlp attempt.
pub open spec fn ytdlp_head() -> Seq<ArgView> {
    seq![
        word("--no-playlist"@),
        word("--newline"@),
        word("--no-part"@),
        word("--restrict-filenames"@),
        word("-o"@),
        word("%(title).150s.%(ext)s"@),
        word("--retries"@),
        word("10"@),
        word("--fragment-retries"@),
        word("10"@),
        word("--extractor-retries"@),
        word("3"@),
    ]
}

/// The yt-dlp arguments of an attempt, `runtime` being the JavaScript runtime to
/// use.
pub open spec fn ytdlp_spec(
    plan: Plan,
    url: Seq<char>,
    runtime: Option<&'static str>,
    ffmpeg: bool,
) -> Seq<ArgView> {
    let js = match runtime {
        Some(rt) => seq![word("--js-runtimes"@), word(rt@)],
        None => Seq::empty(),
    };
    let selection = match plan {
        Plan::YtDlpCookies(browser) => seq![word("--cookies-from-browser"@), word(browser@)]
            + mp4_spec(ffmpeg),
        Plan::YtDlpProgressive => seq![
            word("--extractor-args"@),
            word("youtube:player_client=mweb"@),
            word("-f"@),
            word("b[ext=mp4]/b"@),
        ],
        _ => mp4_spec(ffmpeg),
    };
    ytdlp_head() + js + selection + seq![word("--"@), word(url)]
}

/// The yt-dlp arguments of an attempt.
pub fn ytdlp_args(
    plan: Plan,
    url: &str,
    runtime: Option<&'static str>,
    ffmpeg: bool,
) -> (list: Vec<Arg>)
    ensures
        args_of(list@) == ytdlp_spec(plan, url@, runtime, ffmpeg),
{
    let mut a = ArgList::new();
    a.text("--no-playlist");
    // Progress on its own lines instead of carriage returns, and no `.part`
    // file left behind if the transfer dies.
    a.text("--newline");
    a.text("--no-part");
    a.text("--restrict-filenames");
    a.text("-o");
    // Long titles are truncated: some filesystems still cap a component at 255
    // bytes.
    a.text("%(title).150s.%(ext)s");
    // A 403 in the middle of a long transfer is routine on YouTube: the media
    // URL expires and yt-dlp has to ask for a fresh one. Without these it gives
    // up on the first refusal.
    a.text("--retries");
    a.text("10");
    a.text("--fragment-retries");
    a.text("10");
    a.text("--extractor-retries");
    a.text("3");
    assert(a@ =~= ytdlp_head());
    match runtime {
        Some(rt) => {
            a.text("--js-runtimes");
            a.text(rt);
        },
        None => {},
    }
    match plan {
        Plan::YtDlpCookies(browser) => {
            a.text("--cookies-from-browser");
            a.text(browser);
            mp4_args(&mut a, ffmpeg);
        },
        Plan::YtDlpProgressive => {
            // `player_client=mweb` is the one YouTube client still offering a
            // plain progressive file. The format chain has to be loose here,
            // because that client offers exactly one format and a strict
            // selector would simply not match it.
            a.text("--extractor-args");
            a.text("youtube:player_client=mweb");
            a.text("-f");
            a.text("b[ext=mp4]/b");
        },
        _ => {
            mp4_args(&mut a, ffmpeg);
        },
    }
    a.text("--");
    a.text(url);
    assert(a@ =~= ytdlp_spec(plan, url@, runtime, ffmpeg));
    a.finish()
}

/// The curl arguments that take the name from the URL, and from
/// Content-Disposition when the server sends one.
pub open spec fn curl_spec(url: Seq<char>) -> Seq<ArgView> {
    seq![
        word("-L"@),
        word("--fail"@),
        word("-sS"@),
        word("--remote-name"@),
        word("--remote-header-name"@),
        word("--"@),
        word(url),
    ]
}

/// The curl arguments that take the name from the URL or the server.
pub fn curl_args(url: &str) -> (list: Vec<Arg>)
    ensures
        args_of(list@) == curl_spec(url@),
{
    let mut a = ArgList::new();
    a.text("-L");
    a.text("--fail");
    a.text("-sS");
    a.text("--remote-name");
    a.text("--remote-header-name");
    a.text("--");
    a.text(url);
    assert(a@ =~= curl_spec(url@));
    a.finish()
}

/// The curl arguments with a name given.
pub open spec fn curl_named_spec(url: Seq<char>) -> Seq<ArgView> {
    seq![
        word("-L"@),
        word("--fail"@),
        word("-sS"@),
        word("-o"@),
        ArgView::Output,
        word("--"@),
        word(url),
    ]
}

/// The curl arguments for a URL that ends in `/`: nothing to name the file
/// after, so it gets a neutral name.
pub fn curl_named_args(url: &str) -> (list: Vec<Arg>)
    ensures
        args_of(list@) == curl_named_spec(url@),
{
    let mut a = ArgList::new();
    a.text("-L");
    a.text("--fail");
    a.text("-sS");
    a.text("-o");
    a.output();
    a.text("--");
    a.text(url);
    assert(a@ =~= curl_named_spec(url@));
    a.finish()
}

/// The URL is the last argument of every list, and `--` stands before it, so
/// that nothing in it can be read as an option.
pub proof fn law_url_is_no_option(
    plan: Plan,
    url: Seq<char>,
    runtime: Option<&'static str>,
    ffmpeg: bool,
)
    ensures
        ({
            let list = ytdlp_spec(plan, url, runtime, ffmpeg);
            list.last() == word(url) && list[list.len() - 2] == word("--"@)
        }),
        curl_spec(url).last() == word(url),
        curl_spec(url)[curl_spec(url).len() - 2] == word("--"@),
        curl_named_spec(url).last() == word(url),
        curl_named_spec(url)[curl_named_spec(url).len() - 2] == word("--"@),
{
}

/// curl only learns it has no name to write to after the request, and says so
/// on stderr; retrying with a fixed name is friendlier than making the user
/// rewrite the URL. `produced` tells whether it left a file all the same.
pub fn curl_needs_name(error: &str, produced: bool) -> (r: bool)
    ensures
        r == (holds(error@, "no length"@) && !produced),
{
    contains(error, "no length") && !produced
}

/// The log once `line` has come.
pub open spec fn log_with(log: Seq<Seq<char>>, line: Seq<char>) -> Seq<Seq<char>> {
    if log.len() >= KEEP_LINES {
        log.push(line).skip(1)
    } else {
        log.push(line)
    }
}

/// Add a line to the log of a downloader, of which only the end is kept.
pub fn keep_line(log: &mut Vec<String>, line: String)
    ensures
        texts_of(final(log)@) == log_with(texts_of(old(log)@), line@),
        old(log)@.len() <= KEEP_LINES ==> final(log)@.len() <= KEEP_LINES,
{
    log.push(line);
    assert(texts_of(log@) =~= texts_of(old(log)@).push(line@));
    if log.len() > KEEP_LINES {
        log.remove(0);
        assert(texts_of(log@) =~= texts_of(old(log)@).push(line@).skip(1));
    }
}

/// The message for a downloader that failed: what it said, or else its exit
/// code, -1 where it has none.
pub open spec fn child_error_text(
    name: Seq<char>,
    log: Seq<Seq<char>>,
    code: Option<i32>,
) -> Seq<char> {
    let said = joined(log, "; "@);
    name + " : "@ + (if said.len() == 0 {
        "code "@ + signed(
            match code {
                Some(c) => c as int,
                None => -1,
            },
        )
    } else {
        said
    })
}

/// The message for a downloader that failed.
pub fn child_error(name: &str, log: &Vec<String>, code: Option<i32>) -> (s: String)
    ensures
        s@ == child_error_text(name@, texts_of(log@), code),
{
    let mut s = name.to_string();
    s.append(" : ");
    let said = join(log, "; ");
    if said.as_str().is_empty() {
        let mut c = "code ".to_string();
        push_signed(
            &mut c,
            match code {
                Some(c) => c,
                None => -1,
            },
        );
        s.append(c.as_str());
    } else {
        s.append(said.as_str());
    }
    s
}

/// The message for a downloader that left no file.
pub fn nothing_produced(name: &str) -> (s: String)
    ensures
        s@ == name@ + " n'a produit aucun fichier"@,
{
    let mut s = name.to_string();
    s.append(" n'a produit aucun fichier");
    s
}

/// The biggest of the files whose sizes are given, the last one of equals.
/// yt-dlp can leave a thumbnail or a subtitle track next to the media.
pub fn biggest(sizes: &Vec<u64>) -> (r: Option<usize>)
    ensures
        r is None <==> sizes@.len() == 0,
        r matches Some(i) ==> {
            &&& i < sizes@.len()
            &&& forall|j: int| 0 <= j <= i ==> sizes@[j] <= sizes@[i as int]
            &&& forall|j: int| i < j < sizes@.len() ==> sizes@[j] < sizes@[i as int]
        },
{
    if sizes.len() == 0 {
        return None;
    }
    let mut best: usize = 0;
    let mut i: usize = 1;
    while i < sizes.len()
        invariant
            best < i <= sizes@.len(),
            forall|j: int| 0 <= j <= best ==> sizes@[j] <= sizes@[best as int],
            forall|j: int| best < j < i ==> sizes@[j] < sizes@[best as int],
        decreases sizes@.len() - i,
    {
        if sizes[i] >= sizes[best] {
            best = i;
        }
        i = i + 1;
    }
    Some(best)
}

/// Containers that hold video and that ffmpeg can repackage into MP4 without
/// touching a single frame. Anything else (an audio track, an archive, a PDF
/// pulled in by the generic extractor) is returned exactly as it came.
pub const REMUXABLE: [&'static str; 6] = ["webm", "mkv", "mov", "avi", "flv", "ts"];

/// A container that ffmpeg can repackage into MP4, by extension.
pub open spec fn is_remuxable(ext: Seq<char>) -> bool {
    exists|i: int| 0 <= i < 6 && #[trigger] REMUXABLE@[i]@ == lowered(ext)
}

/// Last word on the container. yt-dlp is already asked for MP4 and told to
/// remux, but a site that only serves WebM, a yt-dlp too old for
/// `--remux-video`, or a fallback attempt that had to take whatever was on
/// offer all end up here with something else. Repackaging is a stream copy, so
/// it costs seconds and loses nothing; if it fails, the original file is kept
/// rather than the download thrown away.
///
/// Whether a file with extension `ext` is to be repackaged, `ffmpeg` being
/// whether that is callable and `taken` whether the name of the result is.
pub fn ensure_mp4(ext: &str, ffmpeg: bool, taken: bool) -> (r: bool)
    ensures
        r == (is_remuxable(ext@) && ffmpeg && !taken),
{
    let lower = to_lower(ext);
    let mut i: usize = 0;
    while i < 6
        invariant
            i <= 6,
            lower@ == lowered(ext@),
            forall|j: int| 0 <= j < i ==> #[trigger] REMUXABLE@[j]@ != lower@,
        decreases 6 - i,
    {
        if same(REMUXABLE[i], lower.as_str()) {
            assert(REMUXABLE@[i as int]@ == lowered(ext@));
            return ffmpeg && !taken;
        }
        i = i + 1;
    }
    false
}

/// The ffmpeg arguments that repackage the input. Every stream is copied as it
/// is, minus the subtitles: MP4 cannot carry the WebVTT tracks WebM arrives
/// with, and their presence alone fails the whole remux.
pub open spec fn remux_spec() -> Seq<ArgView> {
    ffmpeg_head() + seq![
        word("-map"@),
        word("0"@),
        word("-c"@),
        word("copy"@),
        word("-sn"@),
        word("-movflags"@),
        word("+faststart"@),
        ArgView::Output,
    ]
}

/// The ffmpeg arguments that repackage the input.
pub fn remux_args() -> (list: Vec<Arg>)
    ensures
        args_of(list@) == remux_spec(),
{
    let mut a = begin_ffmpeg();
    a.text("-map");
    a.text("0");
    a.text("-c");
    a.text("copy");
    a.text("-sn");
    a.text("-movflags");
    a.text("+faststart");
    a.output();
    assert(a@ =~= remux_spec());
    a.finish()
}

/// Where browsers keep their profiles depends on the system.
#[derive(Clone, Copy, Debug, PartialEq, Eq, Structural)]
pub enum Platform {
    Windows,
    MacOs,
    Other,
}

/// A directory that the environment names.
#[derive(Clone, Copy, Debug, PartialEq, Eq, Structural)]
pub enum Base {
    /// `USERPROFILE`, or else `HOME`.
    Home,
    /// `APPDATA`.
    AppData,
    /// `LOCALAPPDATA`.
    LocalAppData,
}

/// A directory below one that the environment names.
#[derive(Clone, Copy, Debug)]
pub struct Place {
    pub base: Base,
    pub rest: &'static str,
}

/// A browser, and the places where it may keep a profile.
pub struct Profile {
    pub browser: &'static str,
    pub places: Vec<Place>,
}

/// A browser and its places, as contracts see them.
pub struct ProfileView {
    pub browser: Seq<char>,
    pub places: Seq<Place>,
}

impl View for Profile {
    type V = ProfileView;

    open spec fn view(&self) -> ProfileView {
        ProfileView { browser: self.browser@, places: self.places@ }
    }
}

/// A browser with one place.
pub open spec fn one_place(browser: Seq<char>, base: Base, rest: &'static str) -> ProfileView {
    ProfileView { browser, places: seq![Place { base, rest }] }
}

/// Where each browser keeps the profile holding its cookie database. Firefox
/// comes first: it is the one yt-dlp can read while the browser is running,
/// since Chromium locks its database and encrypts the values. After it come
/// Chrome, Edge, Brave, Vivaldi and Chromium, as far as a platform has them.
pub open spec fn profile_table(platform: Platform) -> Seq<ProfileView> {
    match platform {
        Platform::Windows => seq![
            one_place("firefox"@, Base::AppData, "Mozilla/Firefox/Profiles"),
            one_place("chrome"@, Base::LocalAppData, "Google/Chrome/User Data"),
            one_place("edge"@, Base::LocalAppData, "Microsoft/Edge/User Data"),
            one_place("brave"@, Base::LocalAppData, "BraveSoftware/Brave-Browser/User Data"),
            one_place("vivaldi"@, Base::LocalAppData, "Vivaldi/User Data"),
            one_place("chromium"@, Base::LocalAppData, "Chromium/User Data"),
        ],
        Platform::MacOs => seq![
            one_place("firefox"@, Base::Home, "Library/Application Support/Firefox/Profiles"),
            one_place("chrome"@, Base::Home, "Library/Application Support/Google/Chrome"),
            one_place("edge"@, Base::Home, "Library/Application Support/Microsoft Edge"),
            one_place(
                "brave"@,
                Base::Home,
                "Library/Application Support/BraveSoftware/Brave-Browser",
            ),
        ],
        Platform::Other => seq![
            ProfileView {
                browser: "firefox"@,
                places: seq![
                    Place { base: Base::Home, rest: ".mozilla/firefox" },
                    Place { base: Base::Home, rest: "snap/firefox/common/.mozilla/firefox" },
                ],
            },
            one_place("chrome"@, Base::Home, ".config/google-chrome"),
            one_place("brave"@, Base::Home, ".config/BraveSoftware/Brave-Browser"),
            one_place("vivaldi"@, Base::Home, ".config/vivaldi"),
            one_place("chromium"@, Base::Home, ".config/chromium"),
        ],
    }
}

/// The place of a browser in the order in which they are tried.
pub open spec fn browser_rank(browser: Seq<char>) -> int {
    if browser == "firefox"@ {
        0
    } else if browser == "chrome"@ {
        1
    } else if browser == "edge"@ {
        2
    } else if browser == "brave"@ {
        3
    } else if browser == "vivaldi"@ {
        4
    } else if browser == "chromium"@ {
        5
    } else {
        6
    }
}

/// On every platform the browsers are tried in the same order.
pub proof fn law_browser_order(platform: Platform, i: int, j: int)
    requires
        0 <= i < j < profile_table(platform).len(),
    ensures
        browser_rank(profile_table(platform)[i].browser) < browser_rank(
            profile_table(platform)[j].browser,
        ) < 6,
{
    reveal_strlit("firefox");
    reveal_strlit("chrome");
    reveal_strlit("edge");
    reveal_strlit("brave");
    reveal_strlit("vivaldi");
    reveal_strlit("chromium");
    assert("firefox"@[0] == 'f' && "vivaldi"@[0] == 'v');
    assert("firefox"@.len() == 7 && "chrome"@.len() == 6 && "edge"@.len() == 4);
    assert("brave"@.len() == 5 && "vivaldi"@.len() == 7 && "chromium"@.len() == 8);
    assert(browser_rank("chrome"@) == 1 && browser_rank("edge"@) == 2);
    assert(browser_rank("brave"@) == 3 && browser_rank("vivaldi"@) == 4);
    assert(browser_rank("chromium"@) == 5);
    let t = profile_table(platform);
    match platform {
        Platform::Windows => {
            assert(t.len() == 6);
        },
        Platform::MacOs => {
            assert(t.len() == 4);
        },
        Platform::Other => {
            assert(t.len() == 5);
        },
    }
}

/// A list of profiles, as contracts see it.
pub open spec fn profiles_of(list: Seq<Profile>) -> Seq<ProfileView> {
    Seq::new(list.len(), |i: int| list[i]@)
}

fn add_profile(list: &mut Vec<Profile>, browser: &'static str, base: Base, rest: &'static str)
    ensures
        profiles_of(final(list)@) == profiles_of(old(list)@).push(
            one_place(browser@, base, rest),
        ),
{
    let mut places: Vec<Place> = Vec::new();
    places.push(Place { base, rest });
    assert(places@ =~= seq![Place { base, rest }]);
    list.push(Profile { browser, places });
    assert(profiles_of(list@) =~= profiles_of(old(list)@).push(one_place(browser@, base, rest)));
}

/// Where each browser keeps its profile.
pub fn profile_paths(platform: Platform) -> (list: Vec<Profile>)
    ensures
        profiles_of(list@) == profile_table(platform),
{
    let mut list: Vec<Profile> = Vec::new();
    assert(profiles_of(list@) =~= Seq::empty());
    match platform {
        Platform::Windows => {
            add_profile(&mut list, "firefox", Base::AppData, "Mozilla/Firefox/Profiles");
            add_profile(&mut list, "chrome", Base::LocalAppData, "Google/Chrome/User Data");
            add_profile(&mut list, "edge", Base::LocalAppData, "Microsoft/Edge/User Data");
            add_profile(
                &mut list,
                "brave",
                Base::LocalAppData,
                "BraveSoftware/Brave-Browser/User Data",
            );
            add_profile(&mut list, "vivaldi", Base::LocalAppData, "Vivaldi/User Data");
            add_profile(&mut list, "chromium", Base::LocalAppData, "Chromium/User Data");
        },
        Platform::MacOs => {
            add_profile(
                &mut list,
                "firefox",
                Base::Home,
                "Library/Application Support/Firefox/Profiles",
            );
            add_profile(
                &mut list,
                "chrome",
                Base::Home,
                "Library/Application Support/Google/Chrome",
            );
            add_profile(
                &mut list,
                "edge",
                Base::Home,
                "Library/Application Support/Microsoft Edge",
            );
            add_profile(
                &mut list,
                "brave",
                Base::Home,
                "Library/Application Support/BraveSoftware/Brave-Browser",
            );
        },
        Platform::Other => {
            let mut places: Vec<Place> = Vec::new();
            places.push(Place { base: Base::Home, rest: ".mozilla/firefox" });
            places.push(
                Place { base: Base::Home, rest: "snap/firefox/common/.mozilla/firefox" },
            );
            assert(places@ =~= profile_table(platform)[0].places);
            list.push(Profile { browser: "firefox", places });
            assert(profiles_of(list@) =~= seq![profile_table(platform)[0]]);
            add_profile(&mut list, "chrome", Base::Home, ".config/google-chrome");
            add_profile(&mut list, "brave", Base::Home, ".config/BraveSoftware/Brave-Browser");
            add_profile(&mut list, "vivaldi", Base::Home, ".config/vivaldi");
            add_profile(&mut list, "chromium", Base::Home, ".config/chromium");
        },
    }
    assert(profiles_of(list@) =~= profile_table(platform));
    list
}

/// One of the places is there.
pub open spec fn any_present(present: Seq<bool>) -> bool {
    exists|j: int| 0 <= j < present.len() && #[trigger] present[j]
}

/// The first browser from entry `i` on of which a place is there.
pub open spec fn first_present(
    table: Seq<ProfileView>,
    present: Seq<Vec<bool>>,
    i: int,
) -> Option<Seq<char>>
    decreases table.len() - i,
{
    if i >= table.len() || i >= present.len() {
        None
    } else if any_present(present[i]@) {
        Some(table[i].browser)
    } else {
        first_present(table, present, i + 1)
    }
}

/// The first browser with a profile on this machine, for
/// `--cookies-from-browser`; `present` tells of each place of each browser of
/// [`profile_paths`] whether it is there.
///
/// YouTube now answers an unauthenticated download with either "only images
/// are available" or a 403 a few megabytes into the transfer: the video URL is
/// handed out and then refused. A logged-in session from the user's own browser
/// is what makes the request look like a person; it is also the one remedy that
/// does not involve a second daemon.
///
/// Only the profile directory is looked for here, and yt-dlp is what actually
/// reads the cookie database. The caller can turn the whole thing off.
pub fn browser_profile(platform: Platform, present: &Vec<Vec<bool>>) -> (r: Option<&'static str>)
    ensures
        match r {
            Some(b) => first_present(profile_table(platform), present@, 0) == Some(b@),
            None => first_present(profile_table(platform), present@, 0) is None,
        },
{
    let table = profile_paths(platform);
    let mut i: usize = 0;
    while i < table.len() && i < present.len()
        invariant
            i <= table@.len(),
            i <= present@.len(),
            profiles_of(table@) == profile_table(platform),
            first_present(profile_table(platform), present@, i as int) == first_present(
                profile_table(platform),
                present@,
                0,
            ),
        decreases table@.len() - i,
    {
        let here: &Vec<bool> = &present[i];
        let mut j: usize = 0;
        while j < here.len()
            invariant
                j <= here@.len(),
                forall|k: int| 0 <= k < j ==> !(#[trigger] here@[k]),
                i < table@.len(),
                i < present@.len(),
                *here == present@[i as int],
                profiles_of(table@) == profile_table(platform),
                first_present(profile_table(platform), present@, i as int) == first_present(
                    profile_table(platform),
                    present@,
                    0,
                ),
            decreases here@.len() - j,
        {
            if here[j] {
                assert(here@[j as int]);
                assert(any_present(present@[i as int]@));
                assert(profiles_of(table@)[i as int] == table@[i as int]@);
                return Some(table[i].browser);
            }
            j = j + 1;
        }
        i = i + 1;
    }
    assert(profiles_of(table@).len() == table@.len());
    None
}

/// A JavaScript runtime for yt-dlp to solve YouTube's player challenge with.
/// Without one it falls back to a client whose media URLs are refused partway
/// through the transfer (the download starts, runs for a while and dies on a
/// 403), so this is the difference between working and not on every YouTube
/// link.
///
/// Only `deno` is enabled by default, hence the explicit flag; `node` is the
/// one people actually have installed. The option itself is recent, so older
/// yt-dlp builds are left alone rather than handed an argument they will
/// reject. `supported` is whether yt-dlp knows the option, the others are which
/// of the runtimes are callable.
pub fn js_runtime(supported: bool, deno: bool, node: bool, bun: bool) -> (r: Option<&'static str>)
    ensures
        r is Some <==> supported && (deno || node || bun),
        supported && deno ==> r->Some_0@ == "deno"@,
        supported && !deno && node ==> r->Some_0@ == "node"@,
        supported && !deno && !node && bun ==> r->Some_0@ == "bun"@,
{
    if !supported {
        None
    } else if deno {
        Some("deno")
    } else if node {
        Some("node")
    } else if bun {
        Some("bun")
    } else {
        None
    }
}

/// Whether the yt-dlp whose help text is given knows `--js-runtimes`.
pub fn supports_js_runtimes(help: &str) -> (r: bool)
    ensures
        r == holds(help@, "--js-runtimes"@),
{
    contains(help, "--js-runtimes")
}

/// Everything that is a web address is accepted: `http://` or `https://` in any
/// case, at most 4096 bytes, without white space and control characters. What is
/// not is refused, and the first of these that it lacks is named.
pub proof fn law_web_addresses_are_accepted(url: Seq<char>)
    ensures
        ({
            let n = vstd::utf8::encode_utf8(url).len();
            let web = is_web_url(url);
            let clean = forall|i: int|
                0 <= i < url.len() ==> {
                    let c = (#[trigger] url[i]) as u32;
                    &&& c > 32
                    &&& !(127 <= c <= 160)
                    &&& c != 0x1680 && !(0x2000 <= c <= 0x200a)
                    &&& c != 0x2028 && c != 0x2029 && c != 0x202f && c != 0x205f && c != 0x3000
                };
            &&& web && n <= 4096 && clean ==> url_error(url) is None
            &&& !web ==> url_error(url) == Some(
                "l'adresse doit commencer par http:// ou https://"@,
            )
            &&& web && n > 4096 ==> url_error(url) == Some("adresse trop longue"@)
            &&& web && n <= 4096 && !clean ==> url_error(url) == Some(
                "adresse invalide : espaces ou caractères de contrôle"@,
            )
        }),
{
    let clean = forall|i: int|
        0 <= i < url.len() ==> {
            let c = (#[trigger] url[i]) as u32;
            &&& c > 32
            &&& !(127 <= c <= 160)
            &&& c != 0x1680 && !(0x2000 <= c <= 0x200a)
            &&& c != 0x2028 && c != 0x2029 && c != 0x202f && c != 0x205f && c != 0x3000
        };
    if clean {
        assert forall|i: int| 0 <= i < url.len() implies !forbidden_in_url(#[trigger] url[i]) by {
            law_forbidden_characters(url[i]);
        }
    } else {
        let i = choose|i: int|
            0 <= i < url.len() && !({
                let c = (#[trigger] url[i]) as u32;
                &&& c > 32
                &&& !(127 <= c <= 160)
                &&& c != 0x1680 && !(0x2000 <= c <= 0x200a)
                &&& c != 0x2028 && c != 0x2029 && c != 0x202f && c != 0x205f && c != 0x3000
            });
        law_forbidden_characters(url[i]);
    }
}

/// White space and control characters are what an address may not hold.
pub proof fn law_forbidden_characters(c: char)
    ensures
        forbidden_in_url(c) <==> {
            let n = c as u32;
            ||| n <= 32 || (127 <= n && n <= 160)
            ||| n == 0x1680 || (0x2000 <= n && n <= 0x200a)
            ||| n == 0x2028 || n == 0x2029 || n == 0x202f || n == 0x205f || n == 0x3000
        },
{
}

/// An address of printable ASCII characters is accepted as it is, whatever comes
/// after the scheme.
pub proof fn law_printable_addresses_are_accepted(rest: Seq<char>)
    requires
        rest.len() <= 4088,
        forall|i: int| 0 <= i < rest.len() ==> 0x21 <= (#[trigger] rest[i]) as u32 <= 0x7e,
    ensures
        url_error("http://"@ + rest) is None,
        url_error("https://"@ + rest) is None,
{
    reveal_strlit("http://");
    reveal_strlit("https://");
    let a = "http://"@;
    let b = "https://"@;
    assert(forall|i: int| 0 <= i < a.len() ==> 0x21 <= (#[trigger] a[i]) as u32 <= 0x7e);
    assert(forall|i: int| 0 <= i < b.len() ==> 0x21 <= (#[trigger] b[i]) as u32 <= 0x7e);
    lemma_printable(a + rest);
    lemma_printable(b + rest);
    law_schemes(rest);
    law_web_addresses_are_accepted(a + rest);
    law_web_addresses_are_accepted(b + rest);
}

/// The scheme is read in any case, and no other will do.
pub proof fn law_schemes(url: Seq<char>)
    ensures
        is_web_url("http://"@ + url),
        is_web_url("https://"@ + url),
        is_web_url(url) ==> {
            let l = lowered(url);
            &&& l.len() >= 7
            &&& l[0] == 'h' && l[1] == 't' && l[2] == 't' && l[3] == 'p'
            &&& (l[4] == ':' && l[5] == '/' && l[6] == '/') || (l.len() >= 8 && l[4] == 's' && l[5]
                == ':' && l[6] == '/' && l[7] == '/')
        },
        is_web_url(url) <==> is_web_url(lowered(url)),
{
    reveal_strlit("http://");
    reveal_strlit("https://");
    let a = "http://"@;
    let b = "https://"@;
    assert(lowered(a + url).subrange(0, 7) =~= a);
    assert(lowered(b + url).subrange(0, 8) =~= b);
    let l = lowered(url);
    assert(lowered(l) =~= l);
    if stands_at(l, a, 0) {
        let t = l.subrange(0, 7);
        assert(t[0] == l[0] && t[1] == l[1] && t[2] == l[2] && t[3] == l[3] && t[4] == l[4] && t[5]
            == l[5] && t[6] == l[6]);
    }
    if stands_at(l, b, 0) {
        let t = l.subrange(0, 8);
        assert(t[0] == l[0] && t[1] == l[1] && t[2] == l[2] && t[3] == l[3] && t[4] == l[4] && t[5]
            == l[5] && t[6] == l[6] && t[7] == l[7]);
    }
}

/// Printable ASCII characters are one byte each.
proof fn lemma_printable(s: Seq<char>)
    requires
        forall|i: int| 0 <= i < s.len() ==> 0x21 <= (#[trigger] s[i]) as u32 <= 0x7e,
    ensures
        vstd::utf8::encode_utf8(s).len() == s.len(),
    decreases s.len(),
{
    if s.len() > 0 {
        assert(0x21 <= s[0] as u32 <= 0x7e);
        assert forall|i: int| 0 <= i < s.drop_first().len() implies 0x21 <= (
        #[trigger] s.drop_first()[i]) as u32 <= 0x7e by {
            assert(s.drop_first()[i] == s[i + 1]);
        }
        lemma_printable(s.drop_first());
    }
}

/// curl makes one attempt; yt-dlp first tries with the cookies of the browser, if
/// it may and there is one, then as itself, then for whatever plays.
pub proof fn law_attempts(cookies: bool, browser: &'static str)
    ensures
        plan_list(Tool::Curl, cookies, Some(browser)) == seq![Plan::Curl],
        plan_list(Tool::Curl, cookies, None) == seq![Plan::Curl],
        plan_list(Tool::YtDlp, true, Some(browser)) == seq![
            Plan::YtDlpCookies(browser),
            Plan::YtDlpPlain,
            Plan::YtDlpProgressive,
        ],
        plan_list(Tool::YtDlp, false, Some(browser)) == seq![
            Plan::YtDlpPlain,
            Plan::YtDlpProgressive,
        ],
        plan_list(Tool::YtDlp, cookies, None) == seq![Plan::YtDlpPlain, Plan::YtDlpProgressive],
{
}

/// Attempts follow one another until one succeeds, and the last error is the one
/// that is told; a link that yt-dlp knows nothing about goes to curl, once, if
/// that is there.
pub proof fn law_download_steps(
    tool: Tool,
    url: Seq<char>,
    cookies: bool,
    profile: Option<&'static str>,
    failures: Seq<Seq<char>>,
    curl: Option<bool>,
)
    ensures
        ({
            let next = fetch_next(tool, url, cookies, profile, failures, curl);
            let plans = plan_list(tool, cookies, profile);
            let n = failures.len() as int;
            let plain = |i: int| holds(failures[i], "Unsupported URL"@);
            &&& url_error(url) matches Some(e) ==> next == (NextView::Fail {
                message: e,
                clear: false,
            })
            &&& url_error(url) is None ==> {
                &&& n == 0 ==> next == (NextView::Run { plan: plans[0], clear: false })
                &&& n >= 2 && plain(n - 2) ==> next == (NextView::Fail {
                    message: failures[n - 1],
                    clear: false,
                })
                &&& n >= 1 && !(n >= 2 && plain(n - 2)) && plain(n - 1) ==> next == (match curl {
                    None => NextView::AskCurl,
                    Some(true) => NextView::Run { plan: Plan::Curl, clear: true },
                    Some(false) => NextView::Fail { message: failures[n - 1], clear: true },
                })
                &&& n >= 1 && !(n >= 2 && plain(n - 2)) && !plain(n - 1) ==> next == (if n
                    < plans.len() {
                    NextView::Run { plan: plans[n], clear: true }
                } else {
                    NextView::Fail { message: failures[n - 1], clear: true }
                })
            }
        }),
{
}

/// What yt-dlp is asked for: one file under its own title, with retries; the
/// runtime if there is one; the cookies and the client that the attempt is about;
/// an MP4 if it can be had; and the address last.
pub proof fn law_yt_dlp_is_asked(
    plan: Plan,
    url: Seq<char>,
    runtime: Option<&'static str>,
    ffmpeg: bool,
)
    ensures
        ({
            let a = ytdlp_spec(plan, url, runtime, ffmpeg);
            let n = a.len() as int;
            let t = |s: Seq<char>| ArgView::Text(s);
            let k: int = if runtime is Some {
                14
            } else {
                12
            };
            let mp4 = if ffmpeg {
                seq![
                    t("-f"@),
                    t("bv*[ext=mp4]+ba[ext=m4a]/b[ext=mp4]/bv*+ba/b"@),
                    t("--merge-output-format"@),
                    t("mp4"@),
                    t("--remux-video"@),
                    t("mp4"@),
                ]
            } else {
                seq![t("-f"@), t("b[ext=mp4]/b"@)]
            };
            &&& a.take(12) == seq![
                t("--no-playlist"@),
                t("--newline"@),
                t("--no-part"@),
                t("--restrict-filenames"@),
                t("-o"@),
                t("%(title).150s.%(ext)s"@),
                t("--retries"@),
                t("10"@),
                t("--fragment-retries"@),
                t("10"@),
                t("--extractor-retries"@),
                t("3"@),
            ]
            &&& runtime matches Some(r) ==> a[12] == t("--js-runtimes"@) && a[13] == t(r@)
            &&& a.subrange(k, n - 2) == (match plan {
                Plan::YtDlpCookies(b) => seq![t("--cookies-from-browser"@), t(b@)] + mp4,
                Plan::YtDlpProgressive => seq![
                    t("--extractor-args"@),
                    t("youtube:player_client=mweb"@),
                    t("-f"@),
                    t("b[ext=mp4]/b"@),
                ],
                _ => mp4,
            })
            &&& a[n - 2] == t("--"@) && a[n - 1] == t(url)
        }),
{
    let a = ytdlp_spec(plan, url, runtime, ffmpeg);
    let n = a.len() as int;
    let k: int = if runtime is Some {
        14
    } else {
        12
    };
    assert(a.take(12) =~= ytdlp_head());
    let rest = a.subrange(k, n - 2);
    match plan {
        Plan::YtDlpCookies(b) => {
            assert(rest =~= seq![word("--cookies-from-browser"@), word(b@)] + mp4_spec(ffmpeg));
        },
        Plan::YtDlpProgressive => {
            assert(rest.len() == 4);
        },
        _ => {
            assert(rest =~= mp4_spec(ffmpeg));
        },
    }
}

/// What curl is asked for: to follow redirects, to fail on errors, and to name
/// the file as the server does, or as it is told.
pub proof fn law_curl_is_asked(url: Seq<char>)
    ensures
        curl_spec(url) == seq![
            ArgView::Text("-L"@),
            ArgView::Text("--fail"@),
            ArgView::Text("-sS"@),
            ArgView::Text("--remote-name"@),
            ArgView::Text("--remote-header-name"@),
            ArgView::Text("--"@),
            ArgView::Text(url),
        ],
        curl_named_spec(url) == seq![
            ArgView::Text("-L"@),
            ArgView::Text("--fail"@),
            ArgView::Text("-sS"@),
            ArgView::Text("-o"@),
            ArgView::Output,
            ArgView::Text("--"@),
            ArgView::Text(url),
        ],
{
}

/// The last eight lines are kept, and an error tells them; where there are none
/// it tells the exit code.
pub proof fn law_child_errors(name: Seq<char>, log: Seq<Seq<char>>, line: Seq<char>, code: i32)
    ensures
        log.len() < 8 ==> log_with(log, line) == log.push(line),
        log.len() == 8 ==> log_with(log, line) == log.skip(1).push(line),
        joined(log, "; "@).len() > 0 ==> child_error_text(name, log, Some(code)) == name + " : "@
            + joined(log, "; "@),
        joined(log, "; "@).len() == 0 ==> child_error_text(name, log, Some(code)) == name + " : "@
            + ("code "@ + signed(code as int)),
        child_error_text(name, log, None) == child_error_text(name, log, Some(-1i32)),
{
    if log.len() == 8 {
        assert(log.push(line).skip(1) =~= log.skip(1).push(line));
    }
}

/// What holds video in another container is repackaged, in whatever case its
/// extension is written, and nothing else is.
pub proof fn law_remuxable(ext: Seq<char>)
    ensures
        is_remuxable(ext) <==> {
            let e = lowered(ext);
            e == "webm"@ || e == "mkv"@ || e == "mov"@ || e == "avi"@ || e == "flv"@ || e == "ts"@
        },
{
    let t = REMUXABLE@;
    assert(t[0]@ == "webm"@ && t[1]@ == "mkv"@ && t[2]@ == "mov"@ && t[3]@ == "avi"@ && t[4]@
        == "flv"@ && t[5]@ == "ts"@);
}

/// The first browser in the order of the table that has a profile is taken, and
/// none only if no browser has one.
pub proof fn law_first_profile_wins(table: Seq<ProfileView>, present: Seq<Vec<bool>>, i: int)
    requires
        table.len() == present.len(),
        0 <= i <= table.len(),
    ensures
        ({
            let has = |k: int| exists|j: int| 0 <= j < present[k]@.len() && #[trigger] present[k]@[j];
            match first_present(table, present, i) {
                Some(b) => exists|k: int|
                    i <= k < table.len() && (#[trigger] table[k]).browser == b && has(k) && forall|
                        j: int,
                    |
                        i <= j < k ==> !#[trigger] has(j),
                None => forall|k: int| i <= k < table.len() ==> !#[trigger] has(k),
            }
        }),
    decreases table.len() - i,
{
    let has = |k: int| exists|j: int| 0 <= j < present[k]@.len() && #[trigger] present[k]@[j];
    if i < table.len() {
        assert(any_present(present[i]@) <==> has(i));
        if any_present(present[i]@) {
            assert(table[i].browser == table[i].browser);
        } else {
            law_first_profile_wins(table, present, i + 1);
            if first_present(table, present, i) is Some {
                let b = first_present(table, present, i)->Some_0;
                let k = choose|k: int|
                    i + 1 <= k < table.len() && (#[trigger] table[k]).browser == b && has(k)
                        && forall|j: int| i + 1 <= j < k ==> !#[trigger] has(j);
                assert(table[k].browser == b && has(k));
                assert(forall|j: int| i <= j < k ==> !#[trigger] has(j));
            }
        }
    }
}

/// Where the profiles are looked for.
pub proof fn law_profile_places()
    ensures
        profile_table(Platform::Windows) == seq![
            one_place("firefox"@, Base::AppData, "Mozilla/Firefox/Profiles"),
            one_place("chrome"@, Base::LocalAppData, "Google/Chrome/User Data"),
            one_place("edge"@, Base::LocalAppData, "Microsoft/Edge/User Data"),
            one_place("brave"@, Base::LocalAppData, "BraveSoftware/Brave-Browser/User Data"),
            one_place("vivaldi"@, Base::LocalAppData, "Vivaldi/User Data"),
            one_place("chromium"@, Base::LocalAppData, "Chromium/User Data"),
        ],
        profile_table(Platform::MacOs) == seq![
            one_place("firefox"@, Base::Home, "Library/Application Support/Firefox/Profiles"),
            one_place("chrome"@, Base::Home, "Library/Application Support/Google/Chrome"),
            one_place("edge"@, Base::Home, "Library/Application Support/Microsoft Edge"),
            one_place(
                "brave"@,
                Base::Home,
                "Library/Application Support/BraveSoftware/Brave-Browser",
            ),
        ],
        profile_table(Platform::Other).skip(1) == seq![
            one_place("chrome"@, Base::Home, ".config/google-chrome"),
            one_place("brave"@, Base::Home, ".config/BraveSoftware/Brave-Browser"),
            one_place("vivaldi"@, Base::Home, ".config/vivaldi"),
            one_place("chromium"@, Base::Home, ".config/chromium"),
        ],
        profile_table(Platform::Other)[0].browser == "firefox"@,
        profile_table(Platform::Other)[0].places == seq![
            Place { base: Base::Home, rest: ".mozilla/firefox" },
            Place { base: Base::Home, rest: "snap/firefox/common/.mozilla/firefox" },
        ],
{
    assert(profile_table(Platform::Other).skip(1).len() == 4);
}

/// A file is repackaged as it is: every stream but the subtitles is copied.
pub proof fn law_remux_copies()
    ensures
        remux_spec() == seq![
            ArgView::Text("-hide_banner"@),
            ArgView::Text("-loglevel"@),
            ArgView::Text("error"@),
            ArgView::Text("-nostdin"@),
            ArgView::Text("-y"@),
            ArgView::Text("-i"@),
            ArgView::Input,
            ArgView::Text("-map"@),
            ArgView::Text("0"@),
            ArgView::Text("-c"@),
            ArgView::Text("copy"@),
            ArgView::Text("-sn"@),
            ArgView::Text("-movflags"@),
            ArgView::Text("+faststart"@),
            ArgView::Output,
        ],
{
}

/// A browser of which nothing was found out is not taken.
pub proof fn law_unknown_profiles(table: Seq<ProfileView>, present: Seq<Vec<bool>>)
    ensures
        first_present(table, present, present.len() as int) is None,
        first_present(table, present, table.len() as int) is None,
{
}

/// The programs go by their own names.
pub proof fn law_tool_names(t: Tool)
    ensures
        t.name_spec() == (match t {
            Tool::YtDlp => "yt-dlp"@,
            Tool::Curl => "curl"@,
        }),
{
}

} // verus!
