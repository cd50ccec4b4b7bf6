//! Downloads: which attempts are made, and with what arguments.

use compactor::args::Arg;
use compactor::download::{
    available, biggest, browser_profile, check_url, child_error, curl_args, curl_named_args,
    curl_needs_name, ensure_mp4, fetch, js_runtime, keep_line, nothing_produced, profile_paths,
    remux_args, supports_js_runtimes, ytdlp_args, Base, Next, Plan, Platform, Tool,
};

fn show(list: Vec<Arg>) -> String {
    list.into_iter()
        .map(|a| match a {
            Arg::Text(s) => s,
            Arg::Input => "<in>".to_string(),
            Arg::Output => "<out>".to_string(),
        })
        .collect::<Vec<String>>()
        .join(" ")
}

fn next(next: Next) -> String {
    match next {
        Next::Run { plan, clear } => {
            let plan = match plan {
                Plan::YtDlpCookies(b) => format!("cookies of {b}"),
                Plan::YtDlpPlain => "plain".to_string(),
                Plan::YtDlpProgressive => "progressive".to_string(),
                Plan::Curl => "curl".to_string(),
            };
            format!("run {plan}{}", if clear { " after clearing" } else { "" })
        }
        Next::AskCurl => "ask for curl".to_string(),
        Next::Fail { message, clear } => {
            format!("fail with {message}{}", if clear { " after clearing" } else { "" })
        }
    }
}

fn errors(list: &[&str]) -> Vec<String> {
    list.iter().map(|s| s.to_string()).collect()
}

#[test]
fn tools() {
    assert_eq!(available(true, true), Some(Tool::YtDlp));
    assert_eq!(available(false, true), Some(Tool::Curl));
    assert_eq!(available(false, false), None);
    assert_eq!(Tool::YtDlp.name(), "yt-dlp");
    assert_eq!(Tool::Curl.name(), "curl");
}

#[test]
fn addresses() {
    for ok in ["http://x", "https://example.com/a?b=c#d", "HTTP://X", "HtTpS://é", "http://"] {
        assert_eq!(check_url(ok), Ok(()));
    }
    let scheme = Err("l'adresse doit commencer par http:// ou https://".to_string());
    for bad in ["", "-o", "file:///etc/passwd", "ftp://x", "http:/x", " http://x", "x http://"] {
        assert_eq!(check_url(bad), scheme);
    }
    let long = format!("http://{}", "é".repeat(2045));
    assert_eq!(long.len(), 4097);
    assert_eq!(check_url(&long), Err("adresse trop longue".to_string()));
    assert_eq!(check_url(&long[..4095]), Ok(()));
    let chars = Err("adresse invalide : espaces ou caractères de contrôle".to_string());
    for bad in ["http://a b", "http://a\n", "http://\u{1}", "http://a\u{3000}b", "http://\u{85}"] {
        assert_eq!(check_url(bad), chars);
    }
    for bad in ["http://\u{7f}", "http://example.com/\u{80}", "http://\u{9f}x"] {
        assert_eq!(check_url(bad), chars);
    }
    assert_eq!(check_url("http://~\u{a1}"), Ok(()));
}

#[test]
fn attempts_run_best_quality_first() {
    let go = |failures: &[&str], curl| {
        next(fetch(Tool::YtDlp, "http://x", true, Some("firefox"), &errors(failures), curl))
    };
    assert_eq!(go(&[], None), "run cookies of firefox");
    assert_eq!(go(&["403"], None), "run plain after clearing");
    assert_eq!(go(&["403", "404"], None), "run progressive after clearing");
    assert_eq!(go(&["403", "404", "405"], None), "fail with 405 after clearing");
}

#[test]
fn cookies_need_leave_and_a_profile() {
    let go = |cookies, profile| {
        next(fetch(Tool::YtDlp, "http://x", cookies, profile, &Vec::new(), None))
    };
    assert_eq!(go(false, Some("firefox")), "run plain");
    assert_eq!(go(true, None), "run plain");
    assert_eq!(go(true, Some("edge")), "run cookies of edge");
}

#[test]
fn a_plain_link_goes_to_curl() {
    let go = |failures: &[&str], curl| {
        next(fetch(Tool::YtDlp, "http://x", true, None, &errors(failures), curl))
    };
    let plain = "yt-dlp : ERROR: Unsupported URL: http://x";
    assert_eq!(go(&[plain], None), "ask for curl");
    assert_eq!(go(&[plain], Some(true)), "run curl after clearing");
    assert_eq!(go(&[plain], Some(false)), format!("fail with {plain} after clearing"));
    assert_eq!(go(&[plain, "curl : 404"], Some(true)), "fail with curl : 404");
    assert_eq!(go(&["403", plain], Some(true)), "run curl after clearing");
}

#[test]
fn curl_has_one_attempt() {
    let go = |failures: &[&str]| {
        next(fetch(Tool::Curl, "http://x", true, Some("firefox"), &errors(failures), None))
    };
    assert_eq!(go(&[]), "run curl");
    assert_eq!(go(&["curl : 404"]), "fail with curl : 404 after clearing");
}

#[test]
fn a_bad_address_is_not_attempted() {
    assert_eq!(
        next(fetch(Tool::Curl, "file:///x", true, None, &Vec::new(), None)),
        "fail with l'adresse doit commencer par http:// ou https://"
    );
}

#[test]
fn ytdlp_arguments() {
    let head = "--no-playlist --newline --no-part --restrict-filenames -o %(title).150s.%(ext)s \
                --retries 10 --fragment-retries 10 --extractor-retries 3";
    let mp4 = "-f bv*[ext=mp4]+ba[ext=m4a]/b[ext=mp4]/bv*+ba/b --merge-output-format mp4 \
               --remux-video mp4";
    assert_eq!(
        show(ytdlp_args(Plan::YtDlpCookies("brave"), "http://x", Some("node"), true)),
        format!("{head} --js-runtimes node --cookies-from-browser brave {mp4} -- http://x")
    );
    assert_eq!(
        show(ytdlp_args(Plan::YtDlpPlain, "http://x", None, false)),
        format!("{head} -f b[ext=mp4]/b -- http://x")
    );
    assert_eq!(
        show(ytdlp_args(Plan::YtDlpProgressive, "http://x", None, true)),
        format!(
            "{head} --extractor-args youtube:player_client=mweb -f b[ext=mp4]/b -- http://x"
        )
    );
}

#[test]
fn curl_arguments() {
    assert_eq!(
        show(curl_args("http://x")),
        "-L --fail -sS --remote-name --remote-header-name -- http://x"
    );
    assert_eq!(show(curl_named_args("http://x/")), "-L --fail -sS -o <out> -- http://x/");
    assert!(curl_needs_name("curl: Remote file name has no length", false));
    assert!(!curl_needs_name("curl: Remote file name has no length", true));
    assert!(!curl_needs_name("curl: 404", false));
}

#[test]
fn what_a_downloader_said() {
    let mut log = Vec::new();
    assert_eq!(child_error("curl", &log, Some(22)), "curl : code 22");
    assert_eq!(child_error("curl", &log, None), "curl : code -1");
    for i in 0..10 {
        keep_line(&mut log, format!("l{i}"));
    }
    assert_eq!(log.len(), 8);
    assert_eq!(
        child_error("yt-dlp", &log, Some(1)),
        "yt-dlp : l2; l3; l4; l5; l6; l7; l8; l9"
    );
    assert_eq!(child_error("curl", &errors(&[""]), Some(3)), "curl : code 3");
    assert_eq!(nothing_produced("curl"), "curl n'a produit aucun fichier");
}

#[test]
fn the_biggest_file_wins() {
    assert_eq!(biggest(&vec![]), None);
    assert_eq!(biggest(&vec![3, 9, 2]), Some(1));
    assert_eq!(biggest(&vec![9, 3, 9]), Some(2));
    assert_eq!(biggest(&vec![0]), Some(0));
}

#[test]
fn containers_that_are_repackaged() {
    for ext in ["webm", "MKV", "mov", "avi", "flv", "ts"] {
        assert!(ensure_mp4(ext, true, false));
        assert!(!ensure_mp4(ext, false, false));
        assert!(!ensure_mp4(ext, true, true));
    }
    for ext in ["mp4", "mp3", "", "zip"] {
        assert!(!ensure_mp4(ext, true, false));
    }
    assert_eq!(
        show(remux_args()),
        "-hide_banner -loglevel error -nostdin -y -i <in> -map 0 -c copy -sn \
         -movflags +faststart <out>"
    );
}

#[test]
fn profiles() {
    let linux = profile_paths(Platform::Other);
    let names: Vec<&str> = linux.iter().map(|p| p.browser).collect();
    assert_eq!(names, ["firefox", "chrome", "brave", "vivaldi", "chromium"]);
    assert_eq!(linux[0].places.len(), 2);
    assert_eq!(linux[0].places[1].rest, "snap/firefox/common/.mozilla/firefox");
    assert!(linux[0].places[1].base == Base::Home);
    let windows = profile_paths(Platform::Windows);
    let names: Vec<&str> = windows.iter().map(|p| p.browser).collect();
    assert_eq!(names, ["firefox", "chrome", "edge", "brave", "vivaldi", "chromium"]);
    assert!(windows[0].places[0].base == Base::AppData);
    assert!(windows[1].places[0].base == Base::LocalAppData);
    let mac = profile_paths(Platform::MacOs);
    let names: Vec<&str> = mac.iter().map(|p| p.browser).collect();
    assert_eq!(names, ["firefox", "chrome", "edge", "brave"]);
}

#[test]
fn the_first_profile_is_used() {
    let none = vec![vec![false, false], vec![false], vec![false], vec![false], vec![false]];
    assert_eq!(browser_profile(Platform::Other, &none), None);
    let mut some = none.clone();
    some[4][0] = true;
    assert_eq!(browser_profile(Platform::Other, &some), Some("chromium"));
    some[2][0] = true;
    assert_eq!(browser_profile(Platform::Other, &some), Some("brave"));
    some[0][1] = true;
    assert_eq!(browser_profile(Platform::Other, &some), Some("firefox"));
    assert_eq!(browser_profile(Platform::Other, &vec![]), None);
}

#[test]
fn runtimes() {
    assert_eq!(js_runtime(false, true, true, true), None);
    assert_eq!(js_runtime(true, true, true, true), Some("deno"));
    assert_eq!(js_runtime(true, false, true, true), Some("node"));
    assert_eq!(js_runtime(true, false, false, true), Some("bun"));
    assert_eq!(js_runtime(true, false, false, false), None);
    assert!(supports_js_runtimes("  --js-runtimes RUNTIME"));
    assert!(!supports_js_runtimes("--js-runtime"));
}

#[test]
fn a_download_gives_up() {
    for error in ["403", "Unsupported URL"] {
        for curl in [true, false] {
            let mut failures: Vec<String> = Vec::new();
            let mut asked = None;
            let mut runs = 0;
            let message = loop {
                match fetch(Tool::YtDlp, "http://x", true, Some("edge"), &failures, asked) {
                    Next::Run { clear, .. } => {
                        assert_eq!(clear, runs > 0);
                        runs += 1;
                        failures.push(format!("{error} {runs}"));
                    }
                    Next::AskCurl => asked = Some(curl),
                    Next::Fail { message, .. } => break message,
                }
            };
            assert_eq!(message, format!("{error} {runs}"));
            let expected = match (error, curl) {
                ("403", _) => 3,
                (_, true) => 2,
                (_, false) => 1,
            };
            assert_eq!(runs, expected);
        }
    }
}
