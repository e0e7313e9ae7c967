use rusty_jenkins::browser::{
    browser_named, chrome_cookie_places, chrome_cookies, chrome_time, cookie_hosts, extract_hostname,
    find_chrome_cookie_db, firefox_cookies, is_sharing_violation, list_cookie_names, names_heading,
    parse_default_profile, require_nonempty, use_decrypted, ChromeRow, CookieRow, CHROME_LOCKED,
};
use rusty_jenkins::chrome::{DecryptError, Platform};
use rusty_jenkins::cli::Browser;
use rusty_jenkins::output::{Line, Stream};

fn texts(lines: &[Line]) -> Vec<String> {
    lines.iter().map(|l| l.text()).collect()
}

fn row(name: &str, value: &str, encrypted: &[u8]) -> ChromeRow {
    ChromeRow { name: name.to_string(), value: value.to_string(), encrypted_value: encrypted.to_vec() }
}

#[test]
fn extract_hostname_strips_https_and_port() {
    assert_eq!(extract_hostname("https://jenkins.example.com:8080").unwrap(), "jenkins.example.com");
}

#[test]
fn extract_hostname_strips_path_prefix() {
    assert_eq!(extract_hostname("https://ci.example.com/controller13").unwrap(), "ci.example.com");
}

#[test]
fn extract_hostname_handles_http_and_no_port() {
    assert_eq!(extract_hostname("http://jenkins.local").unwrap(), "jenkins.local");
}

#[test]
fn extract_hostname_handles_deep_path_and_port() {
    assert_eq!(extract_hostname("https://ci.example.com:8443/a/b/c").unwrap(), "ci.example.com");
}

#[test]
fn extract_hostname_fails_without_a_host() {
    for url in ["", "https://", "http:///path", "https://:8080/x"] {
        let e = extract_hostname(url).unwrap_err();
        assert_eq!(e.message(), format!("could not extract hostname from URL: {url}"));
    }
}

#[test]
fn extract_hostname_drops_repeated_schemes() {
    assert_eq!(extract_hostname("https://https://http://a.b/c").unwrap(), "a.b");
}

#[test]
fn cookie_hosts_hold_the_domain_form() {
    assert_eq!(cookie_hosts("ci.example.com"), ("ci.example.com".to_string(), ".ci.example.com".to_string()));
}

#[test]
fn parse_default_profile_prefers_install_section() {
    let ini = "[Install308046B0AF4A39CB]\n\
               Default=Profiles/abc.default-release\n\
               Locked=1\n\
               \n\
               [Profile0]\n\
               Name=default-release\n\
               IsRelative=1\n\
               Path=Profiles/abc.default-release\n\
               Default=1\n";
    assert_eq!(parse_default_profile(ini), Some("Profiles/abc.default-release".to_string()));
}

#[test]
fn parse_default_profile_falls_back_to_profile_default_1() {
    let ini = "[Profile0]\n\
               Name=default-release\n\
               IsRelative=1\n\
               Path=Profiles/xyz.default\n\
               Default=1\n";
    assert_eq!(parse_default_profile(ini), Some("Profiles/xyz.default".to_string()));
}

#[test]
fn parse_default_profile_picks_correct_when_multiple_profiles() {
    let ini = "[Profile0]\n\
               Name=work\n\
               IsRelative=1\n\
               Path=Profiles/aaa.work\n\
               \n\
               [Profile1]\n\
               Name=default-release\n\
               IsRelative=1\n\
               Path=Profiles/bbb.default-release\n\
               Default=1\n";
    assert_eq!(parse_default_profile(ini), Some("Profiles/bbb.default-release".to_string()));
}

#[test]
fn parse_default_profile_returns_none_when_no_default_marked() {
    let ini = "[Profile0]\n\
               Name=default-release\n\
               IsRelative=1\n\
               Path=Profiles/abc.default\n";
    assert!(parse_default_profile(ini).is_none());
}

#[test]
fn parse_default_profile_reads_crlf_and_spaces() {
    let ini = "[Profile0]\r\n  Path =  Profiles/a b  \r\n Default = 1 \r\n[General]\r\nVersion=2\r\n";
    assert_eq!(parse_default_profile(ini), Some("Profiles/a b".to_string()));
}

#[test]
fn parse_default_profile_takes_the_last_marked_profile() {
    let ini = "[Profile0]\nPath=one\nDefault=1\n[Profile1]\nPath=two\nPath=three\nDefault=1\n[Profile2]\nPath=four\n";
    assert_eq!(parse_default_profile(ini), Some("three".to_string()));
    let without_path = "[Profile0]\nPath=one\nDefault=1\n[Profile1]\nDefault=1\n";
    assert_eq!(parse_default_profile(without_path), None);
}

#[test]
fn parse_default_profile_installation_wins_wherever_it_stands() {
    let ini = "Default=stray\n[Profile0]\nPath=one\nDefault=1\n[InstallA]\nDefault=first\nDefault=second\n";
    assert_eq!(parse_default_profile(ini), Some("second".to_string()));
}

#[test]
fn firefox_cookies_are_joined_in_order() {
    let rows = vec![
        CookieRow { name: "JSESSIONID.a".to_string(), value: "1".to_string() },
        CookieRow { name: "JSESSIONID.b".to_string(), value: "2=3".to_string() },
    ];
    assert_eq!(firefox_cookies("ci.example.com", &rows).unwrap(), "JSESSIONID.a=1; JSESSIONID.b=2=3");
}

#[test]
fn only_cookies_that_authenticate_are_used() {
    let names = ["jsessionid.x", "JSESSIONID.a", "screenResolution", "JSESSIONI", "xJSESSIONID", "JSESSIONID"];
    let rows: Vec<CookieRow> =
        names.iter().map(|n| CookieRow { name: n.to_string(), value: "1".to_string() }).collect();
    assert_eq!(firefox_cookies("h", &rows).unwrap(), "JSESSIONID.a=1; JSESSIONID=1");
    assert_eq!(firefox_cookies("h", &rows[..1].iter().map(|r| CookieRow {
        name: r.name.clone(),
        value: r.value.clone(),
    }).collect()).unwrap_err().hostname, "h");
    let rows: Vec<ChromeRow> = names.iter().map(|n| row(n, "1", b"")).collect();
    let (header, lines) = chrome_cookies(Platform::Other, "h", &rows, &[]);
    assert_eq!(header.unwrap(), "JSESSIONID.a=1; JSESSIONID=1");
    assert!(lines.is_empty());
    let (header, lines) = chrome_cookies(Platform::Other, "h", &vec![row("jsessionid.x", "", b"v10abc")], &[]);
    assert!(header.is_err() && lines.is_empty());
}

#[test]
fn firefox_cookies_are_required() {
    let e = firefox_cookies("ci.example.com", &vec![]).unwrap_err();
    assert_eq!(
        e.message(),
        "no valid session cookies found for 'ci.example.com' in your browser.\n\
         Make sure you are logged into Jenkins in the browser, then retry."
    );
}

#[test]
fn require_nonempty_joins_with_semicolons() {
    let cookies = vec!["a=1".to_string(), "b=2".to_string(), "c=3".to_string()];
    assert_eq!(require_nonempty(cookies, "h").unwrap(), "a=1; b=2; c=3");
    assert!(require_nonempty(vec![], "h").is_err());
}

#[test]
fn chrome_cookies_use_plain_values_and_leave_others_out() {
    let rows = vec![
        row("JSESSIONID.a", "plain", b"v10ignored"),
        row("JSESSIONID.b", "", b""),
        row("JSESSIONID.c", "", b"v10abc"),
    ];
    let (header, lines) = chrome_cookies(Platform::Other, "h", &rows, &[]);
    assert_eq!(header.unwrap(), "JSESSIONID.a=plain");
    assert_eq!(
        texts(&lines),
        vec![
            "  [debug] JSESSIONID.b: both value and encrypted_value are empty — skipping",
            "  [debug] JSESSIONID.c: no master key available — skipping",
        ]
    );
    assert!(lines.iter().all(|l| l.stream == Stream::Error));
}

#[test]
fn chrome_cookies_report_failed_decryption() {
    let rows = vec![row("JSESSIONID.c", "", b"v10abc")];
    let (header, lines) = chrome_cookies(Platform::Windows, "h", &rows, &[0u8; 32]);
    assert_eq!(header.unwrap_err().hostname, "h");
    assert_eq!(
        texts(&lines),
        vec!["  [debug] JSESSIONID.c: decryption failed — encrypted cookie value too short"]
    );
}

#[test]
fn use_decrypted_takes_the_value() {
    let cookie = use_decrypted("n", Ok("v".to_string()));
    assert_eq!(cookie.used.as_deref(), Some("n=v"));
    assert!(cookie.lines.is_empty());
    let cookie = use_decrypted("n", Err(DecryptError::NotUtf8));
    assert!(cookie.used.is_none());
    assert_eq!(
        texts(&cookie.lines),
        vec!["  [debug] n: decryption failed — cookie is not valid UTF-8"]
    );
}

#[test]
fn chrome_cookies_report_every_attempt_on_macos() {
    let rows = vec![row("JSESSIONID.a", "", b"v"), row("JSESSIONID.b", "plain", b"v")];
    let (header, lines) = chrome_cookies(Platform::MacOs, "h", &rows, &[0u8; 48]);
    assert_eq!(header.unwrap(), "JSESSIONID.b=plain");
    let lines = texts(&lines);
    assert_eq!(lines.len(), 9);
    assert_eq!(lines[0], "[debug] encrypted (1 bytes): [76]");
    assert_eq!(
        lines[8],
        "  [debug] JSESSIONID.a: decryption failed — all macOS decryption strategies failed — see [debug] lines above"
    );
}

#[test]
fn chrome_time_counts_microseconds_from_1601() {
    assert_eq!(chrome_time(0), 11_644_473_600_000_000);
    assert_eq!(chrome_time(1_700_000_000), 13_344_473_600_000_000);
}

#[test]
fn chrome_database_is_looked_for_in_two_places() {
    let (newer, older) = chrome_cookie_places("Profile 1");
    assert_eq!(newer, vec!["Profile 1", "Network", "Cookies"]);
    assert_eq!(older, vec!["Profile 1", "Cookies"]);
    assert_eq!(find_chrome_cookie_db("P", true, true).unwrap(), vec!["P", "Network", "Cookies"]);
    assert_eq!(find_chrome_cookie_db("P", false, true).unwrap(), vec!["P", "Cookies"]);
    let e = find_chrome_cookie_db("P", false, false).unwrap_err();
    assert_eq!(
        e.message(),
        "Chrome cookie database not found for profile 'P'.\n\
         Check your active profile name at chrome://version (look for 'Profile Path').\n\
         Pass it with --chrome-profile \"Profile 1\" (or whichever name matches)."
    );
}

#[test]
fn sharing_violations_are_told_from_other_errors() {
    assert!(is_sharing_violation("copying: The file is locked (os error 32)"));
    assert!(is_sharing_violation("it is being used by another process."));
    assert!(!is_sharing_violation("No such file or directory (os error 2)"));
    assert!(CHROME_LOCKED.contains("Option B"));
}

#[test]
fn browsers_are_known_by_name() {
    assert_eq!(browser_named("chrome").unwrap(), Browser::Chrome);
    assert_eq!(browser_named("firefox").unwrap(), Browser::Firefox);
    let e = browser_named("lynx").unwrap_err();
    assert_eq!(e.message(), "unknown browser 'lynx' — use 'chrome' or 'firefox'");
}

#[test]
fn cookie_names_are_listed_with_their_use() {
    let names = vec!["JSESSIONID.1".to_string(), "screenResolution".to_string(), "JSESSIONID.2".to_string()];
    assert_eq!(
        texts(&list_cookie_names(Browser::Chrome, &names)),
        vec![
            "Found 3 cookie(s):",
            "  JSESSIONID.1  ← auth",
            "  screenResolution  (preference, ignored)",
            "  JSESSIONID.2  ← auth",
            "",
            "rj will use: JSESSIONID.1, JSESSIONID.2",
            "Run with --from-chrome to authenticate.",
        ]
    );
}

#[test]
fn cookie_names_without_a_session() {
    let names = vec!["screenResolution".to_string()];
    assert_eq!(
        texts(&list_cookie_names(Browser::Firefox, &names)),
        vec![
            "Found 1 cookie(s):",
            "  screenResolution  (preference, ignored)",
            "",
            "No JSESSIONID cookies found — you may not be logged in.",
        ]
    );
}

#[test]
fn no_cookie_names_give_hints() {
    let firefox = texts(&list_cookie_names(Browser::Firefox, &vec![]));
    assert_eq!(
        firefox,
        vec![
            "No cookies found.",
            "",
            "Troubleshooting:",
            "  • Make sure you are logged into Jenkins in firefox",
            "  • The cookie may have expired — log in again and retry",
        ]
    );
    let chrome = texts(&list_cookie_names(Browser::Chrome, &vec![]));
    assert_eq!(chrome.len(), 8);
    assert_eq!(chrome[5], "    'Profile Path'. Pass the folder name with --chrome-profile \"<name>\"");
    assert_eq!(names_heading("h").text(), "Looking for cookies matching host: h");
}
