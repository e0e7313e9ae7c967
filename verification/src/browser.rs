//! Session cookies that a browser holds: where they are found, which of them are used, and
//! how they are put into a `Cookie` header.

use vstd::prelude::*;
use crate::chrome;
use crate::chrome::{DecryptError, Platform};
use crate::cli::Browser;
use crate::output;
use crate::output::Line;
use crate::text;

verus! {

// ---------------------------------------------------------------------------
// Host names
// ---------------------------------------------------------------------------

/// An address without a host name.
#[derive(Debug)]
pub struct NoHostname {
    pub url: String,
}

/// The host name in an address: without the scheme, the path and the port.
pub open spec fn hostname_of(url: Seq<char>) -> Seq<char> {
    text::before(
        text::before(
            text::without_prefix(text::without_prefix(url, "https://"@), "http://"@),
            '/',
        ),
        ':',
    )
}

/// The host name in an address: that of `https://ci.example.com:8443/ctrl` is
/// `ci.example.com`.
pub fn extract_hostname(url: &str) -> (r: Result<String, NoHostname>)
    ensures
        match r {
            Ok(hostname) => hostname@ == hostname_of(url@) && hostname@.len() > 0,
            Err(e) => hostname_of(url@).len() == 0 && e.url@ == url@,
        },
{
    let rest = text::trim_start_text(text::trim_start_text(url, "https://").as_str(), "http://");
    let host_and_port = text::text_before(rest.as_str(), '/');
    let hostname = text::text_before(host_and_port.as_str(), ':');
    if hostname.as_str().is_empty() {
        Err(NoHostname { url: url.to_owned() })
    } else {
        Ok(hostname)
    }
}

impl NoHostname {
    pub open spec fn words(self) -> Seq<char> {
        "could not extract hostname from URL: "@ + self.url@
    }

    /// The error in words.
    pub fn message(&self) -> (r: String)
        ensures
            r@ == self.words(),
    {
        text::cat2("could not extract hostname from URL: ", self.url.as_str())
    }
}

/// A host name holds neither a slash nor a colon.
pub proof fn law_hostname_is_bare(url: Seq<char>)
    ensures
        !hostname_of(url).contains('/'),
        !hostname_of(url).contains(':'),
{
    let rest = text::without_prefix(text::without_prefix(url, "https://"@), "http://"@);
    let host_and_port = text::before(rest, '/');
    text::lemma_position(rest, '/');
    text::lemma_position(host_and_port, ':');
    assert forall|i: int| 0 <= i < hostname_of(url).len() implies hostname_of(url)[i] != '/' && hostname_of(url)[i]
        != ':' by {
        assert(hostname_of(url)[i] == host_and_port[i]);
        assert(host_and_port[i] == rest[i]);
    }
}

/// The hosts that a cookie for a host name is kept under: the name itself, and the name as a
/// domain.
pub fn cookie_hosts(hostname: &str) -> (r: (String, String))
    ensures
        r.0@ == hostname@,
        r.1@ == "."@ + hostname@,
{
    (hostname.to_owned(), text::cat2(".", hostname))
}

// ---------------------------------------------------------------------------
// Firefox profiles
// ---------------------------------------------------------------------------

/// A section of `profiles.ini`.
pub struct Section {
    pub name: Seq<char>,
    pub entries: Seq<(Seq<char>, Seq<char>)>,
}

/// The name in a line that opens a section.
pub open spec fn section_name(line: Seq<char>) -> Option<Seq<char>> {
    if line.len() > 0 && line[0] == '[' && line.last() == ']' {
        Some(line.subrange(1, line.len() - 1))
    } else {
        None
    }
}

/// The key and the value in a line.
pub open spec fn entry_of(line: Seq<char>) -> Option<(Seq<char>, Seq<char>)> {
    match text::cut(line, '=') {
        Some((key, value)) => Some((text::trimmed(key), text::trimmed(value))),
        None => None,
    }
}

/// The lines of a text, without the white space round them.
pub open spec fn bare_lines(s: Seq<char>) -> Seq<Seq<char>> {
    text::pieces(s, '\n').map_values(|line: Seq<char>| text::trimmed(line))
}

/// The sections that lines make up. Entries before the first section belong to none.
pub open spec fn sections(lines: Seq<Seq<char>>) -> Seq<Section>
    decreases lines.len(),
{
    if lines.len() == 0 {
        Seq::empty()
    } else {
        let earlier = sections(lines.drop_last());
        match section_name(lines.last()) {
            Some(name) => earlier.push(Section { name, entries: Seq::empty() }),
            None => match entry_of(lines.last()) {
                Some(entry) => if earlier.len() > 0 {
                    earlier.drop_last().push(
                        Section { entries: earlier.last().entries.push(entry), ..earlier.last() },
                    )
                } else {
                    earlier
                },
                None => earlier,
            },
        }
    }
}

/// The value that a key was given last.
pub open spec fn last_value(entries: Seq<(Seq<char>, Seq<char>)>, key: Seq<char>) -> Option<Seq<char>>
    decreases entries.len(),
{
    if entries.len() == 0 {
        None
    } else if entries.last().0 == key {
        Some(entries.last().1)
    } else {
        last_value(entries.drop_last(), key)
    }
}

/// The profile that an installation has as its default: the last `Default` in a section whose
/// name starts with `Install`.
pub open spec fn install_default(all: Seq<Section>) -> Option<Seq<char>>
    decreases all.len(),
{
    if all.len() == 0 {
        None
    } else if "Install"@.is_prefix_of(all.last().name) && last_value(all.last().entries, "Default"@) is Some {
        last_value(all.last().entries, "Default"@)
    } else {
        install_default(all.drop_last())
    }
}

/// Whether a section is that of a profile that is marked as the default.
pub open spec fn marked_default(section: Section) -> bool {
    "Profile"@.is_prefix_of(section.name) && section.entries.contains(("Default"@, "1"@))
}

/// The `Path` of the last profile that is marked as the default.
pub open spec fn profile_default(all: Seq<Section>) -> Option<Seq<char>>
    decreases all.len(),
{
    if all.len() == 0 {
        None
    } else if marked_default(all.last()) {
        last_value(all.last().entries, "Path"@)
    } else {
        profile_default(all.drop_last())
    }
}

/// The default profile that `profiles.ini` names: that of an installation, or else the profile
/// that is marked as the default.
pub open spec fn default_profile(ini: Seq<char>) -> Option<Seq<char>> {
    let all = sections(bare_lines(ini));
    match install_default(all) {
        Some(path) => Some(path),
        None => profile_default(all),
    }
}

/// Where an installation has a default, no profile's mark counts.
pub proof fn law_install_default_wins(ini: Seq<char>)
    ensures
        install_default(sections(bare_lines(ini))) is Some ==> default_profile(ini) == install_default(
            sections(bare_lines(ini)),
        ),
{
}

/// The part of `profiles.ini` that was read so far.
struct IniState {
    install_default: Option<String>,
    profile_default: Option<String>,
    in_install: bool,
    in_profile: bool,
    cur_path: Option<String>,
    cur_is_default: bool,
}

impl IniState {
    /// Whether the state is that after these sections, the last of which is still open.
    spec fn after(self, all: Seq<Section>) -> bool {
        &&& text::option_view(self.install_default) == install_default(all)
        &&& self.in_install == (all.len() > 0 && "Install"@.is_prefix_of(all.last().name))
        &&& self.in_profile == (all.len() > 0 && "Profile"@.is_prefix_of(all.last().name))
        &&& all.len() == 0 ==> self.profile_default is None
        &&& all.len() > 0 ==> text::option_view(self.profile_default) == profile_default(all.drop_last())
        &&& self.in_profile ==> {
            &&& text::option_view(self.cur_path) == last_value(all.last().entries, "Path"@)
            &&& self.cur_is_default == all.last().entries.contains(("Default"@, "1"@))
        }
    }
}

/// No section is that of an installation and of a profile.
proof fn lemma_install_or_profile(name: Seq<char>)
    ensures
        !("Install"@.is_prefix_of(name) && "Profile"@.is_prefix_of(name)),
{
    reveal_strlit("Install");
    reveal_strlit("Profile");
    if "Install"@.is_prefix_of(name) && "Profile"@.is_prefix_of(name) {
        assert(name.subrange(0, 7)[0] == "Install"@[0]);
        assert(name.subrange(0, 7)[0] == "Profile"@[0]);
    }
}

/// The sections once another entry was added to the last of them.
spec fn with_entry(all: Seq<Section>, entry: (Seq<char>, Seq<char>)) -> Seq<Section> {
    all.drop_last().push(Section { entries: all.last().entries.push(entry), ..all.last() })
}

/// What another entry in the last section changes.
proof fn lemma_with_entry(all: Seq<Section>, entry: (Seq<char>, Seq<char>))
    requires
        all.len() > 0,
    ensures
        ({
            let more = with_entry(all, entry);
            let entries = all.last().entries;
            &&& more.len() == all.len()
            &&& more.drop_last() == all.drop_last()
            &&& more.last().name == all.last().name
            &&& more.last().entries == entries.push(entry)
            &&& install_default(more) == if "Install"@.is_prefix_of(all.last().name) && entry.0 == "Default"@ {
                Some(entry.1)
            } else {
                install_default(all)
            }
            &&& forall|key: Seq<char>| #[trigger]
                last_value(entries.push(entry), key) == if entry.0 == key {
                    Some(entry.1)
                } else {
                    last_value(entries, key)
                }
            &&& forall|e: (Seq<char>, Seq<char>)| #[trigger]
                entries.push(entry).contains(e) <==> entries.contains(e) || e == entry
        }),
{
    let more = with_entry(all, entry);
    let entries = all.last().entries;
    assert(more.drop_last() =~= all.drop_last());
    assert forall|key: Seq<char>| #[trigger]
        last_value(entries.push(entry), key) == if entry.0 == key {
            Some(entry.1)
        } else {
            last_value(entries, key)
        } by {
        assert(entries.push(entry).drop_last() =~= entries);
    }
    assert forall|e: (Seq<char>, Seq<char>)| #[trigger]
        entries.push(entry).contains(e) <==> entries.contains(e) || e == entry by {
        if entries.contains(e) {
            let i = choose|i: int| 0 <= i < entries.len() && entries[i] == e;
            assert(entries.push(entry)[i] == e);
        }
        if e == entry {
            assert(entries.push(entry)[entries.len() as int] == e);
        }
        if entries.push(entry).contains(e) && e != entry {
            let i = choose|i: int| 0 <= i < entries.push(entry).len() && entries.push(entry)[i] == e;
            assert(entries[i] == e);
        }
    }
    assert(last_value(entries.push(entry), "Default"@) == if entry.0 == "Default"@ {
        Some(entry.1)
    } else {
        last_value(entries, "Default"@)
    });
}

/// Reads another line of `profiles.ini`. `all` are the sections up to it.
fn read_line(state: &mut IniState, line: &str, all: Ghost<Seq<Section>>, lines: Ghost<Seq<Seq<char>>>)
    requires
        old(state).after(all@),
        all@ == sections(lines@),
    ensures
        final(state).after(sections(lines@.push(line@))),
{
    let ghost more = lines@.push(line@);
    proof {
        assert(more.drop_last() =~= lines@);
    }
    let v = text::to_chars(line);
    let n: usize = v.len();
    if n > 0 && v[0] == '[' && v[n - 1] == ']' {
        let name = text::substring(&v, 1, n - 1);
        if state.in_profile && state.cur_is_default {
            state.profile_default = state.cur_path.take();
        }
        state.in_install = text::starts_with(name.as_str(), "Install");
        state.in_profile = text::starts_with(name.as_str(), "Profile");
        state.cur_path = None;
        state.cur_is_default = false;
        proof {
            let next = sections(more);
            assert(next == all@.push(Section { name: name@, entries: Seq::empty() }));
            assert(next.drop_last() =~= all@);
            assert(last_value(Seq::<(Seq<char>, Seq<char>)>::empty(), "Default"@) is None);
        }
        return;
    }
    match text::split_once(line, '=') {
        Some(pair) => {
            let key = text::trim(pair.0.as_str());
            let value = text::trim(pair.1.as_str());
            let ghost entry = (key@, value@);
            proof {
                assert(section_name(line@) is None);
                assert(entry_of(line@) == Some(entry));
                reveal_strlit("Path");
                reveal_strlit("Default");
                assert("Path"@.len() != "Default"@.len());
                if all@.len() > 0 {
                    lemma_with_entry(all@, entry);
                    lemma_install_or_profile(all@.last().name);
                    assert(sections(more) == with_entry(all@, entry));
                    let entries = all@.last().entries;
                    assert(last_value(entries.push(entry), "Path"@) == if entry.0 == "Path"@ {
                        Some(entry.1)
                    } else {
                        last_value(entries, "Path"@)
                    });
                    assert(entries.push(entry).contains(("Default"@, "1"@)) <==> entries.contains(
                        ("Default"@, "1"@),
                    ) || ("Default"@, "1"@) == entry);
                }
            }
            if state.in_install && text::same_text(key.as_str(), "Default") {
                state.install_default = Some(value);
            } else if state.in_profile {
                if text::same_text(key.as_str(), "Path") {
                    state.cur_path = Some(value);
                } else if text::same_text(key.as_str(), "Default") && text::same_text(value.as_str(), "1") {
                    state.cur_is_default = true;
                }
            }
        },
        None => {},
    }
}

/// The default profile that `profiles.ini` names.
pub fn parse_default_profile(ini: &str) -> (r: Option<String>)
    ensures
        text::option_view(r) == default_profile(ini@),
{
    let lines = text::split(ini, '\n');
    let mut state = IniState {
        install_default: None,
        profile_default: None,
        in_install: false,
        in_profile: false,
        cur_path: None,
        cur_is_default: false,
    };
    let ghost all = bare_lines(ini@);
    let mut i: usize = 0;
    while i < lines.len()
        invariant
            i <= lines@.len(),
            all == text::views(lines@).map_values(|line: Seq<char>| text::trimmed(line)),
            state.after(sections(all.take(i as int))),
        decreases lines@.len() - i,
    {
        let line = text::trim(lines[i].as_str());
        proof {
            assert(all.take(i + 1) =~= all.take(i as int).push(line@));
        }
        read_line(&mut state, line.as_str(), Ghost(sections(all.take(i as int))), Ghost(all.take(i as int)));
        i = i + 1;
    }
    proof {
        assert(all.take(i as int) =~= all);
    }
    if state.install_default.is_some() {
        return state.install_default;
    }
    if state.in_profile && state.cur_is_default {
        state.cur_path
    } else {
        state.profile_default
    }
}

// ---------------------------------------------------------------------------
// Cookies
// ---------------------------------------------------------------------------

/// A cookie of Firefox.
#[derive(Debug)]
pub struct CookieRow {
    pub name: String,
    pub value: String,
}

/// A cookie of Chrome: its value stands in one of the two forms.
#[derive(Debug)]
pub struct ChromeRow {
    pub name: String,
    pub value: String,
    pub encrypted_value: Vec<u8>,
}

/// The cookies of Firefox that authenticate at Jenkins: those of two hosts, not expired, in
/// the order of their names.
pub const FIREFOX_COOKIES: &'static str =
    "SELECT name, value FROM moz_cookies WHERE (host = ?1 OR host = ?2) AND expiry > ?3 AND name LIKE 'JSESSIONID%' ORDER BY name";

/// The names of all cookies of Firefox for two hosts.
pub const FIREFOX_NAMES: &'static str =
    "SELECT name FROM moz_cookies WHERE (host = ?1 OR host = ?2) AND expiry > ?3 ORDER BY name";

/// The cookies of Chrome that authenticate at Jenkins. A cookie of a session does not expire.
pub const CHROME_COOKIES: &'static str =
    "SELECT name, value, encrypted_value FROM cookies WHERE (host_key = ?1 OR host_key = ?2) AND (expires_utc = 0 OR expires_utc > ?3) AND name LIKE 'JSESSIONID%' ORDER BY name";

/// The names of all cookies of Chrome for two hosts.
pub const CHROME_NAMES: &'static str =
    "SELECT name FROM cookies WHERE (host_key = ?1 OR host_key = ?2) AND (expires_utc = 0 OR expires_utc > ?3) ORDER BY name";

/// The microseconds from the start of 1601, which Chrome counts from, to that of 1970.
pub const CHROME_EPOCH_OFFSET_US: u64 = 11_644_473_600_000_000;

/// A time in seconds since 1970 as Chrome counts it: in microseconds since 1601.
pub fn chrome_time(unix_seconds: u64) -> (r: i64)
    requires
        unix_seconds * 1_000_000 + CHROME_EPOCH_OFFSET_US <= u64::MAX,
    ensures
        r == ((unix_seconds * 1_000_000 + CHROME_EPOCH_OFFSET_US) as u64) as i64,
        unix_seconds * 1_000_000 + CHROME_EPOCH_OFFSET_US <= i64::MAX ==> r == unix_seconds * 1_000_000
            + CHROME_EPOCH_OFFSET_US,
{
    (unix_seconds * 1_000_000 + CHROME_EPOCH_OFFSET_US) as i64
}

/// There is no cookie to authenticate with.
#[derive(Debug)]
pub struct NoCookies {
    pub hostname: String,
}

/// The value of a `Cookie` header with these cookies, if there are any.
pub fn require_nonempty(cookies: Vec<String>, hostname: &str) -> (r: Result<String, NoCookies>)
    ensures
        match r {
            Ok(header) => cookies@.len() > 0 && header@ == text::joined(text::views(cookies@), "; "@),
            Err(e) => cookies@.len() == 0 && e.hostname@ == hostname@,
        },
{
    if cookies.len() == 0 {
        Err(NoCookies { hostname: hostname.to_owned() })
    } else {
        Ok(text::join(&cookies, "; "))
    }
}

impl NoCookies {
    pub open spec fn words(self) -> Seq<char> {
        "no valid session cookies found for '"@ + self.hostname@ + "' in your browser.\n"@
            + "Make sure you are logged into Jenkins in the browser, then retry."@
    }

    /// The error in words.
    pub fn message(&self) -> (r: String)
        ensures
            r@ == self.words(),
    {
        text::cat4(
            "no valid session cookies found for '",
            self.hostname.as_str(),
            "' in your browser.\n",
            "Make sure you are logged into Jenkins in the browser, then retry.",
        )
    }
}

/// A cookie as it stands in a header.
pub open spec fn cookie_pair(name: Seq<char>, value: Seq<char>) -> Seq<char> {
    name + "="@ + value
}

/// Whether a cookie authenticates at Jenkins.
pub open spec fn authenticates(name: Seq<char>) -> bool {
    "JSESSIONID"@.is_prefix_of(name)
}

/// The cookies of Firefox that authenticate, as they stand in a header.
pub open spec fn firefox_pairs(rows: Seq<CookieRow>) -> Seq<Seq<char>> {
    rows.filter(|row: CookieRow| authenticates(row.name@)).map_values(
        |row: CookieRow| cookie_pair(row.name@, row.value@),
    )
}

/// The value of a `Cookie` header with the cookies that Firefox holds for a host and that
/// authenticate; other cookies are left out.
pub fn firefox_cookies(hostname: &str, rows: &Vec<CookieRow>) -> (r: Result<String, NoCookies>)
    ensures
        match r {
            Ok(header) => firefox_pairs(rows@).len() > 0 && header@ == text::joined(firefox_pairs(rows@), "; "@),
            Err(e) => firefox_pairs(rows@).len() == 0 && e.hostname@ == hostname@,
        },
{
    let mut cookies: Vec<String> = Vec::new();
    let mut i: usize = 0;
    proof {
        reveal(Seq::filter);
        assert(text::views(cookies@) =~= firefox_pairs(rows@.take(0)));
    }
    while i < rows.len()
        invariant
            i <= rows@.len(),
            text::views(cookies@) == firefox_pairs(rows@.take(i as int)),
        decreases rows@.len() - i,
    {
        let ghost so_far = text::views(cookies@);
        let ghost row = rows@[i as int];
        proof {
            reveal(Seq::filter);
            assert(rows@.take(i + 1).drop_last() =~= rows@.take(i as int));
            assert(rows@.take(i + 1).last() == row);
        }
        if text::starts_with(rows[i].name.as_str(), "JSESSIONID") {
            cookies.push(text::cat3(rows[i].name.as_str(), "=", rows[i].value.as_str()));
            proof {
                assert(text::views(cookies@) =~= so_far.push(cookie_pair(row.name@, row.value@)));
                assert(firefox_pairs(rows@.take(i + 1)) =~= so_far.push(cookie_pair(row.name@, row.value@)));
            }
        }
        i = i + 1;
    }
    proof {
        assert(rows@.take(i as int) =~= rows@);
    }
    require_nonempty(cookies, hostname)
}

/// What becomes of a cookie of Chrome.
#[derive(Debug)]
pub struct ChromeCookie {
    /// What stands for it in the header; nothing if it is left out.
    pub used: Option<String>,
    /// The lines that report what was done with it.
    pub lines: Vec<Line>,
}

/// What a [`ChromeCookie`] stands for.
pub struct CookieModel {
    pub used: Option<Seq<char>>,
    pub lines: Seq<output::LineModel>,
}

impl View for ChromeCookie {
    type V = CookieModel;

    open spec fn view(&self) -> CookieModel {
        CookieModel { used: text::option_view(self.used), lines: output::line_views(self.lines@) }
    }
}

/// A cookie that is used with a value.
pub open spec fn used_cookie(name: Seq<char>, value: Seq<char>) -> CookieModel {
    CookieModel { used: Some(cookie_pair(name, value)), lines: Seq::empty() }
}

/// A cookie that is left out for a reason.
pub open spec fn skipped_cookie(name: Seq<char>, reason: Seq<char>) -> CookieModel {
    CookieModel { used: None, lines: seq![output::warned("  [debug] "@ + name + reason)] }
}

/// What becomes of a cookie that was decrypted with this outcome.
pub open spec fn decrypted_cookie(name: Seq<char>, outcome: Result<Seq<char>, DecryptError>) -> CookieModel {
    match outcome {
        Ok(value) => used_cookie(name, value),
        Err(e) => skipped_cookie(name, ": decryption failed — "@ + e.words()),
    }
}

/// What becomes of a cookie of Chrome: a plain value is used as it is, an encrypted one is
/// decrypted where there is a key.
pub open spec fn chrome_cookie(platform: Platform, row: ChromeRow, master_key: Seq<u8>) -> CookieModel {
    if row.value@.len() > 0 {
        used_cookie(row.name@, row.value@)
    } else if row.encrypted_value@.len() == 0 {
        skipped_cookie(row.name@, ": both value and encrypted_value are empty — skipping"@)
    } else if master_key.len() == 0 {
        skipped_cookie(row.name@, ": no master key available — skipping"@)
    } else {
        let outcome = decrypted_cookie(row.name@, chrome::decrypted(platform, row.encrypted_value@, master_key));
        CookieModel {
            lines: chrome::decrypt_lines(platform, row.encrypted_value@, master_key) + outcome.lines,
            ..outcome
        }
    }
}

/// The cookies that are used, in order.
pub open spec fn used_pairs(cookies: Seq<CookieModel>) -> Seq<Seq<char>>
    decreases cookies.len(),
{
    if cookies.len() == 0 {
        Seq::empty()
    } else {
        match cookies.last().used {
            Some(pair) => used_pairs(cookies.drop_last()).push(pair),
            None => used_pairs(cookies.drop_last()),
        }
    }
}

/// The lines that report what was done with the cookies, in order.
pub open spec fn cookie_lines(cookies: Seq<CookieModel>) -> Seq<output::LineModel>
    decreases cookies.len(),
{
    if cookies.len() == 0 {
        Seq::empty()
    } else {
        cookie_lines(cookies.drop_last()) + cookies.last().lines
    }
}

/// What becomes of each cookie of Chrome that authenticates.
pub open spec fn chrome_cookie_list(platform: Platform, rows: Seq<ChromeRow>, master_key: Seq<u8>) -> Seq<CookieModel> {
    rows.filter(|row: ChromeRow| authenticates(row.name@)).map_values(
        |row: ChromeRow| chrome_cookie(platform, row, master_key),
    )
}

fn used(name: &str, value: &str) -> (r: ChromeCookie)
    ensures
        r@ == used_cookie(name@, value@),
{
    let r = ChromeCookie { used: Some(text::cat3(name, "=", value)), lines: Vec::new() };
    proof {
        assert(r@.lines =~= Seq::empty());
    }
    r
}

fn skipped(name: &str, reason: &str) -> (r: ChromeCookie)
    ensures
        r@ == skipped_cookie(name@, reason@),
{
    let mut lines: Vec<Line> = Vec::new();
    output::put(&mut lines, output::warn(text::cat3("  [debug] ", name, reason).as_str()));
    let r = ChromeCookie { used: None, lines };
    proof {
        assert(r@.lines =~= skipped_cookie(name@, reason@).lines);
    }
    r
}

/// What becomes of a cookie that was decrypted with this outcome.
pub fn use_decrypted(name: &str, outcome: Result<String, DecryptError>) -> (r: ChromeCookie)
    ensures
        r@ == decrypted_cookie(
            name@,
            match outcome {
                Ok(value) => Ok(value@),
                Err(e) => Err(e),
            },
        ),
{
    match outcome {
        Ok(value) => used(name, value.as_str()),
        Err(e) => skipped(name, text::cat2(": decryption failed — ", e.message().as_str()).as_str()),
    }
}

/// What becomes of a cookie of Chrome.
pub fn use_chrome_cookie(platform: Platform, row: &ChromeRow, master_key: &[u8]) -> (r: ChromeCookie)
    requires
        master_key@.len() == 0 || chrome::usable_key(platform, master_key@),
    ensures
        r@ == chrome_cookie(platform, *row, master_key@),
{
    if !row.value.as_str().is_empty() {
        return used(row.name.as_str(), row.value.as_str());
    }
    if row.encrypted_value.len() == 0 {
        return skipped(row.name.as_str(), ": both value and encrypted_value are empty — skipping");
    }
    if master_key.len() == 0 {
        return skipped(row.name.as_str(), ": no master key available — skipping");
    }
    let (outcome, mut lines) = chrome::chrome_decrypt(platform, row.encrypted_value.as_slice(), master_key);
    let cookie = use_decrypted(row.name.as_str(), outcome);
    output::put_all(&mut lines, cookie.lines);
    ChromeCookie { used: cookie.used, lines }
}

/// The value of a `Cookie` header with the cookies that Chrome holds for a host and that
/// authenticate, and the lines that report what was done with them; other cookies are left out.
pub fn chrome_cookies(platform: Platform, hostname: &str, rows: &Vec<ChromeRow>, master_key: &[u8]) -> (r: (
    Result<String, NoCookies>,
    Vec<Line>,
))
    requires
        master_key@.len() == 0 || chrome::usable_key(platform, master_key@),
    ensures
        ({
            let cookies = chrome_cookie_list(platform, rows@, master_key@);
            &&& match r.0 {
                Ok(header) => used_pairs(cookies).len() > 0 && header@ == text::joined(used_pairs(cookies), "; "@),
                Err(e) => used_pairs(cookies).len() == 0 && e.hostname@ == hostname@,
            }
            &&& output::line_views(r.1@) == cookie_lines(cookies)
        }),
{
    let mut pairs: Vec<String> = Vec::new();
    let mut lines: Vec<Line> = Vec::new();
    let mut i: usize = 0;
    proof {
        reveal(Seq::filter);
        assert(chrome_cookie_list(platform, rows@.take(0), master_key@) =~= Seq::empty());
        assert(text::views(pairs@) =~= Seq::empty());
        assert(output::line_views(lines@) =~= Seq::empty());
    }
    while i < rows.len()
        invariant
            i <= rows@.len(),
            master_key@.len() == 0 || chrome::usable_key(platform, master_key@),
            text::views(pairs@) == used_pairs(chrome_cookie_list(platform, rows@.take(i as int), master_key@)),
            output::line_views(lines@) == cookie_lines(
                chrome_cookie_list(platform, rows@.take(i as int), master_key@),
            ),
        decreases rows@.len() - i,
    {
        let ghost so_far = text::views(pairs@);
        let ghost before = chrome_cookie_list(platform, rows@.take(i as int), master_key@);
        let ghost after = chrome_cookie_list(platform, rows@.take(i + 1), master_key@);
        proof {
            reveal(Seq::filter);
            assert(rows@.take(i + 1).drop_last() =~= rows@.take(i as int));
            assert(rows@.take(i + 1).last() == rows@[i as int]);
        }
        if text::starts_with(rows[i].name.as_str(), "JSESSIONID") {
            let cookie = use_chrome_cookie(platform, &rows[i], master_key);
            proof {
                assert(after =~= before.push(cookie@));
                assert(after.drop_last() =~= before);
            }
            output::put_all(&mut lines, cookie.lines);
            if let Some(pair) = cookie.used {
                pairs.push(pair);
                proof {
                    assert(text::views(pairs@) =~= so_far.push(pair@));
                }
            }
        }
        i = i + 1;
    }
    proof {
        assert(rows@.take(i as int) =~= rows@);
    }
    (require_nonempty(pairs, hostname), lines)
}

// ---------------------------------------------------------------------------
// Where Chrome keeps its cookies
// ---------------------------------------------------------------------------

/// No cookie database was found for a profile.
#[derive(Debug)]
pub struct NoCookieDb {
    pub profile: String,
}

/// The places, below the directory of Chrome, where a profile's cookie database can be: the
/// directories and the file name of each, the newer place first.
pub fn chrome_cookie_places(profile: &str) -> (r: (Vec<String>, Vec<String>))
    ensures
        text::views(r.0@) == seq![profile@, "Network"@, "Cookies"@],
        text::views(r.1@) == seq![profile@, "Cookies"@],
{
    let mut newer: Vec<String> = Vec::new();
    newer.push(profile.to_owned());
    newer.push("Network".to_owned());
    newer.push("Cookies".to_owned());
    let mut older: Vec<String> = Vec::new();
    older.push(profile.to_owned());
    older.push("Cookies".to_owned());
    proof {
        assert(text::views(newer@) =~= seq![profile@, "Network"@, "Cookies"@]);
        assert(text::views(older@) =~= seq![profile@, "Cookies"@]);
    }
    (newer, older)
}

/// The place of a profile's cookie database: the newer one where there is a file, or else the
/// older one where there is one.
pub fn find_chrome_cookie_db(profile: &str, newer_exists: bool, older_exists: bool) -> (r: Result<Vec<String>, NoCookieDb>)
    ensures
        match r {
            Ok(place) => {
                ||| newer_exists && text::views(place@) == seq![profile@, "Network"@, "Cookies"@]
                ||| !newer_exists && older_exists && text::views(place@) == seq![profile@, "Cookies"@]
            },
            Err(e) => !newer_exists && !older_exists && e.profile@ == profile@,
        },
{
    let (newer, older) = chrome_cookie_places(profile);
    if newer_exists {
        Ok(newer)
    } else if older_exists {
        Ok(older)
    } else {
        Err(NoCookieDb { profile: profile.to_owned() })
    }
}

impl NoCookieDb {
    pub open spec fn words(self) -> Seq<char> {
        "Chrome cookie database not found for profile '"@ + self.profile@ + "'.\n"@
            + "Check your active profile name at chrome://version (look for 'Profile Path').\n"@
            + "Pass it with --chrome-profile \"Profile 1\" (or whichever name matches)."@
    }

    /// The error in words.
    pub fn message(&self) -> (r: String)
        ensures
            r@ == self.words(),
    {
        text::cat5(
            "Chrome cookie database not found for profile '",
            self.profile.as_str(),
            "'.\n",
            "Check your active profile name at chrome://version (look for 'Profile Path').\n",
            "Pass it with --chrome-profile \"Profile 1\" (or whichever name matches).",
        )
    }
}

/// Whether the words of an error tell that another process holds a file.
pub fn is_sharing_violation(words: &str) -> (r: bool)
    ensures
        r == (text::occurs(words@, "os error 32"@) || text::occurs(words@, "being used by another process"@)),
{
    text::contains(words, "os error 32") || text::contains(words, "being used by another process")
}

/// The words for a cookie database that Chrome holds.
pub const CHROME_LOCKED: &'static str = "Chrome has its cookie database locked (this is a security feature in modern Chrome on Windows).\n\nWork-arounds:\n\nOption A — close Chrome, run rj, reopen Chrome:\n\nOption B — copy the cookie from Chrome DevTools:\n1. Press F12 in Chrome\n2. Application tab → Cookies → your Jenkins URL\n3. Find JSESSIONID.* and copy its value\n4. Run:  $env:JENKINS_COOKIE = \"JSESSIONID.xxx=<value>\"\nThen: rj list";

// ---------------------------------------------------------------------------
// The names of the cookies
// ---------------------------------------------------------------------------

/// A browser that is not known.
#[derive(Debug)]
pub struct UnknownBrowser {
    pub name: String,
}

/// The browser with this name.
pub fn browser_named(name: &str) -> (r: Result<Browser, UnknownBrowser>)
    ensures
        match r {
            Ok(browser) => browser.word() == name@,
            Err(e) => name@ != Browser::Chrome.word() && name@ != Browser::Firefox.word() && e.name@ == name@,
        },
{
    if text::same_text(name, "chrome") {
        Ok(Browser::Chrome)
    } else if text::same_text(name, "firefox") {
        Ok(Browser::Firefox)
    } else {
        Err(UnknownBrowser { name: name.to_owned() })
    }
}

impl UnknownBrowser {
    pub open spec fn words(self) -> Seq<char> {
        "unknown browser '"@ + self.name@ + "' — use 'chrome' or 'firefox'"@
    }

    /// The error in words.
    pub fn message(&self) -> (r: String)
        ensures
            r@ == self.words(),
    {
        text::cat3("unknown browser '", self.name.as_str(), "' — use 'chrome' or 'firefox'")
    }
}

/// The names of the cookies that authenticate, in order.
pub open spec fn auth_names(names: Seq<Seq<char>>) -> Seq<Seq<char>> {
    names.filter(|name: Seq<char>| authenticates(name))
}

/// The line for a cookie.
pub open spec fn name_line(name: Seq<char>) -> output::LineModel {
    output::said(
        "  "@ + name + if authenticates(name) {
            "  ← auth"@
        } else {
            "  (preference, ignored)"@
        },
    )
}

/// The lines where there are no cookies.
pub open spec fn no_names_lines(browser: Browser) -> Seq<output::LineModel> {
    let start = seq![
        output::said("No cookies found."@),
        output::said(""@),
        output::said("Troubleshooting:"@),
        output::said("  • Make sure you are logged into Jenkins in "@ + browser.word()),
    ];
    let profile = if browser == Browser::Chrome {
        seq![
            output::said("  • Check your active Chrome profile: open chrome://version and look for"@),
            output::said("    'Profile Path'. Pass the folder name with --chrome-profile \"<name>\""@),
            output::said("    Common names: \"Default\", \"Profile 1\", \"Profile 2\""@),
        ]
    } else {
        Seq::empty()
    };
    (start + profile).push(output::said("  • The cookie may have expired — log in again and retry"@))
}

/// The lines that tell which cookies are used.
pub open spec fn auth_lines(browser: Browser, names: Seq<Seq<char>>) -> Seq<output::LineModel> {
    if auth_names(names).len() == 0 {
        seq![output::said("No JSESSIONID cookies found — you may not be logged in."@)]
    } else {
        seq![
            output::said("rj will use: "@ + text::joined(auth_names(names), ", "@)),
            output::said("Run with --from-"@ + browser.word() + " to authenticate."@),
        ]
    }
}

/// The lines for the cookies with these names.
pub open spec fn names_lines(browser: Browser, names: Seq<Seq<char>>) -> Seq<output::LineModel> {
    if names.len() == 0 {
        no_names_lines(browser)
    } else {
        seq![output::said("Found "@ + text::decimal(names.len()) + " cookie(s):"@)] + names.map_values(
            |name: Seq<char>| name_line(name),
        ) + seq![output::said(""@)] + auth_lines(browser, names)
    }
}

/// The line that opens the list of cookies.
pub fn names_heading(hostname: &str) -> (r: Line)
    ensures
        r@ == output::said("Looking for cookies matching host: "@ + hostname@),
{
    output::say(text::cat2("Looking for cookies matching host: ", hostname).as_str())
}

/// The lines for the cookies with these names. Their values are not shown.
pub fn list_cookie_names(browser: Browser, names: &Vec<String>) -> (r: Vec<Line>)
    ensures
        output::line_views(r@) == names_lines(browser, text::views(names@)),
{
    let mut lines: Vec<Line> = Vec::new();
    proof {
        assert(output::line_views(lines@) =~= Seq::empty());
    }
    if names.len() == 0 {
        output::put(&mut lines, output::say("No cookies found."));
        output::put(&mut lines, output::say(""));
        output::put(&mut lines, output::say("Troubleshooting:"));
        let s = text::cat2("  • Make sure you are logged into Jenkins in ", browser.name().as_str());
        output::put(&mut lines, output::say(s.as_str()));
        if browser == Browser::Chrome {
            output::put(
                &mut lines,
                output::say("  • Check your active Chrome profile: open chrome://version and look for"),
            );
            output::put(
                &mut lines,
                output::say("    'Profile Path'. Pass the folder name with --chrome-profile \"<name>\""),
            );
            output::put(
                &mut lines,
                output::say("    Common names: \"Default\", \"Profile 1\", \"Profile 2\""),
            );
        }
        output::put(
            &mut lines,
            output::say("  • The cookie may have expired — log in again and retry"),
        );
        proof {
            assert(output::line_views(lines@) =~= no_names_lines(browser));
        }
        return lines;
    }
    let total: usize = names.len();
    let s = text::cat3("Found ", text::show_u64(total as u64).as_str(), " cookie(s):");
    output::put(&mut lines, output::say(s.as_str()));
    let ghost first = output::line_views(lines@);
    let ghost all = text::views(names@);
    let ghost shown = |name: Seq<char>| name_line(name);
    let ghost wanted = |name: Seq<char>| authenticates(name);
    let mut auth: Vec<String> = Vec::new();
    let mut i: usize = 0;
    proof {
        reveal(Seq::filter);
        assert(all.take(0).filter(wanted) =~= Seq::empty());
        assert(text::views(auth@) =~= Seq::empty());
        assert(first =~= first + all.take(0).map_values(shown));
    }
    while i < total
        invariant
            i <= total == names@.len(),
            all == text::views(names@),
            shown == |name: Seq<char>| name_line(name),
            wanted == |name: Seq<char>| authenticates(name),
            text::views(auth@) == all.take(i as int).filter(wanted),
            output::line_views(lines@) == first + all.take(i as int).map_values(shown),
        decreases total - i,
    {
        let ghost before = all.take(i as int);
        let ghost found = text::views(auth@);
        let name = names[i].as_str();
        proof {
            reveal(Seq::filter);
            assert(all.take(i + 1).drop_last() =~= before);
            assert(all.take(i + 1).last() == name@);
        }
        if text::starts_with(name, "JSESSIONID") {
            auth.push(names[i].clone());
            proof {
                assert(text::views(auth@) =~= found.push(name@));
            }
            output::put(&mut lines, output::say(text::cat3("  ", name, "  ← auth").as_str()));
        } else {
            output::put(&mut lines, output::say(text::cat3("  ", name, "  (preference, ignored)").as_str()));
        }
        proof {
            assert(output::line_views(lines@) =~= first + all.take(i + 1).map_values(shown));
        }
        i = i + 1;
    }
    proof {
        assert(all.take(i as int) =~= all);
    }
    output::put(&mut lines, output::say(""));
    if auth.len() == 0 {
        output::put(&mut lines, output::say("No JSESSIONID cookies found — you may not be logged in."));
    } else {
        let s = text::cat2("rj will use: ", text::join(&auth, ", ").as_str());
        output::put(&mut lines, output::say(s.as_str()));
        let s = text::cat3("Run with --from-", browser.name().as_str(), " to authenticate.");
        output::put(&mut lines, output::say(s.as_str()));
    }
    proof {
        assert(output::line_views(lines@) =~= names_lines(browser, all));
    }
    lines
}

// ---------------------------------------------------------------------------
// Laws
// ---------------------------------------------------------------------------

/// The host name of an address is what stands between its scheme, if it has one, and the port or
/// the path, if it has one.
pub proof fn law_hostname_of_address(host: Seq<char>, rest: Seq<char>)
    requires
        !host.contains('/'),
        !host.contains(':'),
        rest.len() == 0 || rest[0] == '/' || (rest[0] == ':' && rest.len() > 1 && rest[1] != '/'),
    ensures
        hostname_of(host + rest) == host,
        hostname_of("https://"@ + host + rest) == host,
        hostname_of("http://"@ + host + rest) == host,
{
    reveal_strlit("https://");
    reveal_strlit("http://");
    let secure = "https://"@;
    let plain = "http://"@;
    let address = host + rest;
    lemma_no_scheme(host, rest);
    text::law_without_prefix(address, secure);
    text::law_without_prefix(address, plain);
    assert(secure + host + rest =~= secure + address);
    assert(plain + host + rest =~= plain + address);
    assert(!secure.is_prefix_of(plain + address)) by {
        if secure.is_prefix_of(plain + address) {
            assert((plain + address).subrange(0, 8)[4] == secure[4]);
        }
    }
    text::law_without_prefix(plain + address, secure);
    lemma_host_before(host, rest);
}

/// What begins with a host name does not begin with a scheme.
proof fn lemma_no_scheme(host: Seq<char>, rest: Seq<char>)
    requires
        !host.contains('/'),
        !host.contains(':'),
        rest.len() == 0 || rest[0] == '/' || (rest[0] == ':' && rest.len() > 1 && rest[1] != '/'),
    ensures
        !"https://"@.is_prefix_of(host + rest),
        !"http://"@.is_prefix_of(host + rest),
{
    reveal_strlit("https://");
    reveal_strlit("http://");
    let address = host + rest;
    let n = host.len() as int;
    if "https://"@.is_prefix_of(address) {
        let head = address.subrange(0, 8);
        assert(head[5] == ':' && head[6] == '/');
        assert(forall|i: int| 0 <= i < 5 ==> #[trigger] head[i] != '/' && head[i] != ':');
        if n > 5 {
            assert(host.contains(host[5]));
        } else {
            assert(head[n] == rest[0]);
            assert(n == 5 ==> head[6] == rest[1]);
        }
    }
    if "http://"@.is_prefix_of(address) {
        let head = address.subrange(0, 7);
        assert(head[4] == ':' && head[5] == '/');
        assert(forall|i: int| 0 <= i < 4 ==> #[trigger] head[i] != '/' && head[i] != ':');
        if n > 4 {
            assert(host.contains(host[4]));
        } else {
            assert(head[n] == rest[0]);
            assert(n == 4 ==> head[5] == rest[1]);
        }
    }
}

proof fn lemma_host_before(host: Seq<char>, rest: Seq<char>)
    requires
        !host.contains('/'),
        !host.contains(':'),
        rest.len() == 0 || rest[0] == '/' || rest[0] == ':',
    ensures
        text::before(text::before(host + rest, '/'), ':') == host,
{
    let address = host + rest;
    let n = host.len() as int;
    text::law_before(address, '/');
    let front = text::before(address, '/');
    assert(address.subrange(0, front.len() as int) == front);
    if front.len() < n {
        assert(address[front.len() as int] == '/');
        assert(host.contains(host[front.len() as int]));
    }
    assert(front.take(n) =~= host) by {
        assert forall|i: int| 0 <= i < n implies front[i] == host[i] by {
            assert(address.subrange(0, front.len() as int)[i] == address[i]);
        }
    }
    assert forall|i: int| 0 <= i < n implies front[i] != ':' by {
        assert(front.take(n)[i] == host[i]);
        assert(host.contains(host[i]));
    }
    if front.len() > n {
        assert(front[n] == rest[0]) by {
            assert(address.subrange(0, front.len() as int)[n] == address[n]);
        }
        if rest[0] == '/' {
            assert(front.contains(front[n]));
        }
    }
    text::lemma_position_is(front, ':', n as nat);
}

/// A name in brackets opens the section of that name, and nothing without brackets opens one.
pub proof fn law_section_name(name: Seq<char>, line: Seq<char>)
    ensures
        section_name(seq!['['] + name + seq![']']) == Some(name),
        section_name(line) matches Some(n) ==> line == seq!['['] + n + seq![']'],
{
    let opened = seq!['['] + name + seq![']'];
    assert(opened.subrange(1, opened.len() - 1) =~= name);
    if let Some(n) = section_name(line) {
        assert(line =~= seq!['['] + n + seq![']']);
    }
}

/// An entry is a key and a value round the first equals sign, without the white space round
/// each; a line without the sign is none.
pub proof fn law_entry_of(line: Seq<char>, key: Seq<char>, value: Seq<char>)
    requires
        !key.contains('='),
    ensures
        entry_of(key + seq!['='] + value) == Some((text::trimmed(key), text::trimmed(value))),
        entry_of(line) is Some <==> line.contains('='),
{
    let whole = key + seq!['='] + value;
    assert forall|i: int| 0 <= i < key.len() implies whole[i] != '=' by {
        assert(key.contains(key[i]));
    }
    text::lemma_position_is(whole, '=', key.len());
    assert(whole.take(key.len() as int) =~= key);
    assert(whole.skip(key.len() as int + 1) =~= value);
    text::law_cut(line, '=');
}

/// A name in brackets opens another section, without entries; an entry is added to the section
/// that was opened last, and to no other; any other line, and an entry before the first section,
/// changes nothing.
pub proof fn law_sections(lines: Seq<Seq<char>>, name: Seq<char>, line: Seq<char>)
    ensures
        sections(lines.push(seq!['['] + name + seq![']'])) == sections(lines).push(
            Section { name, entries: Seq::empty() },
        ),
        section_name(line) is None ==> {
            let before = sections(lines);
            let after = sections(lines.push(line));
            &&& after.len() == before.len()
            &&& before.len() == 0 || !line.contains('=') ==> after == before
            &&& before.len() > 0 && line.contains('=') ==> {
                &&& after.drop_last() == before.drop_last()
                &&& after.last().name == before.last().name
                &&& after.last().entries.drop_last() == before.last().entries
                &&& after.last().entries.len() == before.last().entries.len() + 1
                &&& Some(after.last().entries.last()) == entry_of(line)
            }
        },
{
    let opened = seq!['['] + name + seq![']'];
    law_section_name(name, line);
    assert(lines.push(opened).drop_last() =~= lines);
    assert(lines.push(line).drop_last() =~= lines);
    law_entry_of(line, Seq::empty(), Seq::empty());
    if section_name(line) is None {
        let before = sections(lines);
        let after = sections(lines.push(line));
        if before.len() > 0 && line.contains('=') {
            assert(after.drop_last() =~= before.drop_last());
            assert(after.last().entries.drop_last() =~= before.last().entries);
        }
    }
}

/// The value of a key is the one that it was given last, and a key that was given none has none.
pub proof fn law_last_value(entries: Seq<(Seq<char>, Seq<char>)>, key: Seq<char>, i: int)
    requires
        -1 <= i < entries.len(),
        i >= 0 ==> entries[i].0 == key,
        forall|k: int| i < k < entries.len() ==> (#[trigger] entries[k]).0 != key,
    ensures
        i >= 0 ==> last_value(entries, key) == Some(entries[i].1),
        i == -1 ==> last_value(entries, key) is None,
    decreases entries.len(),
{
    if entries.len() > 0 && i < entries.len() - 1 {
        assert(entries[entries.len() - 1].0 != key);
        assert forall|k: int| i < k < entries.drop_last().len() implies (#[trigger] entries.drop_last()[k]).0
            != key by {
            assert(entries[k].0 != key);
        }
        law_last_value(entries.drop_last(), key, i);
    }
}

/// The default of an installation is that of the last section of an installation that has one.
/// Sections of other names do not count, nor do sections without a default.
pub proof fn law_install_default(all: Seq<Section>, i: int)
    requires
        -1 <= i < all.len(),
        i >= 0 ==> "Install"@.is_prefix_of(all[i].name) && last_value(all[i].entries, "Default"@) is Some,
        forall|k: int|
            i < k < all.len() ==> !"Install"@.is_prefix_of((#[trigger] all[k]).name) || last_value(
                all[k].entries,
                "Default"@,
            ) is None,
    ensures
        i >= 0 ==> install_default(all) == last_value(all[i].entries, "Default"@),
        i == -1 ==> install_default(all) is None,
    decreases all.len(),
{
    if all.len() > 0 && i < all.len() - 1 {
        let last = all[all.len() - 1];
        assert(!"Install"@.is_prefix_of(last.name) || last_value(last.entries, "Default"@) is None);
        assert forall|k: int| i < k < all.drop_last().len() implies !"Install"@.is_prefix_of(
            (#[trigger] all.drop_last()[k]).name,
        ) || last_value(all.drop_last()[k].entries, "Default"@) is None by {
            assert(all[k] == all.drop_last()[k]);
        }
        law_install_default(all.drop_last(), i);
    }
}

/// The default among profiles is the path of the last profile that is marked with a one; it is
/// marked by any of its entries.
pub proof fn law_profile_default(all: Seq<Section>, i: int)
    requires
        -1 <= i < all.len(),
        i >= 0 ==> "Profile"@.is_prefix_of(all[i].name) && all[i].entries.contains(("Default"@, "1"@)),
        forall|k: int|
            i < k < all.len() ==> !("Profile"@.is_prefix_of((#[trigger] all[k]).name) && all[k].entries.contains(
                ("Default"@, "1"@),
            )),
    ensures
        i >= 0 ==> profile_default(all) == last_value(all[i].entries, "Path"@),
        i == -1 ==> profile_default(all) is None,
    decreases all.len(),
{
    if all.len() > 0 && i < all.len() - 1 {
        let last = all[all.len() - 1];
        assert(!("Profile"@.is_prefix_of(last.name) && last.entries.contains(("Default"@, "1"@))));
        assert forall|k: int| i < k < all.drop_last().len() implies !("Profile"@.is_prefix_of(
            (#[trigger] all.drop_last()[k]).name,
        ) && all.drop_last()[k].entries.contains(("Default"@, "1"@))) by {
            assert(all[k] == all.drop_last()[k]);
        }
        law_profile_default(all.drop_last(), i);
    }
}

/// Where no installation has a default, the mark of a profile counts.
pub proof fn law_profile_default_is_second(ini: Seq<char>)
    ensures
        install_default(sections(bare_lines(ini))) is None ==> default_profile(ini) == profile_default(
            sections(bare_lines(ini)),
        ),
{
}

/// A cookie authenticates where its name begins with that of a session cookie, whatever follows.
pub proof fn law_authenticates(name: Seq<char>)
    ensures
        authenticates("JSESSIONID"@ + name),
        authenticates(name) <==> name.len() >= 10 && name.take(10) == "JSESSIONID"@,
{
    reveal_strlit("JSESSIONID");
    let longer = "JSESSIONID"@ + name;
    assert(longer.subrange(0, "JSESSIONID"@.len() as int) =~= "JSESSIONID"@);
    if name.len() >= 10 {
        assert(name.subrange(0, 10) =~= name.take(10));
    }
}

/// In a header a cookie stands as its name, an equals sign and its value, from which both can be
/// read back.
pub proof fn law_cookie_pair(name: Seq<char>, value: Seq<char>)
    ensures
        !name.contains('=') ==> text::cut(cookie_pair(name, value), '=') == Some((name, value)),
        cookie_pair(name, value).len() == name.len() + 1 + value.len(),
        name.is_prefix_of(cookie_pair(name, value)) && value.is_suffix_of(cookie_pair(name, value)),
{
    reveal_strlit("=");
    let pair = cookie_pair(name, value);
    assert(pair.subrange(0, name.len() as int) =~= name);
    text::lemma_suffix(name + "="@, value);
    if !name.contains('=') {
        assert forall|i: int| 0 <= i < name.len() implies pair[i] != '=' by {
            assert(name.contains(name[i]));
        }
        text::lemma_position_is(pair, '=', name.len());
        assert(pair.take(name.len() as int) =~= name);
        assert(pair.skip(name.len() as int + 1) =~= value);
    }
}

/// Each cookie of Firefox that authenticates stands in the header, once, in order, and no other
/// does.
pub proof fn law_firefox_pairs(rows: Seq<CookieRow>, row: CookieRow)
    ensures
        firefox_pairs(Seq::empty()).len() == 0,
        authenticates(row.name@) ==> firefox_pairs(rows.push(row)) == firefox_pairs(rows).push(
            cookie_pair(row.name@, row.value@),
        ),
        !authenticates(row.name@) ==> firefox_pairs(rows.push(row)) == firefox_pairs(rows),
{
    reveal(Seq::filter);
    assert(rows.push(row).drop_last() =~= rows);
    if authenticates(row.name@) {
        assert(firefox_pairs(rows.push(row)) =~= firefox_pairs(rows).push(cookie_pair(row.name@, row.value@)));
    }
}

/// A cookie of Chrome with a plain value is used with it, whatever else it holds. One without is
/// used with what its encrypted value gives, where it has one and there is a key.
pub proof fn law_chrome_cookie_is_used(platform: Platform, row: ChromeRow, master_key: Seq<u8>)
    ensures
        ({
            let cookie = chrome_cookie(platform, row, master_key);
            let outcome = chrome::decrypted(platform, row.encrypted_value@, master_key);
            let can = row.encrypted_value@.len() > 0 && master_key.len() > 0;
            &&& row.value@.len() > 0 ==> cookie.used == Some(cookie_pair(row.name@, row.value@)) && cookie.lines.len()
                == 0
            &&& row.value@.len() == 0 && can ==> (outcome matches Ok(value) ==> cookie.used == Some(
                cookie_pair(row.name@, value),
            ))
            &&& row.value@.len() == 0 && can ==> (outcome is Err ==> cookie.used is None)
            &&& row.value@.len() == 0 && !can ==> cookie.used is None
        }),
{
}

/// A cookie of Chrome that is left out is reported, last, on the standard error, by its name and
/// with the reason.
pub proof fn law_skipped_cookie_is_reported(platform: Platform, row: ChromeRow, master_key: Seq<u8>)
    ensures
        ({
            let cookie = chrome_cookie(platform, row, master_key);
            cookie.used is None ==> {
                &&& cookie.lines.len() > 0
                &&& cookie.lines.last().stream == output::Stream::Error
                &&& ("  [debug] "@ + row.name@).is_prefix_of(cookie.lines.last().spans[0].1)
                &&& cookie.lines.last().spans[0].1.len() > ("  [debug] "@ + row.name@).len()
            }
        }),
{
    reveal_strlit(": both value and encrypted_value are empty — skipping");
    reveal_strlit(": no master key available — skipping");
    reveal_strlit(": decryption failed — ");
    let cookie = chrome_cookie(platform, row, master_key);
    let front = "  [debug] "@ + row.name@;
    if cookie.used is None {
        let words = cookie.lines.last().spans[0].1;
        assert(words.subrange(0, front.len() as int) =~= front);
    }
}

/// Each cookie of Chrome that authenticates is dealt with, once, in order, and no other is.
pub proof fn law_chrome_cookie_list(
    platform: Platform,
    rows: Seq<ChromeRow>,
    row: ChromeRow,
    master_key: Seq<u8>,
)
    ensures
        chrome_cookie_list(platform, Seq::empty(), master_key).len() == 0,
        authenticates(row.name@) ==> chrome_cookie_list(platform, rows.push(row), master_key) == chrome_cookie_list(
            platform,
            rows,
            master_key,
        ).push(chrome_cookie(platform, row, master_key)),
        !authenticates(row.name@) ==> chrome_cookie_list(platform, rows.push(row), master_key) == chrome_cookie_list(
            platform,
            rows,
            master_key,
        ),
{
    reveal(Seq::filter);
    assert(rows.push(row).drop_last() =~= rows);
    if authenticates(row.name@) {
        assert(chrome_cookie_list(platform, rows.push(row), master_key) =~= chrome_cookie_list(
            platform,
            rows,
            master_key,
        ).push(chrome_cookie(platform, row, master_key)));
    }
}

/// The cookies that are used stand in the header in order, and those that are left out do not;
/// what is reported of them comes in order too, also of those that are left out.
pub proof fn law_used_pairs(a: Seq<CookieModel>, b: Seq<CookieModel>, cookie: CookieModel)
    ensures
        used_pairs(a + b) == used_pairs(a) + used_pairs(b),
        used_pairs(seq![cookie]) == (match cookie.used {
            Some(pair) => seq![pair],
            None => Seq::empty(),
        }),
        cookie_lines(a + b) == cookie_lines(a) + cookie_lines(b),
        cookie_lines(seq![cookie]) == cookie.lines,
    decreases b.len(),
{
    reveal_with_fuel(used_pairs, 2);
    reveal_with_fuel(cookie_lines, 2);
    let one = seq![cookie];
    assert(one.drop_last() =~= Seq::<CookieModel>::empty());
    assert(used_pairs(one) =~= match cookie.used {
        Some(pair) => seq![pair],
        None => Seq::empty(),
    });
    assert(cookie_lines(one) =~= cookie.lines);
    if b.len() > 0 {
        law_used_pairs(a, b.drop_last(), cookie);
        assert((a + b).drop_last() =~= a + b.drop_last());
        assert((a + b).last() == b.last());
        assert(used_pairs(a + b) =~= used_pairs(a) + used_pairs(b));
        assert(cookie_lines(a + b) =~= cookie_lines(a) + cookie_lines(b));
    } else {
        assert(a + b =~= a);
        assert(used_pairs(a) + used_pairs(b) =~= used_pairs(a));
        assert(cookie_lines(a) + cookie_lines(b) =~= cookie_lines(a));
    }
}

/// The names that authenticate are kept, in order, and all others are not.
pub proof fn law_auth_names(names: Seq<Seq<char>>, name: Seq<char>)
    ensures
        auth_names(Seq::empty()).len() == 0,
        authenticates(name) ==> auth_names(names.push(name)) == auth_names(names).push(name),
        !authenticates(name) ==> auth_names(names.push(name)) == auth_names(names),
{
    reveal(Seq::filter);
    assert(names.push(name).drop_last() =~= names);
}

/// Every cookie is listed by its name, in order, and marked as one that authenticates exactly
/// where it does; the number of them stands first.
pub proof fn law_names_are_listed(browser: Browser, names: Seq<Seq<char>>, i: int)
    requires
        0 <= i < names.len(),
    ensures
        ({
            let lines = names_lines(browser, names);
            let words = lines[i + 1].spans[0].1;
            &&& lines.len() == names.len() + 2 + auth_lines(browser, names).len()
            &&& ("Found "@ + text::decimal(names.len())).is_prefix_of(lines[0].spans[0].1)
            &&& ("  "@ + names[i]).is_prefix_of(words)
            &&& authenticates(names[i]) <==> "  ← auth"@ == words.skip(("  "@ + names[i]).len() as int)
        }),
{
    reveal_strlit("  ← auth");
    reveal_strlit("  (preference, ignored)");
    let lines = names_lines(browser, names);
    let front = "  "@ + names[i];
    let words = name_line(names[i]).spans[0].1;
    assert(lines[i + 1] == name_line(names[i]));
    assert(words.subrange(0, front.len() as int) =~= front);
    let mark = if authenticates(names[i]) { "  ← auth"@ } else { "  (preference, ignored)"@ };
    assert(words.skip(front.len() as int) =~= mark);
    assert("  ← auth"@.len() != "  (preference, ignored)"@.len());
    let first = "Found "@ + text::decimal(names.len());
    assert(lines[0].spans[0].1.subrange(0, first.len() as int) =~= first);
}

/// The cookies that would be used are named, joined by commas, with the flag that uses them; the
/// words are others where there is none to use.
pub proof fn law_auth_lines(browser: Browser, names: Seq<Seq<char>>)
    ensures
        ({
            let lines = auth_lines(browser, names);
            let auth = auth_names(names);
            &&& auth.len() == 0 ==> lines.len() == 1
            &&& auth.len() > 0 ==> {
                &&& lines.len() == 2
                &&& text::joined(auth, ", "@).is_suffix_of(lines[0].spans[0].1)
                &&& text::occurs(lines[1].spans[0].1, "--from-"@ + browser.word())
            }
        }),
{
    reveal_strlit("Run with --from-");
    reveal_strlit("--from-");
    text::lemma_suffix("rj will use: "@, text::joined(auth_names(names), ", "@));
    let words = "Run with --from-"@ + browser.word() + " to authenticate."@;
    let flag = "--from-"@ + browser.word();
    assert(words.subrange(9int, 9int + flag.len()) =~= flag);
    assert(text::occurs(words, flag));
}

/// Where there are no cookies the user is told so first, is pointed to the browser, and to its
/// profiles where it is Chrome.
pub proof fn law_no_names_lines(browser: Browser)
    ensures
        names_lines(browser, Seq::empty()) == no_names_lines(browser),
        no_names_lines(browser)[0] == output::said("No cookies found."@),
        browser.word().is_suffix_of(no_names_lines(browser)[3].spans[0].1),
        no_names_lines(browser).len() == if browser == Browser::Chrome { 8nat } else { 5nat },
{
    text::lemma_suffix("  • Make sure you are logged into Jenkins in "@, browser.word());
}

/// The lines of a text are cut at line feeds, in order, without the white space round them, which
/// a carriage return is part of.
pub proof fn law_bare_lines(s: Seq<char>, line: Seq<char>)
    requires
        !line.contains('\n'),
    ensures
        bare_lines(line) == seq![text::trimmed(line)],
        bare_lines(s + seq!['\n'] + line) == bare_lines(s).push(text::trimmed(line)),
        text::trimmed(line + seq!['\r']) == text::trimmed(line),
{
    text::law_pieces_of_joined(s, line, '\n');
    assert(bare_lines(line) =~= seq![text::trimmed(line)]);
    assert(bare_lines(s + seq!['\n'] + line) =~= bare_lines(s).push(text::trimmed(line)));
    text::law_trimmed_ignores_white_space(Seq::empty(), line, seq!['\r']);
    assert(Seq::<char>::empty() + line + seq!['\r'] =~= line + seq!['\r']);
}

/// Chrome counts from the start of 1601: from there to the start of 1970 there are 369 years, 89
/// of them with a leap day.
pub proof fn law_chrome_epoch()
    ensures
        CHROME_EPOCH_OFFSET_US == (369 * 365 + 89) * 86_400 * 1_000_000,
{
}

/// The errors name what they are about: the address, the host, the profile or the browser.
pub proof fn law_browser_errors_name_their_cause(
    address: NoHostname,
    host: NoCookies,
    profile: NoCookieDb,
    browser: UnknownBrowser,
)
    ensures
        address.url@.is_suffix_of(address.words()),
        text::occurs(host.words(), "'"@ + host.hostname@ + "'"@),
        text::occurs(profile.words(), "'"@ + profile.profile@ + "'"@),
        text::occurs(browser.words(), "'"@ + browser.name@ + "'"@),
        text::occurs(browser.words(), "'chrome' or 'firefox'"@),
{
    reveal_strlit("'");
    reveal_strlit("no valid session cookies found for '");
    reveal_strlit("' in your browser.\n");
    reveal_strlit("Chrome cookie database not found for profile '");
    reveal_strlit("'.\n");
    reveal_strlit("unknown browser '");
    reveal_strlit("' — use 'chrome' or 'firefox'");
    reveal_strlit("'chrome' or 'firefox'");
    text::lemma_suffix("could not extract hostname from URL: "@, address.url@);
    let a = "'"@ + host.hostname@ + "'"@;
    let i = "no valid session cookies found for '"@.len() as int - 1;
    assert(host.words().subrange(i, i + a.len()) =~= a);
    let b = "'"@ + profile.profile@ + "'"@;
    let j = "Chrome cookie database not found for profile '"@.len() as int - 1;
    assert(profile.words().subrange(j, j + b.len()) =~= b);
    let c = "'"@ + browser.name@ + "'"@;
    assert(browser.words().subrange(16int, 16int + c.len()) =~= c);
    let known = "'chrome' or 'firefox'"@;
    let k = browser.words().len() - known.len();
    assert(browser.words().subrange(k, k + known.len()) =~= known);
}

/// What is reported of decrypting a cookie of Chrome stands before what became of it, and is all
/// that is reported of one that is used.
pub proof fn law_decryption_is_reported(platform: Platform, row: ChromeRow, master_key: Seq<u8>)
    requires
        row.value@.len() == 0,
        row.encrypted_value@.len() > 0,
        master_key.len() > 0,
    ensures
        ({
            let cookie = chrome_cookie(platform, row, master_key);
            let lines = chrome::decrypt_lines(platform, row.encrypted_value@, master_key);
            &&& lines.is_prefix_of(cookie.lines)
            &&& cookie.used is Some ==> cookie.lines == lines
            &&& cookie.used is None ==> cookie.lines.len() == lines.len() + 1
            &&& chrome::decrypted(platform, row.encrypted_value@, master_key) matches Err(e) ==> e.words().is_suffix_of(
                cookie.lines.last().spans[0].1,
            )
        }),
{
    lemma_decryption_is_reported(
        row.name@,
        chrome::decrypted(platform, row.encrypted_value@, master_key),
        chrome::decrypt_lines(platform, row.encrypted_value@, master_key),
    );
}

proof fn lemma_decryption_is_reported(
    name: Seq<char>,
    outcome: Result<Seq<char>, DecryptError>,
    lines: Seq<output::LineModel>,
)
    ensures
        ({
            let cookie = decrypted_cookie(name, outcome);
            let all = lines + cookie.lines;
            &&& lines.is_prefix_of(all)
            &&& cookie.used is Some ==> all == lines
            &&& cookie.used is None ==> all.len() == lines.len() + 1
            &&& outcome matches Err(e) ==> e.words().is_suffix_of(all.last().spans[0].1)
        }),
{
    let cookie = decrypted_cookie(name, outcome);
    let all = lines + cookie.lines;
    assert(all.subrange(0, lines.len() as int) =~= lines);
    if let Err(e) = outcome {
        let front = "  [debug] "@ + name + ": decryption failed — "@;
        let words = all.last().spans[0].1;
        assert(words =~= front + e.words());
        text::lemma_suffix(front, e.words());
    } else {
        assert(all =~= lines);
    }
}

} // verus!
