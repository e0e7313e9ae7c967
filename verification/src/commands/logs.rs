//! The command that streams the console log of a build.

use vstd::prelude::*;
use crate::client;
use crate::headers;
use crate::http;
use crate::http::HttpStatus;
use crate::output;
use crate::output::Line;
use crate::text;

verus! {

/// What the server says of a job's latest build.
#[derive(Debug)]
pub struct JobSummary {
    pub last_build: Option<LastBuild>,
}

#[derive(Debug)]
pub struct LastBuild {
    pub number: u64,
}

// ---------------------------------------------------------------------------
// Headers of a piece of log
// ---------------------------------------------------------------------------

/// The number that a header gives, or zero.
pub open spec fn number_or_zero(size: Option<Seq<char>>) -> u64 {
    match size {
        Some(s) => match text::parsed_u64(s) {
            Some(n) => n,
            None => 0,
        },
        None => 0,
    }
}

/// Whether a header says `true`, in whatever case it is written.
pub open spec fn says_true(word: Option<Seq<char>>) -> bool {
    word matches Some(w) && text::lowered(w) == "true"@
}

/// Where the next piece of a log starts: the number in `X-Text-Size`, or zero.
pub open spec fn next_offset(headers: Map<Seq<char>, Seq<u8>>) -> u64 {
    number_or_zero(headers::header_text(headers, "X-Text-Size"@))
}

/// Whether a log goes on: whether `X-More-Data` is `true`.
pub open spec fn goes_on(headers: Map<Seq<char>, Seq<u8>>) -> bool {
    says_true(headers::header_text(headers, "X-More-Data"@))
}

/// The number that a header gives, or zero.
pub fn read_size(size: Option<String>) -> (r: u64)
    ensures
        r == number_or_zero(text::option_view(size)),
{
    match size {
        Some(s) => match text::parse_u64(s.as_str()) {
            Some(n) => n,
            None => 0,
        },
        None => 0,
    }
}

/// Whether a header says `true`.
pub fn read_flag(word: Option<String>) -> (r: bool)
    ensures
        r == says_true(text::option_view(word)),
{
    match word {
        Some(w) => text::same_text(text::to_lower(w.as_str()).as_str(), "true"),
        None => false,
    }
}

/// Where the next piece of a log starts.
pub fn next_start(headers: &reqwest::header::HeaderMap) -> (r: u64)
    ensures
        r == next_offset(headers::header_map(*headers)),
{
    read_size(headers::header_value(headers, "X-Text-Size"))
}

/// Whether the build is running, and more of its log will come.
pub fn more_data(headers: &reqwest::header::HeaderMap) -> (r: bool)
    ensures
        r == goes_on(headers::header_map(*headers)),
{
    read_flag(headers::header_value(headers, "X-More-Data"))
}

// ---------------------------------------------------------------------------
// Which build
// ---------------------------------------------------------------------------

/// The path, relative to the server, of what it says of a job.
pub fn summary_path(job: &str) -> (r: String)
    ensures
        r@ == client::job_address(job@, "/api/json"@),
{
    client::job_path(job, "/api/json")
}

/// Why a job's latest build is not known.
#[derive(Debug)]
pub enum LatestError {
    Refused(String, HttpStatus),
    /// The job was never built.
    NoBuilds(String),
}

/// Whether the answer to the question for a job's latest build holds an answer.
pub fn check_summary(job: &str, status: HttpStatus) -> (r: Result<(), LatestError>)
    ensures
        match r {
            Ok(_) => http::successful(status@),
            Err(LatestError::Refused(j, s)) => !http::successful(status@) && j@ == job@ && s == status,
            Err(LatestError::NoBuilds(_)) => false,
        },
{
    if status.is_success() {
        Ok(())
    } else {
        Err(LatestError::Refused(job.to_owned(), status))
    }
}

/// The number of a job's latest build.
pub fn latest_build(job: &str, summary: &JobSummary) -> (r: Result<u64, LatestError>)
    ensures
        match r {
            Ok(n) => summary.last_build matches Some(b) && b.number == n,
            Err(LatestError::NoBuilds(j)) => summary.last_build is None && j@ == job@,
            Err(LatestError::Refused(_, _)) => false,
        },
{
    match &summary.last_build {
        Some(build) => Ok(build.number),
        None => Err(LatestError::NoBuilds(job.to_owned())),
    }
}

impl LatestError {
    pub open spec fn words(self) -> Seq<char> {
        match self {
            LatestError::Refused(job, status) => "could not fetch job info for '"@ + job@ + "': HTTP "@
                + http::status_text(status@),
            LatestError::NoBuilds(job) => "job '"@ + job@ + "' has no builds yet"@,
        }
    }

    /// The error in words.
    pub fn message(&self) -> (r: String)
        ensures
            r@ == self.words(),
    {
        match self {
            LatestError::Refused(job, status) => text::cat4(
                "could not fetch job info for '",
                job.as_str(),
                "': HTTP ",
                status.text().as_str(),
            ),
            LatestError::NoBuilds(job) => text::cat3("job '", job.as_str(), "' has no builds yet"),
        }
    }
}

/// The line that opens a stream.
pub fn stream_heading(job: &str, build: u64) -> (r: Line)
    ensures
        r@ == output::said("Streaming logs for "@ + job@ + " #"@ + text::decimal(build as nat) + "\n"@),
{
    output::say(
        text::cat5("Streaming logs for ", job, " #", text::show_u64(build).as_str(), "\n").as_str(),
    )
}

// ---------------------------------------------------------------------------
// The stream
// ---------------------------------------------------------------------------

/// The stream of a build's log, at the place that it was read up to.
#[derive(Debug)]
pub struct LogStream {
    job: String,
    build: u64,
    start: u64,
    poll_ms: u64,
}

/// What a [`LogStream`] stands for.
pub struct LogStreamModel {
    pub job: Seq<char>,
    pub build: u64,
    pub start: u64,
    pub poll_ms: u64,
}

impl View for LogStream {
    type V = LogStreamModel;

    closed spec fn view(&self) -> LogStreamModel {
        LogStreamModel { job: self.job@, build: self.build, start: self.start, poll_ms: self.poll_ms }
    }
}

/// What follows from a piece of log.
#[derive(Debug, Clone, Copy)]
pub enum LogStep {
    /// Print it, and end.
    Last,
    /// Print it, wait for so many milliseconds, and ask for the next.
    MoreAfter(u64),
    /// The server did not hand it out.
    Refused(HttpStatus),
}

impl LogStreamModel {
    /// The path, relative to the server, of the next piece of log.
    pub open spec fn path(self) -> Seq<char> {
        client::job_address(
            self.job,
            "/"@ + text::decimal(self.build as nat) + "/logText/progressiveText?start="@ + text::decimal(
                self.start as nat,
            ),
        )
    }

    /// The stream once a piece of log with these headers was read.
    pub open spec fn advanced(self, headers: Map<Seq<char>, Seq<u8>>) -> LogStreamModel {
        LogStreamModel { start: next_offset(headers), ..self }
    }
}

impl LogStream {
    /// A stream at the start of a build's log.
    pub fn new(job: &str, build: u64, poll_ms: u64) -> (r: LogStream)
        ensures
            r@ == (LogStreamModel { job: job@, build, start: 0, poll_ms }),
    {
        LogStream { job: job.to_owned(), build, start: 0, poll_ms }
    }

    /// The place in the log that was read up to.
    pub fn start(&self) -> (r: u64)
        ensures
            r == self@.start,
    {
        self.start
    }

    /// The path, relative to the server, of the next piece of log.
    pub fn path(&self) -> (r: String)
        ensures
            r@ == self@.path(),
    {
        let rest = text::cat4(
            "/",
            text::show_u64(self.build).as_str(),
            "/logText/progressiveText?start=",
            text::show_u64(self.start).as_str(),
        );
        client::job_path(self.job.as_str(), rest.as_str())
    }

    /// Takes what is said of a piece of log: where the next one starts, and whether there will
    /// be one.
    pub fn advance(&mut self, status: HttpStatus, next: u64, more: bool) -> (r: LogStep)
        ensures
            match r {
                LogStep::Refused(s) => !http::successful(status@) && s == status && final(self)@ == old(self)@,
                LogStep::Last => {
                    &&& http::successful(status@) && !more
                    &&& final(self)@ == (LogStreamModel { start: next, ..old(self)@ })
                },
                LogStep::MoreAfter(ms) => {
                    &&& http::successful(status@) && more
                    &&& ms == old(self)@.poll_ms
                    &&& final(self)@ == (LogStreamModel { start: next, ..old(self)@ })
                },
            },
            r is Refused <==> !(200 <= status@ < 300),
            final(self)@.start == if r is Refused { old(self)@.start } else { next },
            final(self)@.job == old(self)@.job && final(self)@.build == old(self)@.build,
    {
        if !status.is_success() {
            return LogStep::Refused(status);
        }
        self.start = next;
        if more {
            LogStep::MoreAfter(self.poll_ms)
        } else {
            LogStep::Last
        }
    }

    /// Takes the status and the headers of a piece of log. Each piece starts where the one
    /// before said, and the stream ends with the first that says that no more will come.
    pub fn handle(&mut self, status: HttpStatus, reply_headers: &reqwest::header::HeaderMap) -> (r: LogStep)
        ensures
            match r {
                LogStep::Refused(s) => !http::successful(status@) && s == status && final(self)@ == old(self)@,
                LogStep::Last => {
                    &&& http::successful(status@)
                    &&& !goes_on(headers::header_map(*reply_headers))
                    &&& final(self)@ == old(self)@.advanced(headers::header_map(*reply_headers))
                },
                LogStep::MoreAfter(ms) => {
                    &&& http::successful(status@)
                    &&& goes_on(headers::header_map(*reply_headers))
                    &&& ms == old(self)@.poll_ms
                    &&& final(self)@ == old(self)@.advanced(headers::header_map(*reply_headers))
                },
            },
    {
        self.advance(status, next_start(reply_headers), more_data(reply_headers))
    }
}

/// The words for a log that the server does not hand out.
pub fn log_refused(status: HttpStatus) -> (r: String)
    ensures
        r@ == "log endpoint returned HTTP "@ + http::status_text(status@),
{
    text::cat2("log endpoint returned HTTP ", status.text().as_str())
}

/// The paths that a stream asks for, one piece after the other, where `pieces` are the headers
/// that the server answers with.
pub open spec fn streamed_paths(stream: LogStreamModel, pieces: Seq<Map<Seq<char>, Seq<u8>>>) -> Seq<Seq<char>>
    decreases pieces.len(),
{
    if pieces.len() == 0 {
        Seq::empty()
    } else if goes_on(pieces[0]) {
        seq![stream.path()] + streamed_paths(stream.advanced(pieces[0]), pieces.skip(1))
    } else {
        seq![stream.path()]
    }
}

/// A stream asks for the first piece where it stands, and for each further one where the piece
/// before said. It stops after the first piece that does not say that the log goes on.
pub proof fn law_stream_advances(stream: LogStreamModel, pieces: Seq<Map<Seq<char>, Seq<u8>>>, n: int)
    requires
        0 <= n < pieces.len(),
        forall|k: int| 0 <= k < n ==> goes_on(#[trigger] pieces[k]),
    ensures
        streamed_paths(stream, pieces).len() > n,
        streamed_paths(stream, pieces)[n] == (LogStreamModel {
            start: if n == 0 {
                stream.start
            } else {
                next_offset(pieces[n - 1])
            },
            ..stream
        }).path(),
        !goes_on(pieces[n]) ==> streamed_paths(stream, pieces).len() == n + 1,
    decreases pieces.len(),
{
    if n > 0 {
        assert(goes_on(pieces[0]));
        let rest = pieces.skip(1);
        let after = stream.advanced(pieces[0]);
        assert forall|k: int| 0 <= k < n - 1 implies goes_on(#[trigger] rest[k]) by {
            assert(rest[k] == pieces[k + 1]);
        }
        law_stream_advances(after, rest, n - 1);
        assert(rest[n - 1] == pieces[n]);
        if n > 1 {
            assert(rest[n - 2] == pieces[n - 1]);
        }
    }
}

/// The path of the next piece ends in `?start=` and the digits of the whole offset, so that what
/// follows its last `=` can be read back as that offset.
pub proof fn law_path_ends_in_offset(stream: LogStreamModel)
    ensures
        ("?start="@ + text::decimal(stream.start as nat)).is_suffix_of(stream.path()),
        text::parsed_u64(text::after_last(stream.path(), '=')) == Some(stream.start),
{
    reveal_strlit("/logText/progressiveText?start=");
    reveal_strlit("?start=");
    let path = stream.path();
    let digits = text::decimal(stream.start as nat);
    let front = path.take(path.len() - digits.len());
    text::lemma_decimal(stream.start as nat);
    text::law_parse_of_decimal(stream.start);
    assert(path =~= front + digits);
    assert(front.last() == '=');
    assert(path.subrange(path.len() - "?start="@.len() - digits.len(), path.len() as int) =~= "?start="@ + digits);
    assert forall|i: int| front.len() <= i < path.len() implies path[i] != '=' by {
        assert(path[i] == digits[i - front.len()]);
        assert(text::is_digit(digits[i - front.len()]));
    }
    text::lemma_past_last_is(path, '=', front.len());
    assert(text::after_last(path, '=') =~= digits);
}

/// Streams at different offsets ask for different paths.
pub proof fn law_offsets_have_their_own_paths(stream: LogStreamModel, other: LogStreamModel)
    ensures
        stream.start != other.start ==> stream.path() != other.path(),
{
    law_path_ends_in_offset(stream);
    law_path_ends_in_offset(other);
}

/// The path of a piece lies below its job, and the next segment is the number of the build.
pub proof fn law_path_names_build(stream: LogStreamModel)
    ensures
        ({
            let base = "job/"@ + client::job_url(stream.job) + seq!['/'];
            &&& base.is_prefix_of(stream.path())
            &&& text::parsed_u64(text::before(stream.path().skip(base.len() as int), '/')) == Some(stream.build)
        }),
{
    reveal_strlit("/");
    reveal_strlit("/logText/progressiveText?start=");
    let path = stream.path();
    let base = "job/"@ + client::job_url(stream.job) + seq!['/'];
    let digits = text::decimal(stream.build as nat);
    let rest = path.skip(base.len() as int);
    text::lemma_decimal(stream.build as nat);
    text::law_parse_of_decimal(stream.build);
    assert(path.subrange(0, base.len() as int) =~= base);
    assert(rest.take(digits.len() as int) =~= digits);
    assert(rest[digits.len() as int] == '/');
    assert forall|i: int| 0 <= i < digits.len() implies rest[i] != '/' by {
        assert(rest[i] == digits[i]);
        assert(text::is_digit(digits[i]));
    }
    text::lemma_position_is(rest, '/', digits.len());
}

/// A size is read in full, and what is no number counts as zero.
pub proof fn law_size_is_read(n: u64, s: Seq<char>)
    ensures
        number_or_zero(Some(text::decimal(n as nat))) == n,
        number_or_zero(None) == 0,
        s.len() == 0 || !text::is_digit(s.last()) ==> number_or_zero(Some(s)) == 0,
{
    text::law_parse_of_decimal(n);
    text::law_parsed_u64(s);
}

/// A log goes on exactly where the word is `true`, each of its letters in either case.
pub proof fn law_flag_is_read(word: Seq<char>)
    ensures
        !says_true(None),
        says_true(Some(word)) <==> {
            &&& word.len() == 4
            &&& word[0] == 't' || word[0] == 'T'
            &&& word[1] == 'r' || word[1] == 'R'
            &&& word[2] == 'u' || word[2] == 'U'
            &&& word[3] == 'e' || word[3] == 'E'
        },
{
    reveal_strlit("true");
    text::law_lowered(word);
    let low = text::lowered(word);
    if word.len() == 4 {
        assert(low[0] == text::lower(word[0]) && low[1] == text::lower(word[1]));
        assert(low[2] == text::lower(word[2]) && low[3] == text::lower(word[3]));
        assert(text::lower('T') == 't' && text::lower('R') == 'r' && text::lower('U') == 'u' && text::lower('E')
            == 'e');
        if says_true(Some(word)) {
            assert(low[0] == "true"@[0] && low[1] == "true"@[1] && low[2] == "true"@[2] && low[3] == "true"@[3]);
        }
        assert(low =~= "true"@ <==> low[0] == 't' && low[1] == 'r' && low[2] == 'u' && low[3] == 'e');
    }
}

/// A stream moves on to the offset that `X-Text-Size` gives, whatever it is, and to nothing else;
/// it goes on exactly where `X-More-Data` says so.
pub proof fn law_stream_follows_headers(
    stream: LogStreamModel,
    headers: Map<Seq<char>, Seq<u8>>,
    digits: Seq<u8>,
    n: u64,
)
    requires
        headers.contains_pair("x-text-size"@, digits),
        digits.len() == text::decimal(n as nat).len(),
        forall|i: int| 0 <= i < digits.len() ==> digits[i] as char == #[trigger] text::decimal(n as nat)[i],
    ensures
        stream.advanced(headers).start == n,
        stream.advanced(headers).job == stream.job,
        stream.advanced(headers).build == stream.build,
        stream.advanced(headers).poll_ms == stream.poll_ms,
{
    reveal_strlit("x-text-size");
    reveal_strlit("X-Text-Size");
    text::lemma_decimal(n as nat);
    text::law_parse_of_decimal(n);
    text::law_lowered("X-Text-Size"@);
    assert(text::lower('X') == 'x' && text::lower('T') == 't' && text::lower('S') == 's');
    assert(text::lowered("X-Text-Size"@) =~= "x-text-size"@);
    assert forall|i: int| 0 <= i < digits.len() implies headers::showable(#[trigger] digits[i]) by {
        assert(text::is_digit(text::decimal(n as nat)[i]));
        assert(digits[i] as char == text::decimal(n as nat)[i]);
    }
    assert(digits.map_values(|b: u8| b as char) =~= text::decimal(n as nat));
}

/// The errors for a job's latest build name the job, and give the status where there is one.
pub proof fn law_latest_errors_name_their_cause(job: String, status: HttpStatus)
    ensures
        text::occurs(LatestError::Refused(job, status).words(), "'"@ + job@ + "'"@),
        http::status_text(status@).is_suffix_of(LatestError::Refused(job, status).words()),
        text::occurs(LatestError::NoBuilds(job).words(), "'"@ + job@ + "'"@),
{
    reveal_strlit("'");
    reveal_strlit("could not fetch job info for '");
    reveal_strlit("': HTTP ");
    reveal_strlit("job '");
    reveal_strlit("' has no builds yet");
    let quoted = "'"@ + job@ + "'"@;
    let refused = LatestError::Refused(job, status).words();
    let none = LatestError::NoBuilds(job).words();
    assert(refused.subrange(29int, 29int + quoted.len()) =~= quoted);
    assert(none.subrange(4int, 4int + quoted.len()) =~= quoted);
    text::lemma_suffix("could not fetch job info for '"@ + job@ + "': HTTP "@, http::status_text(status@));
}

/// Whether a log goes on is read from `X-More-Data`, and where there is no such header it does
/// not. Without `X-Text-Size` the next piece starts at zero.
pub proof fn law_log_goes_on(headers: Map<Seq<char>, Seq<u8>>, word: Seq<char>)
    requires
        headers.contains_key("x-more-data"@) ==> headers["x-more-data"@].len() == word.len() && forall|i: int|
            0 <= i < word.len() ==> headers["x-more-data"@][i] as char == #[trigger] word[i] && ' ' <= word[i] <= '~',
    ensures
        headers.contains_key("x-more-data"@) ==> (goes_on(headers) <==> says_true(Some(word))),
        !headers.contains_key("x-more-data"@) ==> !goes_on(headers),
        !headers.contains_key("x-text-size"@) ==> next_offset(headers) == 0,
{
    reveal_strlit("x-text-size");
    reveal_strlit("X-Text-Size");
    reveal_strlit("x-more-data");
    reveal_strlit("X-More-Data");
    assert(text::lower('X') == 'x' && text::lower('T') == 't' && text::lower('S') == 's' && text::lower('M') == 'm'
        && text::lower('D') == 'd');
    assert(text::lowered("X-Text-Size"@) =~= "x-text-size"@);
    assert(text::lowered("X-More-Data"@) =~= "x-more-data"@);
    if headers.contains_key("x-more-data"@) {
        let bytes = headers["x-more-data"@];
        assert forall|i: int| 0 <= i < bytes.len() implies headers::showable(#[trigger] bytes[i]) by {
            assert(bytes[i] as char == word[i]);
        }
        assert(bytes.map_values(|b: u8| b as char) =~= word);
    }
}

} // verus!
