//! Following a build from the queue to its end, and the command that builds a job once for
//! each of a list of values of one of its parameters.

use vstd::prelude::*;
use crate::cli::SweepArgs;
use crate::client;
use crate::commands::builds;
use crate::commands::builds::BadParam;
use crate::headers;
use crate::http;
use crate::http::HttpStatus;
use crate::output;
use crate::output::Line;
use crate::text;

verus! {

// ---------------------------------------------------------------------------
// Answers of the server
// ---------------------------------------------------------------------------

/// An item of the build queue.
#[derive(Debug)]
pub struct QueueItem {
    pub cancelled: Option<bool>,
    pub executable: Option<QueueExecutable>,
}

/// The build that a queue item became.
#[derive(Debug)]
pub struct QueueExecutable {
    pub number: u64,
}

/// The state of a build.
#[derive(Debug)]
pub struct BuildStatus {
    pub building: bool,
    pub result: Option<String>,
}

// ---------------------------------------------------------------------------
// Queue items
// ---------------------------------------------------------------------------

/// An address that does not end in the number of a queue item.
#[derive(Debug)]
pub struct QueueIdError {
    pub location: String,
}

/// The number that an address ends in, slashes at its end aside.
pub open spec fn queue_id(location: Seq<char>) -> Option<u64> {
    text::parsed_u64(text::after_last(text::without_trailing(location, '/'), '/'))
}

/// The address of a queue item below the address of a build queue.
pub open spec fn item_address(base: Seq<char>, id: u64) -> Seq<char> {
    base + seq!['/'] + text::decimal(id as nat) + seq!['/']
}

proof fn lemma_item_address(base: Seq<char>, id: u64)
    ensures
        queue_id(item_address(base, id)) == Some(id),
{
    assert(slashes(1) =~= seq!['/']);
    law_queue_id_of_item_address(base, id, 1);
}

/// The number of the queue item in the address that a `Location` header gives:
/// `http://jenkins.example.com:8080/queue/item/123/` is that of item 123.
pub fn extract_queue_id(location: &str) -> (r: Result<u64, QueueIdError>)
    ensures
        match r {
            Ok(id) => queue_id(location@) == Some(id),
            Err(e) => queue_id(location@) is None && e.location@ == location@,
        },
        forall|base: Seq<char>, id: u64| location@ == #[trigger] item_address(base, id) ==> r == Ok::<u64, QueueIdError>(id),
{
    proof {
        assert forall|base: Seq<char>, id: u64| queue_id(#[trigger] item_address(base, id)) == Some(id) by {
            lemma_item_address(base, id);
        }
    }
    let trimmed = text::trim_end_char(location, '/');
    let last = text::text_after_last(trimmed.as_str(), '/');
    match text::parse_u64(last.as_str()) {
        Some(id) => Ok(id),
        None => Err(QueueIdError { location: location.to_owned() }),
    }
}

/// `n` slashes.
pub open spec fn slashes(n: nat) -> Seq<char> {
    Seq::new(n, |i: int| '/')
}

/// The number of a queue item is found at the end of its address, with or without slashes
/// behind it.
pub proof fn law_queue_id_of_item_address(base: Seq<char>, id: u64, n: nat)
    ensures
        queue_id(base + seq!['/'] + text::decimal(id as nat) + slashes(n)) == Some(id),
    decreases n,
{
    let digits = text::decimal(id as nat);
    let address = base + seq!['/'] + digits;
    text::lemma_decimal(id as nat);
    text::law_parse_of_decimal(id);
    if n == 0 {
        assert(address + slashes(n) =~= address);
        assert(address.last() == digits.last());
        assert(text::is_digit(digits[digits.len() - 1]));
        assert forall|i: int| base.len() + 1 <= i < address.len() implies address[i] != '/' by {
            assert(address[i] == digits[i - base.len() - 1]);
            assert(text::is_digit(digits[i - base.len() - 1]));
        }
        text::lemma_past_last_is(address, '/', base.len() + 1);
        assert(text::after_last(address, '/') =~= digits);
    } else {
        law_queue_id_of_item_address(base, id, (n - 1) as nat);
        let longer = address + slashes(n);
        assert(longer.last() == '/');
        assert(longer.drop_last() =~= address + slashes((n - 1) as nat));
    }
}

impl QueueIdError {
    pub open spec fn words(self) -> Seq<char> {
        "could not parse queue item ID from URL: "@ + self.location@
    }

    /// The error in words.
    pub fn message(&self) -> (r: String)
        ensures
            r@ == self.words(),
    {
        text::cat2("could not parse queue item ID from URL: ", self.location.as_str())
    }
}

/// A number between a text and a slash can be read back.
proof fn lemma_number_segment(front: Seq<char>, n: u64, rest: Seq<char>)
    requires
        rest == "/api/json"@ || rest == "/api/json?tree=building,result"@ || rest == "/consoleText"@,
    ensures
        text::parsed_u64(text::before((front + text::decimal(n as nat) + rest).skip(front.len() as int), '/')) == Some(n),
{
    reveal_strlit("/api/json");
    reveal_strlit("/api/json?tree=building,result");
    reveal_strlit("/consoleText");
    let digits = text::decimal(n as nat);
    let tail = (front + digits + rest).skip(front.len() as int);
    text::lemma_decimal(n as nat);
    text::law_parse_of_decimal(n);
    assert(tail.take(digits.len() as int) =~= digits);
    assert(tail[digits.len() as int] == rest[0]);
    assert forall|i: int| 0 <= i < digits.len() implies tail[i] != '/' by {
        assert(tail[i] == digits[i]);
        assert(text::is_digit(digits[i]));
    }
    text::lemma_position_is(tail, '/', digits.len());
}

/// The path, relative to the server, of a queue item.
pub fn queue_path(id: u64) -> (r: String)
    ensures
        r@ == "queue/item/"@ + text::decimal(id as nat) + "/api/json"@,
        text::parsed_u64(text::before(r@.skip("queue/item/"@.len() as int), '/')) == Some(id),
{
    proof {
        lemma_number_segment("queue/item/"@, id, "/api/json"@);
    }
    text::cat3("queue/item/", text::show_u64(id).as_str(), "/api/json")
}

/// What follows from a look at a queue item.
#[derive(Debug, Clone, Copy, PartialEq, Eq, Structural)]
pub enum QueueStep {
    /// The item was cancelled: there will be no build.
    Cancelled,
    /// The item became this build.
    Started(u64),
    /// Nothing happened yet: wait, and look again.
    Again,
}

/// The words for a build that was cancelled in the queue.
pub const CANCELLED: &'static str = "build was cancelled while waiting in the queue";

/// What follows from a look at a queue item.
pub fn queue_step(item: &QueueItem) -> (r: QueueStep)
    ensures
        r == if item.cancelled == Some(true) {
            QueueStep::Cancelled
        } else {
            match item.executable {
                Some(build) => QueueStep::Started(build.number),
                None => QueueStep::Again,
            }
        },
        r is Cancelled <==> item.cancelled == Some(true),
        r matches QueueStep::Started(number) ==> item.executable matches Some(build) && build.number == number,
        r is Again ==> item.executable is None,
{
    let cancelled = match item.cancelled {
        Some(c) => c,
        None => false,
    };
    if cancelled {
        return QueueStep::Cancelled;
    }
    match &item.executable {
        Some(build) => QueueStep::Started(build.number),
        None => QueueStep::Again,
    }
}

// ---------------------------------------------------------------------------
// Builds
// ---------------------------------------------------------------------------

/// The path, relative to the server, that starts a build of a sweep.
pub fn trigger_path(job: &str) -> (r: String)
    ensures
        r@ == client::job_address(job@, "/buildWithParameters"@),
{
    client::job_path(job, "/buildWithParameters")
}

/// The path, relative to the server, of a build's state.
pub fn build_status_path(job: &str, build: u64) -> (r: String)
    ensures
        r@ == client::job_address(job@, "/"@ + text::decimal(build as nat) + "/api/json?tree=building,result"@),
        text::parsed_u64(
            text::before(r@.skip(("job/"@ + client::job_url(job@) + "/"@).len() as int), '/'),
        ) == Some(build),
{
    proof {
        let front = "job/"@ + client::job_url(job@) + "/"@;
        lemma_number_segment(front, build, "/api/json?tree=building,result"@);
        assert(client::job_address(
            job@,
            "/"@ + text::decimal(build as nat) + "/api/json?tree=building,result"@,
        ) =~= front + text::decimal(build as nat) + "/api/json?tree=building,result"@);
    }
    let rest = text::cat3("/", text::show_u64(build).as_str(), "/api/json?tree=building,result");
    client::job_path(job, rest.as_str())
}

/// The path, relative to the server, of a build's console log.
pub fn console_path(job: &str, build: u64) -> (r: String)
    ensures
        r@ == client::job_address(job@, "/"@ + text::decimal(build as nat) + "/consoleText"@),
        text::parsed_u64(
            text::before(r@.skip(("job/"@ + client::job_url(job@) + "/"@).len() as int), '/'),
        ) == Some(build),
{
    proof {
        let front = "job/"@ + client::job_url(job@) + "/"@;
        lemma_number_segment(front, build, "/consoleText"@);
        assert(client::job_address(job@, "/"@ + text::decimal(build as nat) + "/consoleText"@) =~= front
            + text::decimal(build as nat) + "/consoleText"@);
    }
    let rest = text::cat3("/", text::show_u64(build).as_str(), "/consoleText");
    client::job_path(job, rest.as_str())
}

/// What follows from a look at a build.
#[derive(Debug)]
pub enum BuildStep {
    /// The build is over, with this result.
    Finished(Option<String>),
    /// The build is running: wait, and look again.
    Again,
}

/// What follows from a look at a build.
pub fn build_step(status: BuildStatus) -> (r: BuildStep)
    ensures
        match r {
            BuildStep::Finished(result) => !status.building && result == status.result,
            BuildStep::Again => status.building,
        },
{
    if status.building {
        BuildStep::Again
    } else {
        BuildStep::Finished(status.result)
    }
}

/// Why a build request did not lead to a queue item.
#[derive(Debug)]
pub enum TriggerError {
    Refused(HttpStatus),
    /// The reply does not say where the queue item is.
    NoLocation,
    /// The reply names no queue item.
    BadLocation(QueueIdError),
}

/// The queue item at the address that a build request was answered with.
pub fn item_at(status: HttpStatus, location: Option<String>) -> (r: Result<u64, TriggerError>)
    ensures
        match r {
            Ok(id) => http::successful(status@) && (location matches Some(s) && queue_id(s@) == Some(id)),
            Err(TriggerError::Refused(s)) => !http::successful(status@) && s == status,
            Err(TriggerError::NoLocation) => http::successful(status@) && location is None,
            Err(TriggerError::BadLocation(e)) => {
                &&& http::successful(status@)
                &&& text::option_view(location) == Some(e.location@)
                &&& queue_id(e.location@) is None
            },
        },
        forall|base: Seq<char>, id: u64|
            200 <= status@ < 300 && text::option_view(location) == Some(#[trigger] item_address(base, id)) ==> r == Ok::<
                u64,
                TriggerError,
            >(id),
{
    if !status.is_success() {
        return Err(TriggerError::Refused(status));
    }
    match location {
        Some(location) => match extract_queue_id(location.as_str()) {
            Ok(id) => Ok(id),
            Err(e) => Err(TriggerError::BadLocation(e)),
        },
        None => Err(TriggerError::NoLocation),
    }
}

/// The queue item that a build request led to.
pub fn queued_item(status: HttpStatus, reply_headers: &reqwest::header::HeaderMap) -> (r: Result<u64, TriggerError>)
    ensures
        ({
            let location = headers::header_text(headers::header_map(*reply_headers), "Location"@);
            match r {
                Ok(id) => http::successful(status@) && location is Some && queue_id(location->0) == Some(id),
                Err(TriggerError::Refused(s)) => !http::successful(status@) && s == status,
                Err(TriggerError::NoLocation) => http::successful(status@) && location is None,
                Err(TriggerError::BadLocation(e)) => {
                    &&& http::successful(status@)
                    &&& location == Some(e.location@)
                    &&& queue_id(e.location@) is None
                },
            }
        }),
{
    item_at(status, headers::header_value(reply_headers, "Location"))
}

impl TriggerError {
    pub open spec fn words(self) -> Seq<char> {
        match self {
            TriggerError::Refused(status) => "Jenkins returned HTTP "@ + http::status_text(status@)
                + " when triggering build"@,
            TriggerError::NoLocation => "no Location header in build response"@,
            TriggerError::BadLocation(e) => e.words(),
        }
    }

    /// The error in words.
    pub fn message(&self) -> (r: String)
        ensures
            r@ == self.words(),
    {
        match self {
            TriggerError::Refused(status) => text::cat3(
                "Jenkins returned HTTP ",
                status.text().as_str(),
                " when triggering build",
            ),
            TriggerError::NoLocation => "no Location header in build response".to_owned(),
            TriggerError::BadLocation(e) => e.message(),
        }
    }
}

/// The words for a console log that the server does not hand out.
pub open spec fn no_console_words(code: u16) -> Seq<char> {
    "consoleText endpoint returned HTTP "@ + http::status_text(code)
}

/// Whether the answer to a request for a console log holds the log; if not, the error in
/// words.
pub fn check_console(status: HttpStatus) -> (r: Result<(), String>)
    ensures
        match r {
            Ok(_) => http::successful(status@),
            Err(words) => !http::successful(status@) && words@ == no_console_words(status@),
        },
{
    if status.is_success() {
        Ok(())
    } else {
        Err(text::cat2("consoleText endpoint returned HTTP ", status.text().as_str()))
    }
}

// ---------------------------------------------------------------------------
// File names
// ---------------------------------------------------------------------------

/// Whether a character is not used in file names.
pub open spec fn unsafe_in_name(c: char) -> bool {
    c == '/' || c == '\\' || c == ':' || c == '*' || c == '?' || c == '"' || c == '<' || c == '>' || c == '|' || c
        == ' '
}

/// A value as it stands in a file name: an underscore for each character that is not used there.
pub open spec fn safe_value(value: Seq<char>) -> Seq<char> {
    value.map_values(|c: char| if unsafe_in_name(c) { '_' } else { c })
}

/// A value as it stands in a file name.
pub fn sanitise(value: &str) -> (r: String)
    ensures
        r@ == safe_value(value@),
{
    let v = text::to_chars(value);
    let mut out = String::new();
    let mut i: usize = 0;
    while i < v.len()
        invariant
            i <= v@.len(),
            out@ == safe_value(v@.take(i as int)),
        decreases v@.len() - i,
    {
        let c = v[i];
        if c == '/' || c == '\\' || c == ':' || c == '*' || c == '?' || c == '"' || c == '<' || c == '>' || c == '|'
            || c == ' ' {
            out.push('_');
        } else {
            out.push(c);
        }
        proof {
            assert(out@ =~= safe_value(v@.take(i + 1)));
        }
        i = i + 1;
    }
    proof {
        assert(v@.take(i as int) =~= v@);
    }
    out
}

/// A value as it stands in a file name has as many characters as before, and none that is not
/// used there.
pub proof fn law_safe_value(value: Seq<char>)
    ensures
        safe_value(value).len() == value.len(),
        forall|i: int| 0 <= i < value.len() ==> !unsafe_in_name(#[trigger] safe_value(value)[i]),
{
}

/// The name of the file that a build's log is saved in.
pub open spec fn log_name(job: Seq<char>, param: Seq<char>, value: Seq<char>, build: u64) -> Seq<char> {
    text::substituted(job, '/', "__"@) + "__"@ + param + "__"@ + safe_value(value) + "__#"@ + text::decimal(
        build as nat,
    ) + ".log"@
}

/// The name of the file that a build's log is saved in. The slashes of the job's path are
/// written as double underscores.
pub fn log_filename(job: &str, param: &str, value: &str, build: u64) -> (r: String)
    ensures
        r@ == log_name(job@, param@, value@, build),
{
    let target = text::replace_char(job, '/', "__");
    let mut name = text::cat5(target.as_str(), "__", param, "__", sanitise(value).as_str());
    name.append("__#");
    name.append(text::show_u64(build).as_str());
    name.append(".log");
    name
}

/// A log is saved in the output directory itself, however deep its job lies in folders: the
/// name of its file has no slash.
pub proof fn law_log_name_has_no_slash(job: Seq<char>, param: Seq<char>, value: Seq<char>, build: u64)
    requires
        !param.contains('/'),
    ensures
        !log_name(job, param, value, build).contains('/'),
{
    reveal_strlit("__");
    reveal_strlit("__#");
    reveal_strlit(".log");
    text::law_substituted_is_gone(job, '/', "__"@);
    law_safe_value(value);
    text::lemma_decimal(build as nat);
    let target = text::substituted(job, '/', "__"@);
    let safe = safe_value(value);
    let digits = text::decimal(build as nat);
    assert(!safe.contains('/')) by {
        if safe.contains('/') {
            let i = choose|i: int| 0 <= i < safe.len() && safe[i] == '/';
            assert(!unsafe_in_name(safe[i]));
        }
    }
    assert(!digits.contains('/')) by {
        if digits.contains('/') {
            let i = choose|i: int| 0 <= i < digits.len() && digits[i] == '/';
            assert(text::is_digit(digits[i]));
        }
    }
    lemma_no_slash(target, "__"@);
    lemma_no_slash(target + "__"@, param);
    lemma_no_slash(target + "__"@ + param, "__"@);
    lemma_no_slash(target + "__"@ + param + "__"@, safe);
    lemma_no_slash(target + "__"@ + param + "__"@ + safe, "__#"@);
    lemma_no_slash(target + "__"@ + param + "__"@ + safe + "__#"@, digits);
    lemma_no_slash(target + "__"@ + param + "__"@ + safe + "__#"@ + digits, ".log"@);
}

proof fn lemma_no_slash(a: Seq<char>, b: Seq<char>)
    requires
        !a.contains('/'),
        !b.contains('/'),
    ensures
        !(a + b).contains('/'),
{
    assert forall|i: int| 0 <= i < (a + b).len() implies #[trigger] (a + b)[i] != '/' by {
        if i < a.len() {
            assert(a.contains(a[i]));
        } else {
            assert(b.contains(b[i - a.len()]));
        }
    }
}

// ---------------------------------------------------------------------------
// The sweep
// ---------------------------------------------------------------------------

/// How far the build for the current value has come.
#[derive(Debug, Clone, Copy, PartialEq, Eq, Structural)]
pub enum Phase {
    Triggering,
    Waiting(u64),
    Saving(u64),
    Finished,
}

#[derive(Debug, Clone, Copy)]
struct Progress {
    index: usize,
    phase: Phase,
}

/// A sweep over the values of a build parameter.
#[derive(Debug)]
pub struct Sweep {
    job: String,
    param_name: String,
    values: Vec<String>,
    fixed: Vec<(String, String)>,
    output_dir: String,
    progress: Progress,
}

/// What a [`Sweep`] stands for.
pub struct SweepModel {
    pub job: Seq<char>,
    pub param_name: Seq<char>,
    pub values: Seq<Seq<char>>,
    /// The parameters that every build gets.
    pub fixed: Seq<(Seq<char>, Seq<char>)>,
    pub output_dir: Seq<char>,
    /// The value that is being built.
    pub index: nat,
    pub phase: Phase,
}

/// What a sweep waits for.
#[derive(Debug)]
pub enum SweepAction {
    /// A build with these parameters is to be triggered.
    Trigger(Vec<(String, String)>),
    /// This build is to be followed to its end.
    Wait(u64),
    /// The log of this build is to be saved under this file name.
    Save(u64, String),
    /// Nothing: the sweep is over.
    Finish,
}

/// What a [`SweepAction`] stands for.
pub enum SweepActionModel {
    Trigger(Seq<(Seq<char>, Seq<char>)>),
    Wait(u64),
    Save(u64, Seq<char>),
    Finish,
}

/// What became of an action. Where it failed, the words say why.
#[derive(Debug)]
pub enum SweepEvent {
    Triggered(Result<u64, String>),
    Completed(Result<Option<String>, String>),
    /// Where the log was saved.
    Saved(Result<String, String>),
}

/// What a [`SweepEvent`] stands for.
pub enum SweepEventModel {
    Triggered(Result<u64, Seq<char>>),
    Completed(Result<Option<Seq<char>>, Seq<char>>),
    Saved(Result<Seq<char>, Seq<char>>),
}

impl View for Sweep {
    type V = SweepModel;

    closed spec fn view(&self) -> SweepModel {
        SweepModel {
            job: self.job@,
            param_name: self.param_name@,
            values: text::views(self.values@),
            fixed: text::pair_views(self.fixed@),
            output_dir: self.output_dir@,
            index: self.progress.index as nat,
            phase: self.progress.phase,
        }
    }
}

impl View for SweepAction {
    type V = SweepActionModel;

    open spec fn view(&self) -> SweepActionModel {
        match *self {
            SweepAction::Trigger(params) => SweepActionModel::Trigger(text::pair_views(params@)),
            SweepAction::Wait(build) => SweepActionModel::Wait(build),
            SweepAction::Save(build, file) => SweepActionModel::Save(build, file@),
            SweepAction::Finish => SweepActionModel::Finish,
        }
    }
}

impl View for SweepEvent {
    type V = SweepEventModel;

    open spec fn view(&self) -> SweepEventModel {
        match *self {
            SweepEvent::Triggered(Ok(build)) => SweepEventModel::Triggered(Ok(build)),
            SweepEvent::Triggered(Err(words)) => SweepEventModel::Triggered(Err(words@)),
            SweepEvent::Completed(Ok(result)) => SweepEventModel::Completed(Ok(text::option_view(result))),
            SweepEvent::Completed(Err(words)) => SweepEventModel::Completed(Err(words@)),
            SweepEvent::Saved(Ok(place)) => SweepEventModel::Saved(Ok(place@)),
            SweepEvent::Saved(Err(words)) => SweepEventModel::Saved(Err(words@)),
        }
    }
}

impl SweepModel {
    /// Whether the sweep is over exactly when every value was dealt with.
    pub open spec fn valid(self) -> bool {
        self.index <= self.values.len() && (self.phase == Phase::Finished <==> self.index == self.values.len())
    }

    /// What the sweep waits for: the build of a value gets the fixed parameters and, last,
    /// the one that varies.
    pub open spec fn action(self) -> SweepActionModel {
        match self.phase {
            Phase::Triggering => SweepActionModel::Trigger(
                self.fixed.push((self.param_name, self.values[self.index as int])),
            ),
            Phase::Waiting(build) => SweepActionModel::Wait(build),
            Phase::Saving(build) => SweepActionModel::Save(
                build,
                log_name(self.job, self.param_name, self.values[self.index as int], build),
            ),
            Phase::Finished => SweepActionModel::Finish,
        }
    }

    /// The sweep at the start of another value, or over where there is none.
    pub open spec fn at(self, index: nat) -> SweepModel {
        SweepModel {
            index,
            phase: if index < self.values.len() {
                Phase::Triggering
            } else {
                Phase::Finished
            },
            ..self
        }
    }

    /// The line that opens the value that the sweep is at, or that closes the sweep.
    pub open spec fn heading(self) -> output::LineModel {
        if self.index < self.values.len() {
            output::said(
                "\n["@ + text::decimal(self.index + 1) + "/"@ + text::decimal(self.values.len()) + "] "@
                    + self.param_name + "="@ + self.values[self.index as int],
            )
        } else {
            output::said("\nSweep complete. Logs in '"@ + self.output_dir + "'."@)
        }
    }

    /// What an event makes of the sweep, and the lines that report it. Whatever fails for one
    /// value, the sweep goes on with the next. An event that is not waited for changes nothing.
    pub open spec fn step(self, event: SweepEventModel) -> (SweepModel, Seq<output::LineModel>) {
        let next = self.at(self.index + 1);
        match (self.phase, event) {
            (Phase::Triggering, SweepEventModel::Triggered(Ok(build))) => (
                SweepModel { phase: Phase::Waiting(build), ..self },
                seq![output::said("  Queued as build #"@ + text::decimal(build as nat))],
            ),
            (Phase::Triggering, SweepEventModel::Triggered(Err(words))) => (
                next,
                seq![output::warned("  Could not trigger build: "@ + words), next.heading()],
            ),
            (Phase::Waiting(build), SweepEventModel::Completed(Ok(result))) => (
                SweepModel { phase: Phase::Saving(build), ..self },
                seq![output::said("  Result: "@ + result_word(result))],
            ),
            (Phase::Waiting(_), SweepEventModel::Completed(Err(words))) => (
                next,
                seq![output::warned("  Error waiting for build: "@ + words), next.heading()],
            ),
            (Phase::Saving(_), SweepEventModel::Saved(Ok(place))) => (
                next,
                seq![output::said("  Log:    "@ + place), next.heading()],
            ),
            (Phase::Saving(_), SweepEventModel::Saved(Err(words))) => (
                next,
                seq![output::warned("  Could not save log: "@ + words), next.heading()],
            ),
            _ => (self, Seq::empty()),
        }
    }

    /// How far the sweep has come, in steps of which there are three to a value.
    pub open spec fn rank(self) -> nat {
        3 * self.index + match self.phase {
            Phase::Triggering => 0,
            Phase::Waiting(_) => 1,
            Phase::Saving(_) => 2,
            Phase::Finished => 0nat,
        }
    }
}

/// The word for a build's result.
pub open spec fn result_word(result: Option<Seq<char>>) -> Seq<char> {
    match result {
        Some(word) => word,
        None => "UNKNOWN"@,
    }
}

/// Every event either changes nothing or brings the sweep forward, by at most one value. So a
/// sweep comes to its end, each value is built once at most, and no failure ends a sweep early.
pub proof fn law_sweep_goes_on(sweep: SweepModel, event: SweepEventModel)
    requires
        sweep.valid(),
    ensures
        sweep.step(event).0.valid(),
        sweep.step(event).0 == sweep || sweep.rank() < sweep.step(event).0.rank() <= 3 * sweep.values.len(),
        sweep.index <= sweep.step(event).0.index <= sweep.index + 1,
        sweep.step(event).0.phase == Phase::Triggering ==> sweep.step(event).0 == sweep || sweep.step(event).0.index
            == sweep.index + 1,
        sweep.step(event).0.phase == Phase::Finished ==> sweep.step(event).0.index == sweep.values.len(),
        sweep.step(event).0.values == sweep.values && sweep.step(event).0.fixed == sweep.fixed,
{
}

/// The sweep after these events, one after the other.
pub open spec fn after_events(sweep: SweepModel, events: Seq<SweepEventModel>) -> SweepModel
    decreases events.len(),
{
    if events.len() == 0 {
        sweep
    } else {
        after_events(sweep.step(events[0]).0, events.skip(1))
    }
}

/// The parameters of the builds that a sweep asks for while these events come.
pub open spec fn builds_asked_for(
    sweep: SweepModel,
    events: Seq<SweepEventModel>,
) -> Seq<Seq<(Seq<char>, Seq<char>)>>
    decreases events.len(),
{
    if events.len() == 0 {
        Seq::empty()
    } else {
        let rest = builds_asked_for(sweep.step(events[0]).0, events.skip(1));
        if sweep.phase == Phase::Triggering && events[0] is Triggered {
            seq![sweep.action()->Trigger_0] + rest
        } else {
            rest
        }
    }
}

/// The parameters of a build for each value from `index` on: the fixed ones and then the one
/// that varies.
pub open spec fn builds_from(sweep: SweepModel, index: nat) -> Seq<Seq<(Seq<char>, Seq<char>)>>
    decreases sweep.values.len() - index,
{
    if index < sweep.values.len() {
        seq![sweep.fixed.push((sweep.param_name, sweep.values[index as int]))] + builds_from(sweep, index + 1)
    } else {
        Seq::empty()
    }
}

/// The builds that a sweep still has to ask for.
pub open spec fn builds_left(sweep: SweepModel) -> Seq<Seq<(Seq<char>, Seq<char>)>> {
    if sweep.phase == Phase::Triggering {
        builds_from(sweep, sweep.index)
    } else {
        builds_from(sweep, sweep.index + 1)
    }
}

proof fn lemma_builds_from(sweep: SweepModel, other: SweepModel, index: nat)
    requires
        other.values == sweep.values,
        other.fixed == sweep.fixed,
        other.param_name == sweep.param_name,
    ensures
        builds_from(sweep, index) == builds_from(other, index),
    decreases sweep.values.len() - index,
{
    if index < sweep.values.len() {
        lemma_builds_from(sweep, other, index + 1);
    }
}

/// A sweep that comes to its end has asked for one build for each value, in order, whatever
/// became of them: with the fixed parameters and then the one that varies.
pub proof fn law_sweep_builds_each_value(sweep: SweepModel, events: Seq<SweepEventModel>)
    requires
        sweep.valid(),
        after_events(sweep, events).phase == Phase::Finished,
    ensures
        builds_asked_for(sweep, events) == builds_left(sweep),
    decreases events.len(),
{
    if events.len() > 0 {
        let next = sweep.step(events[0]).0;
        law_sweep_goes_on(sweep, events[0]);
        law_sweep_builds_each_value(next, events.skip(1));
        lemma_builds_from(sweep, next, sweep.index);
        lemma_builds_from(sweep, next, sweep.index + 1);
    }
}

/// Why a sweep cannot start.
#[derive(Debug)]
pub enum SweepError {
    NoValues,
    BadParam(BadParam),
}

impl Sweep {
    #[verifier::type_invariant]
    spec fn in_order(self) -> bool {
        &&& self.progress.index <= self.values@.len()
        &&& self.progress.phase == Phase::Finished <==> self.progress.index == self.values@.len()
    }

    /// A sweep at its first value.
    pub fn new(args: SweepArgs) -> (r: Result<Sweep, SweepError>)
        ensures
            match r {
                Ok(sweep) => {
                    &&& args.values@.len() > 0
                    &&& sweep@.valid()
                    &&& sweep@.job == args.job@
                    &&& sweep@.param_name == args.param_name@
                    &&& sweep@.values == text::views(args.values@)
                    &&& builds::params_of(text::views(args.params@)) == Ok::<
                        Seq<(Seq<char>, Seq<char>)>,
                        Seq<char>,
                    >(sweep@.fixed)
                    &&& sweep@.output_dir == args.output_dir@
                    &&& sweep@.index == 0
                    &&& sweep@.phase == Phase::Triggering
                },
                Err(SweepError::NoValues) => args.values@.len() == 0,
                Err(SweepError::BadParam(e)) => {
                    &&& args.values@.len() > 0
                    &&& builds::params_of(text::views(args.params@)) == Err::<
                        Seq<(Seq<char>, Seq<char>)>,
                        Seq<char>,
                    >(e.param@)
                },
            },
    {
        if args.values.len() == 0 {
            return Err(SweepError::NoValues);
        }
        match builds::parse_params(args.params.as_slice()) {
            Ok(fixed) => Ok(
                Sweep {
                    job: args.job,
                    param_name: args.param_name,
                    values: args.values,
                    fixed,
                    output_dir: args.output_dir,
                    progress: Progress { index: 0, phase: Phase::Triggering },
                },
            ),
            Err(e) => Err(SweepError::BadParam(e)),
        }
    }

    /// What the sweep waits for.
    pub fn action(&self) -> (r: SweepAction)
        ensures
            r@ == self@.action(),
            self@.valid(),
    {
        proof {
            use_type_invariant(self);
        }
        match self.progress.phase {
            Phase::Triggering => {
                let mut params: Vec<(String, String)> = copy_pairs(&self.fixed);
                params.push((self.param_name.clone(), self.values[self.progress.index].clone()));
                proof {
                    assert(text::pair_views(params@) =~= self@.fixed.push(
                        (self@.param_name, self@.values[self@.index as int]),
                    ));
                }
                SweepAction::Trigger(params)
            },
            Phase::Waiting(build) => SweepAction::Wait(build),
            Phase::Saving(build) => SweepAction::Save(
                build,
                log_filename(
                    self.job.as_str(),
                    self.param_name.as_str(),
                    self.values[self.progress.index].as_str(),
                    build,
                ),
            ),
            Phase::Finished => SweepAction::Finish,
        }
    }

    /// The line that opens the current value, or that closes the sweep.
    pub fn heading(&self) -> (r: Line)
        ensures
            r@ == self@.heading(),
    {
        proof {
            use_type_invariant(self);
        }
        let i: usize = self.progress.index;
        if i < self.values.len() {
            let mut s = text::cat5(
                "\n[",
                text::show_u64(i as u64 + 1).as_str(),
                "/",
                text::show_u64(self.values.len() as u64).as_str(),
                "] ",
            );
            s.append(self.param_name.as_str());
            s.append("=");
            s.append(self.values[i].as_str());
            output::say(s.as_str())
        } else {
            output::say(text::cat3("\nSweep complete. Logs in '", self.output_dir.as_str(), "'.").as_str())
        }
    }

    /// Goes on to the next value. Returns the lines that report this after `line`.
    fn go_on(&mut self, line: Line) -> (r: Vec<Line>)
        requires
            old(self)@.phase != Phase::Finished,
        ensures
            final(self)@ == old(self)@.at(old(self)@.index + 1),
            output::line_views(r@) == seq![line@, final(self)@.heading()],
    {
        proof {
            use_type_invariant(&*self);
        }
        let total: usize = self.values.len();
        let index: usize = self.progress.index + 1;
        let phase = if index < total {
            Phase::Triggering
        } else {
            Phase::Finished
        };
        self.progress = Progress { index, phase };
        let mut lines: Vec<Line> = Vec::new();
        lines.push(line);
        lines.push(self.heading());
        proof {
            assert(output::line_views(lines@) =~= seq![line@, self@.heading()]);
        }
        lines
    }

    /// Takes what became of the action, and returns the lines that report it.
    pub fn handle(&mut self, event: SweepEvent) -> (r: Vec<Line>)
        ensures
            (final(self)@, output::line_views(r@)) == old(self)@.step(event@),
            final(self)@.valid(),
    {
        proof {
            use_type_invariant(&*self);
        }
        let index: usize = self.progress.index;
        match (self.progress.phase, event) {
            (Phase::Triggering, SweepEvent::Triggered(Ok(build))) => {
                self.progress = Progress { index, phase: Phase::Waiting(build) };
                one_line(output::say(text::cat2("  Queued as build #", text::show_u64(build).as_str()).as_str()))
            },
            (Phase::Triggering, SweepEvent::Triggered(Err(words))) => self.go_on(
                output::warn(text::cat2("  Could not trigger build: ", words.as_str()).as_str()),
            ),
            (Phase::Waiting(build), SweepEvent::Completed(Ok(result))) => {
                self.progress = Progress { index, phase: Phase::Saving(build) };
                one_line(output::say(text::cat2("  Result: ", show_result(result).as_str()).as_str()))
            },
            (Phase::Waiting(_), SweepEvent::Completed(Err(words))) => self.go_on(
                output::warn(text::cat2("  Error waiting for build: ", words.as_str()).as_str()),
            ),
            (Phase::Saving(_), SweepEvent::Saved(Ok(place))) => self.go_on(
                output::say(text::cat2("  Log:    ", place.as_str()).as_str()),
            ),
            (Phase::Saving(_), SweepEvent::Saved(Err(words))) => self.go_on(
                output::warn(text::cat2("  Could not save log: ", words.as_str()).as_str()),
            ),
            _ => {
                let lines: Vec<Line> = Vec::new();
                proof {
                    assert(output::line_views(lines@) =~= Seq::empty());
                }
                lines
            },
        }
    }
}

/// A list of one line.
pub(crate) fn one_line(line: Line) -> (r: Vec<Line>)
    ensures
        output::line_views(r@) == seq![line@],
{
    let mut lines: Vec<Line> = Vec::new();
    lines.push(line);
    proof {
        assert(output::line_views(lines@) =~= seq![line@]);
    }
    lines
}

/// The word for a build's result.
pub(crate) fn show_result(result: Option<String>) -> (r: String)
    ensures
        r@ == result_word(text::option_view(result)),
{
    match result {
        Some(word) => word,
        None => "UNKNOWN".to_owned(),
    }
}

/// The same pairs once more.
pub(crate) fn copy_pairs(pairs: &Vec<(String, String)>) -> (r: Vec<(String, String)>)
    ensures
        text::pair_views(r@) == text::pair_views(pairs@),
{
    let mut out: Vec<(String, String)> = Vec::new();
    let mut i: usize = 0;
    while i < pairs.len()
        invariant
            i <= pairs@.len(),
            out@.len() == i,
            forall|k: int| 0 <= k < i ==> (#[trigger] out@[k]).0@ == pairs@[k].0@ && out@[k].1@ == pairs@[k].1@,
        decreases pairs@.len() - i,
    {
        out.push((pairs[i].0.clone(), pairs[i].1.clone()));
        i = i + 1;
    }
    proof {
        assert(text::pair_views(out@) =~= text::pair_views(pairs@));
    }
    out
}

impl SweepError {
    pub open spec fn words(self) -> Seq<char> {
        match self {
            SweepError::NoValues => "provide at least one --value to sweep over"@,
            SweepError::BadParam(e) => e.words(),
        }
    }

    /// The error in words.
    pub fn message(&self) -> (r: String)
        ensures
            r@ == self.words(),
    {
        match self {
            SweepError::NoValues => "provide at least one --value to sweep over".to_owned(),
            SweepError::BadParam(e) => e.message(),
        }
    }
}

// ---------------------------------------------------------------------------
// Laws
// ---------------------------------------------------------------------------

/// Whatever the result of a build that was followed to its end, its log is asked for, under the
/// name for the value that the build was for.
pub proof fn law_log_of_every_result_is_saved(sweep: SweepModel, build: u64, result: Option<Seq<char>>)
    requires
        sweep.valid(),
        sweep.phase == Phase::Waiting(build),
    ensures
        sweep.step(SweepEventModel::Completed(Ok(result))).0.action() == SweepActionModel::Save(
            build,
            log_name(sweep.job, sweep.param_name, sweep.values[sweep.index as int], build),
        ),
{
}

/// A build that was triggered is the one that is followed.
pub proof fn law_triggered_build_is_followed(sweep: SweepModel, build: u64)
    requires
        sweep.valid(),
        sweep.phase == Phase::Triggering,
    ensures
        sweep.step(SweepEventModel::Triggered(Ok(build))).0.action() == SweepActionModel::Wait(build),
        sweep.step(SweepEventModel::Triggered(Ok(build))).0.index == sweep.index,
{
}

/// Whether an event ends what a sweep does for a value: a failure, or the end of saving.
pub open spec fn ends_value(action: SweepActionModel, event: SweepEventModel) -> bool {
    match event {
        SweepEventModel::Triggered(outcome) => action is Trigger && outcome is Err,
        SweepEventModel::Completed(outcome) => action is Wait && outcome is Err,
        SweepEventModel::Saved(_) => action is Save,
    }
}

/// Once a value is done with, for better or worse, the build of the next one is asked for, with
/// the fixed parameters and, last, the next value; after the last value the sweep is over.
pub proof fn law_next_value_is_built(sweep: SweepModel, event: SweepEventModel)
    requires
        sweep.valid(),
        ends_value(sweep.action(), event),
    ensures
        ({
            let after = sweep.step(event).0;
            let next = sweep.index as int + 1;
            &&& next < sweep.values.len() ==> after.action() == SweepActionModel::Trigger(
                sweep.fixed + seq![(sweep.param_name, sweep.values[next])],
            )
            &&& next == sweep.values.len() ==> after.action() == SweepActionModel::Finish
        }),
{
    let next = sweep.index as int + 1;
    if next < sweep.values.len() {
        assert(sweep.fixed.push((sweep.param_name, sweep.values[next])) =~= sweep.fixed + seq![
            (sweep.param_name, sweep.values[next]),
        ]);
    }
}

/// An answer to another question than the one that was asked changes nothing and prints nothing.
pub proof fn law_stray_event_is_ignored(sweep: SweepModel, event: SweepEventModel)
    requires
        sweep.valid(),
        match event {
            SweepEventModel::Triggered(_) => sweep.action() !is Trigger,
            SweepEventModel::Completed(_) => sweep.action() !is Wait,
            SweepEventModel::Saved(_) => sweep.action() !is Save,
        },
    ensures
        sweep.step(event).0 == sweep,
        sweep.step(event).1.len() == 0,
{
}

/// The builds that were followed to their end while these events come, each with the name that
/// its log is to have.
pub open spec fn completed_builds(sweep: SweepModel, events: Seq<SweepEventModel>) -> Seq<(u64, Seq<char>)>
    decreases events.len(),
{
    if events.len() == 0 {
        Seq::empty()
    } else {
        let rest = completed_builds(sweep.step(events[0]).0, events.skip(1));
        match (sweep.action(), events[0]) {
            (SweepActionModel::Wait(build), SweepEventModel::Completed(Ok(_))) => seq![
                (build, log_name(sweep.job, sweep.param_name, sweep.values[sweep.index as int], build)),
            ] + rest,
            _ => rest,
        }
    }
}

/// The logs that a sweep asks for while these events come: the builds and the names.
pub open spec fn logs_asked_for(sweep: SweepModel, events: Seq<SweepEventModel>) -> Seq<(u64, Seq<char>)>
    decreases events.len(),
{
    if events.len() == 0 {
        Seq::empty()
    } else {
        let rest = logs_asked_for(sweep.step(events[0]).0, events.skip(1));
        match (sweep.action(), events[0]) {
            (SweepActionModel::Save(build, name), SweepEventModel::Saved(_)) => seq![(build, name)] + rest,
            _ => rest,
        }
    }
}

/// A sweep that comes to its end has asked for one log for each build that completed, in order,
/// whatever the results, and for no other.
pub proof fn law_each_completed_build_has_its_log(sweep: SweepModel, events: Seq<SweepEventModel>)
    requires
        sweep.valid(),
        after_events(sweep, events).action() is Finish,
    ensures
        logs_asked_for(sweep, events) == (match sweep.action() {
            SweepActionModel::Save(build, name) => seq![(build, name)],
            _ => Seq::empty(),
        }) + completed_builds(sweep, events),
    decreases events.len(),
{
    if events.len() > 0 {
        let next = sweep.step(events[0]).0;
        law_sweep_goes_on(sweep, events[0]);
        law_each_completed_build_has_its_log(next, events.skip(1));
        assert(logs_asked_for(sweep, events) =~= (match sweep.action() {
            SweepActionModel::Save(build, name) => seq![(build, name)],
            _ => Seq::empty(),
        }) + completed_builds(sweep, events));
    } else {
        assert(Seq::<(u64, Seq<char>)>::empty() + completed_builds(sweep, events) =~= Seq::empty());
    }
}

/// What becomes of an action is reported: a failure on the standard error, with its words, and
/// a success on the standard output, with the number of the build, the result or the place. Once
/// a value is done with, the last line opens the next one, or closes the sweep.
pub proof fn law_sweep_reports(sweep: SweepModel, event: SweepEventModel)
    requires
        sweep.valid(),
    ensures
        ({
            let (after, lines) = sweep.step(event);
            let first = lines[0].spans[0].1;
            &&& ends_value(sweep.action(), event) ==> lines.len() == 2 && lines[1] == after.heading()
            &&& sweep.action() is Trigger ==> (event matches SweepEventModel::Triggered(outcome) ==> match outcome {
                Ok(build) => lines.len() == 1 && lines[0].stream == output::Stream::Output && text::decimal(
                    build as nat,
                ).is_suffix_of(first),
                Err(words) => lines[0].stream == output::Stream::Error && words.is_suffix_of(first),
            })
            &&& sweep.action() is Wait ==> (event matches SweepEventModel::Completed(outcome) ==> match outcome {
                Ok(Some(word)) => lines.len() == 1 && lines[0].stream == output::Stream::Output && word.is_suffix_of(
                    first,
                ),
                Ok(None) => lines.len() == 1 && lines[0].stream == output::Stream::Output && "UNKNOWN"@.is_suffix_of(
                    first,
                ),
                Err(words) => lines[0].stream == output::Stream::Error && words.is_suffix_of(first),
            })
            &&& sweep.action() is Save ==> (event matches SweepEventModel::Saved(outcome) ==> match outcome {
                Ok(place) => lines[0].stream == output::Stream::Output && place.is_suffix_of(first),
                Err(words) => lines[0].stream == output::Stream::Error && words.is_suffix_of(first),
            })
        }),
{
    match event {
        SweepEventModel::Triggered(Ok(build)) => {
            text::lemma_suffix("  Queued as build #"@, text::decimal(build as nat));
        },
        SweepEventModel::Triggered(Err(words)) => {
            text::lemma_suffix("  Could not trigger build: "@, words);
        },
        SweepEventModel::Completed(Ok(result)) => {
            text::lemma_suffix("  Result: "@, result_word(result));
        },
        SweepEventModel::Completed(Err(words)) => {
            text::lemma_suffix("  Error waiting for build: "@, words);
        },
        SweepEventModel::Saved(Ok(place)) => {
            text::lemma_suffix("  Log:    "@, place);
        },
        SweepEventModel::Saved(Err(words)) => {
            text::lemma_suffix("  Could not save log: "@, words);
        },
    }
}

/// The line that opens a value ends in the parameter and the value, and counts the values from
/// one up.
pub proof fn law_heading_names_value(sweep: SweepModel)
    requires
        sweep.index < sweep.values.len(),
    ensures
        ({
            let text = sweep.heading().spans[0].1;
            let value = sweep.values[sweep.index as int];
            &&& sweep.heading().stream == output::Stream::Output
            &&& ("] "@ + sweep.param_name + "="@ + value).is_suffix_of(text)
            &&& ("\n["@ + text::decimal(sweep.index + 1) + "/"@ + text::decimal(sweep.values.len())).is_prefix_of(text)
        }),
{
    let text = sweep.heading().spans[0].1;
    let value = sweep.values[sweep.index as int];
    let front = "\n["@ + text::decimal(sweep.index + 1) + "/"@ + text::decimal(sweep.values.len());
    let back = "] "@ + sweep.param_name + "="@ + value;
    assert(text =~= front + back);
    text::lemma_suffix(front, back);
    assert(text.subrange(0, front.len() as int) =~= front);
}

/// The line that closes a sweep names the directory of the logs.
pub proof fn law_closing_names_directory(sweep: SweepModel)
    requires
        sweep.index == sweep.values.len(),
    ensures
        sweep.heading().stream == output::Stream::Output,
        text::occurs(sweep.heading().spans[0].1, sweep.output_dir),
{
    let text = sweep.heading().spans[0].1;
    let at = "\nSweep complete. Logs in '"@.len() as int;
    assert(text.subrange(at, at + sweep.output_dir.len()) =~= sweep.output_dir);
}

/// A character of a value stays as it is in a file name unless it is one of those that are not
/// used there, for which an underscore stands: separators, the wild cards, quotes, brackets, the
/// bar, the colon and the blank.
pub proof fn law_safe_value_keeps_the_rest(value: Seq<char>, i: int)
    requires
        0 <= i < value.len(),
    ensures
        ({
            let c = value[i];
            if c == '/' || c == '\\' || c == ':' || c == '*' || c == '?' || c == '"' || c == '<' || c == '>' || c
                == '|' || c == ' ' {
                safe_value(value)[i] == '_'
            } else {
                safe_value(value)[i] == c
            }
        }),
{
}

/// The log of a job in a folder is named after the folder, two underscores, and then as that of
/// the job itself.
pub proof fn law_log_name_of_nested_job(
    folder: Seq<char>,
    job: Seq<char>,
    param: Seq<char>,
    value: Seq<char>,
    build: u64,
)
    requires
        !folder.contains('/'),
    ensures
        log_name(folder + seq!['/'] + job, param, value, build) == folder + "__"@ + log_name(
            job,
            param,
            value,
            build,
        ),
{
    let whole = folder + seq!['/'] + job;
    assert(whole =~= folder + (seq!['/'] + job));
    text::lemma_substituted_concat(folder, seq!['/'] + job, '/', "__"@);
    text::lemma_substituted_without(folder, '/', "__"@);
    text::lemma_substituted_front(seq!['/'] + job, '/', "__"@);
    assert((seq!['/'] + job).skip(1) =~= job);
    assert(log_name(whole, param, value, build) =~= folder + "__"@ + log_name(job, param, value, build));
}

/// The log of a job outside of folders is named after the job, the parameter, the value as it
/// stands in file names, and the build, and ends in `.log`.
pub proof fn law_log_name_of_plain_job(job: Seq<char>, param: Seq<char>, value: Seq<char>, build: u64)
    requires
        !job.contains('/'),
    ensures
        (job + "__"@ + param + "__"@ + safe_value(value) + "__#"@).is_prefix_of(log_name(job, param, value, build)),
        log_name(job, param, value, build).len() == job.len() + param.len() + value.len() + text::decimal(
            build as nat,
        ).len() + 11,
{
    reveal_strlit("__");
    reveal_strlit("__#");
    reveal_strlit(".log");
    text::lemma_substituted_without(job, '/', "__"@);
    let name = log_name(job, param, value, build);
    let front = job + "__"@ + param + "__"@ + safe_value(value) + "__#"@;
    assert(name.subrange(0, front.len() as int) =~= front);
}

/// The name of a log ends in the number of its build, which can be read back, and `.log`. So no
/// two builds share a file.
pub proof fn law_log_name_ends_in_build(job: Seq<char>, param: Seq<char>, value: Seq<char>, build: u64)
    ensures
        ({
            let name = log_name(job, param, value, build);
            &&& ".log"@.is_suffix_of(name)
            &&& text::parsed_u64(text::after_last(name.take(name.len() - 4), '#')) == Some(build)
        }),
{
    reveal_strlit("__#");
    reveal_strlit(".log");
    let name = log_name(job, param, value, build);
    let digits = text::decimal(build as nat);
    let stem = name.take(name.len() - 4);
    let front = stem.take(stem.len() - digits.len());
    text::lemma_decimal(build as nat);
    text::law_parse_of_decimal(build);
    text::lemma_suffix(name.take(name.len() - 4), ".log"@);
    assert(name =~= name.take(name.len() - 4) + ".log"@);
    assert(stem =~= front + digits);
    assert(front.last() == '#');
    assert forall|i: int| front.len() <= i < stem.len() implies stem[i] != '#' by {
        assert(stem[i] == digits[i - front.len()]);
        assert(text::is_digit(digits[i - front.len()]));
    }
    text::lemma_past_last_is(stem, '#', front.len());
    assert(text::after_last(stem, '#') =~= digits);
}

/// Logs of different builds have different names, whatever they were for.
pub proof fn law_builds_have_their_own_logs(
    job: Seq<char>,
    param: Seq<char>,
    value: Seq<char>,
    build: u64,
    other_job: Seq<char>,
    other_param: Seq<char>,
    other_value: Seq<char>,
    other_build: u64,
)
    ensures
        build != other_build ==> log_name(job, param, value, build) != log_name(
            other_job,
            other_param,
            other_value,
            other_build,
        ),
{
    law_log_name_ends_in_build(job, param, value, build);
    law_log_name_ends_in_build(other_job, other_param, other_value, other_build);
}

/// An address that does not end in a digit, slashes aside, is that of no queue item.
pub proof fn law_no_queue_id_without_digits(location: Seq<char>)
    ensures
        queue_id(location) is Some ==> text::without_trailing(location, '/').len() > 0 && text::is_digit(
            text::without_trailing(location, '/').last(),
        ),
        queue_id(location + seq!['/']) == queue_id(location),
{
    let trimmed = text::without_trailing(location, '/');
    let last = text::after_last(trimmed, '/');
    text::law_after_last(trimmed, '/');
    text::law_parsed_u64(last);
    if queue_id(location) is Some {
        assert(trimmed.subrange(trimmed.len() - last.len(), trimmed.len() as int) == last);
        assert(last.last() == trimmed.last());
    }
    assert((location + seq!['/']).drop_last() =~= location);
}

/// The errors of a build name their cause: the address that names no queue item, or the status.
pub proof fn law_build_errors_name_their_cause(id: QueueIdError, status: HttpStatus, code: u16)
    ensures
        id.location@.is_suffix_of(id.words()),
        TriggerError::BadLocation(id).words() == id.words(),
        text::occurs(TriggerError::Refused(status).words(), http::status_text(status@)),
        TriggerError::NoLocation.words() != id.words(),
        http::status_text(code).is_suffix_of(no_console_words(code)),
{
    reveal_strlit("no Location header in build response");
    reveal_strlit("could not parse queue item ID from URL: ");
    text::lemma_suffix("could not parse queue item ID from URL: "@, id.location@);
    text::lemma_suffix("consoleText endpoint returned HTTP "@, http::status_text(code));
    let shown = http::status_text(status@);
    let at = "Jenkins returned HTTP "@.len() as int;
    assert(TriggerError::Refused(status).words().subrange(at, at + shown.len()) =~= shown);
    assert(id.words()[0] == 'c' && TriggerError::NoLocation.words()[0] == 'n');
}

/// The error of a sweep that has no values points to the option that gives them, and that for a
/// bad parameter is the parameter's own.
pub proof fn law_sweep_errors_name_their_cause(bad: BadParam)
    ensures
        SweepError::BadParam(bad).words() == bad.words(),
        text::occurs(SweepError::NoValues.words(), "--value"@),
{
    reveal_strlit("--value");
    reveal_strlit("provide at least one --value to sweep over");
    assert("provide at least one --value to sweep over"@.subrange(21int, 21int + "--value"@.len()) =~= "--value"@);
}

} // verus!
