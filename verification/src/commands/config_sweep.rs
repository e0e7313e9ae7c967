//! Tags in a job's `config.xml`, and the command that builds a job once for each of a list of
//! values of one of them.
//!
//! A tag path uses `/` to navigate: `branches/name` is the first `<name>` below the first
//! `<branches>`, anywhere in the document. A path of one segment is the first element of that
//! name, depth first.

use vstd::prelude::*;
use crate::cli::ConfigSweepArgs;
use crate::client;
use crate::commands::sweep;
use crate::headers;
use crate::http;
use crate::http::HttpStatus;
use crate::output;
use crate::output::Line;
use crate::text;
use crate::xml;

verus! {

// ---------------------------------------------------------------------------
// Tags
// ---------------------------------------------------------------------------

/// Why a tag could not be read or replaced.
#[derive(Debug)]
pub enum TagError {
    /// The document is no XML; the words say why.
    Malformed(String),
    /// The document has no element at this path.
    PathNotFound(String),
    /// The changed document could not be written; the words say why.
    Unwritable(String),
    /// The changed document is not valid UTF-8.
    NotUtf8,
}

/// What a [`TagError`] stands for.
pub enum TagFailure {
    Malformed(Seq<char>),
    PathNotFound(Seq<char>),
    Unwritable(Seq<char>),
    NotUtf8,
}

impl View for TagError {
    type V = TagFailure;

    open spec fn view(&self) -> TagFailure {
        match *self {
            TagError::Malformed(words) => TagFailure::Malformed(words@),
            TagError::PathNotFound(path) => TagFailure::PathNotFound(path@),
            TagError::Unwritable(words) => TagFailure::Unwritable(words@),
            TagError::NotUtf8 => TagFailure::NotUtf8,
        }
    }
}

impl TagFailure {
    pub open spec fn words(self) -> Seq<char> {
        match self {
            TagFailure::Malformed(words) => "parsing config.xml: "@ + words,
            TagFailure::PathNotFound(path) => "XML path <"@ + path + "> not found in config.xml.\n"@
                + "Tip: use `rj config get <job>` to inspect the XML and find the correct path.\n"@
                + "Use / to disambiguate: e.g. `branches/name` instead of just `name`."@,
            TagFailure::Unwritable(words) => "serialising modified config.xml: "@ + words,
            TagFailure::NotUtf8 => "config.xml is not valid UTF-8 after patching"@,
        }
    }
}

impl TagError {
    /// The error in words.
    pub fn message(&self) -> (r: String)
        ensures
            r@ == self@.words(),
    {
        match self {
            TagError::Malformed(words) => text::cat2("parsing config.xml: ", words.as_str()),
            TagError::PathNotFound(path) => text::cat5(
                "XML path <",
                path.as_str(),
                "> not found in config.xml.\n",
                "Tip: use `rj config get <job>` to inspect the XML and find the correct path.\n",
                "Use / to disambiguate: e.g. `branches/name` instead of just `name`.",
            ),
            TagError::Unwritable(words) => text::cat2("serialising modified config.xml: ", words.as_str()),
            TagError::NotUtf8 => "config.xml is not valid UTF-8 after patching".to_owned(),
        }
    }
}

/// The text of the first element at a tag path; `None` if there is no such element.
pub open spec fn tag_read(xml: Seq<char>, tag_path: Seq<char>) -> Result<Option<Seq<char>>, TagFailure> {
    match xml::parsed_document(xml) {
        Ok(root) => Ok(xml::text_at(root, text::pieces(tag_path, '/'))),
        Err(words) => Err(TagFailure::Malformed(words)),
    }
}

/// The document with another text in the first element at a tag path.
pub open spec fn tag_patched(xml: Seq<char>, tag_path: Seq<char>, value: Seq<char>) -> Result<Seq<char>, TagFailure> {
    match xml::parsed_document(xml) {
        Ok(root) => match xml::with_text(root, text::pieces(tag_path, '/'), value) {
            Some(changed) => Ok(xml::written_document(changed)),
            None => Err(TagFailure::PathNotFound(tag_path)),
        },
        Err(words) => Err(TagFailure::Malformed(words)),
    }
}

/// Reads the text of the first element at `tag_path`.
pub fn read_xml_tag(xml: &str, tag_path: &str) -> (r: Result<Option<String>, TagError>)
    ensures
        match r {
            Ok(value) => tag_read(xml@, tag_path@) == Ok::<Option<Seq<char>>, TagFailure>(text::option_view(value)),
            Err(e) => tag_read(xml@, tag_path@) == Err::<Option<Seq<char>>, TagFailure>(e@),
        },
{
    match xml::read_document(xml) {
        Ok(root) => {
            let path = text::split(tag_path, '/');
            Ok(xml::find_by_path(&root, path.as_slice()))
        },
        Err(words) => Err(TagError::Malformed(words)),
    }
}

/// The elements of a document, with another text in the first element at a tag path.
pub open spec fn changed_root(xml: Seq<char>, tag_path: Seq<char>, value: Seq<char>) -> Option<xml::XmlTree> {
    match xml::parsed_document(xml) {
        Ok(root) => xml::with_text(root, text::pieces(tag_path, '/'), value),
        Err(_) => None,
    }
}

/// Whether a document that was changed at a tag path can be read again: what it holds then is
/// portable, and the result is not too long.
pub open spec fn can_be_read_again(
    xml: Seq<char>,
    tag_path: Seq<char>,
    value: Seq<char>,
    patched: Seq<char>,
) -> bool {
    &&& changed_root(xml, tag_path, value) matches Some(changed) && xml::portable(changed)
    &&& vstd::utf8::encode_utf8(patched).len() <= xml::LONGEST_DOCUMENT
}

/// Whether a change at one tag path leaves what stands at another alone: the search for the
/// other goes the same way whatever stands in the changed element, and the texts that it finds
/// are steady.
pub open spec fn left_alone(xml: Seq<char>, tag_path: Seq<char>, other: Seq<char>) -> bool {
    &&& xml::parsed_document(xml) matches Ok(root) && {
        &&& xml::keeps_clear(root, text::pieces(tag_path, '/'), text::pieces(other, '/'))
        &&& xml::locate(root, text::pieces(other, '/')) matches Some(found) ==> xml::steady_texts(found.children)
    }
}

/// Replaces the text of the first element at `tag_path`.
///
/// It can be replaced exactly where it can be read. Where the result can be read again, reading
/// it gives the document with the content of that one element replaced; reading it at the same
/// path gives the new text, if that is steady, and reading it at a path that is left alone gives
/// the same as before.
pub fn patch_xml_tag(xml: &str, tag_path: &str, new_value: &str) -> (r: Result<String, TagError>)
    ensures
        match r {
            Ok(patched) => tag_patched(xml@, tag_path@, new_value@) == Ok::<Seq<char>, TagFailure>(patched@),
            Err(e) => tag_patched(xml@, tag_path@, new_value@) == Err::<Seq<char>, TagFailure>(e@),
        },
        r is Ok <==> (tag_read(xml@, tag_path@) matches Ok(value) && value is Some),
        r matches Ok(patched) ==> can_be_read_again(xml@, tag_path@, new_value@, patched@) ==> {
            let root = xml::parsed_document(xml@)->Ok_0;
            let changed = changed_root(xml@, tag_path@, new_value@)->0;
            xml::one_text_replaced(root, changed, new_value@) && xml::reads_back(changed, patched@)
        },
        r matches Ok(patched) ==> can_be_read_again(xml@, tag_path@, new_value@, patched@) && xml::steady(new_value@)
            ==> tag_read(patched@, tag_path@) == Ok::<Option<Seq<char>>, TagFailure>(Some(new_value@)),
        r matches Ok(patched) ==> can_be_read_again(xml@, tag_path@, new_value@, patched@) ==> forall|other: Seq<char>|
            left_alone(xml@, tag_path@, other) ==> #[trigger] tag_read(patched@, other) == tag_read(xml@, other),
{
    let mut root = match xml::read_document(xml) {
        Ok(root) => root,
        Err(words) => return Err(TagError::Malformed(words)),
    };
    let ghost before = root.tree();
    let path = text::split(tag_path, '/');
    proof {
        xml::law_text_at_with_text(before, text::pieces(tag_path@, '/'), new_value@);
    }
    if !xml::replace_by_path(&mut root, path.as_slice(), new_value) {
        return Err(TagError::PathNotFound(tag_path.to_owned()));
    }
    let ghost changed = root.tree();
    let ghost segments = text::pieces(tag_path@, '/');
    let bytes = match xml::print_document(root) {
        Ok(bytes) => bytes,
        Err(words) => return Err(TagError::Unwritable(words)),
    };
    proof {
        let written = xml::written_document(changed);
        vstd::utf8::encode_utf8_valid_utf8(written);
        vstd::utf8::encode_utf8_decode_utf8(written);
        if can_be_read_again(xml@, tag_path@, new_value@, written) {
            xml::law_one_text_is_replaced(before, segments, new_value@);
            let again = xml::parsed_document(written)->Ok_0;
            if xml::steady(new_value@) {
                xml::lemma_text_again(before, changed, again, segments, new_value@);
            }
            assert forall|other: Seq<char>| left_alone(xml@, tag_path@, other) implies #[trigger] tag_read(written, other)
                == tag_read(xml@, other) by {
                xml::lemma_other_text_again(before, again, segments, new_value@, text::pieces(other, '/'));
            }
        }
    }
    match String::from_utf8(bytes) {
        Ok(patched) => Ok(patched),
        Err(_) => Err(TagError::NotUtf8),
    }
}

/// Whether a document that was changed at a tag path can be read again.
pub fn will_be_read_again(xml: &str, tag_path: &str, value: &str, patched: &str) -> (r: bool)
    ensures
        r == can_be_read_again(xml@, tag_path@, value@, patched@),
{
    match xml::read_document(xml) {
        Ok(root) => {
            let mut root = root;
            let path = text::split(tag_path, '/');
            xml::replace_by_path(&mut root, path.as_slice(), value) && xml::is_portable(&root) && patched.as_bytes().len()
                <= xml::LONGEST_DOCUMENT
        },
        Err(_) => false,
    }
}

/// Where a document is portable and the new text consists of XML characters, a change at a tag
/// path that it has can be read again, if the result is not too long.
pub proof fn law_portable_documents_can_be_read_again(
    xml: Seq<char>,
    tag_path: Seq<char>,
    value: Seq<char>,
    patched: Seq<char>,
)
    requires
        xml::parsed_document(xml) matches Ok(root) && xml::portable(root) && xml::text_at(
            root,
            text::pieces(tag_path, '/'),
        ) is Some,
        xml::xml_text(value),
        vstd::utf8::encode_utf8(patched).len() <= xml::LONGEST_DOCUMENT,
    ensures
        can_be_read_again(xml, tag_path, value, patched),
{
    let root = xml::parsed_document(xml)->Ok_0;
    xml::law_text_at_with_text(root, text::pieces(tag_path, '/'), value);
    xml::law_portable_with_text(root, text::pieces(tag_path, '/'), value);
}

/// Whether a change at one tag path leaves what stands at another alone.
pub fn is_left_alone(xml: &str, tag_path: &str, other: &str) -> (r: bool)
    ensures
        r == left_alone(xml@, tag_path@, other@),
{
    match xml::read_document(xml) {
        Ok(root) => {
            let path = text::split(tag_path, '/');
            let other_path = text::split(other, '/');
            xml::is_clear(&root, path.as_slice(), other_path.as_slice()) && match xml::find_element(
                &root,
                other_path.as_slice(),
            ) {
                Some(found) => xml::has_steady_texts(found),
                None => true,
            }
        },
        Err(_) => false,
    }
}

/// The error for a tag path that leads nowhere names the path.
pub proof fn law_missing_path_is_named(tag_path: Seq<char>)
    ensures
        text::occurs(TagFailure::PathNotFound(tag_path).words(), "<"@ + tag_path + ">"@),
{
    reveal_strlit("<");
    reveal_strlit(">");
    reveal_strlit("XML path <");
    reveal_strlit("> not found in config.xml.\n");
    let words = TagFailure::PathNotFound(tag_path).words();
    let needle = "<"@ + tag_path + ">"@;
    assert(words.subrange(9int, 9int + needle.len()) =~= needle);
}

// ---------------------------------------------------------------------------
// Configurations on the server
// ---------------------------------------------------------------------------

/// The path, relative to the server, of a job's configuration.
pub fn config_path(job: &str) -> (r: String)
    ensures
        r@ == client::job_address(job@, "/config.xml"@),
{
    client::job_path(job, "/config.xml")
}

/// Whether the answer to a request for a configuration holds it; if not, the error in words.
pub fn check_fetched(status: HttpStatus, job: &str) -> (r: Result<(), String>)
    ensures
        match r {
            Ok(_) => http::successful(status@),
            Err(words) => !http::successful(status@) && words@ == "Jenkins returned HTTP "@ + http::status_text(status@)
                + " fetching config.xml for '"@ + job@ + "'"@,
        },
{
    if status.is_success() {
        Ok(())
    } else {
        Err(
            text::cat5("Jenkins returned HTTP ", status.text().as_str(), " fetching config.xml for '", job, "'"),
        )
    }
}

/// Whether a configuration was accepted; if not, the error in words.
pub fn check_uploaded(status: HttpStatus) -> (r: Result<(), String>)
    ensures
        match r {
            Ok(_) => http::successful(status@),
            Err(words) => !http::successful(status@) && words@ == "Jenkins returned HTTP "@ + http::status_text(status@)
                + " uploading config.xml"@,
        },
{
    if status.is_success() {
        Ok(())
    } else {
        Err(text::cat3("Jenkins returned HTTP ", status.text().as_str(), " uploading config.xml"))
    }
}

// ---------------------------------------------------------------------------
// Scanning a pipeline for branches
// ---------------------------------------------------------------------------

/// The path, relative to the server, that starts a scan.
pub fn scan_path(job: &str) -> (r: String)
    ensures
        r@ == client::job_address(job@, "/build"@),
{
    client::job_path(job, "/build")
}

/// How to follow a scan.
#[derive(Debug)]
pub enum ScanStep {
    /// The scan was not accepted.
    Refused(HttpStatus),
    /// The scan is this item of the build queue.
    Queue(u64),
    /// The scan is this build of the pipeline.
    Build(u64),
    /// The scan is not in the queue: watch the pipeline's indexing.
    Indexing,
}

/// How to follow a scan that was answered with this address.
pub fn follow_scan(status: HttpStatus, location: Option<String>) -> (r: ScanStep)
    ensures
        match r {
            ScanStep::Refused(s) => !http::successful(status@) && s == status,
            ScanStep::Queue(id) => http::successful(status@) && (location matches Some(s) && sweep::queue_id(s@)
                == Some(id)),
            ScanStep::Build(_) => false,
            ScanStep::Indexing => http::successful(status@) && (location matches Some(s) ==> sweep::queue_id(s@) is None),
        },
        forall|base: Seq<char>, id: u64|
            200 <= status@ < 300 && text::option_view(location) == Some(#[trigger] sweep::item_address(base, id)) ==> r
                == ScanStep::Queue(id),
        r is Refused <==> !(200 <= status@ < 300),
{
    if !status.is_success() {
        return ScanStep::Refused(status);
    }
    match location {
        Some(location) => match sweep::extract_queue_id(location.as_str()) {
            Ok(id) => ScanStep::Queue(id),
            Err(_) => ScanStep::Indexing,
        },
        None => ScanStep::Indexing,
    }
}

/// How to follow a scan, given the answer to the request for it.
pub fn scan_step(status: HttpStatus, reply_headers: &reqwest::header::HeaderMap) -> (r: ScanStep)
    ensures
        ({
            let location = headers::header_text(headers::header_map(*reply_headers), "Location"@);
            match r {
                ScanStep::Refused(s) => !http::successful(status@) && s == status,
                ScanStep::Queue(id) => http::successful(status@) && location is Some && sweep::queue_id(location->0)
                    == Some(id),
                ScanStep::Build(_) => false,
                ScanStep::Indexing => http::successful(status@) && (location is None || sweep::queue_id(location->0) is None),
            }
        }),
{
    follow_scan(status, headers::header_value(reply_headers, "Location"))
}

/// How to follow a scan once its item has left the queue, with a build or without one.
pub fn scan_polled(polled: Result<u64, String>) -> (r: ScanStep)
    ensures
        r == match polled {
            Ok(build) => ScanStep::Build(build),
            Err(_) => ScanStep::Indexing,
        },
{
    match polled {
        Ok(build) => ScanStep::Build(build),
        Err(_) => ScanStep::Indexing,
    }
}

/// The words for a scan that was not accepted.
pub fn scan_refused(status: HttpStatus) -> (r: String)
    ensures
        r@ == "scan trigger returned HTTP "@ + http::status_text(status@),
{
    text::cat2("scan trigger returned HTTP ", status.text().as_str())
}

/// What follows from a look at the indexing of a pipeline.
#[derive(Debug, Clone, Copy, PartialEq, Eq, Structural)]
pub enum IndexingStep {
    /// Go on.
    Done,
    /// Wait for so many milliseconds, and go on.
    DoneAfter(u64),
    /// Wait for so many milliseconds, and look again.
    AgainAfter(u64),
}

/// The least number of milliseconds between two looks at the indexing of a pipeline.
pub const LEAST_INDEXING_POLL_MS: u64 = 1000;

/// The number of milliseconds that a scan is given where its end cannot be seen.
pub const UNSEEN_SCAN_MS: u64 = 5000;

/// The path, relative to the server, of a pipeline's indexing.
pub fn indexing_path(job: &str) -> (r: String)
    ensures
        r@ == client::job_address(job@, "/indexing/api/json?tree=building"@),
{
    client::job_path(job, "/indexing/api/json?tree=building")
}

/// What follows from a look at the indexing of a pipeline. `building` is what the answer says
/// of it, or nothing where the answer could not be read. A server that does not know the path
/// cannot be asked again.
pub fn indexing_step(status: HttpStatus, building: Option<Option<bool>>, poll_ms: u64) -> (r: IndexingStep)
    ensures
        r == if status@ == 404 {
            IndexingStep::DoneAfter(UNSEEN_SCAN_MS)
        } else if http::successful(status@) && building == Some(Some(true)) {
            IndexingStep::AgainAfter(
                if poll_ms < LEAST_INDEXING_POLL_MS {
                    LEAST_INDEXING_POLL_MS
                } else {
                    poll_ms
                },
            )
        } else {
            IndexingStep::Done
        },
        r is DoneAfter <==> status@ == 404,
        r matches IndexingStep::DoneAfter(ms) ==> ms == 5000,
        r matches IndexingStep::AgainAfter(ms) ==> ms >= poll_ms && ms >= 1000 && (ms == poll_ms || ms == 1000),
        r is AgainAfter ==> building == Some(Some(true)),
{
    if status.code() == 404 {
        return IndexingStep::DoneAfter(UNSEEN_SCAN_MS);
    }
    if !status.is_success() {
        return IndexingStep::Done;
    }
    match building {
        Some(Some(true)) => if poll_ms < LEAST_INDEXING_POLL_MS {
            IndexingStep::AgainAfter(LEAST_INDEXING_POLL_MS)
        } else {
            IndexingStep::AgainAfter(poll_ms)
        },
        _ => IndexingStep::Done,
    }
}

// ---------------------------------------------------------------------------
// Triggering a build
// ---------------------------------------------------------------------------

/// A build that is being triggered. Each attempt tries `/build` and, where that is refused as
/// a bad request, `/buildWithParameters`; between attempts the wait doubles.
#[derive(Debug)]
pub struct TriggerBuild {
    job: String,
    refusals: u8,
}

/// What a [`TriggerBuild`] stands for.
pub struct TriggerModel {
    pub job: Seq<char>,
    /// How many requests were refused so far.
    pub refusals: nat,
}

/// What to do next to trigger a build.
#[derive(Debug)]
pub enum TriggerStep {
    /// Wait for so many milliseconds, and post another request.
    PostAfter(u64),
    /// The build is this item of the queue.
    Queued(u64),
    /// No build was triggered; the words say why.
    Failed(String),
}

/// What a [`TriggerStep`] stands for.
pub enum TriggerStepModel {
    PostAfter(u64),
    Queued(u64),
    Failed(Seq<char>),
}

impl View for TriggerBuild {
    type V = TriggerModel;

    closed spec fn view(&self) -> TriggerModel {
        TriggerModel { job: self.job@, refusals: self.refusals as nat }
    }
}

impl View for TriggerStep {
    type V = TriggerStepModel;

    open spec fn view(&self) -> TriggerStepModel {
        match *self {
            TriggerStep::PostAfter(ms) => TriggerStepModel::PostAfter(ms),
            TriggerStep::Queued(id) => TriggerStepModel::Queued(id),
            TriggerStep::Failed(words) => TriggerStepModel::Failed(words@),
        }
    }
}

/// How often a build is attempted.
pub const MAX_ATTEMPTS: u8 = 5;

/// The milliseconds to wait after so many attempts besides the first.
pub open spec fn backoff(n: nat) -> nat
    decreases n,
{
    if n == 0 {
        2000
    } else {
        2 * backoff((n - 1) as nat)
    }
}

/// The first line of what the server answered.
pub open spec fn preview(body: Seq<char>) -> Seq<char> {
    match text::first_line(body) {
        Some(line) => line,
        None => "(empty)"@,
    }
}

/// The words for a build that no attempt could trigger.
pub open spec fn gave_up_words() -> Seq<char> {
    "build trigger failed after "@ + text::decimal(MAX_ATTEMPTS as nat)
        + " attempts on both /build and /buildWithParameters — check the 400 messages above for Jenkins' reason"@
}

impl TriggerModel {
    pub open spec fn valid(self) -> bool {
        self.refusals < 2 * MAX_ATTEMPTS
    }

    /// The attempt that the next request belongs to, from one up.
    pub open spec fn attempt(self) -> nat {
        self.refusals / 2 + 1
    }

    /// The endpoint that the next request goes to.
    pub open spec fn endpoint(self) -> Seq<char> {
        if self.refusals % 2 == 0 {
            "build"@
        } else {
            "buildWithParameters"@
        }
    }

    /// The path, relative to the server, of the next request.
    pub open spec fn path(self) -> Seq<char> {
        client::job_address(self.job, "/"@ + self.endpoint())
    }

    /// The line that reports a refusal.
    pub open spec fn refusal(self, body: Seq<char>) -> output::LineModel {
        output::warned(
            "  HTTP 400 via /"@ + self.endpoint() + " (attempt "@ + text::decimal(self.attempt()) + "/"@
                + text::decimal(MAX_ATTEMPTS as nat) + "): "@ + preview(body),
        )
    }

    /// What an answer makes of the attempt, what to do next, and the lines that report it.
    pub open spec fn step(
        self,
        code: u16,
        location: Option<Seq<char>>,
        body: Seq<char>,
    ) -> (TriggerModel, TriggerStepModel, Seq<output::LineModel>) {
        if code == 400 {
            if self.refusals == 2 * MAX_ATTEMPTS - 1 {
                (self, TriggerStepModel::Failed(gave_up_words()), seq![self.refusal(body)])
            } else if self.refusals % 2 == 0 {
                (
                    TriggerModel { refusals: self.refusals + 1, ..self },
                    TriggerStepModel::PostAfter(0),
                    seq![self.refusal(body)],
                )
            } else {
                let wait = backoff(self.refusals / 2);
                (
                    TriggerModel { refusals: self.refusals + 1, ..self },
                    TriggerStepModel::PostAfter(wait as u64),
                    seq![
                        self.refusal(body),
                        output::warned(
                            "  Both endpoints returned 400. Retrying in "@ + text::decimal(wait) + "ms…"@,
                        ),
                    ],
                )
            }
        } else if !http::successful(code) {
            (
                self,
                TriggerStepModel::Failed(
                    "Jenkins returned HTTP "@ + http::status_text(code) + " via /"@ + self.endpoint() + ": "@ + preview(
                        body,
                    ),
                ),
                Seq::empty(),
            )
        } else {
            match location {
                Some(address) => match sweep::queue_id(address) {
                    Some(id) => (self, TriggerStepModel::Queued(id), Seq::empty()),
                    None => (
                        self,
                        TriggerStepModel::Failed("could not parse queue item ID from URL: "@ + address),
                        Seq::empty(),
                    ),
                },
                None => (self, TriggerStepModel::Failed("no Location header in build response"@), Seq::empty()),
            }
        }
    }
}

/// The first request of a build goes to `/build`; every second one, after a refusal, to
/// `/buildWithParameters`. There are five attempts of two requests each, and before the second
/// to the fifth the waits are two, four, eight and sixteen seconds. The tenth refusal ends it.
pub proof fn law_trigger_attempts(job: Seq<char>, refusals: nat, body: Seq<char>)
    requires
        refusals < 10,
    ensures
        ({
            let now = TriggerModel { job, refusals };
            let (after, step, lines) = now.step(400, None, body);
            &&& now.endpoint() == if refusals % 2 == 0 { "build"@ } else { "buildWithParameters"@ }
            &&& 1 <= now.attempt() <= 5
            &&& refusals == 9 <==> step is Failed
            &&& refusals < 9 ==> after == (TriggerModel { job, refusals: refusals + 1 })
            &&& refusals == 1 ==> step == TriggerStepModel::PostAfter(2000)
            &&& refusals == 3 ==> step == TriggerStepModel::PostAfter(4000)
            &&& refusals == 5 ==> step == TriggerStepModel::PostAfter(8000)
            &&& refusals == 7 ==> step == TriggerStepModel::PostAfter(16000)
            &&& refusals % 2 == 0 ==> step == TriggerStepModel::PostAfter(0)
        }),
{
    reveal_with_fuel(backoff, 5);
}

/// Whatever is answered besides a refusal as a bad request, no further request is made.
pub proof fn law_trigger_stops(trigger: TriggerModel, code: u16, location: Option<Seq<char>>, body: Seq<char>)
    requires
        code != 400,
    ensures
        trigger.step(code, location, body).1 !is PostAfter,
        trigger.step(code, location, body).0 == trigger,
{
}

impl TriggerBuild {
    #[verifier::type_invariant]
    spec fn in_range(self) -> bool {
        self.refusals < 10
    }

    /// A build that is about to be triggered.
    pub fn new(job: &str) -> (r: TriggerBuild)
        ensures
            r@ == (TriggerModel { job: job@, refusals: 0 }),
    {
        TriggerBuild { job: job.to_owned(), refusals: 0 }
    }

    /// The endpoint that the next request goes to.
    pub fn endpoint(&self) -> (r: String)
        ensures
            r@ == self@.endpoint(),
    {
        if self.refusals % 2 == 0 {
            "build".to_owned()
        } else {
            "buildWithParameters".to_owned()
        }
    }

    /// The path, relative to the server, of the next request.
    pub fn path(&self) -> (r: String)
        ensures
            r@ == self@.path(),
    {
        client::job_path(self.job.as_str(), text::cat2("/", self.endpoint().as_str()).as_str())
    }

    /// Takes the answer to the request: what to do next, and the lines that report it.
    pub fn handle(&mut self, status: HttpStatus, reply_headers: &reqwest::header::HeaderMap, body: &str) -> (r: (
        TriggerStep,
        Vec<Line>,
    ))
        ensures
            old(self)@.valid(),
            (final(self)@, r.0@, output::line_views(r.1@)) == old(self)@.step(
                status@,
                headers::header_text(headers::header_map(*reply_headers), "Location"@),
                body@,
            ),
    {
        self.answered(status, headers::header_value(reply_headers, "Location"), body)
    }

    /// Takes the answer to the request, with the address that it gives: what to do next, and
    /// the lines that report it.
    pub fn answered(&mut self, status: HttpStatus, location: Option<String>, body: &str) -> (r: (
        TriggerStep,
        Vec<Line>,
    ))
        ensures
            old(self)@.valid(),
            (final(self)@, r.0@, output::line_views(r.1@)) == old(self)@.step(
                status@,
                text::option_view(location),
                body@,
            ),
    {
        proof {
            use_type_invariant(&*self);
        }
        let mut lines: Vec<Line> = Vec::new();
        proof {
            assert(output::line_views(lines@) =~= Seq::empty());
        }
        let preview = match text::head_line(body) {
            Some(line) => line,
            None => "(empty)".to_owned(),
        };
        let endpoint = self.endpoint();
        if status.code() == 400 {
            let n: u8 = self.refusals;
            let mut s = text::cat3("  HTTP 400 via /", endpoint.as_str(), " (attempt ");
            s.append(text::show_u64((n / 2 + 1) as u64).as_str());
            s.append("/");
            s.append(text::show_u64(MAX_ATTEMPTS as u64).as_str());
            s.append("): ");
            s.append(preview.as_str());
            output::put(&mut lines, output::warn(s.as_str()));
            if n == 9 {
                let words = text::cat3(
                    "build trigger failed after ",
                    text::show_u64(MAX_ATTEMPTS as u64).as_str(),
                    " attempts on both /build and /buildWithParameters — check the 400 messages above for Jenkins' reason",
                );
                return (TriggerStep::Failed(words), lines);
            }
            self.refusals = n + 1;
            if n % 2 == 0 {
                return (TriggerStep::PostAfter(0), lines);
            }
            let wait: u64 = wait_ms(n / 2);
            let s = text::cat3(
                "  Both endpoints returned 400. Retrying in ",
                text::show_u64(wait).as_str(),
                "ms…",
            );
            output::put(&mut lines, output::warn(s.as_str()));
            return (TriggerStep::PostAfter(wait), lines);
        }
        if !status.is_success() {
            let words = text::cat6(
                "Jenkins returned HTTP ",
                status.text().as_str(),
                " via /",
                endpoint.as_str(),
                ": ",
                preview.as_str(),
            );
            return (TriggerStep::Failed(words), lines);
        }
        match location {
            Some(location) => match sweep::extract_queue_id(location.as_str()) {
                Ok(id) => (TriggerStep::Queued(id), lines),
                Err(e) => (TriggerStep::Failed(e.message()), lines),
            },
            None => (TriggerStep::Failed("no Location header in build response".to_owned()), lines),
        }
    }
}

/// The milliseconds to wait after so many attempts besides the first.
fn wait_ms(n: u8) -> (r: u64)
    requires
        n < 4,
    ensures
        r == backoff(n as nat),
{
    proof {
        reveal_with_fuel(backoff, 5);
    }
    if n == 0 {
        2000
    } else if n == 1 {
        4000
    } else if n == 2 {
        8000
    } else {
        16000
    }
}

// ---------------------------------------------------------------------------
// File names
// ---------------------------------------------------------------------------

/// The name of the file that a build's log is saved in.
pub open spec fn log_name(target: Seq<char>, tag: Seq<char>, value: Seq<char>, build: u64) -> Seq<char> {
    sweep::log_name(target, tag, value, build)
}

/// The name of the file that a build's log is saved in. The slashes of the job's path are
/// written as double underscores; the tag stands there as it was given.
pub fn log_filename(build_target: &str, tag: &str, value: &str, build: u64) -> (r: String)
    ensures
        r@ == log_name(build_target@, tag@, value@, build),
{
    sweep::log_filename(build_target, tag, value, build)
}

// ---------------------------------------------------------------------------
// The sweep
// ---------------------------------------------------------------------------

/// The job that is built: the branch of the pipeline where one is given, or the job itself.
pub open spec fn target_of(job: Seq<char>, branch: Option<Seq<char>>) -> Seq<char> {
    match branch {
        Some(b) => job + "/"@ + b,
        None => job,
    }
}

/// The lines that open a sweep.
pub open spec fn opening_lines(job: Seq<char>, branch: Option<Seq<char>>) -> Seq<output::LineModel> {
    let fetching = output::said("Fetching config.xml for '"@ + job + "'…"@);
    match branch {
        Some(b) => seq![
            output::said(
                "Config: '"@ + job + "' — Build target: '"@ + target_of(job, branch)
                    + "' (no branch scan triggered)"@,
            ),
            fetching,
        ],
        None => seq![fetching],
    }
}

/// How far the build for the current value has come.
#[derive(Debug, Clone, Copy, PartialEq, Eq, Structural)]
pub enum ConfigPhase {
    Uploading,
    Pausing,
    Scanning,
    Settling,
    Triggering,
    Waiting(u64),
    Saving(u64),
    Restoring,
    Finished,
}

#[derive(Debug, Clone, Copy)]
struct ConfigProgress {
    index: usize,
    phase: ConfigPhase,
}

/// A sweep over the values of a tag in a job's configuration. The configuration as it was is
/// kept: each value is put into a copy of it.
#[derive(Debug)]
pub struct ConfigSweep {
    args: ConfigSweepArgs,
    original: String,
    /// For each value the configuration with the value in it.
    patches: Vec<Result<String, TagError>>,
    progress: ConfigProgress,
}

/// What a [`ConfigSweep`] stands for.
pub struct ConfigSweepModel {
    pub job: Seq<char>,
    pub branch: Option<Seq<char>>,
    pub xml_tag: Seq<char>,
    pub values: Seq<Seq<char>>,
    pub output_dir: Seq<char>,
    pub skip_scan: bool,
    pub delay_ms: u64,
    pub no_restore: bool,
    /// The configuration as it was.
    pub original: Seq<char>,
    /// For each value the configuration with the value in it, or why it cannot be put there.
    pub patches: Seq<Result<Seq<char>, TagFailure>>,
    /// The value that is being built.
    pub index: nat,
    pub phase: ConfigPhase,
}

/// What a sweep waits for.
#[derive(Debug)]
pub enum ConfigSweepAction {
    /// This configuration is to be uploaded.
    Upload(String),
    /// So many milliseconds are to pass.
    Pause(u64),
    /// The pipeline is to be scanned for branches.
    Scan,
    /// A build is to be triggered.
    Trigger,
    /// This build is to be followed to its end.
    Wait(u64),
    /// The log of this build is to be saved under this file name.
    Save(u64, String),
    /// Nothing: the sweep is over.
    Finish,
}

/// What a [`ConfigSweepAction`] stands for.
pub enum ConfigSweepActionModel {
    Upload(Seq<char>),
    Pause(u64),
    Scan,
    Trigger,
    Wait(u64),
    Save(u64, Seq<char>),
    Finish,
}

/// What became of an action. Where it failed, the words say why.
#[derive(Debug)]
pub enum ConfigSweepEvent {
    Uploaded(Result<(), String>),
    Paused,
    Scanned(Result<(), String>),
    Triggered(Result<u64, String>),
    Completed(Result<Option<String>, String>),
    /// Where the log was saved.
    Saved(Result<String, String>),
}

/// What a [`ConfigSweepEvent`] stands for.
pub enum ConfigSweepEventModel {
    Uploaded(Result<(), Seq<char>>),
    Paused,
    Scanned(Result<(), Seq<char>>),
    Triggered(Result<u64, Seq<char>>),
    Completed(Result<Option<Seq<char>>, Seq<char>>),
    Saved(Result<Seq<char>, Seq<char>>),
}

/// A configuration with a value in it, or why the value cannot be put there.
pub open spec fn patch_view(patch: Result<String, TagError>) -> Result<Seq<char>, TagFailure> {
    match patch {
        Ok(xml) => Ok(xml@),
        Err(e) => Err(e@),
    }
}

pub open spec fn patch_views(patches: Seq<Result<String, TagError>>) -> Seq<Result<Seq<char>, TagFailure>> {
    patches.map_values(|p: Result<String, TagError>| patch_view(p))
}

impl View for ConfigSweep {
    type V = ConfigSweepModel;

    closed spec fn view(&self) -> ConfigSweepModel {
        ConfigSweepModel {
            job: self.args.job@,
            branch: text::option_view(self.args.branch),
            xml_tag: self.args.xml_tag@,
            values: text::views(self.args.values@),
            output_dir: self.args.output_dir@,
            skip_scan: self.args.skip_scan,
            delay_ms: self.args.post_config_delay_ms,
            no_restore: self.args.no_restore,
            original: self.original@,
            patches: patch_views(self.patches@),
            index: self.progress.index as nat,
            phase: self.progress.phase,
        }
    }
}

impl View for ConfigSweepAction {
    type V = ConfigSweepActionModel;

    open spec fn view(&self) -> ConfigSweepActionModel {
        match *self {
            ConfigSweepAction::Upload(xml) => ConfigSweepActionModel::Upload(xml@),
            ConfigSweepAction::Pause(ms) => ConfigSweepActionModel::Pause(ms),
            ConfigSweepAction::Scan => ConfigSweepActionModel::Scan,
            ConfigSweepAction::Trigger => ConfigSweepActionModel::Trigger,
            ConfigSweepAction::Wait(build) => ConfigSweepActionModel::Wait(build),
            ConfigSweepAction::Save(build, file) => ConfigSweepActionModel::Save(build, file@),
            ConfigSweepAction::Finish => ConfigSweepActionModel::Finish,
        }
    }
}

impl View for ConfigSweepEvent {
    type V = ConfigSweepEventModel;

    open spec fn view(&self) -> ConfigSweepEventModel {
        match *self {
            ConfigSweepEvent::Uploaded(Ok(u)) => ConfigSweepEventModel::Uploaded(Ok(u)),
            ConfigSweepEvent::Uploaded(Err(words)) => ConfigSweepEventModel::Uploaded(Err(words@)),
            ConfigSweepEvent::Paused => ConfigSweepEventModel::Paused,
            ConfigSweepEvent::Scanned(Ok(u)) => ConfigSweepEventModel::Scanned(Ok(u)),
            ConfigSweepEvent::Scanned(Err(words)) => ConfigSweepEventModel::Scanned(Err(words@)),
            ConfigSweepEvent::Triggered(Ok(build)) => ConfigSweepEventModel::Triggered(Ok(build)),
            ConfigSweepEvent::Triggered(Err(words)) => ConfigSweepEventModel::Triggered(Err(words@)),
            ConfigSweepEvent::Completed(Ok(result)) => ConfigSweepEventModel::Completed(Ok(text::option_view(result))),
            ConfigSweepEvent::Completed(Err(words)) => ConfigSweepEventModel::Completed(Err(words@)),
            ConfigSweepEvent::Saved(Ok(place)) => ConfigSweepEventModel::Saved(Ok(place@)),
            ConfigSweepEvent::Saved(Err(words)) => ConfigSweepEventModel::Saved(Err(words@)),
        }
    }
}

/// The milliseconds that a pipeline is given to settle after a scan.
pub const SETTLING_MS: u64 = 3000;

impl ConfigSweepModel {
    /// The configuration with the value at this place in it.
    pub open spec fn patched(self, index: nat) -> Result<Seq<char>, TagFailure> {
        self.patches[index as int]
    }

    /// Whether each value was put into the tag of the configuration as it was.
    pub open spec fn faithful(self) -> bool {
        self.patches =~= Seq::new(
            self.values.len(),
            |i: int| tag_patched(self.original, self.xml_tag, self.values[i]),
        )
    }

    /// Whether the sweep is at a value exactly while there are values left, and a value that
    /// is uploaded can be put into the configuration.
    pub open spec fn valid(self) -> bool {
        &&& self.patches.len() == self.values.len()
        &&& self.index <= self.values.len()
        &&& (self.phase == ConfigPhase::Restoring || self.phase == ConfigPhase::Finished) <==> self.index
            == self.values.len()
        &&& self.phase == ConfigPhase::Uploading ==> self.patched(self.index) is Ok
    }

    /// What the sweep waits for.
    pub open spec fn action(self) -> ConfigSweepActionModel {
        match self.phase {
            ConfigPhase::Uploading => ConfigSweepActionModel::Upload(self.patched(self.index)->Ok_0),
            ConfigPhase::Pausing => ConfigSweepActionModel::Pause(self.delay_ms),
            ConfigPhase::Scanning => ConfigSweepActionModel::Scan,
            ConfigPhase::Settling => ConfigSweepActionModel::Pause(SETTLING_MS),
            ConfigPhase::Triggering => ConfigSweepActionModel::Trigger,
            ConfigPhase::Waiting(build) => ConfigSweepActionModel::Wait(build),
            ConfigPhase::Saving(build) => ConfigSweepActionModel::Save(
                build,
                log_name(target_of(self.job, self.branch), self.xml_tag, self.values[self.index as int], build),
            ),
            ConfigPhase::Restoring => ConfigSweepActionModel::Upload(self.original),
            ConfigPhase::Finished => ConfigSweepActionModel::Finish,
        }
    }

    /// The line that opens a value.
    pub open spec fn heading(self, index: nat) -> output::LineModel {
        output::said(
            "\n["@ + text::decimal(index + 1) + "/"@ + text::decimal(self.values.len()) + "] <"@ + self.xml_tag
                + "> = "@ + self.values[index as int],
        )
    }

    /// The line that closes the sweep.
    pub open spec fn closing(self) -> output::LineModel {
        output::said("\nConfig sweep complete. Logs in '"@ + self.output_dir + "'."@)
    }

    /// The sweep at the first value from `index` on that can be put into the configuration;
    /// where there is none, at the end, where the configuration is restored unless that is
    /// not wanted. With it, the lines that report this.
    pub open spec fn open(self, index: nat) -> (ConfigSweepModel, Seq<output::LineModel>)
        decreases self.values.len() - index,
    {
        if index < self.values.len() {
            match self.patched(index) {
                Ok(_) => (
                    ConfigSweepModel { index, phase: ConfigPhase::Uploading, ..self },
                    seq![self.heading(index)],
                ),
                Err(failure) => {
                    let (after, lines) = self.open(index + 1);
                    (
                        after,
                        seq![self.heading(index), output::warned("  Could not patch XML: "@ + failure.words())] + lines,
                    )
                },
            }
        } else if self.no_restore {
            (
                ConfigSweepModel { index: self.values.len(), phase: ConfigPhase::Finished, ..self },
                seq![output::said("\nSkipping config restore (--no-restore)."@), self.closing()],
            )
        } else {
            (
                ConfigSweepModel { index: self.values.len(), phase: ConfigPhase::Restoring, ..self },
                seq![output::begun("\nRestoring original config.xml… "@)],
            )
        }
    }

    /// The sweep at the next value, with the lines that report this after `line`.
    pub open spec fn next(self, line: output::LineModel) -> (ConfigSweepModel, Seq<output::LineModel>) {
        let (after, lines) = self.open(self.index + 1);
        (after, seq![line] + lines)
    }

    /// The sweep where the configuration has been applied: a pipeline is scanned before one of
    /// its branches is built, unless that is not wanted. With it, the lines that report this
    /// after `lines`.
    pub open spec fn applied(self, lines: Seq<output::LineModel>) -> (ConfigSweepModel, Seq<output::LineModel>) {
        if self.branch is Some && !self.skip_scan {
            (
                ConfigSweepModel { phase: ConfigPhase::Scanning, ..self },
                lines.push(output::said("  Scanning parent pipeline to index new repository…"@)),
            )
        } else {
            (ConfigSweepModel { phase: ConfigPhase::Triggering, ..self }, lines)
        }
    }

    /// What an event makes of the sweep, and the lines that report it. Whatever fails for one
    /// value, the sweep goes on with the next. An event that is not waited for changes nothing.
    pub open spec fn step(self, event: ConfigSweepEventModel) -> (ConfigSweepModel, Seq<output::LineModel>) {
        match (self.phase, event) {
            (ConfigPhase::Uploading, ConfigSweepEventModel::Uploaded(Ok(_))) => {
                let updated = seq![output::said("  Config updated."@)];
                if self.delay_ms > 0 {
                    (
                        ConfigSweepModel { phase: ConfigPhase::Pausing, ..self },
                        updated.push(
                            output::said(
                                "  Waiting "@ + text::decimal(self.delay_ms as nat)
                                    + "ms for Jenkins to apply config…"@,
                            ),
                        ),
                    )
                } else {
                    self.applied(updated)
                }
            },
            (ConfigPhase::Uploading, ConfigSweepEventModel::Uploaded(Err(words))) => self.next(
                output::warned("  Could not upload config: "@ + words),
            ),
            (ConfigPhase::Pausing, ConfigSweepEventModel::Paused) => self.applied(Seq::empty()),
            (ConfigPhase::Scanning, ConfigSweepEventModel::Scanned(outcome)) => (
                ConfigSweepModel { phase: ConfigPhase::Settling, ..self },
                seq![
                    match outcome {
                        Ok(_) => output::said("  Scan complete."@),
                        Err(words) => output::warned(
                            "  Scan failed: "@ + words + ". Attempting branch build anyway…"@,
                        ),
                    },
                ],
            ),
            (ConfigPhase::Settling, ConfigSweepEventModel::Paused) => (
                ConfigSweepModel { phase: ConfigPhase::Triggering, ..self },
                Seq::empty(),
            ),
            (ConfigPhase::Triggering, ConfigSweepEventModel::Triggered(Ok(build))) => (
                ConfigSweepModel { phase: ConfigPhase::Waiting(build), ..self },
                seq![output::said("  Queued as build #"@ + text::decimal(build as nat))],
            ),
            (ConfigPhase::Triggering, ConfigSweepEventModel::Triggered(Err(words))) => self.next(
                output::warned("  Could not trigger build: "@ + words),
            ),
            (ConfigPhase::Waiting(build), ConfigSweepEventModel::Completed(Ok(result))) => (
                ConfigSweepModel { phase: ConfigPhase::Saving(build), ..self },
                seq![output::said("  Result: "@ + sweep::result_word(result))],
            ),
            (ConfigPhase::Waiting(_), ConfigSweepEventModel::Completed(Err(words))) => self.next(
                output::warned("  Error waiting for build: "@ + words),
            ),
            (ConfigPhase::Saving(_), ConfigSweepEventModel::Saved(Ok(place))) => self.next(
                output::said("  Log:    "@ + place),
            ),
            (ConfigPhase::Saving(_), ConfigSweepEventModel::Saved(Err(words))) => self.next(
                output::warned("  Could not save log: "@ + words),
            ),
            (ConfigPhase::Restoring, ConfigSweepEventModel::Uploaded(outcome)) => (
                ConfigSweepModel { phase: ConfigPhase::Finished, ..self },
                seq![
                    match outcome {
                        Ok(_) => output::said("done."@),
                        Err(words) => output::warned("FAILED: "@ + words),
                    },
                    self.closing(),
                ],
            ),
            _ => (self, Seq::empty()),
        }
    }

    /// How far the sweep has come.
    pub open spec fn rank(self) -> nat {
        7 * self.index + match self.phase {
            ConfigPhase::Uploading => 0,
            ConfigPhase::Pausing => 1,
            ConfigPhase::Scanning => 2,
            ConfigPhase::Settling => 3,
            ConfigPhase::Triggering => 4,
            ConfigPhase::Waiting(_) => 5,
            ConfigPhase::Saving(_) => 6,
            ConfigPhase::Restoring => 0,
            ConfigPhase::Finished => 1nat,
        }
    }

    /// Whether two sweeps differ in how far they have come, and in nothing else.
    pub open spec fn same_sweep(self, other: ConfigSweepModel) -> bool {
        other == ConfigSweepModel { index: other.index, phase: other.phase, ..self }
    }
}

/// Where a sweep opens a value: at the first from `index` on that can be put into the
/// configuration, or at the end.
proof fn lemma_open(sweep: ConfigSweepModel, index: nat)
    requires
        sweep.patches.len() == sweep.values.len(),
        index <= sweep.values.len(),
    ensures
        ({
            let after = sweep.open(index).0;
            &&& after.valid()
            &&& sweep.same_sweep(after)
            &&& index <= after.index
            &&& forall|k: nat| index <= k < after.index ==> #[trigger] sweep.patched(k) is Err
            &&& after.phase == ConfigPhase::Uploading || after.phase == ConfigPhase::Restoring || (after.phase
                == ConfigPhase::Finished && sweep.no_restore)
        }),
    decreases sweep.values.len() - index,
{
    if index < sweep.values.len() && sweep.patched(index) is Err {
        lemma_open(sweep, index + 1);
        let after = sweep.open(index + 1).0;
        assert forall|k: nat| index <= k < after.index implies #[trigger] sweep.patched(k) is Err by {
            if k > index {
                assert(index + 1 <= k);
            }
        }
    }
}

/// Every event either changes nothing or brings the sweep forward, and only its progress
/// changes. So a sweep comes to its end, and each value is built once at most. A value that is
/// passed over is one that cannot be put into the configuration.
pub proof fn law_config_sweep_goes_on(sweep: ConfigSweepModel, event: ConfigSweepEventModel)
    requires
        sweep.valid(),
    ensures
        ({
            let after = sweep.step(event).0;
            &&& after.valid()
            &&& sweep.same_sweep(after)
            &&& after == sweep || sweep.rank() < after.rank() <= 7 * sweep.values.len() + 1
            &&& sweep.index <= after.index
            &&& forall|k: nat| sweep.index < k < after.index ==> #[trigger] sweep.patched(k) is Err
        }),
{
    if sweep.index < sweep.values.len() {
        lemma_open(sweep, sweep.index + 1);
    }
}

/// Whatever is uploaded during a sweep is the configuration as it was: with the value whose
/// turn it is in the tag, and at the end unchanged.
pub proof fn law_config_sweep_uploads(sweep: ConfigSweepModel)
    requires
        sweep.valid(),
        sweep.faithful(),
    ensures
        sweep.action() matches ConfigSweepActionModel::Upload(xml) ==> {
            ||| sweep.phase == ConfigPhase::Uploading && tag_patched(
                sweep.original,
                sweep.xml_tag,
                sweep.values[sweep.index as int],
            ) == Ok::<Seq<char>, TagFailure>(xml)
            ||| sweep.phase == ConfigPhase::Restoring && xml == sweep.original
        },
{
}

/// A sweep does not end before the configuration as it was has been uploaded again, unless
/// that is not wanted.
pub proof fn law_config_sweep_restores(sweep: ConfigSweepModel, event: ConfigSweepEventModel)
    requires
        sweep.valid(),
        sweep.phase != ConfigPhase::Finished,
        sweep.step(event).0.phase == ConfigPhase::Finished,
    ensures
        sweep.no_restore || (sweep.action() == ConfigSweepActionModel::Upload(sweep.original) && event is Uploaded),
        sweep.step(event).0.index == sweep.values.len(),
{
    if sweep.index < sweep.values.len() {
        lemma_open(sweep, sweep.index + 1);
    }
}

/// The sweep after these events, one after the other.
pub open spec fn after_events(sweep: ConfigSweepModel, events: Seq<ConfigSweepEventModel>) -> ConfigSweepModel
    decreases events.len(),
{
    if events.len() == 0 {
        sweep
    } else {
        after_events(sweep.step(events[0]).0, events.skip(1))
    }
}

/// The configurations that a sweep has uploaded, or tried to, while these events come.
pub open spec fn uploads(sweep: ConfigSweepModel, events: Seq<ConfigSweepEventModel>) -> Seq<Seq<char>>
    decreases events.len(),
{
    if events.len() == 0 {
        Seq::empty()
    } else {
        let rest = uploads(sweep.step(events[0]).0, events.skip(1));
        if sweep.action() is Upload && events[0] is Uploaded {
            seq![sweep.action()->Upload_0] + rest
        } else {
            rest
        }
    }
}

/// The configurations for the values from `index` on that can be put there, and at the end
/// the configuration as it was, unless that is not wanted.
pub open spec fn uploads_from(
    patches: Seq<Result<Seq<char>, TagFailure>>,
    original: Seq<char>,
    no_restore: bool,
    index: nat,
) -> Seq<Seq<char>>
    decreases patches.len() - index,
{
    if index < patches.len() {
        let rest = uploads_from(patches, original, no_restore, index + 1);
        match patches[index as int] {
            Ok(xml) => seq![xml] + rest,
            Err(_) => rest,
        }
    } else if no_restore {
        Seq::empty()
    } else {
        seq![original]
    }
}

/// The configurations that a sweep still has to upload.
pub open spec fn uploads_left(sweep: ConfigSweepModel) -> Seq<Seq<char>> {
    match sweep.phase {
        ConfigPhase::Uploading => uploads_from(sweep.patches, sweep.original, sweep.no_restore, sweep.index),
        ConfigPhase::Restoring => seq![sweep.original],
        ConfigPhase::Finished => Seq::empty(),
        _ => uploads_from(sweep.patches, sweep.original, sweep.no_restore, sweep.index + 1),
    }
}

proof fn lemma_uploads_left(sweep: ConfigSweepModel, index: nat)
    requires
        sweep.patches.len() == sweep.values.len(),
        index <= sweep.values.len(),
    ensures
        uploads_left(sweep.open(index).0) == uploads_from(sweep.patches, sweep.original, sweep.no_restore, index),
    decreases sweep.values.len() - index,
{
    if index < sweep.values.len() && sweep.patched(index) is Err {
        lemma_uploads_left(sweep, index + 1);
    }
}

/// A sweep that comes to its end has uploaded the configuration for each value that can be put
/// there, in order and once, whatever became of the builds, and at the end the configuration as
/// it was, unless that is not wanted.
pub proof fn law_config_sweep_uploads_each_value(sweep: ConfigSweepModel, events: Seq<ConfigSweepEventModel>)
    requires
        sweep.valid(),
        after_events(sweep, events).phase == ConfigPhase::Finished,
    ensures
        uploads(sweep, events) == uploads_left(sweep),
    decreases events.len(),
{
    if events.len() > 0 {
        let next = sweep.step(events[0]).0;
        law_config_sweep_goes_on(sweep, events[0]);
        law_config_sweep_uploads_each_value(next, events.skip(1));
        if sweep.index < sweep.values.len() {
            lemma_uploads_left(sweep, sweep.index + 1);
        }
    }
}

/// A branch is not built for a value before the pipeline was scanned and has settled, unless
/// that is not wanted.
pub proof fn law_config_sweep_scans_first(sweep: ConfigSweepModel, event: ConfigSweepEventModel)
    requires
        sweep.valid(),
        sweep.phase != ConfigPhase::Triggering,
        sweep.step(event).0.phase == ConfigPhase::Triggering,
    ensures
        sweep.phase == ConfigPhase::Settling || sweep.branch is None || sweep.skip_scan,
{
    if sweep.index < sweep.values.len() {
        lemma_open(sweep, sweep.index + 1);
    }
}

/// A configuration sweep was given no values.
#[derive(Debug)]
pub struct NoValues;

impl NoValues {
    /// The error in words.
    pub fn message(&self) -> (r: String)
        ensures
            r@ == "provide at least one --value to sweep over"@,
    {
        "provide at least one --value to sweep over".to_owned()
    }
}

/// Whether a sweep can start: the job that it builds, and the lines that open it.
pub fn prepare(args: &ConfigSweepArgs) -> (r: Result<(String, Vec<Line>), NoValues>)
    ensures
        match r {
            Ok((target, lines)) => {
                &&& args.values@.len() > 0
                &&& target@ == target_of(args.job@, text::option_view(args.branch))
                &&& output::line_views(lines@) == opening_lines(args.job@, text::option_view(args.branch))
            },
            Err(_) => args.values@.len() == 0,
        },
{
    if args.values.len() == 0 {
        return Err(NoValues);
    }
    let target = match &args.branch {
        Some(branch) => text::cat3(args.job.as_str(), "/", branch.as_str()),
        None => args.job.clone(),
    };
    let mut lines: Vec<Line> = Vec::new();
    proof {
        assert(output::line_views(lines@) =~= Seq::empty());
    }
    if args.branch.is_some() {
        let s = text::cat5(
            "Config: '",
            args.job.as_str(),
            "' — Build target: '",
            target.as_str(),
            "' (no branch scan triggered)",
        );
        output::put(&mut lines, output::say(s.as_str()));
    }
    let s = text::cat3("Fetching config.xml for '", args.job.as_str(), "'…");
    output::put(&mut lines, output::say(s.as_str()));
    Ok((target, lines))
}

impl ConfigSweep {
    #[verifier::type_invariant]
    spec fn in_order(self) -> bool {
        self@.valid()
    }

    /// A sweep that has fetched the configuration as it is, and put each value into the tag,
    /// with the lines that open its first value.
    pub fn start(args: ConfigSweepArgs, original: String) -> (r: (ConfigSweep, Vec<Line>))
        ensures
            r.0@.valid(),
            r.0@.faithful(),
            r.0@.original == original@,
            r.0@.values == text::views(args.values@),
            r.0@.xml_tag == args.xml_tag@,
            (r.0@, output::line_views(r.1@)) == (ConfigSweepModel {
                job: args.job@,
                branch: text::option_view(args.branch),
                xml_tag: args.xml_tag@,
                values: text::views(args.values@),
                output_dir: args.output_dir@,
                skip_scan: args.skip_scan,
                delay_ms: args.post_config_delay_ms,
                no_restore: args.no_restore,
                original: original@,
                patches: r.0@.patches,
                index: args.values@.len(),
                phase: ConfigPhase::Finished,
            }).open(0),
    {
        let mut patches: Vec<Result<String, TagError>> = Vec::new();
        let mut i: usize = 0;
        while i < args.values.len()
            invariant
                i <= args.values@.len(),
                patches@.len() == i,
                forall|k: int|
                    0 <= k < i ==> patch_view(#[trigger] patches@[k]) == tag_patched(
                        original@,
                        args.xml_tag@,
                        args.values@[k]@,
                    ),
            decreases args.values@.len() - i,
        {
            patches.push(patch_xml_tag(original.as_str(), args.xml_tag.as_str(), args.values[i].as_str()));
            i = i + 1;
        }
        let ghost all = Seq::new(
            text::views(args.values@).len(),
            |i: int| tag_patched(original@, args.xml_tag@, text::views(args.values@)[i]),
        );
        proof {
            assert(patch_views(patches@) =~= all);
        }
        let r = ConfigSweep::new(args, original, patches);
        proof {
            let blank = ConfigSweepModel {
                job: args.job@,
                branch: text::option_view(args.branch),
                xml_tag: args.xml_tag@,
                values: text::views(args.values@),
                output_dir: args.output_dir@,
                skip_scan: args.skip_scan,
                delay_ms: args.post_config_delay_ms,
                no_restore: args.no_restore,
                original: original@,
                patches: all,
                index: args.values@.len(),
                phase: ConfigPhase::Finished,
            };
            lemma_open(blank, 0);
        }
        r
    }

    /// A sweep that has fetched the configuration as it is, where `patches` holds for each
    /// value the configuration with the value in it, with the lines that open its first value.
    pub fn new(args: ConfigSweepArgs, original: String, patches: Vec<Result<String, TagError>>) -> (r: (
        ConfigSweep,
        Vec<Line>,
    ))
        requires
            patches@.len() == args.values@.len(),
        ensures
            ({
                let blank = ConfigSweepModel {
                    job: args.job@,
                    branch: text::option_view(args.branch),
                    xml_tag: args.xml_tag@,
                    values: text::views(args.values@),
                    output_dir: args.output_dir@,
                    skip_scan: args.skip_scan,
                    delay_ms: args.post_config_delay_ms,
                    no_restore: args.no_restore,
                    original: original@,
                    patches: patch_views(patches@),
                    index: args.values@.len(),
                    phase: ConfigPhase::Finished,
                };
                (r.0@, output::line_views(r.1@)) == blank.open(0) && r.0@.valid()
            }),
    {
        let total: usize = args.values.len();
        let mut sweep = ConfigSweep {
            args,
            original,
            patches,
            progress: ConfigProgress { index: total, phase: ConfigPhase::Finished },
        };
        let ghost blank = sweep@;
        let lines = sweep.open(0);
        proof {
            lemma_open(blank, 0);
        }
        (sweep, lines)
    }

    /// What the sweep waits for.
    pub fn action(&self) -> (r: ConfigSweepAction)
        ensures
            r@ == self@.action(),
            self@.valid(),
    {
        proof {
            use_type_invariant(self);
        }
        match self.progress.phase {
            ConfigPhase::Uploading => match &self.patches[self.progress.index] {
                Ok(xml) => ConfigSweepAction::Upload(xml.clone()),
                Err(_) => ConfigSweepAction::Finish,
            },
            ConfigPhase::Pausing => ConfigSweepAction::Pause(self.args.post_config_delay_ms),
            ConfigPhase::Scanning => ConfigSweepAction::Scan,
            ConfigPhase::Settling => ConfigSweepAction::Pause(SETTLING_MS),
            ConfigPhase::Triggering => ConfigSweepAction::Trigger,
            ConfigPhase::Waiting(build) => ConfigSweepAction::Wait(build),
            ConfigPhase::Saving(build) => {
                let target = match &self.args.branch {
                    Some(branch) => text::cat3(self.args.job.as_str(), "/", branch.as_str()),
                    None => self.args.job.clone(),
                };
                ConfigSweepAction::Save(
                    build,
                    log_filename(
                        target.as_str(),
                        self.args.xml_tag.as_str(),
                        self.args.values[self.progress.index].as_str(),
                        build,
                    ),
                )
            },
            ConfigPhase::Restoring => ConfigSweepAction::Upload(self.original.clone()),
            ConfigPhase::Finished => ConfigSweepAction::Finish,
        }
    }

    /// The line that opens a value.
    fn heading(&self, index: usize) -> (r: Line)
        requires
            index < self@.values.len(),
        ensures
            r@ == self@.heading(index as nat),
    {
        let total: usize = self.args.values.len();
        let mut s = text::cat5(
            "\n[",
            text::show_u64(index as u64 + 1).as_str(),
            "/",
            text::show_u64(total as u64).as_str(),
            "] <",
        );
        s.append(self.args.xml_tag.as_str());
        s.append("> = ");
        s.append(self.args.values[index].as_str());
        output::say(s.as_str())
    }

    /// The line that closes the sweep.
    fn closing(&self) -> (r: Line)
        ensures
            r@ == self@.closing(),
    {
        output::say(
            text::cat3("\nConfig sweep complete. Logs in '", self.args.output_dir.as_str(), "'.").as_str(),
        )
    }

    /// Moves to a phase of the current value in which nothing is uploaded.
    fn enter(&mut self, phase: ConfigPhase)
        requires
            old(self)@.index < old(self)@.values.len(),
            phase != ConfigPhase::Uploading,
            phase != ConfigPhase::Restoring,
            phase != ConfigPhase::Finished,
        ensures
            final(self)@ == (ConfigSweepModel { phase, ..old(self)@ }),
    {
        proof {
            use_type_invariant(&*self);
        }
        let index: usize = self.progress.index;
        self.progress = ConfigProgress { index, phase };
    }

    /// Moves to the first value from `from` on that can be put into the configuration, or to
    /// the end. Returns the lines that report this.
    fn open(&mut self, from: usize) -> (r: Vec<Line>)
        requires
            from <= old(self)@.values.len(),
        ensures
            (final(self)@, output::line_views(r@)) == old(self)@.open(from as nat),
    {
        proof {
            use_type_invariant(&*self);
        }
        let total: usize = self.args.values.len();
        let mut lines: Vec<Line> = Vec::new();
        let mut i: usize = from;
        let ghost before = self@;
        proof {
            assert(output::line_views(lines@) =~= Seq::empty());
            assert(output::line_views(lines@) + before.open(from as nat).1 =~= before.open(from as nat).1);
        }
        while i < total
            invariant
                from <= i <= total,
                total == before.values.len(),
                total == before.patches.len(),
                before == old(self)@,
                self@ == before,
                before.open(from as nat) == (
                    before.open(i as nat).0,
                    output::line_views(lines@) + before.open(i as nat).1,
                ),
            decreases total - i,
        {
            let ghost done = output::line_views(lines@);
            output::put(&mut lines, self.heading(i));
            match &self.patches[i] {
                Ok(_) => {
                    self.progress = ConfigProgress { index: i, phase: ConfigPhase::Uploading };
                    proof {
                        assert(output::line_views(lines@) =~= done + seq![before.heading(i as nat)]);
                    }
                    return lines;
                },
                Err(e) => {
                    output::put(
                        &mut lines,
                        output::warn(text::cat2("  Could not patch XML: ", e.message().as_str()).as_str()),
                    );
                    proof {
                        let rest = before.open((i + 1) as nat).1;
                        assert(output::line_views(lines@) + rest =~= done + before.open(i as nat).1);
                    }
                },
            }
            i = i + 1;
        }
        let ghost done = output::line_views(lines@);
        if self.args.no_restore {
            self.progress = ConfigProgress { index: total, phase: ConfigPhase::Finished };
            output::put(&mut lines, output::say("\nSkipping config restore (--no-restore)."));
            output::put(&mut lines, self.closing());
            proof {
                assert(output::line_views(lines@) =~= done + before.open(total as nat).1);
            }
        } else {
            self.progress = ConfigProgress { index: total, phase: ConfigPhase::Restoring };
            output::put(&mut lines, output::begin("\nRestoring original config.xml… "));
            proof {
                assert(output::line_views(lines@) =~= done + before.open(total as nat).1);
            }
        }
        lines
    }

    /// Moves to the next value. Returns the lines that report this after `line`.
    fn next(&mut self, line: Line) -> (r: Vec<Line>)
        requires
            old(self)@.index < old(self)@.values.len(),
        ensures
            (final(self)@, output::line_views(r@)) == old(self)@.next(line@),
    {
        proof {
            assert(self.args.values.len() <= usize::MAX);
        }
        let mut rest = self.open(self.progress.index + 1);
        let ghost later = output::line_views(rest@);
        let mut lines: Vec<Line> = Vec::new();
        lines.push(line);
        lines.append(&mut rest);
        proof {
            assert(output::line_views(lines@) =~= seq![line@] + later);
        }
        lines
    }

    /// Moves on where the configuration has been applied. Returns the lines that report this
    /// after `lines`.
    fn applied(&mut self, lines: Vec<Line>) -> (r: Vec<Line>)
        requires
            old(self)@.index < old(self)@.values.len(),
        ensures
            (final(self)@, output::line_views(r@)) == old(self)@.applied(output::line_views(lines@)),
    {
        let mut lines = lines;
        if self.args.branch.is_some() && !self.args.skip_scan {
            self.enter(ConfigPhase::Scanning);
            output::put(&mut lines, output::say("  Scanning parent pipeline to index new repository…"));
        } else {
            self.enter(ConfigPhase::Triggering);
        }
        lines
    }

    /// Takes what became of the action, and returns the lines that report it.
    pub fn handle(&mut self, event: ConfigSweepEvent) -> (r: Vec<Line>)
        ensures
            (final(self)@, output::line_views(r@)) == old(self)@.step(event@),
            final(self)@.valid(),
    {
        proof {
            use_type_invariant(&*self);
            law_config_sweep_goes_on(self@, event@);
        }
        let mut lines: Vec<Line> = Vec::new();
        proof {
            assert(output::line_views(lines@) =~= Seq::empty());
        }
        match (self.progress.phase, event) {
            (ConfigPhase::Uploading, ConfigSweepEvent::Uploaded(Ok(_))) => {
                output::put(&mut lines, output::say("  Config updated."));
                let delay: u64 = self.args.post_config_delay_ms;
                if delay > 0 {
                    self.enter(ConfigPhase::Pausing);
                    let s = text::cat3(
                        "  Waiting ",
                        text::show_u64(delay).as_str(),
                        "ms for Jenkins to apply config…",
                    );
                    output::put(&mut lines, output::say(s.as_str()));
                    lines
                } else {
                    self.applied(lines)
                }
            },
            (ConfigPhase::Uploading, ConfigSweepEvent::Uploaded(Err(words))) => self.next(
                output::warn(text::cat2("  Could not upload config: ", words.as_str()).as_str()),
            ),
            (ConfigPhase::Pausing, ConfigSweepEvent::Paused) => self.applied(lines),
            (ConfigPhase::Scanning, ConfigSweepEvent::Scanned(outcome)) => {
                self.enter(ConfigPhase::Settling);
                match outcome {
                    Ok(_) => output::put(&mut lines, output::say("  Scan complete.")),
                    Err(words) => output::put(
                        &mut lines,
                        output::warn(
                            text::cat3(
                                "  Scan failed: ",
                                words.as_str(),
                                ". Attempting branch build anyway…",
                            ).as_str(),
                        ),
                    ),
                }
                lines
            },
            (ConfigPhase::Settling, ConfigSweepEvent::Paused) => {
                self.enter(ConfigPhase::Triggering);
                lines
            },
            (ConfigPhase::Triggering, ConfigSweepEvent::Triggered(Ok(build))) => {
                self.enter(ConfigPhase::Waiting(build));
                let s = text::cat2("  Queued as build #", text::show_u64(build).as_str());
                output::put(&mut lines, output::say(s.as_str()));
                lines
            },
            (ConfigPhase::Triggering, ConfigSweepEvent::Triggered(Err(words))) => self.next(
                output::warn(text::cat2("  Could not trigger build: ", words.as_str()).as_str()),
            ),
            (ConfigPhase::Waiting(build), ConfigSweepEvent::Completed(Ok(result))) => {
                self.enter(ConfigPhase::Saving(build));
                let s = text::cat2("  Result: ", sweep::show_result(result).as_str());
                output::put(&mut lines, output::say(s.as_str()));
                lines
            },
            (ConfigPhase::Waiting(_), ConfigSweepEvent::Completed(Err(words))) => self.next(
                output::warn(text::cat2("  Error waiting for build: ", words.as_str()).as_str()),
            ),
            (ConfigPhase::Saving(_), ConfigSweepEvent::Saved(Ok(place))) => self.next(
                output::say(text::cat2("  Log:    ", place.as_str()).as_str()),
            ),
            (ConfigPhase::Saving(_), ConfigSweepEvent::Saved(Err(words))) => self.next(
                output::warn(text::cat2("  Could not save log: ", words.as_str()).as_str()),
            ),
            (ConfigPhase::Restoring, ConfigSweepEvent::Uploaded(outcome)) => {
                let index: usize = self.progress.index;
                self.progress = ConfigProgress { index, phase: ConfigPhase::Finished };
                match outcome {
                    Ok(_) => output::put(&mut lines, output::say("done.")),
                    Err(words) => output::put(
                        &mut lines,
                        output::warn(text::cat2("FAILED: ", words.as_str()).as_str()),
                    ),
                }
                output::put(&mut lines, self.closing());
                lines
            },
            _ => lines,
        }
    }
}

// ---------------------------------------------------------------------------
// Laws
// ---------------------------------------------------------------------------

/// A sweep without a branch never asks for a scan: no event leads it to scanning, nor to the
/// pause behind a scan.
pub proof fn law_plain_job_is_never_scanned(sweep: ConfigSweepModel, event: ConfigSweepEventModel)
    requires
        sweep.valid(),
        sweep.branch is None,
        sweep.phase != ConfigPhase::Scanning,
        sweep.phase != ConfigPhase::Settling,
    ensures
        sweep.step(event).0.branch is None,
        sweep.step(event).0.phase != ConfigPhase::Scanning,
        sweep.step(event).0.phase != ConfigPhase::Settling,
        sweep.step(event).0.action() !is Scan,
{
    if sweep.index < sweep.values.len() {
        lemma_open(sweep, sweep.index + 1);
    }
}

/// Between the upload of a value to a plain job and its build there is the configured delay, if
/// one is configured, and nothing else.
pub proof fn law_plain_job_is_built_after_the_delay(sweep: ConfigSweepModel)
    requires
        sweep.valid(),
        sweep.branch is None,
        sweep.phase == ConfigPhase::Uploading,
    ensures
        ({
            let uploaded = sweep.step(ConfigSweepEventModel::Uploaded(Ok(()))).0;
            let paused = uploaded.step(ConfigSweepEventModel::Paused).0;
            &&& sweep.delay_ms == 0 ==> uploaded.action() is Trigger
            &&& sweep.delay_ms > 0 ==> uploaded.action() == ConfigSweepActionModel::Pause(sweep.delay_ms)
                && paused.action() is Trigger
            &&& uploaded.index == sweep.index && paused.index == sweep.index
        }),
{
}

/// Between the upload of a value to a pipeline and the build of the branch there are the
/// configured delay, if one is configured, a scan, and three seconds, in this order; where no
/// scan is wanted, the delay alone. That the scan fails makes no difference.
pub proof fn law_branch_is_built_after_a_scan(sweep: ConfigSweepModel, outcome: Result<(), Seq<char>>)
    requires
        sweep.valid(),
        sweep.branch is Some,
        sweep.phase == ConfigPhase::Uploading,
    ensures
        ({
            let uploaded = sweep.step(ConfigSweepEventModel::Uploaded(Ok(()))).0;
            let applied = if sweep.delay_ms > 0 {
                uploaded.step(ConfigSweepEventModel::Paused).0
            } else {
                uploaded
            };
            let scanned = applied.step(ConfigSweepEventModel::Scanned(outcome)).0;
            let settled = scanned.step(ConfigSweepEventModel::Paused).0;
            &&& sweep.delay_ms > 0 ==> uploaded.action() == ConfigSweepActionModel::Pause(sweep.delay_ms)
            &&& sweep.skip_scan ==> applied.action() is Trigger
            &&& !sweep.skip_scan ==> {
                &&& applied.action() is Scan
                &&& scanned.action() == ConfigSweepActionModel::Pause(3000)
                &&& settled.action() is Trigger
                &&& settled.index == sweep.index
            }
            &&& applied.index == sweep.index
        }),
{
}

/// A build that was triggered is the one that is followed, and whatever its result, its log is
/// asked for, under the name for the job that is built and for the value that it was built with.
pub proof fn law_log_of_every_result_is_saved(sweep: ConfigSweepModel, build: u64, result: Option<Seq<char>>)
    requires
        sweep.valid(),
        sweep.phase == ConfigPhase::Triggering,
    ensures
        ({
            let waiting = sweep.step(ConfigSweepEventModel::Triggered(Ok(build))).0;
            let saving = waiting.step(ConfigSweepEventModel::Completed(Ok(result))).0;
            &&& waiting.action() == ConfigSweepActionModel::Wait(build)
            &&& saving.action() == ConfigSweepActionModel::Save(
                build,
                sweep::log_name(
                    target_of(sweep.job, sweep.branch),
                    sweep.xml_tag,
                    sweep.values[sweep.index as int],
                    build,
                ),
            )
        }),
{
}

/// What is built is the branch, written below the pipeline, or the job itself.
pub proof fn law_target(job: Seq<char>, branch: Seq<char>)
    ensures
        target_of(job, None) == job,
        job.is_prefix_of(target_of(job, Some(branch))),
        branch.is_suffix_of(target_of(job, Some(branch))),
        target_of(job, Some(branch)).len() == job.len() + 1 + branch.len(),
        target_of(job, Some(branch))[job.len() as int] == '/',
{
    reveal_strlit("/");
    let target = target_of(job, Some(branch));
    assert(target.subrange(0, job.len() as int) =~= job);
    assert(target.subrange(target.len() - branch.len(), target.len() as int) =~= branch);
}

/// Whether an event ends what a sweep does for a value: a failure, or the end of saving. A scan
/// that fails does not.
pub open spec fn ends_value(sweep: ConfigSweepModel, event: ConfigSweepEventModel) -> bool {
    sweep.index < sweep.values.len() && match event {
        ConfigSweepEventModel::Uploaded(outcome) => sweep.action() is Upload && outcome is Err,
        ConfigSweepEventModel::Triggered(outcome) => sweep.action() is Trigger && outcome is Err,
        ConfigSweepEventModel::Completed(outcome) => sweep.action() is Wait && outcome is Err,
        ConfigSweepEventModel::Saved(_) => sweep.action() is Save,
        _ => false,
    }
}

/// Once a value is done with, for better or worse, the sweep goes to the next one that can be
/// put into the configuration, and uploads the configuration with it. Where there is none, it
/// uploads the configuration as it was, or is over where that is not wanted.
pub proof fn law_next_value_is_uploaded(sweep: ConfigSweepModel, event: ConfigSweepEventModel, next: nat)
    requires
        sweep.valid(),
        ends_value(sweep, event),
        sweep.index < next <= sweep.values.len(),
        forall|k: nat| sweep.index < k < next ==> #[trigger] sweep.patched(k) is Err,
        next < sweep.values.len() ==> sweep.patched(next) is Ok,
    ensures
        ({
            let after = sweep.step(event).0;
            &&& after.index == next
            &&& next < sweep.values.len() ==> after.action() == ConfigSweepActionModel::Upload(
                sweep.patched(next)->Ok_0,
            )
            &&& next == sweep.values.len() && !sweep.no_restore ==> after.action() == ConfigSweepActionModel::Upload(
                sweep.original,
            )
            &&& next == sweep.values.len() && sweep.no_restore ==> after.action() is Finish
        }),
{
    lemma_open(sweep, sweep.index + 1);
    lemma_opens_at(sweep, sweep.index + 1, next);
}

proof fn lemma_opens_at(sweep: ConfigSweepModel, index: nat, next: nat)
    requires
        sweep.patches.len() == sweep.values.len(),
        index <= next <= sweep.values.len(),
        forall|k: nat| index <= k < next ==> #[trigger] sweep.patched(k) is Err,
        next < sweep.values.len() ==> sweep.patched(next) is Ok,
    ensures
        sweep.open(index).0.index == next,
        next < sweep.values.len() ==> sweep.open(index).0.phase == ConfigPhase::Uploading,
        next == sweep.values.len() ==> sweep.open(index).0.phase == if sweep.no_restore {
            ConfigPhase::Finished
        } else {
            ConfigPhase::Restoring
        },
    decreases next - index,
{
    lemma_open(sweep, index);
    if index < next {
        assert(sweep.patched(index) is Err);
        lemma_opens_at(sweep, index + 1, next);
    }
}

/// A sweep that is not to restore the configuration uploads it with values in it and never as it
/// was: from no state does an event lead to the last upload.
pub proof fn law_no_restore_is_kept(sweep: ConfigSweepModel, event: ConfigSweepEventModel)
    requires
        sweep.valid(),
        sweep.no_restore,
        sweep.phase != ConfigPhase::Restoring,
    ensures
        sweep.step(event).0.phase != ConfigPhase::Restoring,
        sweep.step(event).0.action() is Upload ==> sweep.step(event).0.index < sweep.values.len(),
{
    if sweep.index < sweep.values.len() {
        lemma_open(sweep, sweep.index + 1);
        lemma_never_restoring(sweep, sweep.index + 1);
    }
}

proof fn lemma_never_restoring(sweep: ConfigSweepModel, index: nat)
    requires
        sweep.no_restore,
    ensures
        sweep.open(index).0.phase != ConfigPhase::Restoring,
    decreases sweep.values.len() - index,
{
    if index < sweep.values.len() && sweep.patched(index) is Err {
        lemma_never_restoring(sweep, index + 1);
    }
}

/// An answer to another question than the one that was asked changes nothing and prints nothing.
pub proof fn law_stray_event_is_ignored(sweep: ConfigSweepModel, event: ConfigSweepEventModel)
    requires
        sweep.valid(),
        match event {
            ConfigSweepEventModel::Uploaded(_) => sweep.action() !is Upload,
            ConfigSweepEventModel::Paused => sweep.action() !is Pause,
            ConfigSweepEventModel::Scanned(_) => sweep.action() !is Scan,
            ConfigSweepEventModel::Triggered(_) => sweep.action() !is Trigger,
            ConfigSweepEventModel::Completed(_) => sweep.action() !is Wait,
            ConfigSweepEventModel::Saved(_) => sweep.action() !is Save,
        },
    ensures
        sweep.step(event).0 == sweep,
        sweep.step(event).1.len() == 0,
{
}

/// The builds that were followed to their end while these events come, each with the name that
/// its log is to have.
pub open spec fn completed_builds(
    sweep: ConfigSweepModel,
    events: Seq<ConfigSweepEventModel>,
) -> Seq<(u64, Seq<char>)>
    decreases events.len(),
{
    if events.len() == 0 {
        Seq::empty()
    } else {
        let rest = completed_builds(sweep.step(events[0]).0, events.skip(1));
        match (sweep.action(), events[0]) {
            (ConfigSweepActionModel::Wait(build), ConfigSweepEventModel::Completed(Ok(_))) => seq![
                (
                    build,
                    sweep::log_name(
                        target_of(sweep.job, sweep.branch),
                        sweep.xml_tag,
                        sweep.values[sweep.index as int],
                        build,
                    ),
                ),
            ] + rest,
            _ => rest,
        }
    }
}

/// The logs that a sweep asks for while these events come: the builds and the names.
pub open spec fn logs_asked_for(
    sweep: ConfigSweepModel,
    events: Seq<ConfigSweepEventModel>,
) -> Seq<(u64, Seq<char>)>
    decreases events.len(),
{
    if events.len() == 0 {
        Seq::empty()
    } else {
        let rest = logs_asked_for(sweep.step(events[0]).0, events.skip(1));
        match (sweep.action(), events[0]) {
            (ConfigSweepActionModel::Save(build, name), ConfigSweepEventModel::Saved(_)) => seq![(build, name)] + rest,
            _ => rest,
        }
    }
}

/// A sweep that comes to its end has asked for one log for each build that completed, in order,
/// whatever the results, and for no other.
pub proof fn law_each_completed_build_has_its_log(sweep: ConfigSweepModel, events: Seq<ConfigSweepEventModel>)
    requires
        sweep.valid(),
        after_events(sweep, events).action() is Finish,
    ensures
        logs_asked_for(sweep, events) == (match sweep.action() {
            ConfigSweepActionModel::Save(build, name) => seq![(build, name)],
            _ => Seq::empty(),
        }) + completed_builds(sweep, events),
    decreases events.len(),
{
    if events.len() > 0 {
        let next = sweep.step(events[0]).0;
        law_config_sweep_goes_on(sweep, events[0]);
        if sweep.index < sweep.values.len() {
            lemma_open(sweep, sweep.index + 1);
        }
        law_each_completed_build_has_its_log(next, events.skip(1));
        assert(logs_asked_for(sweep, events) =~= (match sweep.action() {
            ConfigSweepActionModel::Save(build, name) => seq![(build, name)],
            _ => Seq::empty(),
        }) + completed_builds(sweep, events));
    } else {
        assert(Seq::<(u64, Seq<char>)>::empty() + completed_builds(sweep, events) =~= Seq::empty());
    }
}

/// The number of builds that a sweep asks for while these events come.
pub open spec fn triggers(sweep: ConfigSweepModel, events: Seq<ConfigSweepEventModel>) -> nat
    decreases events.len(),
{
    if events.len() == 0 {
        0
    } else {
        triggers(sweep.step(events[0]).0, events.skip(1)) + if sweep.action() is Trigger && events[0] is Triggered {
            1nat
        } else {
            0nat
        }
    }
}

/// The number of uploads of a configuration with a value in it that succeed while these events
/// come.
pub open spec fn values_uploaded(sweep: ConfigSweepModel, events: Seq<ConfigSweepEventModel>) -> nat
    decreases events.len(),
{
    if events.len() == 0 {
        0
    } else {
        values_uploaded(sweep.step(events[0]).0, events.skip(1)) + if sweep.index < sweep.values.len()
            && sweep.action() is Upload && (events[0] matches ConfigSweepEventModel::Uploaded(outcome) && outcome is Ok) {
            1nat
        } else {
            0nat
        }
    }
}

/// A sweep that comes to its end has asked for one build for each value that was uploaded, and
/// for no other: none without its value in the configuration.
pub proof fn law_each_uploaded_value_is_built(sweep: ConfigSweepModel, events: Seq<ConfigSweepEventModel>)
    requires
        sweep.valid(),
        after_events(sweep, events).action() is Finish,
    ensures
        triggers(sweep, events) == values_uploaded(sweep, events) + if sweep.action() is Pause || sweep.action() is Scan
            || sweep.action() is Trigger {
            1nat
        } else {
            0nat
        },
    decreases events.len(),
{
    if events.len() > 0 {
        let next = sweep.step(events[0]).0;
        law_config_sweep_goes_on(sweep, events[0]);
        if sweep.index < sweep.values.len() {
            lemma_open(sweep, sweep.index + 1);
        }
        law_each_uploaded_value_is_built(next, events.skip(1));
    }
}

/// What becomes of an action is reported: a failure on the standard error, with its words, and a
/// success on the standard output, with the number of the build, the result or the place.
pub proof fn law_config_sweep_reports(sweep: ConfigSweepModel, event: ConfigSweepEventModel)
    requires
        sweep.valid(),
    ensures
        ({
            let lines = sweep.step(event).1;
            let first = lines[0].spans[0].1;
            &&& sweep.action() is Upload ==> (event matches ConfigSweepEventModel::Uploaded(outcome) ==> lines.len() > 0
                && match outcome {
                Ok(_) => lines[0].stream == output::Stream::Output,
                Err(words) => lines[0].stream == output::Stream::Error && words.is_suffix_of(first),
            })
            &&& sweep.action() is Scan ==> (event matches ConfigSweepEventModel::Scanned(outcome) ==> lines.len() == 1
                && match outcome {
                Ok(_) => lines[0].stream == output::Stream::Output,
                Err(words) => lines[0].stream == output::Stream::Error && text::occurs(first, words),
            })
            &&& sweep.action() is Trigger ==> (event matches ConfigSweepEventModel::Triggered(outcome) ==> lines.len()
                > 0 && match outcome {
                Ok(build) => lines[0].stream == output::Stream::Output && text::decimal(build as nat).is_suffix_of(
                    first,
                ),
                Err(words) => lines[0].stream == output::Stream::Error && words.is_suffix_of(first),
            })
            &&& sweep.action() is Wait ==> (event matches ConfigSweepEventModel::Completed(outcome) ==> lines.len() > 0
                && match outcome {
                Ok(Some(word)) => lines[0].stream == output::Stream::Output && word.is_suffix_of(first),
                Ok(None) => lines[0].stream == output::Stream::Output && "UNKNOWN"@.is_suffix_of(first),
                Err(words) => lines[0].stream == output::Stream::Error && words.is_suffix_of(first),
            })
            &&& sweep.action() is Save ==> (event matches ConfigSweepEventModel::Saved(outcome) ==> lines.len() > 0
                && match outcome {
                Ok(place) => lines[0].stream == output::Stream::Output && place.is_suffix_of(first),
                Err(words) => lines[0].stream == output::Stream::Error && words.is_suffix_of(first),
            })
        }),
{
    match event {
        ConfigSweepEventModel::Uploaded(Err(words)) => {
            text::lemma_suffix("  Could not upload config: "@, words);
            text::lemma_suffix("FAILED: "@, words);
        },
        ConfigSweepEventModel::Scanned(Err(words)) => {
            let line = "  Scan failed: "@ + words + ". Attempting branch build anyway…"@;
            let at = "  Scan failed: "@.len() as int;
            assert(line.subrange(at, at + words.len()) =~= words);
            assert(text::occurs(line, words));
        },
        ConfigSweepEventModel::Triggered(Ok(build)) => {
            text::lemma_suffix("  Queued as build #"@, text::decimal(build as nat));
        },
        ConfigSweepEventModel::Triggered(Err(words)) => {
            text::lemma_suffix("  Could not trigger build: "@, words);
        },
        ConfigSweepEventModel::Completed(Ok(result)) => {
            text::lemma_suffix("  Result: "@, sweep::result_word(result));
        },
        ConfigSweepEventModel::Completed(Err(words)) => {
            text::lemma_suffix("  Error waiting for build: "@, words);
        },
        ConfigSweepEventModel::Saved(Ok(place)) => {
            text::lemma_suffix("  Log:    "@, place);
        },
        ConfigSweepEventModel::Saved(Err(words)) => {
            text::lemma_suffix("  Could not save log: "@, words);
        },
        _ => {},
    }
}

/// Every value that the sweep comes to is announced, in order, also where it cannot be put into
/// the configuration, which is then reported on the standard error.
pub proof fn law_every_value_is_announced(sweep: ConfigSweepModel, index: nat)
    requires
        sweep.patches.len() == sweep.values.len(),
        index < sweep.values.len(),
    ensures
        ({
            let lines = sweep.open(index).1;
            &&& lines.len() > 0
            &&& sweep.values[index as int].is_suffix_of(lines[0].spans[0].1)
            &&& text::occurs(lines[0].spans[0].1, sweep.xml_tag)
            &&& ("\n["@ + text::decimal(index + 1) + "/"@ + text::decimal(sweep.values.len()) + "]"@).is_prefix_of(
                lines[0].spans[0].1,
            )
            &&& lines[0].stream == output::Stream::Output
            &&& sweep.patched(index) matches Err(failure) ==> {
                &&& lines.len() >= 2
                &&& lines[1].stream == output::Stream::Error
                &&& failure.words().is_suffix_of(lines[1].spans[0].1)
                &&& lines.skip(2) == sweep.open(index + 1).1
            }
        }),
{
    let value = sweep.values[index as int];
    let front = "\n["@ + text::decimal(index + 1) + "/"@ + text::decimal(sweep.values.len()) + "] <"@;
    let heading = front + sweep.xml_tag + "> = "@ + value;
    text::lemma_suffix(front + sweep.xml_tag + "> = "@, value);
    assert(heading.subrange(front.len() as int, front.len() as int + sweep.xml_tag.len()) =~= sweep.xml_tag);
    assert(text::occurs(heading, sweep.xml_tag));
    reveal_strlit("]");
    reveal_strlit("] <");
    let count = "\n["@ + text::decimal(index + 1) + "/"@ + text::decimal(sweep.values.len()) + "]"@;
    assert(heading.subrange(0, count.len() as int) =~= count);
    if let Err(failure) = sweep.patched(index) {
        text::lemma_suffix("  Could not patch XML: "@, failure.words());
        assert(sweep.open(index).1.skip(2) =~= sweep.open(index + 1).1);
    }
}

/// Each refused attempt is reported on the standard error, with the endpoint, the number of the
/// attempt and the first line of the answer. An attempt has two requests.
pub proof fn law_refusal_is_reported(trigger: TriggerModel, location: Option<Seq<char>>, body: Seq<char>)
    requires
        trigger.valid(),
    ensures
        ({
            let (after, step, lines) = trigger.step(400, location, body);
            let first = lines[0].spans[0].1;
            &&& lines.len() >= 1
            &&& lines[0].stream == output::Stream::Error
            &&& text::occurs(first, "via /"@ + trigger.endpoint())
            &&& body.len() == 0 ==> "(empty)"@.is_suffix_of(first)
            &&& text::first_line(body) matches Some(line) ==> line.is_suffix_of(first)
            &&& text::occurs(
                first,
                "(attempt "@ + text::decimal(trigger.attempt()) + "/"@ + text::decimal(MAX_ATTEMPTS as nat) + ")"@,
            )
            &&& step matches TriggerStepModel::PostAfter(ms) ==> (ms > 0 ==> lines.len() == 2 && lines[1].stream
                == output::Stream::Error && text::occurs(lines[1].spans[0].1, text::decimal(ms as nat) + "ms"@))
        }),
        (TriggerModel { refusals: trigger.refusals + 2, ..trigger }).endpoint() == trigger.endpoint(),
        (TriggerModel { refusals: trigger.refusals + 2, ..trigger }).attempt() == trigger.attempt() + 1,
        (TriggerModel { refusals: trigger.refusals + 1, ..trigger }).endpoint() != trigger.endpoint(),
{
    reveal_strlit("build");
    reveal_strlit("buildWithParameters");
    reveal_strlit("  HTTP 400 via /");
    reveal_strlit("via /");
    reveal_with_fuel(backoff, 5);
    let endpoint = trigger.endpoint();
    let front = "  HTTP 400 via /"@ + endpoint;
    let middle = " (attempt "@ + text::decimal(trigger.attempt()) + "/"@ + text::decimal(MAX_ATTEMPTS as nat) + "): "@;
    let line = trigger.refusal(body).spans[0].1;
    assert(line =~= front + middle + preview(body));
    text::lemma_suffix(front + middle, preview(body));
    reveal_strlit(" (attempt ");
    reveal_strlit("(attempt ");
    reveal_strlit("): ");
    reveal_strlit(")");
    reveal_strlit("ms");
    reveal_strlit("ms…");
    let tries = "(attempt "@ + text::decimal(trigger.attempt()) + "/"@ + text::decimal(MAX_ATTEMPTS as nat) + ")"@;
    let at = front.len() as int + 1;
    assert(line.subrange(at, at + tries.len()) =~= tries);
    assert(text::occurs(line, tries));
    let wait = backoff(trigger.refusals / 2);
    let shown = text::decimal(wait) + "ms"@;
    let words = "  Both endpoints returned 400. Retrying in "@ + text::decimal(wait) + "ms…"@;
    let place = "  Both endpoints returned 400. Retrying in "@.len() as int;
    assert(words.subrange(place, place + shown.len()) =~= shown);
    assert(text::occurs(words, shown));
    let needle = "via /"@ + endpoint;
    assert(line.subrange(11int, 11int + needle.len()) =~= needle);
    assert(text::occurs(line, needle));
}

/// A build that is accepted is found at the end of the address that is given, whatever endpoint
/// it was asked for at; any other answer that succeeds is a failure in the words for it.
pub proof fn law_accepted_build_is_found(trigger: TriggerModel, code: u16, base: Seq<char>, id: u64, body: Seq<char>)
    requires
        200 <= code < 300,
    ensures
        trigger.step(code, Some(base + seq!['/'] + text::decimal(id as nat) + sweep::slashes(1)), body).1
            == TriggerStepModel::Queued(id),
        trigger.step(code, None, body).1 is Failed,
        trigger.step(code, Some(base), body).1 matches TriggerStepModel::Failed(words) ==> base.is_suffix_of(words),
{
    sweep::law_queue_id_of_item_address(base, id, 1);
    text::lemma_suffix("could not parse queue item ID from URL: "@, base);
}

/// Each attempt doubles the wait of the one before, from two seconds on.
pub proof fn law_backoff_doubles(n: nat)
    ensures
        backoff(0) == 2000,
        backoff(n + 1) == backoff(n) + backoff(n),
{
}

/// A tag path of one segment is that of the first element of this name. With a further segment
/// it is that of the first element of that name below the one that the path leads to without it.
/// An element that is there is read as the text directly below it, and where there is none,
/// nothing is read.
pub proof fn law_tag_path(xml: Seq<char>, path: Seq<char>, name: Seq<char>)
    requires
        xml::parsed_document(xml) is Ok,
        !name.contains('/'),
    ensures
        ({
            let root = xml::parsed_document(xml)->Ok_0;
            let first = xml::first_named(root, name);
            let below = match xml::locate(root, text::pieces(path, '/')) {
                Some(found) => xml::first_named_in(found.children, name),
                None => None,
            };
            &&& tag_read(xml, name) == Ok::<Option<Seq<char>>, TagFailure>(
                match first {
                    Some(found) => Some(xml::direct_text(found.children)),
                    None => None,
                },
            )
            &&& tag_read(xml, path + seq!['/'] + name) == Ok::<Option<Seq<char>>, TagFailure>(
                match below {
                    Some(found) => Some(xml::direct_text(found.children)),
                    None => None,
                },
            )
        }),
{
    let root = xml::parsed_document(xml)->Ok_0;
    let segments = text::pieces(path, '/');
    text::law_pieces_of_joined(path, name, '/');
    text::law_pieces_hold_no_separator(path, '/');
    xml::law_locate(root, segments, name);
}

/// A tag can be set exactly where there is one to read. What comes out is the document with the
/// content of one element replaced, in which the same path leads to the new text. Where there is
/// no such element the path is named, and a document that cannot be read is told as such.
pub proof fn law_tag_patched(xml: Seq<char>, tag_path: Seq<char>, value: Seq<char>)
    ensures
        match xml::parsed_document(xml) {
            Ok(root) => {
                &&& tag_patched(xml, tag_path, value) is Ok <==> (tag_read(xml, tag_path) matches Ok(held) && held
                    is Some)
                &&& tag_patched(xml, tag_path, value) matches Ok(patched) ==> exists|changed: xml::XmlTree|
                    patched == #[trigger] xml::written_document(changed) && xml::one_text_replaced(root, changed, value)
                        && xml::text_at(changed, text::pieces(tag_path, '/')) == Some(value)
                &&& tag_patched(xml, tag_path, value) matches Err(failure) ==> failure == TagFailure::PathNotFound(
                    tag_path,
                )
            },
            Err(words) => {
                &&& tag_patched(xml, tag_path, value) == Err::<Seq<char>, TagFailure>(TagFailure::Malformed(words))
                &&& tag_read(xml, tag_path) == Err::<Option<Seq<char>>, TagFailure>(TagFailure::Malformed(words))
            },
        },
{
    if let Ok(root) = xml::parsed_document(xml) {
        let path = text::pieces(tag_path, '/');
        xml::law_text_at_with_text(root, path, value);
        xml::law_one_text_is_replaced(root, path, value);
        if let Some(changed) = xml::with_text(root, path, value) {
            assert(tag_patched(xml, tag_path, value) == Ok::<Seq<char>, TagFailure>(xml::written_document(changed)));
        }
    }
}

/// The failures of a tag end in their words, and tell what they are of by how they begin.
pub proof fn law_tag_failures(words: Seq<char>)
    ensures
        words.is_suffix_of(TagFailure::Malformed(words).words()),
        words.is_suffix_of(TagFailure::Unwritable(words).words()),
        "parsing"@.is_prefix_of(TagFailure::Malformed(words).words()),
        "serialising"@.is_prefix_of(TagFailure::Unwritable(words).words()),
{
    reveal_strlit("parsing");
    reveal_strlit("serialising");
    reveal_strlit("parsing config.xml: ");
    reveal_strlit("serialising modified config.xml: ");
    text::lemma_suffix("parsing config.xml: "@, words);
    text::lemma_suffix("serialising modified config.xml: "@, words);
    assert(TagFailure::Malformed(words).words().subrange(0, "parsing"@.len() as int) =~= "parsing"@);
    assert(TagFailure::Unwritable(words).words().subrange(0, "serialising"@.len() as int) =~= "serialising"@);
}

/// A sweep opens with the line that its configuration is fetched, which names the job. Before it
/// a sweep over a branch says which job is configured and which is built.
pub proof fn law_opening_lines(job: Seq<char>, branch: Option<Seq<char>>)
    ensures
        ({
            let lines = opening_lines(job, branch);
            &&& lines.len() == if branch is Some { 2nat } else { 1nat }
            &&& text::occurs(lines.last().spans[0].1, "'"@ + job + "'"@)
            &&& branch is Some ==> text::occurs(lines[0].spans[0].1, "'"@ + job + "'"@) && text::occurs(
                lines[0].spans[0].1,
                "'"@ + target_of(job, branch) + "'"@,
            )
            &&& lines.last().stream == output::Stream::Output
        }),
{
    reveal_strlit("'");
    reveal_strlit("Fetching config.xml for '");
    reveal_strlit("'…");
    reveal_strlit("Config: '");
    reveal_strlit("' — Build target: '");
    reveal_strlit("' (no branch scan triggered)");
    let lines = opening_lines(job, branch);
    let quoted = "'"@ + job + "'"@;
    let last = lines.last().spans[0].1;
    assert(last.subrange(24int, 24int + quoted.len()) =~= quoted);
    if branch is Some {
        let first = lines[0].spans[0].1;
        let target = "'"@ + target_of(job, branch) + "'"@;
        assert(first.subrange(8int, 8int + quoted.len()) =~= quoted);
        let at = 9int + job.len() + "' — Build target: "@.len();
        reveal_strlit("' — Build target: ");
        assert(first.subrange(at, at + target.len()) =~= target);
    }
}

/// Behind the last value the user is told that the configuration is not restored, where that is
/// not wanted, and that the sweep is over; otherwise that it is being restored, in a line that
/// what became of it completes, and then that the sweep is over. The line that closes a sweep
/// names the directory of the logs.
pub proof fn law_end_of_sweep_is_reported(sweep: ConfigSweepModel, outcome: Result<(), Seq<char>>)
    requires
        sweep.patches.len() == sweep.values.len(),
    ensures
        ({
            let (after, lines) = sweep.open(sweep.values.len());
            let restored = after.step(ConfigSweepEventModel::Uploaded(outcome)).1;
            &&& sweep.no_restore ==> lines.len() == 2 && lines[1] == sweep.closing() && text::occurs(
                lines[0].spans[0].1,
                "--no-restore"@,
            )
            &&& !sweep.no_restore ==> {
                &&& lines.len() == 1 && !lines[0].closed
                &&& restored.len() == 2 && restored[1] == sweep.closing()
                &&& outcome matches Err(words) ==> words.is_suffix_of(restored[0].spans[0].1)
                &&& restored[0].stream == if outcome is Ok {
                    output::Stream::Output
                } else {
                    output::Stream::Error
                }
            }
        }),
        text::occurs(sweep.closing().spans[0].1, "'"@ + sweep.output_dir + "'"@),
        sweep.closing().stream == output::Stream::Output && sweep.closing().closed,
{
    reveal_strlit("'");
    reveal_strlit("'.");
    reveal_strlit("--no-restore");
    reveal_strlit("\nSkipping config restore (--no-restore).");
    reveal_strlit("\nConfig sweep complete. Logs in '");
    let skipping = "\nSkipping config restore (--no-restore)."@;
    assert(skipping.subrange(26int, 26int + "--no-restore"@.len()) =~= "--no-restore"@);
    assert(text::occurs(skipping, "--no-restore"@));
    let words = sweep.closing().spans[0].1;
    let quoted = "'"@ + sweep.output_dir + "'"@;
    let at = "\nConfig sweep complete. Logs in '"@.len() as int - 1;
    assert(words.subrange(at, at + quoted.len()) =~= quoted);
    if let Err(e) = outcome {
        text::lemma_suffix("FAILED: "@, e);
    }
}

/// A pause behind an upload is announced with its length, and a scan is announced before it is
/// asked for. Both stand on the standard output, behind the line that the upload succeeded.
pub proof fn law_pause_and_scan_are_announced(sweep: ConfigSweepModel)
    requires
        sweep.valid(),
        sweep.phase == ConfigPhase::Uploading,
    ensures
        ({
            let (uploaded, lines) = sweep.step(ConfigSweepEventModel::Uploaded(Ok(())));
            let (applied, more) = uploaded.step(ConfigSweepEventModel::Paused);
            &&& lines[0].stream == output::Stream::Output
            &&& sweep.delay_ms > 0 ==> {
                &&& lines.len() == 2
                &&& lines[1].stream == output::Stream::Output
                &&& text::occurs(lines[1].spans[0].1, text::decimal(sweep.delay_ms as nat) + "ms"@)
                &&& more.len() == if applied.action() is Scan { 1nat } else { 0nat }
            }
            &&& sweep.delay_ms == 0 ==> lines.len() == if uploaded.action() is Scan { 2nat } else { 1nat }
        }),
{
    reveal_strlit("ms");
    reveal_strlit("  Waiting ");
    reveal_strlit("ms for Jenkins to apply config…");
    let digits = text::decimal(sweep.delay_ms as nat);
    let words = "  Waiting "@ + digits + "ms for Jenkins to apply config…"@;
    let needle = digits + "ms"@;
    assert(words.subrange(10int, 10int + needle.len()) =~= needle);
    assert(text::occurs(words, needle));
}

/// The words for a build that could not be triggered say how often it was tried, or give the
/// status, the endpoint and the first line of the answer.
pub proof fn law_trigger_failures(trigger: TriggerModel, code: u16, location: Option<Seq<char>>, body: Seq<char>)
    requires
        trigger.valid(),
        code != 400,
        !(200 <= code < 300),
    ensures
        text::occurs(gave_up_words(), text::decimal(5) + " attempts"@),
        trigger.step(code, location, body).1 matches TriggerStepModel::Failed(words) && {
            &&& text::occurs(words, http::status_text(code))
            &&& text::occurs(words, "via /"@ + trigger.endpoint())
            &&& preview(body).is_suffix_of(words)
        },
        trigger.step(code, location, body).2.len() == 0,
{
    reveal_strlit(" attempts");
    reveal_strlit("via /");
    reveal_strlit(" via /");
    reveal_strlit(" attempts on both /build and /buildWithParameters — check the 400 messages above for Jenkins' reason");
    let start = "build trigger failed after "@.len() as int;
    let tries = text::decimal(5) + " attempts"@;
    assert(gave_up_words().subrange(start, start + tries.len()) =~= tries);
    let shown = http::status_text(code);
    let endpoint = "via /"@ + trigger.endpoint();
    let front = "Jenkins returned HTTP "@ + shown + " via /"@ + trigger.endpoint() + ": "@;
    let words = front + preview(body);
    let at = "Jenkins returned HTTP "@.len() as int;
    assert(words.subrange(at, at + shown.len()) =~= shown);
    let next = at + shown.len() + 1;
    assert(words.subrange(next, next + endpoint.len()) =~= endpoint);
    assert(text::occurs(words, shown) && text::occurs(words, endpoint));
    text::lemma_suffix(front, preview(body));
}

/// The path of the next request lies below the job and ends in the endpoint.
pub proof fn law_trigger_path(trigger: TriggerModel)
    ensures
        trigger.path() == "job/"@ + client::job_url(trigger.job) + "/"@ + trigger.endpoint(),
{
    assert(trigger.path() =~= "job/"@ + client::job_url(trigger.job) + "/"@ + trigger.endpoint());
}

/// The number of scans that a sweep asks for while these events come.
pub open spec fn scans(sweep: ConfigSweepModel, events: Seq<ConfigSweepEventModel>) -> nat
    decreases events.len(),
{
    if events.len() == 0 {
        0
    } else {
        scans(sweep.step(events[0]).0, events.skip(1)) + if sweep.action() is Scan && events[0] is Scanned {
            1nat
        } else {
            0nat
        }
    }
}

/// A sweep over a branch that comes to its end has asked for one scan for each value that was
/// uploaded. One over a plain job, and one that is not to scan, has asked for none.
pub proof fn law_one_scan_for_each_uploaded_value(sweep: ConfigSweepModel, events: Seq<ConfigSweepEventModel>)
    requires
        sweep.valid(),
        after_events(sweep, events).action() is Finish,
        sweep.phase != ConfigPhase::Pausing,
        sweep.phase != ConfigPhase::Scanning,
    ensures
        sweep.branch is Some && !sweep.skip_scan ==> scans(sweep, events) == values_uploaded(sweep, events),
        sweep.branch is None || sweep.skip_scan ==> scans(sweep, events) == 0,
{
    lemma_scans(sweep, events);
}

proof fn lemma_scans(sweep: ConfigSweepModel, events: Seq<ConfigSweepEventModel>)
    requires
        sweep.valid(),
        after_events(sweep, events).action() is Finish,
    ensures
        sweep.branch is Some && !sweep.skip_scan ==> scans(sweep, events) == values_uploaded(sweep, events) + if sweep.phase
            == ConfigPhase::Pausing || sweep.phase == ConfigPhase::Scanning {
            1nat
        } else {
            0nat
        },
        (sweep.branch is None || sweep.skip_scan) && sweep.phase != ConfigPhase::Scanning ==> scans(sweep, events) == 0,
    decreases events.len(),
{
    if events.len() > 0 {
        law_config_sweep_goes_on(sweep, events[0]);
        if sweep.index < sweep.values.len() {
            lemma_open(sweep, sweep.index + 1);
        }
        lemma_scans(sweep.step(events[0]).0, events.skip(1));
    }
}

/// The milliseconds that a sweep asks to let pass while these events come.
pub open spec fn paused_ms(sweep: ConfigSweepModel, events: Seq<ConfigSweepEventModel>) -> nat
    decreases events.len(),
{
    if events.len() == 0 {
        0
    } else {
        paused_ms(sweep.step(events[0]).0, events.skip(1)) + match (sweep.action(), events[0]) {
            (ConfigSweepActionModel::Pause(ms), ConfigSweepEventModel::Paused) => ms as nat,
            _ => 0,
        }
    }
}

/// A sweep over a plain job that comes to its end has let the configured delay pass once for each
/// value that was uploaded, and no more.
pub proof fn law_plain_job_waits_once_for_each_value(sweep: ConfigSweepModel, events: Seq<ConfigSweepEventModel>)
    requires
        sweep.valid(),
        after_events(sweep, events).action() is Finish,
        sweep.branch is None,
        sweep.phase != ConfigPhase::Pausing,
        sweep.phase != ConfigPhase::Scanning,
        sweep.phase != ConfigPhase::Settling,
    ensures
        paused_ms(sweep, events) == sweep.delay_ms * values_uploaded(sweep, events),
{
    lemma_paused(sweep, events);
}

proof fn lemma_paused(sweep: ConfigSweepModel, events: Seq<ConfigSweepEventModel>)
    requires
        sweep.valid(),
        after_events(sweep, events).action() is Finish,
        sweep.branch is None,
        sweep.phase != ConfigPhase::Scanning,
        sweep.phase != ConfigPhase::Settling,
    ensures
        paused_ms(sweep, events) == sweep.delay_ms * values_uploaded(sweep, events) + if sweep.phase
            == ConfigPhase::Pausing {
            sweep.delay_ms as int
        } else {
            0int
        },
    decreases events.len(),
{
    let delay = sweep.delay_ms as int;
    if events.len() > 0 {
        let next = sweep.step(events[0]).0;
        let rest = events.skip(1);
        law_config_sweep_goes_on(sweep, events[0]);
        law_plain_job_is_never_scanned(sweep, events[0]);
        if sweep.index < sweep.values.len() {
            lemma_open(sweep, sweep.index + 1);
        }
        lemma_paused(next, rest);
        let n = values_uploaded(next, rest) as int;
        assert(delay * (n + 1) == delay * n + delay) by (nonlinear_arith);
        assert(delay == 0 ==> delay * n == 0 && delay * (n + 1) == 0) by (nonlinear_arith);
        assert(next.delay_ms == sweep.delay_ms);
    } else {
        assert(delay * 0 == 0) by (nonlinear_arith);
    }
}

/// A change of the tag of one name leaves what stands at the tag of another name alone, where no
/// element of that name stands in what is replaced and its texts are steady.
pub proof fn law_other_tags_are_left_alone(xml: Seq<char>, name: Seq<char>, other: Seq<char>)
    requires
        !name.contains('/'),
        !other.contains('/'),
        name != other,
        xml::parsed_document(xml) matches Ok(root) && (xml::first_named(root, name) matches Some(found)
            && xml::first_named_in(found.children, other) is None) && (xml::first_named(root, other) matches Some(found)
            ==> xml::steady_texts(found.children)),
    ensures
        left_alone(xml, name, other),
{
    let root = xml::parsed_document(xml)->Ok_0;
    text::law_pieces_of_joined(Seq::empty(), name, '/');
    text::law_pieces_of_joined(Seq::empty(), other, '/');
    xml::law_keeps_clear_of_other_names(root, name, other);
    xml::law_locate(root, Seq::empty(), other);
}

} // verus!
