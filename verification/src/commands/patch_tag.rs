//! The command that sets XML tags of several jobs.

use vstd::prelude::*;
use crate::cli::PatchTagArgs;
use crate::client;
use crate::commands::config_sweep;
use crate::commands::config_sweep::TagError;
use crate::commands::list_tag;
use crate::http;
use crate::http::HttpStatus;
use crate::output;
use crate::output::{Line, Stream, Style};
use crate::text;

verus! {

/// What is wrong with the arguments.
#[derive(Debug)]
pub enum PatchArgsError {
    NoTags,
    /// There are so many tags, and so many values.
    Mismatch(usize, usize),
}

/// Whether the arguments name tags, and a value for each.
pub fn check_args(args: &PatchTagArgs) -> (r: Result<(), PatchArgsError>)
    ensures
        match r {
            Ok(_) => args.xml_tags@.len() > 0 && args.xml_tags@.len() == args.values@.len(),
            Err(PatchArgsError::NoTags) => args.xml_tags@.len() == 0,
            Err(PatchArgsError::Mismatch(tags, values)) => {
                &&& args.xml_tags@.len() > 0
                &&& tags == args.xml_tags@.len()
                &&& values == args.values@.len()
                &&& tags != values
            },
        },
{
    if args.xml_tags.len() == 0 {
        return Err(PatchArgsError::NoTags);
    }
    if args.xml_tags.len() != args.values.len() {
        return Err(PatchArgsError::Mismatch(args.xml_tags.len(), args.values.len()));
    }
    Ok(())
}

impl PatchArgsError {
    pub open spec fn words(self) -> Seq<char> {
        match self {
            PatchArgsError::NoTags => "at least one --xml-tag is required"@,
            PatchArgsError::Mismatch(tags, values) => "--xml-tag count ("@ + text::decimal(tags as nat)
                + ") does not match --value count ("@ + text::decimal(values as nat) + ")"@,
        }
    }

    /// The error in words.
    pub fn message(&self) -> (r: String)
        ensures
            r@ == self.words(),
    {
        match self {
            PatchArgsError::NoTags => "at least one --xml-tag is required".to_owned(),
            PatchArgsError::Mismatch(tags, values) => text::cat5(
                "--xml-tag count (",
                text::show_u64(*tags as u64).as_str(),
                ") does not match --value count (",
                text::show_u64(*values as u64).as_str(),
                ")",
            ),
        }
    }
}

/// Whether a configuration was handed out; if not, the error in words.
pub fn check_fetched(status: HttpStatus) -> (r: Result<(), String>)
    ensures
        match r {
            Ok(_) => http::successful(status@),
            Err(words) => !http::successful(status@) && words@ == "GET config.xml returned HTTP "@
                + http::status_text(status@),
        },
{
    if status.is_success() {
        Ok(())
    } else {
        Err(text::cat2("GET config.xml returned HTTP ", status.text().as_str()))
    }
}

/// Whether a configuration was accepted; if not, the error in words.
pub fn check_uploaded(status: HttpStatus) -> (r: Result<(), String>)
    ensures
        match r {
            Ok(_) => http::successful(status@),
            Err(words) => !http::successful(status@) && words@ == "POST config.xml returned HTTP "@
                + http::status_text(status@),
        },
{
    if status.is_success() {
        Ok(())
    } else {
        Err(text::cat2("POST config.xml returned HTTP ", status.text().as_str()))
    }
}

// ---------------------------------------------------------------------------
// The change of a configuration
// ---------------------------------------------------------------------------

/// A document with the first `n` values put at the tag paths they belong to, one after the
/// other, or the first failure to do so.
pub open spec fn tags_patched(xml: Seq<char>, tags: Seq<Seq<char>>, values: Seq<Seq<char>>, n: nat) -> Result<
    Seq<char>,
    config_sweep::TagFailure,
>
    decreases n,
{
    if n == 0 {
        Ok(xml)
    } else {
        match tags_patched(xml, tags, values, (n - 1) as nat) {
            Ok(so_far) => config_sweep::tag_patched(so_far, tags[n - 1], values[n - 1]),
            Err(failure) => Err(failure),
        }
    }
}

/// How many tags have a value, where each value belongs to the tag at its place.
pub open spec fn pair_count(tags: nat, values: nat) -> nat {
    if tags < values {
        tags
    } else {
        values
    }
}

/// `n` times nothing.
pub open spec fn nothing(n: nat) -> Seq<Option<Seq<char>>> {
    Seq::new(n, |i: int| None::<Seq<char>>)
}

/// The old values of the tags, where they are wanted.
pub open spec fn old_values(xml: Seq<char>, tags: Seq<Seq<char>>, show_old: bool) -> Result<
    Seq<Option<Seq<char>>>,
    config_sweep::TagFailure,
> {
    if show_old {
        list_tag::tags_read(xml, tags)
    } else {
        Ok(nothing(tags.len()))
    }
}

/// What fails for the first tags fails for all of them.
proof fn lemma_first_failure(xml: Seq<char>, tags: Seq<Seq<char>>, values: Seq<Seq<char>>, k: nat, n: nat)
    requires
        k <= n,
        tags_patched(xml, tags, values, k) is Err,
    ensures
        tags_patched(xml, tags, values, n) == tags_patched(xml, tags, values, k),
    decreases n,
{
    if k < n {
        lemma_first_failure(xml, tags, values, k, (n - 1) as nat);
    }
}

/// A change to a configuration: the old values of the tags, where they are wanted, and the
/// configuration to upload.
#[derive(Debug)]
pub struct Patch {
    pub old_values: Vec<Option<String>>,
    pub xml: String,
}

/// Puts each value into its tag, one after the other. The old values are those of the
/// configuration before any change.
pub fn patch_tags(original: &str, tags: &[String], values: &[String], show_old: bool) -> (r: Result<Patch, TagError>)
    ensures
        ({
            let old = old_values(original@, text::views(tags@), show_old);
            let new = tags_patched(
                original@,
                text::views(tags@),
                text::views(values@),
                pair_count(tags@.len(), values@.len()),
            );
            match r {
                Ok(patch) => {
                    &&& old == Ok::<Seq<Option<Seq<char>>>, config_sweep::TagFailure>(
                        list_tag::option_views(patch.old_values@),
                    )
                    &&& new == Ok::<Seq<char>, config_sweep::TagFailure>(patch.xml@)
                },
                Err(e) => match old {
                    Ok(_) => new == Err::<Seq<char>, config_sweep::TagFailure>(e@),
                    Err(failure) => failure == e@,
                },
            }
        }),
{
    let found: Vec<Option<String>> = if show_old {
        match list_tag::read_tags(original, tags) {
            Ok(values) => values,
            Err(e) => return Err(e),
        }
    } else {
        let mut none: Vec<Option<String>> = Vec::new();
        let mut i: usize = 0;
        while i < tags.len()
            invariant
                i <= tags@.len(),
                none@.len() == i,
                forall|k: int| 0 <= k < i ==> (#[trigger] none@[k]) is None,
            decreases tags@.len() - i,
        {
            none.push(None);
            i = i + 1;
        }
        proof {
            assert(list_tag::option_views(none@) =~= nothing(tags@.len()));
        }
        none
    };
    let ghost paths = text::views(tags@);
    let ghost texts = text::views(values@);
    let mut xml = original.to_owned();
    let mut i: usize = 0;
    while i < tags.len() && i < values.len()
        invariant
            i <= tags@.len(),
            i <= values@.len(),
            paths == text::views(tags@),
            texts == text::views(values@),
            old_values(original@, paths, show_old) is Ok,
            tags_patched(original@, paths, texts, i as nat) == Ok::<Seq<char>, config_sweep::TagFailure>(xml@),
        decreases tags@.len() - i,
    {
        xml = match config_sweep::patch_xml_tag(xml.as_str(), tags[i].as_str(), values[i].as_str()) {
            Ok(next) => next,
            Err(e) => {
                proof {
                    lemma_first_failure(
                        original@,
                        paths,
                        texts,
                        (i + 1) as nat,
                        pair_count(tags@.len(), values@.len()),
                    );
                }
                return Err(e);
            },
        };
        i = i + 1;
    }
    Ok(Patch { old_values: found, xml })
}

// ---------------------------------------------------------------------------
// What is shown
// ---------------------------------------------------------------------------

/// The line for a job, with its number among all jobs.
pub open spec fn heading(number: nat, total: nat, job: Seq<char>) -> output::LineModel {
    output::painted(
        seq![
            (Style::Dimmed, "["@ + text::decimal(number) + "/"@ + text::decimal(total) + "]"@),
            (Style::Plain, " "@),
            (Style::Cyan, job),
        ],
    )
}

/// The line for a tag that was set, with its old value where that is known.
pub open spec fn change_line(tag: Seq<char>, old_value: Option<Seq<char>>, value: Seq<char>) -> output::LineModel {
    let name = (Style::Cyan, "<"@ + tag + ">"@);
    match old_value {
        Some(previous) => output::painted(
            seq![
                (Style::Plain, "  "@),
                name,
                (Style::Plain, ": "@),
                (Style::Yellow, previous),
                (Style::Plain, " → "@),
                (Style::Green, value),
            ],
        ),
        None => output::painted(
            seq![(Style::Plain, "  "@), name, (Style::Plain, " → "@), (Style::Green, value)],
        ),
    }
}

/// The line for a job that was not changed.
pub open spec fn failed_line(words: Seq<char>) -> output::LineModel {
    output::painted(
        seq![(Style::Plain, "  "@), (Style::Red, "FAILED —"@), (Style::Plain, " "@), (Style::Plain, words)],
    )
}

/// The old value of a tag, where it is known.
pub open spec fn old_value(old: Seq<Option<Seq<char>>>, i: int) -> Option<Seq<char>> {
    if i < old.len() {
        old[i]
    } else {
        None
    }
}

/// The lines for what became of a job: one for each tag, or one for the failure.
pub open spec fn outcome_lines(
    tags: Seq<Seq<char>>,
    values: Seq<Seq<char>>,
    outcome: Result<Seq<Option<Seq<char>>>, Seq<char>>,
) -> Seq<output::LineModel> {
    match outcome {
        Ok(old) => Seq::new(
            pair_count(tags.len(), values.len()),
            |i: int| change_line(tags[i], old_value(old, i), values[i]),
        ),
        Err(words) => seq![failed_line(words)],
    }
}

/// The line for a job, with its number among all jobs.
pub fn show_heading(number: usize, total: usize, job: &str) -> (r: Line)
    ensures
        r@ == heading(number as nat, total as nat, job@),
{
    let mut line = Line::new(Stream::Output);
    let place = text::cat5(
        "[",
        text::show_u64(number as u64).as_str(),
        "/",
        text::show_u64(total as u64).as_str(),
        "]",
    );
    line.add(Style::Dimmed, place.as_str());
    line.add(Style::Plain, " ");
    line.add(Style::Cyan, job);
    proof {
        assert(line@.spans =~= heading(number as nat, total as nat, job@).spans);
    }
    line
}

/// The line for a tag that was set.
fn show_change(tag: &str, old_value: Option<&String>, value: &str) -> (r: Line)
    ensures
        r@ == change_line(
            tag@,
            match old_value {
                Some(s) => Some(s@),
                None => None,
            },
            value@,
        ),
{
    let mut line = Line::new(Stream::Output);
    line.add(Style::Plain, "  ");
    line.add(Style::Cyan, text::cat3("<", tag, ">").as_str());
    match old_value {
        Some(previous) => {
            line.add(Style::Plain, ": ");
            line.add(Style::Yellow, previous.as_str());
        },
        None => {},
    }
    line.add(Style::Plain, " → ");
    line.add(Style::Green, value);
    proof {
        let model = match old_value {
            Some(s) => Some(s@),
            None => None,
        };
        assert(line@.spans =~= change_line(tag@, model, value@).spans);
    }
    line
}

/// The lines for what became of a job. On failure, the words say why.
pub fn show_outcome(tags: &[String], values: &[String], outcome: Result<Vec<Option<String>>, String>) -> (r: Vec<Line>)
    ensures
        output::line_views(r@) == outcome_lines(
            text::views(tags@),
            text::views(values@),
            match outcome {
                Ok(old) => Ok(list_tag::option_views(old@)),
                Err(words) => Err(words@),
            },
        ),
{
    match outcome {
        Ok(old) => show_changes(tags, values, &old),
        Err(words) => {
            let mut lines: Vec<Line> = Vec::new();
            proof {
                assert(output::line_views(lines@) =~= Seq::empty());
            }
            let mut line = Line::new(Stream::Output);
            line.add(Style::Plain, "  ");
            line.add(Style::Red, "FAILED —");
            line.add(Style::Plain, " ");
            line.add(Style::Plain, words.as_str());
            proof {
                assert(line@.spans =~= failed_line(words@).spans);
            }
            output::put(&mut lines, line);
            lines
        },
    }
}

/// The lines for the tags of a job that was changed.
fn show_changes(tags: &[String], values: &[String], old: &Vec<Option<String>>) -> (r: Vec<Line>)
    ensures
        output::line_views(r@) == outcome_lines(
            text::views(tags@),
            text::views(values@),
            Ok::<Seq<Option<Seq<char>>>, Seq<char>>(list_tag::option_views(old@)),
        ),
{
    let mut lines: Vec<Line> = Vec::new();
    let ghost all = outcome_lines(
        text::views(tags@),
        text::views(values@),
        Ok::<Seq<Option<Seq<char>>>, Seq<char>>(list_tag::option_views(old@)),
    );
    let mut i: usize = 0;
    proof {
        assert(output::line_views(lines@) =~= all.take(0));
    }
    while i < tags.len() && i < values.len()
        invariant
            i <= tags@.len(),
            i <= values@.len(),
            all == outcome_lines(
                text::views(tags@),
                text::views(values@),
                Ok::<Seq<Option<Seq<char>>>, Seq<char>>(list_tag::option_views(old@)),
            ),
            output::line_views(lines@) == all.take(i as int),
        decreases tags@.len() - i,
    {
        let previous = if i < old.len() {
            old[i].as_ref()
        } else {
            None
        };
        output::put(&mut lines, show_change(tags[i].as_str(), previous, values[i].as_str()));
        proof {
            assert(output::line_views(lines@) =~= all.take(i + 1));
        }
        i = i + 1;
    }
    proof {
        assert(all.take(i as int) =~= all);
    }
    lines
}

// ---------------------------------------------------------------------------
// The run over the jobs
// ---------------------------------------------------------------------------

#[derive(Debug)]
struct Stage {
    index: usize,
    patch: Option<Patch>,
}

/// A run over jobs that sets tags of each of them.
#[derive(Debug)]
pub struct PatchRun {
    jobs: Vec<String>,
    tags: Vec<String>,
    values: Vec<String>,
    stage: Stage,
}

/// What a [`PatchRun`] stands for.
pub struct PatchRunModel {
    pub jobs: Seq<Seq<char>>,
    pub tags: Seq<Seq<char>>,
    pub values: Seq<Seq<char>>,
    /// The job that is being changed.
    pub index: nat,
    /// The old values and the configuration to upload, once that is known.
    pub patch: Option<(Seq<Option<Seq<char>>>, Seq<char>)>,
}

/// What a run waits for.
#[derive(Debug)]
pub enum PatchAction {
    /// The configuration at this path is to be fetched and changed.
    Prepare(String),
    /// This configuration is to be uploaded to this path.
    Upload(String, String),
    /// Nothing: the run is over.
    Finish,
}

/// What a [`PatchAction`] stands for.
pub enum PatchActionModel {
    Prepare(Seq<char>),
    Upload(Seq<char>, Seq<char>),
    Finish,
}

/// What became of an action. Where it failed, the words say why.
#[derive(Debug)]
pub enum PatchEvent {
    Prepared(Result<Patch, String>),
    Uploaded(Result<(), String>),
}

/// What a [`PatchEvent`] stands for.
pub enum PatchEventModel {
    Prepared(Result<(Seq<Option<Seq<char>>>, Seq<char>), Seq<char>>),
    Uploaded(Result<(), Seq<char>>),
}

impl View for Patch {
    type V = (Seq<Option<Seq<char>>>, Seq<char>);

    open spec fn view(&self) -> (Seq<Option<Seq<char>>>, Seq<char>) {
        (list_tag::option_views(self.old_values@), self.xml@)
    }
}

impl View for PatchRun {
    type V = PatchRunModel;

    closed spec fn view(&self) -> PatchRunModel {
        PatchRunModel {
            jobs: text::views(self.jobs@),
            tags: text::views(self.tags@),
            values: text::views(self.values@),
            index: self.stage.index as nat,
            patch: match self.stage.patch {
                Some(patch) => Some(patch@),
                None => None,
            },
        }
    }
}

impl View for PatchAction {
    type V = PatchActionModel;

    open spec fn view(&self) -> PatchActionModel {
        match *self {
            PatchAction::Prepare(path) => PatchActionModel::Prepare(path@),
            PatchAction::Upload(path, xml) => PatchActionModel::Upload(path@, xml@),
            PatchAction::Finish => PatchActionModel::Finish,
        }
    }
}

impl View for PatchEvent {
    type V = PatchEventModel;

    open spec fn view(&self) -> PatchEventModel {
        match *self {
            PatchEvent::Prepared(Ok(patch)) => PatchEventModel::Prepared(Ok(patch@)),
            PatchEvent::Prepared(Err(words)) => PatchEventModel::Prepared(Err(words@)),
            PatchEvent::Uploaded(Ok(_)) => PatchEventModel::Uploaded(Ok(())),
            PatchEvent::Uploaded(Err(words)) => PatchEventModel::Uploaded(Err(words@)),
        }
    }
}

impl PatchRunModel {
    /// Whether the run is at a job, or over.
    pub open spec fn valid(self) -> bool {
        self.index <= self.jobs.len() && (self.patch is Some ==> self.index < self.jobs.len())
    }

    /// What the run waits for.
    pub open spec fn action(self) -> PatchActionModel {
        if self.index < self.jobs.len() {
            let path = client::job_address(self.jobs[self.index as int], "/config.xml"@);
            match self.patch {
                Some(patch) => PatchActionModel::Upload(path, patch.1),
                None => PatchActionModel::Prepare(path),
            }
        } else {
            PatchActionModel::Finish
        }
    }

    /// The line that opens the job that the run is at, if it is not over.
    pub open spec fn opening(self) -> Seq<output::LineModel> {
        if self.index < self.jobs.len() {
            seq![heading(self.index + 1, self.jobs.len(), self.jobs[self.index as int])]
        } else {
            Seq::empty()
        }
    }

    /// The run at its next job, and the lines for what became of the current one.
    pub open spec fn next(self, outcome: Result<Seq<Option<Seq<char>>>, Seq<char>>) -> (
        PatchRunModel,
        Seq<output::LineModel>,
    ) {
        let next = PatchRunModel { index: self.index + 1, patch: None, ..self };
        (next, outcome_lines(self.tags, self.values, outcome) + next.opening())
    }

    /// The run after an event, and the lines that report it. An event that the run does not wait
    /// for changes nothing.
    pub open spec fn step(self, event: PatchEventModel) -> (PatchRunModel, Seq<output::LineModel>) {
        match (self.patch, event) {
            (None, PatchEventModel::Prepared(outcome)) if self.index < self.jobs.len() => match outcome {
                Ok(patch) => (PatchRunModel { patch: Some(patch), ..self }, Seq::empty()),
                Err(words) => self.next(Err(words)),
            },
            (Some(patch), PatchEventModel::Uploaded(outcome)) => match outcome {
                Ok(_) => self.next(Ok(patch.0)),
                Err(words) => self.next(Err(words)),
            },
            _ => (self, Seq::empty()),
        }
    }
}

/// Every event either changes nothing or brings the run forward, by at most one job. A failure
/// brings it to the next job, whatever the failure is.
pub proof fn law_patch_run_goes_on(run: PatchRunModel, event: PatchEventModel)
    requires
        run.valid(),
    ensures
        run.step(event).0.valid(),
        run.step(event).0.jobs == run.jobs && run.step(event).0.tags == run.tags && run.step(event).0.values == run.values,
        run.index <= run.step(event).0.index <= run.index + 1,
        run.action() is Prepare && (event matches PatchEventModel::Prepared(outcome) && outcome is Err)
            ==> run.step(event).0 == (PatchRunModel { index: run.index + 1, ..run }),
        run.action() is Upload && event is Uploaded ==> run.step(event).0 == (PatchRunModel {
            index: run.index + 1,
            patch: None,
            ..run
        }),
{
}

/// The run after these events, one after the other.
pub open spec fn after_events(run: PatchRunModel, events: Seq<PatchEventModel>) -> PatchRunModel
    decreases events.len(),
{
    if events.len() == 0 {
        run
    } else {
        after_events(run.step(events[0]).0, events.skip(1))
    }
}

/// The paths of the configurations that a run asks for while these events come.
pub open spec fn configs_asked_for(run: PatchRunModel, events: Seq<PatchEventModel>) -> Seq<Seq<char>>
    decreases events.len(),
{
    if events.len() == 0 {
        Seq::empty()
    } else {
        let rest = configs_asked_for(run.step(events[0]).0, events.skip(1));
        if run.action() is Prepare && events[0] is Prepared {
            seq![run.action()->Prepare_0] + rest
        } else {
            rest
        }
    }
}

/// The paths of the configurations of the jobs from `index` on.
pub open spec fn configs_from(jobs: Seq<Seq<char>>, index: nat) -> Seq<Seq<char>>
    decreases jobs.len() - index,
{
    if index < jobs.len() {
        seq![client::job_address(jobs[index as int], "/config.xml"@)] + configs_from(jobs, index + 1)
    } else {
        Seq::empty()
    }
}

/// A run that comes to its end has asked for the configuration of each job once, in order,
/// whatever became of the others.
pub proof fn law_patch_run_reaches_each_job(run: PatchRunModel, events: Seq<PatchEventModel>)
    requires
        run.valid(),
        after_events(run, events).action() is Finish,
    ensures
        configs_asked_for(run, events) == configs_from(
            run.jobs,
            if run.patch is Some {
                run.index + 1
            } else {
                run.index
            },
        ),
    decreases events.len(),
{
    if events.len() > 0 {
        law_patch_run_goes_on(run, events[0]);
        law_patch_run_reaches_each_job(run.step(events[0]).0, events.skip(1));
    }
}

impl PatchRun {
    #[verifier::type_invariant]
    spec fn in_order(self) -> bool {
        self.stage.index <= self.jobs@.len() && (self.stage.patch is Some ==> self.stage.index < self.jobs@.len())
    }

    /// A run at its first job, and the line that opens it.
    pub fn new(jobs: Vec<String>, tags: Vec<String>, values: Vec<String>) -> (r: (PatchRun, Vec<Line>))
        ensures
            r.0@ == (PatchRunModel {
                jobs: text::views(jobs@),
                tags: text::views(tags@),
                values: text::views(values@),
                index: 0,
                patch: None,
            }),
            r.0@.valid(),
            output::line_views(r.1@) == r.0@.opening(),
    {
        let run = PatchRun { jobs, tags, values, stage: Stage { index: 0, patch: None } };
        let lines = run.opening();
        (run, lines)
    }

    /// What the run waits for.
    pub fn action(&self) -> (r: PatchAction)
        ensures
            r@ == self@.action(),
            self@.valid(),
    {
        proof {
            use_type_invariant(self);
        }
        if self.stage.index < self.jobs.len() {
            let path = config_sweep::config_path(self.jobs[self.stage.index].as_str());
            match &self.stage.patch {
                Some(patch) => PatchAction::Upload(path, patch.xml.as_str().to_owned()),
                None => PatchAction::Prepare(path),
            }
        } else {
            PatchAction::Finish
        }
    }

    fn opening(&self) -> (r: Vec<Line>)
        ensures
            output::line_views(r@) == self@.opening(),
    {
        let mut lines: Vec<Line> = Vec::new();
        proof {
            assert(output::line_views(lines@) =~= Seq::empty());
        }
        let i: usize = self.stage.index;
        if i < self.jobs.len() {
            output::put(&mut lines, show_heading(i + 1, self.jobs.len(), self.jobs[i].as_str()));
            proof {
                assert(output::line_views(lines@) =~= self@.opening());
            }
        }
        lines
    }

    /// Goes on to the next job. Returns the lines that report this after `lines`.
    fn go_on(&mut self, lines: Vec<Line>) -> (r: Vec<Line>)
        requires
            old(self)@.index < old(self)@.jobs.len(),
        ensures
            final(self)@ == (PatchRunModel { index: old(self)@.index + 1, patch: None, ..old(self)@ }),
            output::line_views(r@) == output::line_views(lines@) + final(self)@.opening(),
    {
        let total: usize = self.jobs.len();
        let index: usize = self.stage.index + 1;
        assert(index <= total);
        self.stage = Stage { index, patch: None };
        let mut lines = lines;
        output::put_all(&mut lines, self.opening());
        lines
    }

    /// Takes what became of the action, and returns the lines that report it.
    pub fn handle(&mut self, event: PatchEvent) -> (r: Vec<Line>)
        ensures
            (final(self)@, output::line_views(r@)) == old(self)@.step(event@),
            final(self)@.valid(),
    {
        proof {
            use_type_invariant(&*self);
        }
        let index: usize = self.stage.index;
        let preparing = self.stage.patch.is_none() && index < self.jobs.len();
        let uploading = self.stage.patch.is_some();
        let none: Vec<Line> = Vec::new();
        proof {
            assert(output::line_views(none@) =~= Seq::empty());
        }
        match event {
            PatchEvent::Prepared(Ok(patch)) => {
                if preparing {
                    self.stage = Stage { index, patch: Some(patch) };
                }
                none
            },
            PatchEvent::Prepared(Err(words)) => {
                if !preparing {
                    return none;
                }
                let lines = show_outcome(self.tags.as_slice(), self.values.as_slice(), Err(words));
                self.go_on(lines)
            },
            PatchEvent::Uploaded(Ok(_)) => {
                let lines = match &self.stage.patch {
                    Some(patch) => show_changes(self.tags.as_slice(), self.values.as_slice(), &patch.old_values),
                    None => return none,
                };
                self.go_on(lines)
            },
            PatchEvent::Uploaded(Err(words)) => {
                if !uploading {
                    return none;
                }
                let lines = show_outcome(self.tags.as_slice(), self.values.as_slice(), Err(words));
                self.go_on(lines)
            },
        }
    }
}

// ---------------------------------------------------------------------------
// Laws
// ---------------------------------------------------------------------------

/// Setting tags is done one after the other, each in the document that the ones before left: no
/// tag leaves the document as it is, one tag is set in it, and the tags of two lists are set by
/// setting those of the first and then, in what came out, those of the second. Where one cannot
/// be set, the failure to do so is what comes out.
pub proof fn law_tags_are_set_in_order(
    xml: Seq<char>,
    tags: Seq<Seq<char>>,
    values: Seq<Seq<char>>,
    more_tags: Seq<Seq<char>>,
    more_values: Seq<Seq<char>>,
)
    requires
        tags.len() == values.len(),
        more_tags.len() == more_values.len(),
    ensures
        tags_patched(xml, tags, values, 0) == Ok::<Seq<char>, config_sweep::TagFailure>(xml),
        tags.len() == 1 ==> tags_patched(xml, tags, values, 1) == config_sweep::tag_patched(xml, tags[0], values[0]),
        tags_patched(xml, tags + more_tags, values + more_values, tags.len() + more_tags.len()) == match tags_patched(
            xml,
            tags,
            values,
            tags.len(),
        ) {
            Ok(so_far) => tags_patched(so_far, more_tags, more_values, more_tags.len()),
            Err(failure) => Err(failure),
        },
{
    reveal_with_fuel(tags_patched, 2);
    lemma_tags_patched_split(xml, tags, values, more_tags, more_values, more_tags.len());
}

proof fn lemma_tags_patched_split(
    xml: Seq<char>,
    tags: Seq<Seq<char>>,
    values: Seq<Seq<char>>,
    more_tags: Seq<Seq<char>>,
    more_values: Seq<Seq<char>>,
    n: nat,
)
    requires
        tags.len() == values.len(),
        more_tags.len() == more_values.len(),
        n <= more_tags.len(),
    ensures
        tags_patched(xml, tags + more_tags, values + more_values, tags.len() + n) == match tags_patched(
            xml,
            tags,
            values,
            tags.len(),
        ) {
            Ok(so_far) => tags_patched(so_far, more_tags, more_values, n),
            Err(failure) => Err(failure),
        },
    decreases n,
{
    if n == 0 {
        lemma_tags_patched_prefix(xml, tags, values, tags + more_tags, values + more_values, tags.len());
    } else {
        lemma_tags_patched_split(xml, tags, values, more_tags, more_values, (n - 1) as nat);
        assert((tags + more_tags)[tags.len() + n - 1] == more_tags[n - 1]);
        assert((values + more_values)[tags.len() + n - 1] == more_values[n - 1]);
        assert((tags.len() + n - 1) as nat == tags.len() + (n - 1) as nat);
    }
}

proof fn lemma_tags_patched_prefix(
    xml: Seq<char>,
    tags: Seq<Seq<char>>,
    values: Seq<Seq<char>>,
    all_tags: Seq<Seq<char>>,
    all_values: Seq<Seq<char>>,
    n: nat,
)
    requires
        n <= tags.len() <= all_tags.len(),
        n <= values.len() <= all_values.len(),
        forall|i: int| 0 <= i < n ==> tags[i] == #[trigger] all_tags[i],
        forall|i: int| 0 <= i < n ==> values[i] == #[trigger] all_values[i],
    ensures
        tags_patched(xml, tags, values, n) == tags_patched(xml, all_tags, all_values, n),
    decreases n,
{
    if n > 0 {
        lemma_tags_patched_prefix(xml, tags, values, all_tags, all_values, (n - 1) as nat);
        assert(tags[n - 1] == all_tags[n - 1]);
        assert(values[n - 1] == all_values[n - 1]);
    }
}

/// A failure to set a tag is not mended by the tags behind it.
pub proof fn law_failure_to_set_a_tag_stays(
    xml: Seq<char>,
    tags: Seq<Seq<char>>,
    values: Seq<Seq<char>>,
    k: nat,
    n: nat,
)
    requires
        k <= n,
        tags_patched(xml, tags, values, k) is Err,
    ensures
        tags_patched(xml, tags, values, n) == tags_patched(xml, tags, values, k),
{
    lemma_first_failure(xml, tags, values, k, n);
}

/// Where there are as many tags as values, each tag has one.
pub proof fn law_pair_count(tags: nat, values: nat)
    ensures
        tags == values ==> pair_count(tags, values) == tags,
        pair_count(tags, values) <= tags && pair_count(tags, values) <= values,
        pair_count(tags, values) == tags || pair_count(tags, values) == values,
{
}

/// The old values are those of the document before any change, one for each tag; none is known
/// where they are not wanted, and then no failure to read one stops the change.
pub proof fn law_old_values(xml: Seq<char>, tags: Seq<Seq<char>>, i: int)
    requires
        0 <= i < tags.len(),
    ensures
        old_values(xml, tags, true) matches Ok(old) ==> old.len() == tags.len() && config_sweep::tag_read(xml, tags[i])
            == Ok::<Option<Seq<char>>, config_sweep::TagFailure>(old[i]),
        old_values(xml, tags, false) matches Ok(old) && old.len() == tags.len() && old[i] is None,
{
    list_tag::law_tags_read(xml, tags);
}

/// The line for a tag that was set names the tag and ends in the new value; the old value stands
/// before it where it is known.
pub proof fn law_change_line(tag: Seq<char>, old_value: Option<Seq<char>>, value: Seq<char>)
    ensures
        ({
            let line = change_line(tag, old_value, value);
            &&& line.stream == Stream::Output
            &&& line.spans[1].1 == "<"@ + tag + ">"@
            &&& line.spans.last() == (Style::Green, value)
            &&& line.spans.len() == if old_value is Some { 6nat } else { 4nat }
            &&& old_value matches Some(previous) ==> line.spans[3] == (Style::Yellow, previous)
        }),
{
}

/// What became of a job is shown in a line for each tag that was set, in order, with what it was
/// set to and what it was before; or, where it was not changed, in one line that ends in the
/// words for why.
pub proof fn law_outcome_lines(
    tags: Seq<Seq<char>>,
    values: Seq<Seq<char>>,
    old: Seq<Option<Seq<char>>>,
    words: Seq<char>,
    i: int,
)
    requires
        tags.len() == values.len(),
        old.len() == tags.len(),
        0 <= i < tags.len(),
    ensures
        outcome_lines(tags, values, Ok(old)).len() == tags.len(),
        outcome_lines(tags, values, Ok(old))[i] == change_line(tags[i], old[i], values[i]),
        outcome_lines(tags, values, Err(words)).len() == 1,
        outcome_lines(tags, values, Err(words))[0].spans.last().1 == words,
        outcome_lines(tags, values, Err(words))[0].spans[1] == (Style::Red, "FAILED —"@),
        outcome_lines(tags, values, Err(words))[0].stream == Stream::Output,
{
}

/// What was prepared for a job is what is uploaded to it, and nothing else is: at the path of
/// the same job.
pub proof fn law_prepared_configuration_is_uploaded(
    run: PatchRunModel,
    old: Seq<Option<Seq<char>>>,
    xml: Seq<char>,
)
    requires
        run.valid(),
        run.action() is Prepare,
    ensures
        run.step(PatchEventModel::Prepared(Ok((old, xml)))).0.action() == PatchActionModel::Upload(
            run.action()->Prepare_0,
            xml,
        ),
        run.action()->Prepare_0 == "job/"@ + client::job_url(run.jobs[run.index as int]) + "/config.xml"@,
{
}

/// An answer to another question than the one that was asked changes nothing and prints nothing.
pub proof fn law_stray_event_is_ignored(run: PatchRunModel, event: PatchEventModel)
    requires
        run.valid(),
        match event {
            PatchEventModel::Prepared(_) => run.action() !is Prepare,
            PatchEventModel::Uploaded(_) => run.action() !is Upload,
        },
    ensures
        run.step(event).0 == run,
        run.step(event).1.len() == 0,
{
}

/// What became of a job is reported once it is known, and the next job is announced behind it:
/// the change once it was uploaded, and a failure in its words, be it to prepare the change or
/// to upload it.
pub proof fn law_patch_run_reports(run: PatchRunModel, words: Seq<char>)
    requires
        run.valid(),
        run.action() !is Finish,
    ensures
        ({
            let prepare = run.action() is Prepare;
            let (after, lines) = if prepare {
                run.step(PatchEventModel::Prepared(Err(words)))
            } else {
                run.step(PatchEventModel::Uploaded(Err(words)))
            };
            &&& lines.len() == 1 + after.opening().len()
            &&& lines[0].spans.last().1 == words
            &&& after.action() !is Finish ==> lines[1].spans.last().1 == run.jobs[run.index as int + 1]
        }),
        run.patch matches Some(patch) ==> {
            let (after, lines) = run.step(PatchEventModel::Uploaded(Ok(())));
            &&& lines.take(outcome_lines(run.tags, run.values, Ok(patch.0)).len() as int) == outcome_lines(
                run.tags,
                run.values,
                Ok(patch.0),
            )
            &&& lines.skip(outcome_lines(run.tags, run.values, Ok(patch.0)).len() as int) == after.opening()
        },
{
    if let Some(patch) = run.patch {
        let (after, lines) = run.step(PatchEventModel::Uploaded(Ok(())));
        let n = outcome_lines(run.tags, run.values, Ok(patch.0)).len() as int;
        assert(lines.take(n) =~= outcome_lines(run.tags, run.values, Ok(patch.0)));
        assert(lines.skip(n) =~= after.opening());
    }
}

/// The line that announces a job ends in its name, and counts the jobs from one up.
pub proof fn law_opening(run: PatchRunModel)
    requires
        run.valid(),
    ensures
        run.action() is Finish <==> run.opening().len() == 0,
        run.action() !is Finish ==> {
            &&& run.opening().len() == 1
            &&& run.opening()[0].spans.last().1 == run.jobs[run.index as int]
            &&& run.opening()[0].spans[0].1 == "["@ + text::decimal(run.index + 1) + "/"@ + text::decimal(
                run.jobs.len(),
            ) + "]"@
        },
{
}

/// Where the numbers of tags and values differ, both are given.
pub proof fn law_patch_args_errors_name_their_cause(tags: usize, values: usize)
    ensures
        ({
            let words = PatchArgsError::Mismatch(tags, values).words();
            &&& text::occurs(words, "--xml-tag count ("@ + text::decimal(tags as nat) + ")"@)
            &&& text::occurs(words, "--value count ("@ + text::decimal(values as nat) + ")"@)
        }),
        text::occurs(PatchArgsError::NoTags.words(), "--xml-tag"@),
{
    reveal_strlit(")");
    reveal_strlit("--xml-tag");
    reveal_strlit("at least one --xml-tag is required");
    reveal_strlit("--xml-tag count (");
    reveal_strlit("--value count (");
    reveal_strlit(") does not match --value count (");
    let words = PatchArgsError::Mismatch(tags, values).words();
    let a = "--xml-tag count ("@ + text::decimal(tags as nat) + ")"@;
    let b = "--value count ("@ + text::decimal(values as nat) + ")"@;
    assert(words.subrange(0int, 0int + a.len()) =~= a);
    let at = words.len() - b.len();
    assert(words.subrange(at, at + b.len()) =~= b);
    assert("at least one --xml-tag is required"@.subrange(13int, 13int + "--xml-tag"@.len()) =~= "--xml-tag"@);
}

} // verus!
