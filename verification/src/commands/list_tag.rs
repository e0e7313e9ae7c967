//! The command that reads XML tags of several jobs.

use vstd::prelude::*;
use crate::cli::ListTagArgs;
use crate::commands::config_sweep;
use crate::commands::config_sweep::TagError;
use crate::http;
use crate::http::HttpStatus;
use crate::output;
use crate::output::{Line, Stream, Style};
use crate::text;

verus! {

/// No tag was given.
#[derive(Debug)]
pub struct NoTags;

impl NoTags {
    /// The error in words.
    pub fn message(&self) -> (r: String)
        ensures
            r@ == "at least one --xml-tag is required"@,
    {
        "at least one --xml-tag is required".to_owned()
    }
}

/// Whether the arguments name a tag.
pub fn check_args(args: &ListTagArgs) -> (r: Result<(), NoTags>)
    ensures
        r is Ok <==> args.xml_tags@.len() > 0,
{
    if args.xml_tags.len() == 0 {
        Err(NoTags)
    } else {
        Ok(())
    }
}

/// Whether a configuration was handed out; if not, the error in words.
pub fn check_config(status: HttpStatus) -> (r: Result<(), String>)
    ensures
        match r {
            Ok(_) => http::successful(status@),
            Err(words) => !http::successful(status@) && words@ == "HTTP "@ + http::status_text(status@),
        },
{
    if status.is_success() {
        Ok(())
    } else {
        Err(text::cat2("HTTP ", status.text().as_str()))
    }
}

/// The texts at several tag paths of a document, or the first failure to read one.
pub open spec fn tags_read(xml: Seq<char>, tags: Seq<Seq<char>>) -> Result<
    Seq<Option<Seq<char>>>,
    config_sweep::TagFailure,
>
    decreases tags.len(),
{
    if tags.len() == 0 {
        Ok(Seq::empty())
    } else {
        match tags_read(xml, tags.drop_last()) {
            Ok(values) => match config_sweep::tag_read(xml, tags.last()) {
                Ok(value) => Ok(values.push(value)),
                Err(failure) => Err(failure),
            },
            Err(failure) => Err(failure),
        }
    }
}

/// The views of a list of optional texts.
pub open spec fn option_views(values: Seq<Option<String>>) -> Seq<Option<Seq<char>>> {
    values.map_values(|v: Option<String>| text::option_view(v))
}

/// What fails for the first tags fails for all of them.
proof fn lemma_first_failure(xml: Seq<char>, tags: Seq<Seq<char>>, k: int)
    requires
        0 <= k <= tags.len(),
        tags_read(xml, tags.take(k)) is Err,
    ensures
        tags_read(xml, tags) == tags_read(xml, tags.take(k)),
    decreases tags.len(),
{
    if k < tags.len() {
        assert(tags.drop_last().take(k) =~= tags.take(k));
        lemma_first_failure(xml, tags.drop_last(), k);
    } else {
        assert(tags.take(k) =~= tags);
    }
}

/// Each tag of a document that can be read is read on its own, and the values come in the
/// order of the tags.
pub proof fn law_tags_read(xml: Seq<char>, tags: Seq<Seq<char>>)
    ensures
        tags_read(xml, tags) matches Ok(values) ==> values.len() == tags.len() && forall|i: int|
            0 <= i < tags.len() ==> config_sweep::tag_read(xml, #[trigger] tags[i]) == Ok::<
                Option<Seq<char>>,
                config_sweep::TagFailure,
            >(values[i]),
    decreases tags.len(),
{
    if tags.len() > 0 {
        let rest = tags.drop_last();
        law_tags_read(xml, rest);
        if let Ok(values) = tags_read(xml, tags) {
            assert forall|i: int| 0 <= i < tags.len() implies config_sweep::tag_read(xml, #[trigger] tags[i]) == Ok::<
                Option<Seq<char>>,
                config_sweep::TagFailure,
            >(values[i]) by {
                if i < rest.len() {
                    assert(rest[i] == tags[i]);
                }
            }
        }
    }
}

/// Reads several tags of one document.
pub fn read_tags(xml: &str, tags: &[String]) -> (r: Result<Vec<Option<String>>, TagError>)
    ensures
        match r {
            Ok(values) => tags_read(xml@, text::views(tags@)) == Ok::<
                Seq<Option<Seq<char>>>,
                config_sweep::TagFailure,
            >(option_views(values@)),
            Err(e) => tags_read(xml@, text::views(tags@)) == Err::<
                Seq<Option<Seq<char>>>,
                config_sweep::TagFailure,
            >(e@),
        },
{
    let mut values: Vec<Option<String>> = Vec::new();
    let mut i: usize = 0;
    proof {
        assert(option_views(values@) =~= Seq::empty());
    }
    while i < tags.len()
        invariant
            i <= tags@.len(),
            tags_read(xml@, text::views(tags@).take(i as int)) == Ok::<
                Seq<Option<Seq<char>>>,
                config_sweep::TagFailure,
            >(option_views(values@)),
        decreases tags@.len() - i,
    {
        let ghost all = text::views(tags@);
        let ghost done = option_views(values@);
        proof {
            assert(all.take(i + 1).drop_last() =~= all.take(i as int));
        }
        match config_sweep::read_xml_tag(xml, tags[i].as_str()) {
            Ok(value) => {
                values.push(value);
                proof {
                    assert(option_views(values@) =~= done.push(text::option_view(value)));
                }
            },
            Err(e) => {
                proof {
                    lemma_first_failure(xml@, all, i + 1);
                }
                return Err(e);
            },
        }
        i = i + 1;
    }
    proof {
        assert(text::views(tags@).take(i as int) =~= text::views(tags@));
    }
    Ok(values)
}

// ---------------------------------------------------------------------------
// What is shown
// ---------------------------------------------------------------------------

/// The words for a tag that is not in a configuration.
pub open spec fn missing_words(tag: Seq<char>) -> Seq<char> {
    "(tag <"@ + tag + "> not found)"@
}

/// The line for a tag below the line for its job.
pub open spec fn tag_line(tag: Seq<char>, value: Option<Seq<char>>) -> output::LineModel {
    match value {
        Some(v) => output::painted(
            seq![(Style::Plain, "  "@), (Style::Cyan, tag), (Style::Plain, ":"@), (Style::Yellow, v)],
        ),
        None => output::painted(seq![(Style::Plain, "  "@), (Style::Dimmed, missing_words(tag))]),
    }
}

/// The line for the only tag, with its job.
pub open spec fn job_tag_line(job: Seq<char>, tag: Seq<char>, value: Option<Seq<char>>) -> output::LineModel {
    match value {
        Some(v) => output::painted(seq![(Style::Cyan, job), (Style::Plain, ":"@), (Style::Yellow, v)]),
        None => output::painted(
            seq![(Style::Cyan, job), (Style::Plain, ": "@), (Style::Dimmed, missing_words(tag))],
        ),
    }
}

/// The line for a job whose tags could not be read.
pub open spec fn failed_line(job: Seq<char>, words: Seq<char>) -> output::LineModel {
    output::LineModel {
        stream: Stream::Error,
        spans: seq![
            (Style::Cyan, job),
            (Style::Plain, ": "@),
            (Style::Red, "error —"@),
            (Style::Plain, " "@),
            (Style::Plain, words),
        ],
        closed: true,
    }
}

/// The lines for the tags of a job: one for a single tag, or else one for the job and one for
/// each tag.
pub open spec fn tag_lines(
    job: Seq<char>,
    tags: Seq<Seq<char>>,
    values: Seq<Option<Seq<char>>>,
) -> Seq<output::LineModel> {
    if tags.len() == 1 {
        seq![job_tag_line(job, tags[0], values[0])]
    } else {
        seq![output::painted(seq![(Style::Cyan, job)])] + Seq::new(tags.len(), |i: int| tag_line(tags[i], values[i]))
    }
}

/// The lines for a job, given its configuration, or the words for why there is none.
pub open spec fn job_lines(
    job: Seq<char>,
    tags: Seq<Seq<char>>,
    config: Result<Seq<char>, Seq<char>>,
) -> Seq<output::LineModel> {
    match config {
        Ok(xml) => match tags_read(xml, tags) {
            Ok(values) => tag_lines(job, tags, values),
            Err(failure) => seq![failed_line(job, failure.words())],
        },
        Err(words) => seq![failed_line(job, words)],
    }
}

/// The line for a job whose tags could not be read.
fn show_failure(job: &str, words: &str) -> (r: Line)
    ensures
        r@ == failed_line(job@, words@),
{
    let mut line = Line::new(Stream::Error);
    line.add(Style::Cyan, job);
    line.add(Style::Plain, ": ");
    line.add(Style::Red, "error —");
    line.add(Style::Plain, " ");
    line.add(Style::Plain, words);
    proof {
        assert(line@.spans =~= failed_line(job@, words@).spans);
    }
    line
}

/// The line for the only tag, with its job.
fn show_job_tag(job: &str, tag: &str, value: &Option<String>) -> (r: Line)
    ensures
        r@ == job_tag_line(job@, tag@, text::option_view(*value)),
{
    let mut line = Line::new(Stream::Output);
    line.add(Style::Cyan, job);
    match value {
        Some(v) => {
            line.add(Style::Plain, ":");
            line.add(Style::Yellow, v.as_str());
        },
        None => {
            line.add(Style::Plain, ": ");
            line.add(Style::Dimmed, text::cat3("(tag <", tag, "> not found)").as_str());
        },
    }
    proof {
        assert(line@.spans =~= job_tag_line(job@, tag@, text::option_view(*value)).spans);
    }
    line
}

/// The line for a tag below the line for its job.
fn show_tag(tag: &str, value: &Option<String>) -> (r: Line)
    ensures
        r@ == tag_line(tag@, text::option_view(*value)),
{
    let mut line = Line::new(Stream::Output);
    line.add(Style::Plain, "  ");
    match value {
        Some(v) => {
            line.add(Style::Cyan, tag);
            line.add(Style::Plain, ":");
            line.add(Style::Yellow, v.as_str());
        },
        None => {
            line.add(Style::Dimmed, text::cat3("(tag <", tag, "> not found)").as_str());
        },
    }
    proof {
        assert(line@.spans =~= tag_line(tag@, text::option_view(*value)).spans);
    }
    line
}

/// The lines for the tags of a job, given their values, or the words for why there are none.
pub fn show_values(job: &str, tags: &[String], outcome: Result<Vec<Option<String>>, String>) -> (r: Vec<Line>)
    requires
        outcome matches Ok(values) ==> values@.len() == tags@.len(),
    ensures
        output::line_views(r@) == match outcome {
            Ok(values) => tag_lines(job@, text::views(tags@), option_views(values@)),
            Err(words) => seq![failed_line(job@, words@)],
        },
{
    let mut lines: Vec<Line> = Vec::new();
    proof {
        assert(output::line_views(lines@) =~= Seq::empty());
    }
    let values = match outcome {
        Ok(values) => values,
        Err(words) => {
            output::put(&mut lines, show_failure(job, words.as_str()));
            return lines;
        },
    };
    if tags.len() == 1 {
        output::put(&mut lines, show_job_tag(job, tags[0].as_str(), &values[0]));
        return lines;
    }
    output::put(&mut lines, output::paint1(Style::Cyan, job));
    let mut i: usize = 0;
    let ghost names = text::views(tags@);
    let ghost found = option_views(values@);
    let ghost all = tag_lines(job@, names, found);
    proof {
        assert(output::line_views(lines@) =~= all.take(1));
    }
    while i < tags.len()
        invariant
            i <= tags@.len(),
            values@.len() == tags@.len(),
            names == text::views(tags@),
            found == option_views(values@),
            all == seq![output::painted(seq![(Style::Cyan, job@)])] + Seq::new(
                names.len(),
                |i: int| tag_line(names[i], found[i]),
            ),
            output::line_views(lines@) == all.take(i + 1),
        decreases tags@.len() - i,
    {
        output::put(&mut lines, show_tag(tags[i].as_str(), &values[i]));
        proof {
            assert(output::line_views(lines@) =~= all.take(i + 2));
        }
        i = i + 1;
    }
    proof {
        assert(all.take(i + 1) =~= all);
    }
    lines
}

/// The lines for a job, given its configuration, or the words for why there is none.
pub fn show_job(job: &str, tags: &[String], config: Result<String, String>) -> (r: Vec<Line>)
    ensures
        output::line_views(r@) == job_lines(
            job@,
            text::views(tags@),
            match config {
                Ok(xml) => Ok(xml@),
                Err(words) => Err(words@),
            },
        ),
{
    let xml = match config {
        Ok(xml) => xml,
        Err(words) => return show_values(job, tags, Err(words)),
    };
    proof {
        law_tags_read(xml@, text::views(tags@));
    }
    match read_tags(xml.as_str(), tags) {
        Ok(values) => show_values(job, tags, Ok(values)),
        Err(e) => show_values(job, tags, Err(e.message())),
    }
}

// ---------------------------------------------------------------------------
// Laws
// ---------------------------------------------------------------------------

/// The failure that is reported for a list of tags is that of the first one that cannot be read,
/// and all tags before it can be.
pub proof fn law_first_failure_is_reported(xml: Seq<char>, tags: Seq<Seq<char>>, n: int)
    requires
        0 <= n < tags.len(),
        forall|i: int| 0 <= i < n ==> config_sweep::tag_read(xml, #[trigger] tags[i]) is Ok,
        config_sweep::tag_read(xml, tags[n]) is Err,
    ensures
        tags_read(xml, tags) is Err,
        tags_read(xml, tags)->Err_0 == config_sweep::tag_read(xml, tags[n])->Err_0,
{
    lemma_all_read(xml, tags.take(n));
    assert(tags.take(n + 1).drop_last() =~= tags.take(n));
    lemma_first_failure(xml, tags, n + 1);
}

proof fn lemma_all_read(xml: Seq<char>, tags: Seq<Seq<char>>)
    requires
        forall|i: int| 0 <= i < tags.len() ==> config_sweep::tag_read(xml, #[trigger] tags[i]) is Ok,
    ensures
        tags_read(xml, tags) is Ok,
    decreases tags.len(),
{
    if tags.len() > 0 {
        let rest = tags.drop_last();
        assert forall|i: int| 0 <= i < rest.len() implies config_sweep::tag_read(xml, #[trigger] rest[i]) is Ok by {
            assert(rest[i] == tags[i]);
        }
        lemma_all_read(xml, rest);
        assert(config_sweep::tag_read(xml, tags[tags.len() - 1]) is Ok);
    }
}

/// Tags that can all be read are read, each on its own.
pub proof fn law_readable_tags_are_read(xml: Seq<char>, tags: Seq<Seq<char>>)
    requires
        forall|i: int| 0 <= i < tags.len() ==> config_sweep::tag_read(xml, #[trigger] tags[i]) is Ok,
    ensures
        tags_read(xml, tags) matches Ok(values) && values.len() == tags.len() && forall|i: int|
            0 <= i < tags.len() ==> config_sweep::tag_read(xml, #[trigger] tags[i])->Ok_0 == values[i],
{
    lemma_all_read(xml, tags);
    law_tags_read(xml, tags);
    let values = tags_read(xml, tags)->Ok_0;
    assert forall|i: int| 0 <= i < tags.len() implies config_sweep::tag_read(xml, #[trigger] tags[i])->Ok_0
        == values[i] by {}
}

/// A single tag is shown in one line, with its job. Several are shown below a line for the job,
/// each in a line of its own, in order.
pub proof fn law_tag_lines(job: Seq<char>, tags: Seq<Seq<char>>, values: Seq<Option<Seq<char>>>)
    ensures
        ({
            let lines = tag_lines(job, tags, values);
            &&& lines.len() == if tags.len() == 1 { 1nat } else { tags.len() + 1 }
            &&& lines[0].stream == Stream::Output
            &&& lines[0].spans[0] == (Style::Cyan, job)
            &&& tags.len() != 1 ==> lines[0].spans.len() == 1 && forall|i: int|
                0 <= i < tags.len() ==> #[trigger] lines[i + 1] == tag_line(tags[i], values[i])
            &&& tags.len() == 1 ==> (values[0] matches Some(v) ==> lines[0].spans.last().1 == v)
            &&& tags.len() == 1 ==> (values[0] is None ==> text::occurs(lines[0].spans.last().1, tags[0]))
        }),
{
    if tags.len() == 1 {
        lemma_missing_words(tags[0]);
    }
}

/// The line for a tag shows its name and then its value; that for a tag that is not there names
/// the tag. An empty value is shown as a value.
pub proof fn law_tag_line(tag: Seq<char>, value: Seq<char>)
    ensures
        tag_line(tag, Some(value)).spans.len() == 4,
        tag_line(tag, Some(value)).spans[1].1 == tag,
        tag_line(tag, Some(value)).spans[3] == (Style::Yellow, value),
        tag_line(tag, None).spans.len() == 2,
        tag_line(tag, None).spans[1].0 == Style::Dimmed,
        text::occurs(tag_line(tag, None).spans[1].1, tag),
        tag_line(tag, Some(value)).stream == Stream::Output && tag_line(tag, None).stream == Stream::Output,
{
    lemma_missing_words(tag);
}

proof fn lemma_missing_words(tag: Seq<char>)
    ensures
        text::occurs(missing_words(tag), tag),
{
    let at = "(tag <"@.len() as int;
    assert(missing_words(tag).subrange(at, at + tag.len()) =~= tag);
}

/// A job whose tags cannot be read is reported in one line on the standard error, with the job
/// first and the words for the failure last. One that can be read is shown on the standard
/// output.
pub proof fn law_job_lines(job: Seq<char>, tags: Seq<Seq<char>>, words: Seq<char>, xml: Seq<char>)
    ensures
        ({
            let lines = job_lines(job, tags, Err(words));
            &&& lines.len() == 1
            &&& lines[0].stream == Stream::Error
            &&& lines[0].spans[0].1 == job
            &&& lines[0].spans.last().1 == words
        }),
        tags_read(xml, tags) matches Err(failure) ==> job_lines(job, tags, Ok(xml)) == job_lines(
            job,
            tags,
            Err(failure.words()),
        ),
        tags_read(xml, tags) is Ok ==> job_lines(job, tags, Ok(xml))[0].stream == Stream::Output,
{
}

/// A list of optional texts stands for its texts, one for one and in order.
pub proof fn law_option_views(values: Seq<Option<String>>)
    ensures
        option_views(values).len() == values.len(),
        forall|i: int|
            0 <= i < values.len() ==> (values[i] is Some <==> (#[trigger] option_views(values)[i]) is Some) && (
            values[i] matches Some(s) ==> option_views(values)[i] == Some(s@)),
{
}

} // verus!
