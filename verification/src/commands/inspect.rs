//! The command that shows a job's parameters and recent build status.

use vstd::prelude::*;
use crate::client;
use crate::http;
use crate::http::HttpStatus;
use crate::json;
use crate::json::Json;
use crate::output;
use crate::output::{Line, Stream, Style};
use crate::text;

verus! {

/// What the server says of a job.
#[derive(Debug)]
pub struct JobInfo {
    pub name: String,
    pub description: Option<String>,
    pub buildable: bool,
    pub last_build: Option<BuildRef>,
    pub property: Vec<Property>,
}

/// A job's latest build.
#[derive(Debug)]
pub struct BuildRef {
    pub number: u64,
    /// How it went; absent while it is running.
    pub result: Option<String>,
}

/// A property of a job.
#[derive(Debug)]
pub struct Property {
    pub class: String,
    pub parameter_definitions: Vec<ParamDef>,
}

/// A parameter of a job.
#[derive(Debug)]
pub struct ParamDef {
    pub class: String,
    pub name: String,
    pub description: Option<String>,
    pub default_parameter_value: Option<DefaultValue>,
    pub choices: Vec<String>,
}

/// The default of a parameter.
#[derive(Debug)]
pub struct DefaultValue {
    pub value: Option<ParamValue>,
}

/// The value of a parameter.
#[derive(Debug)]
pub enum ParamValue {
    /// A string.
    Text(String),
    /// Any other JSON value, in its compact form.
    Json(String),
}

/// The value of a parameter, given what it holds and its compact form.
pub fn value_of(value: Json, compact: String) -> (r: ParamValue)
    ensures
        match value {
            Json::Text(s) => r matches ParamValue::Text(t) && t@ == s@,
            _ => r matches ParamValue::Json(t) && t@ == compact@,
        },
{
    match value {
        Json::Text(s) => ParamValue::Text(s),
        _ => ParamValue::Json(compact),
    }
}

/// The value of a parameter that the server sent.
pub fn param_value(v: serde_json::Value) -> (r: ParamValue)
    ensures
        match json::value_tree(v) {
            json::JsonTree::Text(s) => r matches ParamValue::Text(t) && t@ == s,
            tree => r matches ParamValue::Json(t) && t@ == json::printed_json(tree) && json::printed_plainly(tree, t@),
        },
{
    let compact = json::print_value(&v);
    value_of(json::import_value(v), compact)
}

/// The kind of a parameter: its class name without the package and the usual ending.
pub open spec fn kind_of(class: Seq<char>) -> Seq<char> {
    text::without_suffix(text::after_last(class, '.'), "ParameterDefinition"@)
}

impl ParamDef {
    /// The kind of the parameter: that of `hudson.model.StringParameterDefinition` is `String`.
    pub fn kind(&self) -> (r: String)
        ensures
            r@ == kind_of(self.class@),
    {
        text::trim_end_text(text::text_after_last(self.class.as_str(), '.').as_str(), "ParameterDefinition")
    }
}

// ---------------------------------------------------------------------------
// The request
// ---------------------------------------------------------------------------

/// The fields that the server is asked for. Unless it is asked for the result of the latest
/// build, it leaves it out.
pub const TREE: &'static str =
    "name,description,buildable,lastBuild[number,result],property[parameterDefinitions[_class,name,description,defaultParameterValue[value],choices]]";

/// The path, relative to the server, of what it says of a job.
pub fn inspect_path(job: &str) -> (r: String)
    ensures
        r@ == client::job_address(job@, "/api/json?tree="@ + TREE@),
{
    client::job_path(job, text::cat2("/api/json?tree=", TREE).as_str())
}

/// The server does not say anything of a job.
#[derive(Debug)]
pub struct JobRefused {
    pub job: String,
    pub status: HttpStatus,
}

/// Whether the answer to the question for a job holds an answer.
pub fn check_job(job: &str, status: HttpStatus) -> (r: Result<(), JobRefused>)
    ensures
        match r {
            Ok(_) => http::successful(status@),
            Err(e) => !http::successful(status@) && e.status == status && e.job@ == job@,
        },
{
    if status.is_success() {
        Ok(())
    } else {
        Err(JobRefused { job: job.to_owned(), status })
    }
}

impl JobRefused {
    pub open spec fn words(self) -> Seq<char> {
        "Jenkins returned HTTP "@ + http::status_text(self.status@) + " for job '"@ + self.job@ + "'"@
    }

    /// The error in words.
    pub fn message(&self) -> (r: String)
        ensures
            r@ == self.words(),
    {
        text::cat5(
            "Jenkins returned HTTP ",
            self.status.text().as_str(),
            " for job '",
            self.job.as_str(),
            "'",
        )
    }
}

// ---------------------------------------------------------------------------
// What is shown
// ---------------------------------------------------------------------------

/// The default of a parameter as it is shown: strings in quotes.
pub open spec fn default_text(default: Option<DefaultValue>) -> Seq<char> {
    match default {
        Some(d) => match d.value {
            Some(ParamValue::Text(s)) => "\""@ + s@ + "\""@,
            Some(ParamValue::Json(s)) => s@,
            None => "(none)"@,
        },
        None => "(none)"@,
    }
}

/// The style that a build's result is painted in.
pub open spec fn result_style(result: Seq<char>) -> Style {
    if result == "SUCCESS"@ {
        Style::Green
    } else if result == "FAILURE"@ {
        Style::Red
    } else if result == "UNSTABLE"@ {
        Style::Yellow
    } else if result == "ABORTED"@ {
        Style::Dimmed
    } else if result == "IN PROGRESS"@ {
        Style::Blue
    } else {
        Style::Plain
    }
}

/// The pieces that show a description behind a parameter, if it has one.
pub open spec fn description_spans(description: Option<Seq<char>>) -> Seq<(Style, Seq<char>)> {
    match description {
        Some(d) => if text::trimmed(d).len() > 0 {
            seq![(Style::Plain, "  "@), (Style::Dimmed, "— "@ + text::trimmed(d))]
        } else {
            Seq::empty()
        },
        None => Seq::empty(),
    }
}

/// The line for a parameter: its choices where it has a choice, or else its default.
pub open spec fn param_line(p: ParamDef) -> output::LineModel {
    let kind = kind_of(p.class@);
    let start = seq![
        (Style::Plain, "  "@),
        (Style::Plain, text::padded(p.name@, 22)),
        (Style::Plain, " "@),
        (Style::Cyan, "["@ + text::padded(kind, 8) + "]"@),
    ];
    let middle = if kind == "Choice"@ {
        seq![
            (Style::Plain, " Choices: "@),
            (Style::Yellow, text::joined(text::views(p.choices@), ", "@)),
        ]
    } else {
        seq![
            (Style::Plain, " Default: "@),
            (Style::Yellow, text::padded(default_text(p.default_parameter_value), 20)),
        ]
    };
    output::painted(start + middle + description_spans(text::option_view(p.description)))
}

/// The lines for a list of parameters.
pub open spec fn param_lines(params: Seq<ParamDef>) -> Seq<output::LineModel> {
    params.map_values(|p: ParamDef| param_line(p))
}

/// The lines for the parameters of all properties, in order.
pub open spec fn property_lines(properties: Seq<Property>) -> Seq<output::LineModel>
    decreases properties.len(),
{
    if properties.len() == 0 {
        Seq::empty()
    } else {
        property_lines(properties.drop_last()) + param_lines(properties.last().parameter_definitions@)
    }
}

/// The line for a job's latest build. A build without a result is running.
pub open spec fn last_build_line(build: Option<BuildRef>) -> output::LineModel {
    match build {
        Some(b) => {
            let result = match text::option_view(b.result) {
                Some(word) => word,
                None => "IN PROGRESS"@,
            };
            output::painted(
                seq![
                    (Style::Plain, "Last build: "@),
                    (Style::Dimmed, "#"@ + text::decimal(b.number as nat)),
                    (Style::Plain, " — "@),
                    (result_style(result), result),
                ],
            )
        },
        None => output::painted(seq![(Style::Plain, "Last build: "@), (Style::Dimmed, "(none)"@)]),
    }
}

/// The lines for a job, up to its parameters.
pub open spec fn head_lines(info: JobInfo) -> Seq<output::LineModel> {
    let name = output::painted(seq![(Style::Plain, "Job:        "@), (Style::CyanBold, info.name@)]);
    let buildable = output::said("Buildable:  "@ + if info.buildable { "true"@ } else { "false"@ });
    match text::option_view(info.description) {
        Some(d) => if text::trimmed(d).len() > 0 {
            seq![name, output::said("Desc:       "@ + d), buildable, last_build_line(info.last_build)]
        } else {
            seq![name, buildable, last_build_line(info.last_build)]
        },
        None => seq![name, buildable, last_build_line(info.last_build)],
    }
}

/// The lines for a job.
pub open spec fn job_lines(info: JobInfo) -> Seq<output::LineModel> {
    let params = property_lines(info.property@);
    if params.len() == 0 {
        head_lines(info).push(
            output::painted(seq![(Style::Plain, "\n"@), (Style::Dimmed, "No parameters defined."@)]),
        )
    } else {
        head_lines(info).push(
            output::painted(seq![(Style::Plain, "\n"@), (Style::Bold, "Parameters"@), (Style::Plain, ":"@)]),
        ) + params
    }
}

/// The default of a parameter as it is shown.
pub fn format_default(p: &ParamDef) -> (r: String)
    ensures
        r@ == default_text(p.default_parameter_value),
{
    match &p.default_parameter_value {
        Some(d) => match &d.value {
            Some(ParamValue::Text(s)) => text::cat3("\"", s.as_str(), "\""),
            Some(ParamValue::Json(s)) => s.clone(),
            None => "(none)".to_owned(),
        },
        None => "(none)".to_owned(),
    }
}

/// The style that a build's result is painted in.
pub fn color_result(result: &str) -> (r: Style)
    ensures
        r == result_style(result@),
{
    if text::same_text(result, "SUCCESS") {
        Style::Green
    } else if text::same_text(result, "FAILURE") {
        Style::Red
    } else if text::same_text(result, "UNSTABLE") {
        Style::Yellow
    } else if text::same_text(result, "ABORTED") {
        Style::Dimmed
    } else if text::same_text(result, "IN PROGRESS") {
        Style::Blue
    } else {
        Style::Plain
    }
}

/// The line for a parameter.
pub fn show_param(p: &ParamDef) -> (r: Line)
    ensures
        r@ == param_line(*p),
{
    let kind = p.kind();
    let mut line = Line::new(Stream::Output);
    line.add(Style::Plain, "  ");
    line.add(Style::Plain, text::pad(p.name.as_str(), 22).as_str());
    line.add(Style::Plain, " ");
    line.add(Style::Cyan, text::cat3("[", text::pad(kind.as_str(), 8).as_str(), "]").as_str());
    if text::same_text(kind.as_str(), "Choice") {
        line.add(Style::Plain, " Choices: ");
        line.add(Style::Yellow, text::join(&p.choices, ", ").as_str());
    } else {
        line.add(Style::Plain, " Default: ");
        line.add(Style::Yellow, text::pad(format_default(p).as_str(), 20).as_str());
    }
    match &p.description {
        Some(d) => {
            let d = text::trim(d.as_str());
            if !d.as_str().is_empty() {
                line.add(Style::Plain, "  ");
                line.add(Style::Dimmed, text::cat2("— ", d.as_str()).as_str());
            }
        },
        None => {},
    }
    proof {
        assert(line@.spans =~= param_line(*p).spans);
    }
    line
}

/// The line for a job's latest build.
fn show_last_build(build: &Option<BuildRef>) -> (r: Line)
    ensures
        r@ == last_build_line(*build),
{
    match build {
        Some(b) => {
            let result = match &b.result {
                Some(word) => word.clone(),
                None => "IN PROGRESS".to_owned(),
            };
            let mut line = Line::new(Stream::Output);
            line.add(Style::Plain, "Last build: ");
            line.add(Style::Dimmed, text::cat2("#", text::show_u64(b.number).as_str()).as_str());
            line.add(Style::Plain, " — ");
            line.add(color_result(result.as_str()), result.as_str());
            proof {
                assert(line@.spans =~= last_build_line(*build).spans);
            }
            line
        },
        None => output::paint2(Style::Plain, "Last build: ", Style::Dimmed, "(none)"),
    }
}

/// The lines for the parameters of all properties, in order.
fn show_properties(properties: &Vec<Property>) -> (r: Vec<Line>)
    ensures
        output::line_views(r@) == property_lines(properties@),
{
    let mut lines: Vec<Line> = Vec::new();
    let mut i: usize = 0;
    proof {
        assert(output::line_views(lines@) =~= Seq::empty());
    }
    while i < properties.len()
        invariant
            i <= properties@.len(),
            output::line_views(lines@) == property_lines(properties@.take(i as int)),
        decreases properties@.len() - i,
    {
        let params = &properties[i].parameter_definitions;
        let mut j: usize = 0;
        let ghost before = output::line_views(lines@);
        proof {
            assert(before =~= before + param_lines(params@.take(0)));
        }
        while j < params.len()
            invariant
                j <= params@.len(),
                output::line_views(lines@) == before + param_lines(params@.take(j as int)),
            decreases params@.len() - j,
        {
            output::put(&mut lines, show_param(&params[j]));
            proof {
                assert(output::line_views(lines@) =~= before + param_lines(params@.take(j + 1)));
            }
            j = j + 1;
        }
        proof {
            assert(params@.take(j as int) =~= params@);
            assert(properties@.take(i + 1).drop_last() =~= properties@.take(i as int));
        }
        i = i + 1;
    }
    proof {
        assert(properties@.take(i as int) =~= properties@);
    }
    lines
}

/// The lines for a job.
pub fn print_job(info: &JobInfo) -> (r: Vec<Line>)
    ensures
        output::line_views(r@) == job_lines(*info),
{
    let mut lines: Vec<Line> = Vec::new();
    proof {
        assert(output::line_views(lines@) =~= Seq::empty());
    }
    output::put(&mut lines, output::paint2(Style::Plain, "Job:        ", Style::CyanBold, info.name.as_str()));
    match &info.description {
        Some(d) => if !text::trim(d.as_str()).as_str().is_empty() {
            output::put(&mut lines, output::say(text::cat2("Desc:       ", d.as_str()).as_str()));
        },
        None => {},
    }
    let buildable = if info.buildable {
        "true"
    } else {
        "false"
    };
    output::put(&mut lines, output::say(text::cat2("Buildable:  ", buildable).as_str()));
    output::put(&mut lines, show_last_build(&info.last_build));
    let mut params = show_properties(&info.property);
    let ghost shown = output::line_views(params@);
    if params.len() == 0 {
        output::put(&mut lines, output::paint2(Style::Plain, "\n", Style::Dimmed, "No parameters defined."));
        return lines;
    }
    let mut line = Line::new(Stream::Output);
    line.add(Style::Plain, "\n");
    line.add(Style::Bold, "Parameters");
    line.add(Style::Plain, ":");
    proof {
        assert(line@.spans =~= seq![(Style::Plain, "\n"@), (Style::Bold, "Parameters"@), (Style::Plain, ":"@)]);
    }
    output::put(&mut lines, line);
    let ghost head = output::line_views(lines@);
    lines.append(&mut params);
    proof {
        assert(output::line_views(lines@) =~= head + shown);
    }
    lines
}

// ---------------------------------------------------------------------------
// Laws
// ---------------------------------------------------------------------------

/// The number of parameters of all properties.
pub open spec fn param_count(properties: Seq<Property>) -> nat
    decreases properties.len(),
{
    if properties.len() == 0 {
        0
    } else {
        param_count(properties.drop_last()) + properties.last().parameter_definitions@.len()
    }
}

/// There is one line for each parameter of each property.
pub proof fn law_every_parameter_has_a_line(properties: Seq<Property>)
    ensures
        property_lines(properties).len() == param_count(properties),
    decreases properties.len(),
{
    if properties.len() > 0 {
        law_every_parameter_has_a_line(properties.drop_last());
    }
}

/// The line of each parameter of each property stands in its place: behind those of the
/// properties before, and behind those of the parameters before it.
pub proof fn law_parameters_are_shown_in_order(properties: Seq<Property>, i: int, j: int)
    requires
        0 <= i < properties.len(),
        0 <= j < properties[i].parameter_definitions@.len(),
    ensures
        param_count(properties.take(i)) + j < property_lines(properties).len(),
        property_lines(properties)[param_count(properties.take(i)) + j] == param_line(
            properties[i].parameter_definitions@[j],
        ),
    decreases properties.len(),
{
    let rest = properties.drop_last();
    law_every_parameter_has_a_line(rest);
    if i < rest.len() {
        assert(rest[i] == properties[i]);
        assert(rest.take(i) =~= properties.take(i));
        law_parameters_are_shown_in_order(rest, i, j);
    } else {
        assert(properties.take(i) =~= rest);
    }
}

/// A job is shown with all of its parameters behind everything else, or with the words that it
/// has none, where it has none.
pub proof fn law_job_shows_its_parameters(info: JobInfo)
    ensures
        ({
            let n = param_count(info.property@);
            let lines = job_lines(info);
            &&& n > 0 ==> lines.len() == head_lines(info).len() + 1 + n && lines.skip(lines.len() - n)
                == property_lines(info.property@)
            &&& n == 0 ==> lines.len() == head_lines(info).len() + 1 && lines.last().spans.last()
                == (Style::Dimmed, "No parameters defined."@)
            &&& lines.take(head_lines(info).len() as int) == head_lines(info)
        }),
{
    law_every_parameter_has_a_line(info.property@);
    let n = param_count(info.property@);
    let lines = job_lines(info);
    assert(lines.take(head_lines(info).len() as int) =~= head_lines(info));
    if n > 0 {
        assert(lines.skip(lines.len() - n) =~= property_lines(info.property@));
    }
}

/// The lines before the parameters give the name and whether the job can be built. A
/// description is shown as it is, unless there is nothing but white space in it, and no other
/// line is.
pub proof fn law_head_of_a_job(info: JobInfo)
    ensures
        ({
            let lines = head_lines(info);
            let described = info.description matches Some(d) && text::trimmed(d@).len() > 0;
            &&& lines.len() == if described { 4nat } else { 3nat }
            &&& lines[0].spans.last() == (Style::CyanBold, info.name@)
            &&& described ==> info.description->0@.is_suffix_of(output::flat(lines[1].spans))
            &&& (if info.buildable { "true"@ } else { "false"@ }).is_suffix_of(
                output::flat(lines[lines.len() - 2].spans),
            )
            &&& lines.last() == last_build_line(info.last_build)
        }),
{
    let lines = head_lines(info);
    reveal_with_fuel(output::flat, 2);
    if let Some(d) = info.description {
        let flat = output::flat(output::said("Desc:       "@ + d@).spans);
        assert(output::said("Desc:       "@ + d@).spans.drop_last() =~= Seq::empty());
        assert(flat =~= "Desc:       "@ + d@);
        assert(flat.subrange(flat.len() - d@.len(), flat.len() as int) =~= d@);
    }
    let word = if info.buildable { "true"@ } else { "false"@ };
    let line = output::said("Buildable:  "@ + word);
    assert(line.spans.drop_last() =~= Seq::empty());
    let flat = output::flat(line.spans);
    assert(flat =~= "Buildable:  "@ + word);
    assert(flat.subrange(flat.len() - word.len(), flat.len() as int) =~= word);
    assert(lines[lines.len() - 2] == line);
}

/// The latest build is shown with its number, which can be read back, and with its result; one
/// without a result is shown as running, and a job that was never built as having none.
pub proof fn law_last_build(build: BuildRef)
    ensures
        ({
            let line = last_build_line(Some(build));
            &&& line.stream == Stream::Output
            &&& line.spans.len() == 4
            &&& text::parsed_u64(text::after_last(line.spans[1].1, '#')) == Some(build.number)
            &&& build.result matches Some(word) ==> line.spans[3].1 == word@
            &&& build.result is None ==> line.spans[3] == (Style::Blue, "IN PROGRESS"@)
        }),
        last_build_line(None).spans.last() == (Style::Dimmed, "(none)"@),
{
    reveal_strlit("#");
    reveal_strlit("IN PROGRESS");
    reveal_strlit("SUCCESS");
    reveal_strlit("FAILURE");
    reveal_strlit("UNSTABLE");
    reveal_strlit("ABORTED");
    assert("IN PROGRESS"@.len() == 11);
    let digits = text::decimal(build.number as nat);
    let shown = "#"@ + digits;
    text::lemma_decimal(build.number as nat);
    text::law_parse_of_decimal(build.number);
    assert forall|i: int| 1 <= i < shown.len() implies shown[i] != '#' by {
        assert(shown[i] == digits[i - 1]);
        assert(text::is_digit(digits[i - 1]));
    }
    text::lemma_past_last_is(shown, '#', 1);
    assert(text::after_last(shown, '#') =~= digits);
}

/// The results that a build can have are told apart by their styles.
pub proof fn law_result_styles(result: Seq<char>)
    ensures
        result_style(result) == Style::Green <==> result == "SUCCESS"@,
        result_style(result) == Style::Red <==> result == "FAILURE"@,
        result_style(result) == Style::Yellow <==> result == "UNSTABLE"@,
        result_style(result) == Style::Dimmed <==> result == "ABORTED"@,
        result_style(result) == Style::Blue <==> result == "IN PROGRESS"@,
{
    reveal_strlit("SUCCESS");
    reveal_strlit("FAILURE");
    reveal_strlit("UNSTABLE");
    reveal_strlit("ABORTED");
    reveal_strlit("IN PROGRESS");
    assert("SUCCESS"@[0] == 'S' && "FAILURE"@[0] == 'F' && "UNSTABLE"@[0] == 'U');
    assert("ABORTED"@[0] == 'A' && "IN PROGRESS"@[0] == 'I');
}

/// The kind of a parameter does not depend on the package of its class nor on the usual ending.
pub proof fn law_kind(package: Seq<char>, kind: Seq<char>)
    requires
        !kind.contains('.'),
        !"ParameterDefinition"@.is_suffix_of(kind),
    ensures
        kind_of(package + seq!['.'] + kind + "ParameterDefinition"@) == kind,
        kind_of(kind + "ParameterDefinition"@) == kind,
        kind_of(kind) == kind,
{
    reveal_strlit("ParameterDefinition");
    let ending = "ParameterDefinition"@;
    let name = kind + ending;
    let class = package + seq!['.'] + kind + ending;
    assert forall|i: int| 0 <= i < name.len() implies name[i] != '.' by {
        if i < kind.len() {
            assert(kind.contains(kind[i]));
        }
    }
    assert forall|i: int| package.len() + 1 <= i < class.len() implies class[i] != '.' by {
        assert(class[i] == name[i - package.len() - 1]);
    }
    text::lemma_past_last_is(class, '.', package.len() + 1);
    text::lemma_past_last_is(name, '.', 0);
    assert forall|i: int| 0 <= i < kind.len() implies kind[i] != '.' by {
        assert(kind.contains(kind[i]));
    }
    text::lemma_past_last_is(kind, '.', 0);
    assert(class.skip(package.len() as int + 1) =~= name);
    assert(name.skip(0) =~= name);
    assert(kind.skip(0) =~= kind);
    text::law_without_suffix(kind, ending);
}

/// The line for a parameter begins with its name and shows its kind.
pub proof fn law_param_line_names_parameter(p: ParamDef)
    ensures
        ({
            let line = param_line(p);
            &&& line.stream == Stream::Output && line.closed
            &&& line.spans.len() >= 6
            &&& p.name@.is_prefix_of(line.spans[1].1)
            &&& line.spans[1].1.len() >= 22
            &&& ("["@ + kind_of(p.class@)).is_prefix_of(line.spans[3].1)
            &&& line.spans[3].1.len() >= 10
        }),
{
    reveal_strlit("[");
    reveal_strlit("]");
    let kind = kind_of(p.class@);
    text::law_padded(p.name@, 22);
    text::law_padded(kind, 8);
    let shown = "["@ + text::padded(kind, 8) + "]"@;
    let wide = text::padded(kind, 8);
    assert(param_line(p).spans[3].1 == shown);
    assert(wide.subrange(0, kind.len() as int) =~= kind);
    assert forall|i: int| 0 <= i < kind.len() implies wide[i] == kind[i] by {
        assert(wide.subrange(0, kind.len() as int)[i] == wide[i]);
    }
    assert(shown.subrange(0, ("["@ + kind).len() as int) =~= "["@ + kind);
}

/// A parameter with a choice shows what there is to choose from, and any other one its default.
pub proof fn law_param_line_shows_values(p: ParamDef)
    ensures
        ({
            let line = param_line(p);
            let kind = kind_of(p.class@);
            &&& kind == "Choice"@ ==> line.spans[4].1 == " Choices: "@ && line.spans[5].1 == text::joined(
                text::views(p.choices@),
                ", "@,
            )
            &&& kind != "Choice"@ ==> line.spans[4].1 == " Default: "@ && default_text(
                p.default_parameter_value,
            ).is_prefix_of(line.spans[5].1)
            &&& line.spans[5].0 == Style::Yellow
        }),
{
    text::law_padded(default_text(p.default_parameter_value), 20);
}

/// The description of a parameter closes its line, without the white space round it. One that
/// is missing or blank leaves the line without.
pub proof fn law_param_line_ends_in_description(p: ParamDef)
    ensures
        ({
            let line = param_line(p);
            let described = p.description matches Some(d) && text::trimmed(d@).len() > 0;
            &&& line.spans.len() == if described { 8nat } else { 6nat }
            &&& described ==> text::trimmed(p.description->0@).is_suffix_of(line.spans.last().1)
        }),
{
    if let Some(d) = p.description {
        let t = text::trimmed(d@);
        let shown = "— "@ + t;
        assert(shown.subrange(shown.len() - t.len(), shown.len() as int) =~= t);
    }
}

/// The default of a parameter is shown in quotes where it is a string, so that strings are told
/// from other values and the empty string from a missing default.
pub proof fn law_default_text(s: String, json: String)
    ensures
        ({
            let shown = default_text(Some(DefaultValue { value: Some(ParamValue::Text(s)) }));
            &&& shown.len() == s@.len() + 2
            &&& shown[0] == '"' && shown.last() == '"'
            &&& shown.subrange(1, shown.len() - 1) == s@
        }),
        default_text(Some(DefaultValue { value: Some(ParamValue::Json(json)) })) == json@,
        default_text(Some(DefaultValue { value: None })) == default_text(None),
        default_text(None) == "(none)"@,
{
    reveal_strlit("\"");
    let shown = default_text(Some(DefaultValue { value: Some(ParamValue::Text(s)) }));
    assert(shown.subrange(1, shown.len() - 1) =~= s@);
}

/// The error for a job that cannot be shown gives the status and quotes the job.
pub proof fn law_refused_job_is_named(refused: JobRefused)
    ensures
        text::occurs(refused.words(), http::status_text(refused.status@)),
        ("'"@ + refused.job@ + "'"@).is_suffix_of(refused.words()),
{
    reveal_strlit("'");
    reveal_strlit(" for job '");
    let words = refused.words();
    let shown = http::status_text(refused.status@);
    let quoted = "'"@ + refused.job@ + "'"@;
    let at = "Jenkins returned HTTP "@.len() as int;
    assert(words.subrange(at, at + shown.len()) =~= shown);
    assert(words.subrange(words.len() - quoted.len(), words.len() as int) =~= quoted);
}

} // verus!
