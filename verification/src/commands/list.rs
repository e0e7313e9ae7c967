//! The command that lists the jobs and folders of a folder.

use vstd::prelude::*;
use crate::cli::ListArgs;
use crate::client;
use crate::http;
use crate::http::HttpStatus;
use crate::output;
use crate::output::{Line, Stream, Style};
use crate::text;

verus! {

/// What the server says of a folder.
#[derive(Debug)]
pub struct FolderInfo {
    pub jobs: Vec<JobEntry>,
}

/// A job or a folder in a folder.
#[derive(Debug)]
pub struct JobEntry {
    pub name: String,
    pub class: String,
    /// How the last build went; absent on folders. It ends in `_anime` while a build is
    /// running.
    pub color: Option<String>,
}

/// Whether a class is that of a folder: the class names of folders hold the word.
pub open spec fn folder_class(class: Seq<char>) -> bool {
    text::occurs(class, "Folder"@) || text::occurs(class, "folder"@)
}

/// Whether a color tells of a running build.
pub open spec fn building_color(color: Option<Seq<char>>) -> bool {
    color matches Some(c) && "_anime"@.is_suffix_of(c)
}

/// The status that a color stands for.
pub open spec fn status_word(color: Option<Seq<char>>) -> Seq<char> {
    match color {
        Some(c) => {
            let c = text::without_suffix(c, "_anime"@);
            if c == "blue"@ {
                "SUCCESS"@
            } else if c == "red"@ {
                "FAILED"@
            } else if c == "yellow"@ {
                "UNSTABLE"@
            } else if c == "aborted"@ {
                "ABORTED"@
            } else if c == "disabled"@ {
                "DISABLED"@
            } else {
                "NOT BUILT"@
            }
        },
        None => "NOT BUILT"@,
    }
}

impl JobEntry {
    pub fn is_folder(&self) -> (r: bool)
        ensures
            r == folder_class(self.class@),
    {
        text::contains(self.class.as_str(), "Folder") || text::contains(self.class.as_str(), "folder")
    }

    /// Whether a build is running.
    pub fn is_building(&self) -> (r: bool)
        ensures
            r == building_color(text::option_view(self.color)),
    {
        match &self.color {
            Some(color) => text::ends_with(color.as_str(), "_anime"),
            None => false,
        }
    }

    /// How the last build went.
    pub fn status(&self) -> (r: &'static str)
        ensures
            r@ == status_word(text::option_view(self.color)),
    {
        let color = match &self.color {
            Some(color) => text::trim_end_text(color.as_str(), "_anime"),
            None => return "NOT BUILT",
        };
        if text::same_text(color.as_str(), "blue") {
            "SUCCESS"
        } else if text::same_text(color.as_str(), "red") {
            "FAILED"
        } else if text::same_text(color.as_str(), "yellow") {
            "UNSTABLE"
        } else if text::same_text(color.as_str(), "aborted") {
            "ABORTED"
        } else if text::same_text(color.as_str(), "disabled") {
            "DISABLED"
        } else {
            "NOT BUILT"
        }
    }
}

/// A running build does not change the status that a color stands for.
pub proof fn law_status_of_running_job(color: Seq<char>)
    ensures
        status_word(Some(color + "_anime"@)) == status_word(Some(color)),
        building_color(Some(color + "_anime"@)),
{
    reveal_strlit("_anime");
    let suffix = "_anime"@;
    let longer = color + suffix;
    assert(longer.subrange(longer.len() - suffix.len(), longer.len() as int) =~= suffix);
    assert(longer.take(longer.len() - suffix.len()) =~= color);
}

// ---------------------------------------------------------------------------
// The command
// ---------------------------------------------------------------------------

/// The folder that is listed, if it is not the root.
pub open spec fn listed_folder(path: Option<Seq<char>>) -> Option<Seq<char>> {
    match path {
        Some(p) => if p.len() > 0 {
            Some(p)
        } else {
            None
        },
        None => None,
    }
}

/// The name that a folder is listed under.
pub open spec fn display_path(folder: Option<Seq<char>>) -> Seq<char> {
    match folder {
        Some(p) => p + "/"@,
        None => "(root)"@,
    }
}

/// The path, relative to the server, of what it says of a folder.
pub open spec fn listing_path(folder: Option<Seq<char>>) -> Seq<char> {
    match folder {
        Some(p) => client::job_address(p, "/api/json?tree=jobs[name,_class,color]"@),
        None => "api/json?tree=jobs[name,_class,color]"@,
    }
}

/// What to list: the name to list it under, and the path to ask the server for.
pub fn plan_list(args: &ListArgs) -> (r: (String, String))
    ensures
        r.0@ == display_path(listed_folder(text::option_view(args.path))),
        r.1@ == listing_path(listed_folder(text::option_view(args.path))),
{
    match &args.path {
        Some(path) => if !path.as_str().is_empty() {
            return (
                text::cat2(path.as_str(), "/"),
                client::job_path(path.as_str(), "/api/json?tree=jobs[name,_class,color]"),
            );
        },
        None => {},
    }
    ("(root)".to_owned(), "api/json?tree=jobs[name,_class,color]".to_owned())
}

/// The server did not list a folder.
#[derive(Debug)]
pub struct ListRefused {
    pub status: HttpStatus,
}

/// Whether the answer to the question for a folder holds an answer.
pub fn check_list(status: HttpStatus) -> (r: Result<(), ListRefused>)
    ensures
        match r {
            Ok(_) => http::successful(status@),
            Err(e) => !http::successful(status@) && e.status == status,
        },
{
    if status.is_success() {
        Ok(())
    } else {
        Err(ListRefused { status })
    }
}

impl ListRefused {
    pub open spec fn words(self) -> Seq<char> {
        "Jenkins returned HTTP "@ + http::status_text(self.status@)
            + " — check the path is a folder, not a job.\nHint: use `rj inspect <path>` if this is a job."@
    }

    /// The error in words.
    pub fn message(&self) -> (r: String)
        ensures
            r@ == self.words(),
    {
        text::cat3(
            "Jenkins returned HTTP ",
            self.status.text().as_str(),
            " — check the path is a folder, not a job.\nHint: use `rj inspect <path>` if this is a job.",
        )
    }
}

/// The style that a status is painted in.
pub open spec fn status_style(status: Seq<char>) -> Style {
    if status == "SUCCESS"@ {
        Style::Green
    } else if status == "FAILED"@ {
        Style::Red
    } else if status == "UNSTABLE"@ {
        Style::Yellow
    } else {
        Style::Dimmed
    }
}

/// The line for a job or a folder.
pub open spec fn entry_line(entry: JobEntry) -> output::LineModel {
    let status = status_word(text::option_view(entry.color));
    if folder_class(entry.class@) {
        output::painted(
            seq![
                (Style::Plain, "  "@),
                (Style::Cyan, "[FOLDER]"@),
                (Style::Plain, "  "@),
                (Style::Cyan, entry.name@),
            ],
        )
    } else if building_color(text::option_view(entry.color)) {
        output::painted(
            seq![
                (Style::Plain, "  [JOB]  "@),
                (Style::Plain, text::padded(entry.name@, 40)),
                (Style::Plain, " "@),
                (status_style(status), status),
                (Style::Plain, "  "@),
                (Style::BlueBold, "*building*"@),
            ],
        )
    } else {
        output::painted(
            seq![
                (Style::Plain, "  [JOB]  "@),
                (Style::Plain, text::padded(entry.name@, 40)),
                (Style::Plain, " "@),
                (status_style(status), status),
            ],
        )
    }
}

/// The number of folders among the entries.
pub open spec fn folder_count(entries: Seq<JobEntry>) -> nat
    decreases entries.len(),
{
    if entries.len() == 0 {
        0
    } else {
        folder_count(entries.drop_last()) + if folder_class(entries.last().class@) {
            1nat
        } else {
            0nat
        }
    }
}

/// The lines for a folder: its name, a line for each entry, and how many there are of each
/// kind; or a hint where it has none.
pub open spec fn listing(display: Seq<char>, entries: Seq<JobEntry>) -> Seq<output::LineModel> {
    let title = output::painted(seq![(Style::CyanBold, display)]);
    if entries.len() == 0 {
        seq![
            title,
            output::painted(
                seq![
                    (Style::Plain, "  "@),
                    (Style::Dimmed, "(empty — or this path points to a job rather than a folder)"@),
                ],
            ),
            output::painted(
                seq![(Style::Plain, "  "@), (Style::Dimmed, "Hint: use `rj inspect <path>` for job details."@)],
            ),
        ]
    } else {
        let folders = folder_count(entries);
        let jobs = (entries.len() - folders) as nat;
        (seq![title] + entries.map_values(|e: JobEntry| entry_line(e))).push(
            output::painted(
                seq![
                    (Style::Plain, "\n  "@),
                    (
                        Style::Dimmed,
                        text::decimal(folders) + " folder(s), "@ + text::decimal(jobs) + " job(s)"@,
                    ),
                ],
            ),
        )
    }
}

/// The style that a status is painted in.
fn paint_status(status: &str) -> (r: Style)
    ensures
        r == status_style(status@),
{
    if text::same_text(status, "SUCCESS") {
        Style::Green
    } else if text::same_text(status, "FAILED") {
        Style::Red
    } else if text::same_text(status, "UNSTABLE") {
        Style::Yellow
    } else {
        Style::Dimmed
    }
}

/// The line for a job or a folder.
pub fn show_entry(entry: &JobEntry) -> (r: Line)
    ensures
        r@ == entry_line(*entry),
{
    let mut line = Line::new(Stream::Output);
    if entry.is_folder() {
        line.add(Style::Plain, "  ");
        line.add(Style::Cyan, "[FOLDER]");
        line.add(Style::Plain, "  ");
        line.add(Style::Cyan, entry.name.as_str());
    } else {
        let status = entry.status();
        line.add(Style::Plain, "  [JOB]  ");
        line.add(Style::Plain, text::pad(entry.name.as_str(), 40).as_str());
        line.add(Style::Plain, " ");
        line.add(paint_status(status), status);
        if entry.is_building() {
            line.add(Style::Plain, "  ");
            line.add(Style::BlueBold, "*building*");
        }
    }
    proof {
        assert(line@.spans =~= entry_line(*entry).spans);
    }
    line
}

/// The lines for a folder.
pub fn show_folder(display: &str, info: &FolderInfo) -> (r: Vec<Line>)
    ensures
        output::line_views(r@) == listing(display@, info.jobs@),
{
    let mut lines: Vec<Line> = Vec::new();
    proof {
        assert(output::line_views(lines@) =~= Seq::empty());
    }
    output::put(&mut lines, output::paint1(Style::CyanBold, display));
    if info.jobs.len() == 0 {
        output::put(
            &mut lines,
            output::paint2(
                Style::Plain,
                "  ",
                Style::Dimmed,
                "(empty — or this path points to a job rather than a folder)",
            ),
        );
        output::put(
            &mut lines,
            output::paint2(Style::Plain, "  ", Style::Dimmed, "Hint: use `rj inspect <path>` for job details."),
        );
        return lines;
    }
    let total: usize = info.jobs.len();
    let mut folders: usize = 0;
    let mut i: usize = 0;
    let ghost first = output::line_views(lines@);
    let ghost shown = |e: JobEntry| entry_line(e);
    proof {
        assert(first =~= first + info.jobs@.take(0).map_values(shown));
    }
    while i < total
        invariant
            i <= total == info.jobs@.len(),
            folders <= i,
            folders == folder_count(info.jobs@.take(i as int)),
            shown == |e: JobEntry| entry_line(e),
            output::line_views(lines@) == first + info.jobs@.take(i as int).map_values(shown),
        decreases total - i,
    {
        let ghost before = info.jobs@.take(i as int);
        let ghost after = info.jobs@.take(i + 1);
        proof {
            assert(after.drop_last() =~= before);
        }
        output::put(&mut lines, show_entry(&info.jobs[i]));
        if info.jobs[i].is_folder() {
            folders = folders + 1;
        }
        proof {
            assert(output::line_views(lines@) =~= first + after.map_values(shown));
        }
        i = i + 1;
    }
    proof {
        assert(info.jobs@.take(i as int) =~= info.jobs@);
    }
    let counts = text::cat4(
        text::show_u64(folders as u64).as_str(),
        " folder(s), ",
        text::show_u64((total - folders) as u64).as_str(),
        " job(s)",
    );
    output::put(&mut lines, output::paint2(Style::Plain, "\n  ", Style::Dimmed, counts.as_str()));
    lines
}

// ---------------------------------------------------------------------------
// Laws
// ---------------------------------------------------------------------------

/// A class is that of a folder wherever the word stands in its name, with a capital or without;
/// a name without the letter that the word begins with is not.
pub proof fn law_folder_class(before: Seq<char>, after: Seq<char>, class: Seq<char>)
    ensures
        folder_class(before + "Folder"@ + after),
        folder_class(before + "folder"@ + after),
        !class.contains('F') && !class.contains('f') ==> !folder_class(class),
        folder_class(class) ==> class.len() >= 6,
{
    reveal_strlit("Folder");
    reveal_strlit("folder");
    let at = before.len() as int;
    let upper = before + "Folder"@ + after;
    let lower = before + "folder"@ + after;
    assert(upper.subrange(at, at + "Folder"@.len()) =~= "Folder"@);
    assert(lower.subrange(at, at + "folder"@.len()) =~= "folder"@);
    if text::occurs(class, "Folder"@) {
        let i = choose|i: int|
            0 <= i <= class.len() - "Folder"@.len() && #[trigger] class.subrange(i, i + "Folder"@.len()) == "Folder"@;
        assert(class.subrange(i, i + "Folder"@.len())[0] == "Folder"@[0]);
        assert(class[i] == 'F');
    }
    if text::occurs(class, "folder"@) {
        let i = choose|i: int|
            0 <= i <= class.len() - "folder"@.len() && #[trigger] class.subrange(i, i + "folder"@.len()) == "folder"@;
        assert(class.subrange(i, i + "folder"@.len())[0] == "folder"@[0]);
        assert(class[i] == 'f');
    }
}

/// Each color of a job that is not being built stands for a status of its own, and all others
/// for one that was not built.
pub proof fn law_status_words(color: Seq<char>)
    requires
        !"_anime"@.is_suffix_of(color),
    ensures
        status_word(Some(color)) == "SUCCESS"@ <==> color == "blue"@,
        status_word(Some(color)) == "FAILED"@ <==> color == "red"@,
        status_word(Some(color)) == "UNSTABLE"@ <==> color == "yellow"@,
        status_word(Some(color)) == "ABORTED"@ <==> color == "aborted"@,
        status_word(Some(color)) == "DISABLED"@ <==> color == "disabled"@,
        color != "blue"@ && color != "red"@ && color != "yellow"@ && color != "aborted"@ && color != "disabled"@
            ==> status_word(Some(color)) == "NOT BUILT"@,
        status_word(None) == "NOT BUILT"@,
{
    reveal_strlit("_anime");
    reveal_strlit("SUCCESS");
    reveal_strlit("FAILED");
    reveal_strlit("UNSTABLE");
    reveal_strlit("ABORTED");
    reveal_strlit("DISABLED");
    reveal_strlit("NOT BUILT");
    reveal_strlit("blue");
    reveal_strlit("red");
    reveal_strlit("yellow");
    reveal_strlit("aborted");
    reveal_strlit("disabled");
    assert("SUCCESS"@[0] == 'S' && "FAILED"@[0] == 'F' && "UNSTABLE"@[0] == 'U' && "ABORTED"@[0] == 'A'
        && "DISABLED"@[0] == 'D' && "NOT BUILT"@[0] == 'N');
    assert("blue"@[0] == 'b' && "red"@[0] == 'r' && "yellow"@[0] == 'y' && "aborted"@[0] == 'a' && "disabled"@[0]
        == 'd');
}

/// A build is running exactly where the color ends as those of running builds do.
pub proof fn law_building_color(color: Seq<char>)
    ensures
        !building_color(None),
        building_color(Some(color)) <==> color.len() >= 6 && color.skip(color.len() - 6) == "_anime"@,
{
    reveal_strlit("_anime");
    if color.len() >= 6 {
        assert(color.subrange(color.len() - 6, color.len() as int) =~= color.skip(color.len() - 6));
    }
}

/// The statuses are told apart by their styles.
pub proof fn law_status_styles(status: Seq<char>)
    ensures
        status_style(status) == Style::Green <==> status == "SUCCESS"@,
        status_style(status) == Style::Red <==> status == "FAILED"@,
        status_style(status) == Style::Yellow <==> status == "UNSTABLE"@,
        status_style(status) == Style::Green || status_style(status) == Style::Red || status_style(status)
            == Style::Yellow || status_style(status) == Style::Dimmed,
{
    reveal_strlit("SUCCESS");
    reveal_strlit("FAILED");
    reveal_strlit("UNSTABLE");
    assert("SUCCESS"@[0] == 'S' && "FAILED"@[0] == 'F' && "UNSTABLE"@[0] == 'U');
}

/// Where no folder is named the root is listed, also where the name is empty.
pub proof fn law_listed_folder(path: Seq<char>)
    ensures
        listed_folder(None) is None,
        listed_folder(Some(Seq::empty())) is None,
        path.len() > 0 ==> listed_folder(Some(path)) == Some(path),
        path.is_prefix_of(display_path(Some(path))),
        display_path(Some(path)).len() == path.len() + 1 && display_path(Some(path)).last() == '/',
{
    reveal_strlit("/");
    assert(display_path(Some(path)).subrange(0, path.len() as int) =~= path);
}

/// A folder and the root are asked for the same fields; the root at the server itself, a folder
/// below the path of its job.
pub proof fn law_listing_path(path: Seq<char>)
    ensures
        listing_path(Some(path)) == "job/"@ + client::job_url(path) + "/"@ + listing_path(None),
{
    reveal_strlit("/");
    reveal_strlit("/api/json?tree=jobs[name,_class,color]");
    reveal_strlit("api/json?tree=jobs[name,_class,color]");
    assert("/api/json?tree=jobs[name,_class,color]"@ =~= "/"@ + "api/json?tree=jobs[name,_class,color]"@);
    assert(listing_path(Some(path)) =~= "job/"@ + client::job_url(path) + ("/"@
        + "api/json?tree=jobs[name,_class,color]"@));
    assert(listing_path(Some(path)) =~= "job/"@ + client::job_url(path) + "/"@ + listing_path(None));
}

/// The line for a folder says that it is one and ends in its name. The line for a job shows its
/// name, then its status in its style, and last whether it is being built, where it is.
pub proof fn law_entry_line(entry: JobEntry)
    ensures
        ({
            let line = entry_line(entry);
            let status = status_word(text::option_view(entry.color));
            let building = building_color(text::option_view(entry.color));
            let n = line.spans.len();
            &&& line.stream == Stream::Output && line.closed
            &&& folder_class(entry.class@) ==> n == 4 && line.spans[1].1 == "[FOLDER]"@ && line.spans[3].1
                == entry.name@
            &&& !folder_class(entry.class@) ==> {
                &&& n == if building { 6nat } else { 4nat }
                &&& entry.name@.is_prefix_of(line.spans[1].1)
                &&& line.spans[1].1.len() >= 40
                &&& line.spans[3] == (status_style(status), status)
                &&& building ==> line.spans[5].1 == "*building*"@
            }
        }),
{
    text::law_padded(entry.name@, 40);
}

/// The entries of two lists together have the folders of both.
pub proof fn law_folder_count(a: Seq<JobEntry>, b: Seq<JobEntry>, entry: JobEntry)
    ensures
        folder_count(a + b) == folder_count(a) + folder_count(b),
        folder_count(a) <= a.len(),
        folder_count(seq![entry]) == if folder_class(entry.class@) { 1nat } else { 0nat },
    decreases b.len(),
{
    reveal_with_fuel(folder_count, 2);
    assert(seq![entry].drop_last() =~= Seq::<JobEntry>::empty());
    lemma_folder_count_bound(a);
    if b.len() > 0 {
        law_folder_count(a, b.drop_last(), entry);
        assert((a + b).drop_last() =~= a + b.drop_last());
        assert((a + b).last() == b.last());
    } else {
        assert(a + b =~= a);
    }
}

proof fn lemma_folder_count_bound(a: Seq<JobEntry>)
    ensures
        folder_count(a) <= a.len(),
    decreases a.len(),
{
    if a.len() > 0 {
        lemma_folder_count_bound(a.drop_last());
    }
}

/// A folder that is not empty is shown with its name first, then a line for each entry, in
/// order, and last the numbers of folders and of jobs, which together are the number of entries.
/// An empty one is shown with its name and a hint.
pub proof fn law_listing(display: Seq<char>, entries: Seq<JobEntry>)
    ensures
        ({
            let lines = listing(display, entries);
            let folders = folder_count(entries);
            &&& lines[0].spans == seq![(Style::CyanBold, display)]
            &&& entries.len() > 0 ==> {
                &&& lines.len() == entries.len() + 2
                &&& forall|i: int| 0 <= i < entries.len() ==> #[trigger] lines[i + 1] == entry_line(entries[i])
                &&& lines.last().spans.last().1 == text::decimal(folders) + " folder(s), "@ + text::decimal(
                    (entries.len() - folders) as nat,
                ) + " job(s)"@
            }
            &&& entries.len() == 0 ==> lines.len() == 3
        }),
{
}

/// The error for a folder that is not listed gives the status and points to the command for jobs.
pub proof fn law_refused_list_is_explained(refused: ListRefused)
    ensures
        text::occurs(refused.words(), http::status_text(refused.status@)),
        "Hint: use `rj inspect <path>` if this is a job."@.is_suffix_of(refused.words()),
{
    reveal_strlit("Hint: use `rj inspect <path>` if this is a job.");
    reveal_strlit(
        " — check the path is a folder, not a job.\nHint: use `rj inspect <path>` if this is a job.",
    );
    let words = refused.words();
    let shown = http::status_text(refused.status@);
    let hint = "Hint: use `rj inspect <path>` if this is a job."@;
    let at = "Jenkins returned HTTP "@.len() as int;
    assert(words.subrange(at, at + shown.len()) =~= shown);
    assert(words.subrange(words.len() - hint.len(), words.len() as int) =~= hint);
}

} // verus!
