//! The commands that download and upload a job's configuration.

use vstd::prelude::*;
use crate::http;
use crate::http::HttpStatus;
use crate::output;
use crate::output::Line;
use crate::text;

verus! {

/// The name of the file that a job's configuration is saved in: its path, with double
/// underscores for slashes.
pub open spec fn config_name(job: Seq<char>) -> Seq<char> {
    text::substituted(job, '/', "__"@) + ".xml"@
}

/// The name of the file that a job's configuration is saved in.
pub fn config_filename(job: &str) -> (r: String)
    ensures
        r@ == config_name(job@),
{
    text::cat2(text::replace_char(job, '/', "__").as_str(), ".xml")
}

/// Whether two jobs have their configurations saved in one file.
pub open spec fn share_file(a: Seq<char>, b: Seq<char>) -> bool {
    a != b && config_name(a) == config_name(b)
}

/// Two jobs, by their places, of which one's configuration would take the place of the other's
/// where those of all jobs are saved in one directory; nothing if each has a file of its own.
pub fn find_shared_file(jobs: &[String]) -> (r: Option<(usize, usize)>)
    ensures
        match r {
            Some((i, j)) => i < j < jobs@.len() && share_file(jobs@[i as int]@, jobs@[j as int]@),
            None => forall|i: int, j: int|
                0 <= i < j < jobs@.len() ==> !share_file((#[trigger] jobs@[i])@, (#[trigger] jobs@[j])@),
        },
{
    let mut j: usize = 0;
    while j < jobs.len()
        invariant
            j <= jobs@.len(),
            forall|a: int, b: int|
                0 <= a < b < j ==> !share_file((#[trigger] jobs@[a])@, (#[trigger] jobs@[b])@),
        decreases jobs@.len() - j,
    {
        let name = config_filename(jobs[j].as_str());
        let mut i: usize = 0;
        while i < j
            invariant
                i <= j < jobs@.len(),
                name@ == config_name(jobs@[j as int]@),
                forall|a: int| 0 <= a < i ==> !share_file((#[trigger] jobs@[a])@, jobs@[j as int]@),
            decreases j - i,
        {
            let other = config_filename(jobs[i].as_str());
            if !text::same_text(jobs[i].as_str(), jobs[j].as_str()) && text::same_text(other.as_str(), name.as_str()) {
                return Some((i, j));
            }
            i = i + 1;
        }
        j = j + 1;
    }
    None
}

/// What is said where two jobs have one file.
pub open spec fn shared_file_words(a: Seq<char>, b: Seq<char>) -> Seq<char> {
    "the configurations of '"@ + a + "' and '"@ + b + "' would both be saved as '"@ + config_name(a) + "'"@
}

/// Whether each of the jobs has a file of its own; if not, the error in words, for two that do
/// not.
pub fn check_files(jobs: &[String]) -> (r: Result<(), String>)
    ensures
        match r {
            Ok(_) => forall|i: int, j: int|
                0 <= i < j < jobs@.len() ==> !share_file((#[trigger] jobs@[i])@, (#[trigger] jobs@[j])@),
            Err(words) => exists|i: int, j: int|
                0 <= i < j < jobs@.len() && share_file((#[trigger] jobs@[i])@, (#[trigger] jobs@[j])@) && words@
                    == shared_file_words(jobs@[i]@, jobs@[j]@),
        },
{
    match find_shared_file(jobs) {
        Some((i, j)) => {
            let mut words = text::cat5(
                "the configurations of '",
                jobs[i].as_str(),
                "' and '",
                jobs[j].as_str(),
                "' would both be saved as '",
            );
            words.append(config_filename(jobs[i].as_str()).as_str());
            words.append("'");
            proof {
                assert(words@ == shared_file_words(jobs@[i as int]@, jobs@[j as int]@));
            }
            Err(words)
        },
        None => Ok(()),
    }
}

/// Two jobs of one folder, or two that are in none, have files of their own.
pub proof fn law_jobs_of_a_folder_have_their_own_files(folder: Seq<char>, a: Seq<char>, b: Seq<char>)
    requires
        !a.contains('/'),
        !b.contains('/'),
        a != b,
    ensures
        config_name(a) != config_name(b),
        config_name(folder + "/"@ + a) != config_name(folder + "/"@ + b),
{
    let start = text::substituted(folder + "/"@, '/', "__"@);
    text::lemma_substituted_without(a, '/', "__"@);
    text::lemma_substituted_without(b, '/', "__"@);
    text::lemma_substituted_concat(folder + "/"@, a, '/', "__"@);
    text::lemma_substituted_concat(folder + "/"@, b, '/', "__"@);
    assert(Seq::<char>::empty() + a =~= a);
    assert(Seq::<char>::empty() + b =~= b);
    if config_name(a) == config_name(b) {
        lemma_same_inside(Seq::empty(), a, b, ".xml"@);
    }
    if config_name(folder + "/"@ + a) == config_name(folder + "/"@ + b) {
        lemma_same_inside(start, a, b, ".xml"@);
    }
}

/// Two texts with the same start and the same end are the same only if they are so in between.
proof fn lemma_same_inside(start: Seq<char>, a: Seq<char>, b: Seq<char>, end: Seq<char>)
    requires
        start + a + end == start + b + end,
    ensures
        a == b,
{
    let whole = start + a + end;
    let from = start.len() as int;
    let to = whole.len() - end.len();
    assert(whole.subrange(from, to) =~= a);
    assert(whole.subrange(from, to) =~= b);
}

/// Whether double underscores in the name of a job's file stand for slashes alone: the job has
/// none, and no underscore before a slash.
pub open spec fn plain_slashes(job: Seq<char>) -> bool {
    !text::occurs(job, "__"@) && !text::occurs(job, "_/"@)
}

/// A text with every double underscore turned into a slash, from left to right.
pub open spec fn unfolded(s: Seq<char>) -> Seq<char>
    decreases s.len(),
{
    if s.len() == 0 {
        Seq::empty()
    } else if s.len() >= 2 && s[0] == '_' && s[1] == '_' {
        seq!['/'] + unfolded(s.skip(2))
    } else {
        seq![s[0]] + unfolded(s.skip(1))
    }
}

/// The path of a job in which no underscore stands next to another or before a slash can be
/// read back from the name of its file.
pub proof fn law_file_name_decodes(job: Seq<char>)
    requires
        plain_slashes(job),
    ensures
        unfolded(text::substituted(job, '/', "__"@)) == job,
    decreases job.len(),
{
    reveal_strlit("__");
    reveal_strlit("_/");
    let name = text::substituted(job, '/', "__"@);
    if job.len() > 0 {
        let rest = job.skip(1);
        let later = text::substituted(rest, '/', "__"@);
        lemma_plain_slashes(job);
        law_file_name_decodes(rest);
        text::lemma_substituted_front(job, '/', "__"@);
        assert(seq![job[0]] + rest =~= job);
        if job[0] == '/' {
            assert(name.skip(2) =~= later);
        } else {
            assert(name.skip(1) =~= later);
            if name.len() >= 2 && name[0] == '_' && name[1] == '_' {
                assert(later[0] == '_');
                assert(rest.len() > 0);
                text::lemma_substituted_front(rest, '/', "__"@);
                if rest[0] == '/' {
                    assert(job.subrange(0int, 0int + "_/"@.len()) =~= "_/"@);
                } else {
                    assert(later[0] == rest[0]);
                    assert(job.subrange(0int, 0int + "__"@.len()) =~= "__"@);
                }
            }
        }
    } else {
        assert(job =~= Seq::<char>::empty());
        assert(name =~= Seq::<char>::empty());
    }
}

/// What does not occur in a text does not occur behind its first character.
proof fn lemma_plain_slashes(job: Seq<char>)
    requires
        job.len() > 0,
        plain_slashes(job),
    ensures
        plain_slashes(job.skip(1)),
{
    reveal_strlit("__");
    reveal_strlit("_/");
    let rest = job.skip(1);
    if text::occurs(rest, "__"@) {
        let i = choose|i: int| 0 <= i <= rest.len() - "__"@.len() && #[trigger] rest.subrange(i, i + "__"@.len()) == "__"@;
        assert(job.subrange(i + 1, i + 1 + "__"@.len()) =~= "__"@);
    }
    if text::occurs(rest, "_/"@) {
        let i = choose|i: int| 0 <= i <= rest.len() - "_/"@.len() && #[trigger] rest.subrange(i, i + "_/"@.len()) == "_/"@;
        assert(job.subrange(i + 1, i + 1 + "_/"@.len()) =~= "_/"@);
    }
}

/// Jobs in whose paths no underscore stands next to another or before a slash have files of
/// their own, wherever they lie.
pub proof fn law_plain_jobs_have_their_own_files(a: Seq<char>, b: Seq<char>)
    requires
        plain_slashes(a),
        plain_slashes(b),
        a != b,
    ensures
        config_name(a) != config_name(b),
{
    law_file_name_decodes(a);
    law_file_name_decodes(b);
    let x = text::substituted(a, '/', "__"@);
    let y = text::substituted(b, '/', "__"@);
    if config_name(a) == config_name(b) {
        assert(Seq::<char>::empty() + x =~= x);
        assert(Seq::<char>::empty() + y =~= y);
        lemma_same_inside(Seq::empty(), x, y, ".xml"@);
    }
}

/// Why a configuration could not be downloaded or uploaded.
#[derive(Debug)]
pub enum ConfigError {
    NotFetched(String, HttpStatus),
    NotUpdated(String, HttpStatus),
}

/// Whether a configuration was handed out.
pub fn check_get(job: &str, status: HttpStatus) -> (r: Result<(), ConfigError>)
    ensures
        match r {
            Ok(_) => http::successful(status@),
            Err(ConfigError::NotFetched(j, s)) => !http::successful(status@) && j@ == job@ && s == status,
            Err(ConfigError::NotUpdated(_, _)) => false,
        },
{
    if status.is_success() {
        Ok(())
    } else {
        Err(ConfigError::NotFetched(job.to_owned(), status))
    }
}

/// The line that reports that a configuration was accepted.
pub fn report_set(job: &str, status: HttpStatus) -> (r: Result<Line, ConfigError>)
    ensures
        match r {
            Ok(line) => http::successful(status@) && line@ == output::said(
                "Configuration updated for '"@ + job@ + "'."@,
            ),
            Err(ConfigError::NotUpdated(j, s)) => !http::successful(status@) && j@ == job@ && s == status,
            Err(ConfigError::NotFetched(_, _)) => false,
        },
{
    if status.is_success() {
        Ok(output::say(text::cat3("Configuration updated for '", job, "'.").as_str()))
    } else {
        Err(ConfigError::NotUpdated(job.to_owned(), status))
    }
}

impl ConfigError {
    pub open spec fn words(self) -> Seq<char> {
        match self {
            ConfigError::NotFetched(job, status) => "Jenkins returned HTTP "@ + http::status_text(status@)
                + " for job '"@ + job@ + "'"@,
            ConfigError::NotUpdated(job, status) => "Jenkins returned HTTP "@ + http::status_text(status@)
                + " when updating config for '"@ + job@ + "'"@,
        }
    }

    /// The error in words.
    pub fn message(&self) -> (r: String)
        ensures
            r@ == self.words(),
    {
        match self {
            ConfigError::NotFetched(job, status) => text::cat5(
                "Jenkins returned HTTP ",
                status.text().as_str(),
                " for job '",
                job.as_str(),
                "'",
            ),
            ConfigError::NotUpdated(job, status) => text::cat5(
                "Jenkins returned HTTP ",
                status.text().as_str(),
                " when updating config for '",
                job.as_str(),
                "'",
            ),
        }
    }
}

// ---------------------------------------------------------------------------
// Laws
// ---------------------------------------------------------------------------

/// The configuration of a job outside of folders is saved under its name, with `.xml` behind it;
/// that of a job in a folder under the folder's name, two underscores, and the job's file.
pub proof fn law_config_name(folder: Seq<char>, job: Seq<char>)
    requires
        !folder.contains('/'),
    ensures
        config_name(folder) == folder + ".xml"@,
        config_name(folder + seq!['/'] + job) == folder + "__"@ + config_name(job),
{
    let whole = folder + seq!['/'] + job;
    assert(whole =~= folder + (seq!['/'] + job));
    text::lemma_substituted_concat(folder, seq!['/'] + job, '/', "__"@);
    text::lemma_substituted_without(folder, '/', "__"@);
    text::lemma_substituted_front(seq!['/'] + job, '/', "__"@);
    assert((seq!['/'] + job).skip(1) =~= job);
    assert(config_name(whole) =~= folder + "__"@ + config_name(job));
}

/// Configurations are saved in the directory itself: the name of a file has no slash, and ends
/// in `.xml`.
pub proof fn law_config_name_has_no_slash(job: Seq<char>)
    ensures
        !config_name(job).contains('/'),
        ".xml"@.is_suffix_of(config_name(job)),
{
    reveal_strlit("__");
    reveal_strlit(".xml");
    text::law_substituted_is_gone(job, '/', "__"@);
    let stem = text::substituted(job, '/', "__"@);
    text::lemma_suffix(stem, ".xml"@);
    assert forall|i: int| 0 <= i < config_name(job).len() implies #[trigger] config_name(job)[i] != '/' by {
        if i < stem.len() {
            assert(stem.contains(stem[i]));
        }
    }
}

/// A job shares no file with itself, and two jobs share one in either order.
pub proof fn law_share_file(a: Seq<char>, b: Seq<char>)
    ensures
        !share_file(a, a),
        share_file(a, b) <==> share_file(b, a),
        !share_file(a, b) && a != b ==> config_name(a) != config_name(b),
{
}

/// Where two jobs would have one file, both jobs and the file are named.
pub proof fn law_shared_file_words(a: Seq<char>, b: Seq<char>)
    ensures
        text::occurs(shared_file_words(a, b), a),
        text::occurs(shared_file_words(a, b), b),
        text::occurs(shared_file_words(a, b), config_name(a)),
{
    let words = shared_file_words(a, b);
    let first = "the configurations of '"@.len() as int;
    let second = first + a.len() + "' and '"@.len();
    let third = second + b.len() + "' would both be saved as '"@.len();
    assert(words.subrange(first, first + a.len()) =~= a);
    assert(words.subrange(second, second + b.len()) =~= b);
    assert(words.subrange(third, third + config_name(a).len()) =~= config_name(a));
}

/// The errors for a configuration name the job and give the status, and tell the two ways apart.
pub proof fn law_config_errors_name_their_cause(job: String, status: HttpStatus)
    ensures
        ({
            let fetched = ConfigError::NotFetched(job, status).words();
            let updated = ConfigError::NotUpdated(job, status).words();
            &&& text::occurs(fetched, http::status_text(status@)) && text::occurs(updated, http::status_text(status@))
            &&& ("'"@ + job@ + "'"@).is_suffix_of(fetched) && ("'"@ + job@ + "'"@).is_suffix_of(updated)
            &&& fetched != updated
        }),
{
    reveal_strlit("'");
    reveal_strlit(" for job '");
    reveal_strlit(" when updating config for '");
    let fetched = ConfigError::NotFetched(job, status).words();
    let updated = ConfigError::NotUpdated(job, status).words();
    let shown = http::status_text(status@);
    let at = "Jenkins returned HTTP "@.len() as int;
    let quoted = "'"@ + job@ + "'"@;
    assert(fetched.subrange(at, at + shown.len()) =~= shown);
    assert(updated.subrange(at, at + shown.len()) =~= shown);
    assert(fetched.subrange(fetched.len() - quoted.len(), fetched.len() as int) =~= quoted);
    assert(updated.subrange(updated.len() - quoted.len(), updated.len() as int) =~= quoted);
    assert(fetched.len() != updated.len());
}

} // verus!
