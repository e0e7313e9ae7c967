//! The command that triggers a build.

use vstd::prelude::*;
use crate::cli::BuildArgs;
use crate::client;
use crate::headers;
use crate::headers::Header;
use crate::http;
use crate::http::HttpStatus;
use crate::output;
use crate::output::Line;
use crate::text;

verus! {

/// A parameter that is not in the form `KEY=VALUE`.
#[derive(Debug)]
pub struct BadParam {
    pub param: String,
}

/// The keys and values of parameters in the form `KEY=VALUE`, each cut at its first `=`; the
/// first parameter that has none, if there is such a one.
pub open spec fn params_of(raw: Seq<Seq<char>>) -> Result<Seq<(Seq<char>, Seq<char>)>, Seq<char>>
    decreases raw.len(),
{
    if raw.len() == 0 {
        Ok(Seq::empty())
    } else {
        match params_of(raw.drop_last()) {
            Ok(pairs) => match text::cut(raw.last(), '=') {
                Some(pair) => Ok(pairs.push(pair)),
                None => Err(raw.last()),
            },
            Err(param) => Err(param),
        }
    }
}

/// Splits each `KEY=VALUE` into a pair, at the first `=`, so that a value may hold more.
pub fn parse_params(raw: &[String]) -> (r: Result<Vec<(String, String)>, BadParam>)
    ensures
        match r {
            Ok(pairs) => params_of(text::views(raw@)) == Ok::<Seq<(Seq<char>, Seq<char>)>, Seq<char>>(
                text::pair_views(pairs@),
            ),
            Err(e) => params_of(text::views(raw@)) == Err::<Seq<(Seq<char>, Seq<char>)>, Seq<char>>(e.param@),
        },
{
    let mut pairs: Vec<(String, String)> = Vec::new();
    let mut i: usize = 0;
    proof {
        assert(text::pair_views(pairs@) =~= Seq::empty());
    }
    while i < raw.len()
        invariant
            i <= raw@.len(),
            params_of(text::views(raw@).take(i as int)) == Ok::<Seq<(Seq<char>, Seq<char>)>, Seq<char>>(
                text::pair_views(pairs@),
            ),
        decreases raw@.len() - i,
    {
        let ghost all = text::views(raw@);
        let ghost done = text::pair_views(pairs@);
        proof {
            assert(all.take(i + 1).drop_last() =~= all.take(i as int));
        }
        match text::split_once(raw[i].as_str(), '=') {
            Some(pair) => {
                pairs.push(pair);
                proof {
                    assert(text::pair_views(pairs@) =~= done.push((pair.0@, pair.1@)));
                }
            },
            None => {
                proof {
                    lemma_first_bad_param(all, i + 1);
                }
                return Err(BadParam { param: raw[i].clone() });
            },
        }
        i = i + 1;
    }
    proof {
        assert(text::views(raw@).take(i as int) =~= text::views(raw@));
    }
    Ok(pairs)
}

/// What is wrong with the first parameters is wrong with all of them.
proof fn lemma_first_bad_param(raw: Seq<Seq<char>>, k: int)
    requires
        0 <= k <= raw.len(),
        params_of(raw.take(k)) is Err,
    ensures
        params_of(raw) == params_of(raw.take(k)),
    decreases raw.len(),
{
    if k < raw.len() {
        assert(raw.drop_last().take(k) =~= raw.take(k));
        lemma_first_bad_param(raw.drop_last(), k);
    } else {
        assert(raw.take(k) =~= raw);
    }
}

/// Parameters are accepted exactly where each holds an `=`. A key holds none, and key, `=` and
/// value give back the parameter.
pub proof fn law_params(raw: Seq<Seq<char>>)
    ensures
        params_of(raw) is Ok <==> forall|i: int| 0 <= i < raw.len() ==> (#[trigger] raw[i]).contains('='),
        params_of(raw) matches Ok(pairs) ==> {
            &&& pairs.len() == raw.len()
            &&& forall|i: int|
                0 <= i < raw.len() ==> {
                    &&& #[trigger] raw[i] == pairs[i].0 + seq!['='] + pairs[i].1
                    &&& !pairs[i].0.contains('=')
                }
        },
        params_of(raw) matches Err(param) ==> raw.contains(param) && !param.contains('='),
    decreases raw.len(),
{
    if raw.len() > 0 {
        let rest = raw.drop_last();
        let last = raw.last();
        law_params(rest);
        text::lemma_position(last, '=');
        let n = text::position(last, '=') as int;
        if n < last.len() {
            assert(last[n] == '=');
            assert(last =~= last.take(n) + seq!['='] + last.skip(n + 1));
        } else {
            assert(!last.contains('='));
        }
        assert forall|i: int| 0 <= i < rest.len() implies rest[i] == #[trigger] raw[i] by {}
        if params_of(raw) is Ok {
            assert forall|i: int| 0 <= i < raw.len() implies (#[trigger] raw[i]).contains('=') by {
                if i < rest.len() {
                    assert(rest[i].contains('='));
                }
            }
        }
        if forall|i: int| 0 <= i < raw.len() ==> (#[trigger] raw[i]).contains('=') {
            assert(raw[raw.len() - 1].contains('='));
            assert forall|i: int| 0 <= i < rest.len() implies (#[trigger] rest[i]).contains('=') by {
                assert(raw[i].contains('='));
            }
        }
        if let Ok(pairs) = params_of(raw) {
            let done = params_of(rest)->Ok_0;
            assert forall|i: int| 0 <= i < raw.len() implies #[trigger] raw[i] == pairs[i].0 + seq!['='] + pairs[i].1
                && !pairs[i].0.contains('=') by {
                if i < rest.len() {
                    assert(rest[i] == done[i].0 + seq!['='] + done[i].1);
                    assert(pairs[i] == done[i]);
                }
            }
        }
        if let Err(param) = params_of(raw) {
            if params_of(rest) is Err {
                let i = choose|i: int| 0 <= i < rest.len() && rest[i] == param;
                assert(raw[i] == param);
            } else {
                assert(raw[raw.len() - 1] == param);
            }
        }
    }
}

/// Where to post a build request, and with what fields.
#[derive(Debug)]
pub struct BuildPlan {
    pub path: String,
    pub fields: Vec<(String, String)>,
}

/// The path that a build is requested at.
pub open spec fn build_path(job: Seq<char>, with_params: bool) -> Seq<char> {
    client::job_address(
        job,
        if with_params {
            "/buildWithParameters"@
        } else {
            "/build"@
        },
    )
}

/// Where to post a build request, and with what fields: parameters go to an endpoint of their
/// own.
pub fn plan_build(args: &BuildArgs) -> (r: Result<BuildPlan, BadParam>)
    ensures
        match r {
            Ok(plan) => {
                &&& plan.path@ == build_path(args.job@, args.params@.len() > 0)
                &&& params_of(text::views(args.params@)) == Ok::<Seq<(Seq<char>, Seq<char>)>, Seq<char>>(
                    text::pair_views(plan.fields@),
                )
            },
            Err(e) => params_of(text::views(args.params@)) == Err::<Seq<(Seq<char>, Seq<char>)>, Seq<char>>(e.param@),
        },
{
    let fields = match parse_params(args.params.as_slice()) {
        Ok(fields) => fields,
        Err(e) => return Err(e),
    };
    let rest = if args.params.len() == 0 {
        "/build"
    } else {
        "/buildWithParameters"
    };
    Ok(BuildPlan { path: client::job_path(args.job.as_str(), rest), fields })
}

/// The server did not accept a build request.
#[derive(Debug)]
pub struct BuildRefused {
    pub status: HttpStatus,
}

/// The line that reports where a build was queued.
pub open spec fn queued_line(location: headers::HeaderModel) -> Seq<char> {
    match location {
        headers::HeaderModel::Value(url) => "Queued: "@ + url,
        headers::HeaderModel::Unreadable => "Queued: (unreadable URL)"@,
        headers::HeaderModel::Absent => "Build triggered (no Location header returned)."@,
    }
}

/// The line that reports where a build was queued.
pub fn show_queued(location: Header) -> (r: Line)
    ensures
        r@ == output::said(queued_line(location@)),
{
    match location {
        Header::Value(url) => output::say(text::cat2("Queued: ", url.as_str()).as_str()),
        Header::Unreadable => output::say("Queued: (unreadable URL)"),
        Header::Absent => output::say("Build triggered (no Location header returned)."),
    }
}

/// What to print when a build request was answered.
pub fn report_build(status: HttpStatus, reply_headers: &reqwest::header::HeaderMap) -> (r: Result<Line, BuildRefused>)
    ensures
        match r {
            Ok(line) => http::successful(status@) && line@ == output::said(
                queued_line(headers::header_of(headers::header_map(*reply_headers), "Location"@)),
            ),
            Err(e) => !http::successful(status@) && e.status == status,
        },
{
    if !status.is_success() {
        return Err(BuildRefused { status });
    }
    Ok(show_queued(headers::header(reply_headers, "Location")))
}

impl BadParam {
    pub open spec fn words(self) -> Seq<char> {
        "invalid parameter '"@ + self.param@ + "': expected KEY=VALUE format"@
    }

    /// The error in words.
    pub fn message(&self) -> (r: String)
        ensures
            r@ == self.words(),
    {
        text::cat3("invalid parameter '", self.param.as_str(), "': expected KEY=VALUE format")
    }
}

impl BuildRefused {
    pub open spec fn words(self) -> Seq<char> {
        "Jenkins returned HTTP "@ + http::status_text(self.status@)
            + " — check the job name and your permissions"@
    }

    /// The error in words.
    pub fn message(&self) -> (r: String)
        ensures
            r@ == self.words(),
    {
        text::cat3(
            "Jenkins returned HTTP ",
            self.status.text().as_str(),
            " — check the job name and your permissions",
        )
    }
}

// ---------------------------------------------------------------------------
// Laws
// ---------------------------------------------------------------------------

/// Each value is cut off at the first `=` of its parameter, so that a value may hold more, and
/// the pairs come in the order of the parameters.
pub proof fn law_value_may_hold_equals_signs(raw: Seq<Seq<char>>, key: Seq<char>, value: Seq<char>)
    requires
        !key.contains('='),
    ensures
        params_of(raw.push(key + seq!['='] + value)) == match params_of(raw) {
            Ok(pairs) => Ok::<Seq<(Seq<char>, Seq<char>)>, Seq<char>>(pairs.push((key, value))),
            Err(param) => Err(param),
        },
{
    let param = key + seq!['='] + value;
    assert(raw.push(param).drop_last() =~= raw);
    assert forall|i: int| 0 <= i < key.len() implies param[i] != '=' by {
        assert(key.contains(key[i]));
    }
    text::lemma_position_is(param, '=', key.len());
    assert(param.take(key.len() as int) =~= key);
    assert(param.skip(key.len() as int + 1) =~= value);
}

/// The parameter that is complained of is the first one without an `=`.
pub proof fn law_first_bad_param(raw: Seq<Seq<char>>, n: int)
    requires
        0 <= n < raw.len(),
        forall|i: int| 0 <= i < n ==> (#[trigger] raw[i]).contains('='),
        !raw[n].contains('='),
    ensures
        params_of(raw) == Err::<Seq<(Seq<char>, Seq<char>)>, Seq<char>>(raw[n]),
{
    let head = raw.take(n);
    law_params(head);
    assert(params_of(head) is Ok) by {
        assert forall|i: int| 0 <= i < head.len() implies (#[trigger] head[i]).contains('=') by {
            assert(raw[i].contains('='));
        }
    }
    assert(raw.take(n + 1).drop_last() =~= head);
    text::law_cut(raw[n], '=');
    lemma_first_bad_param(raw, n + 1);
}

/// A build with parameters is asked for at an endpoint of its own, below the same job.
pub proof fn law_build_path(job: Seq<char>)
    ensures
        build_path(job, false) == "job/"@ + client::job_url(job) + "/build"@,
        build_path(job, true) == build_path(job, false) + "WithParameters"@,
{
    reveal_strlit("/build");
    reveal_strlit("WithParameters");
    reveal_strlit("/buildWithParameters");
    assert("/buildWithParameters"@ =~= "/build"@ + "WithParameters"@);
    assert(build_path(job, true) =~= build_path(job, false) + "WithParameters"@);
}

/// The line for a build that was queued ends in its address, and those for an address that
/// cannot be read and for none are different from it and from each other.
pub proof fn law_queued_line(url: Seq<char>)
    ensures
        url.is_suffix_of(queued_line(headers::HeaderModel::Value(url))),
        queued_line(headers::HeaderModel::Unreadable) != queued_line(headers::HeaderModel::Absent),
        queued_line(headers::HeaderModel::Value(url)) != queued_line(headers::HeaderModel::Absent),
        url != "(unreadable URL)"@ ==> queued_line(headers::HeaderModel::Value(url)) != queued_line(
            headers::HeaderModel::Unreadable,
        ),
{
    reveal_strlit("Queued: ");
    reveal_strlit("Queued: (unreadable URL)");
    reveal_strlit("(unreadable URL)");
    reveal_strlit("Build triggered (no Location header returned).");
    text::lemma_suffix("Queued: "@, url);
    let line = queued_line(headers::HeaderModel::Value(url));
    assert(line[0] == 'Q');
    assert("Queued: (unreadable URL)"@[0] == 'Q');
    assert("Build triggered (no Location header returned)."@[0] == 'B');
    assert(line.skip(8) =~= url);
    assert("Queued: (unreadable URL)"@.skip(8) =~= "(unreadable URL)"@);
}

/// The error for a bad parameter quotes it, and that for a refused build gives the status.
pub proof fn law_build_errors_name_their_cause(bad: BadParam, refused: BuildRefused)
    ensures
        text::occurs(bad.words(), "'"@ + bad.param@ + "'"@),
        text::occurs(refused.words(), http::status_text(refused.status@)),
{
    reveal_strlit("'");
    reveal_strlit("invalid parameter '");
    reveal_strlit("': expected KEY=VALUE format");
    let quoted = "'"@ + bad.param@ + "'"@;
    assert(bad.words().subrange(18int, 18int + quoted.len()) =~= quoted);
    let shown = http::status_text(refused.status@);
    let at = "Jenkins returned HTTP "@.len() as int;
    assert(refused.words().subrange(at, at + shown.len()) =~= shown);
}

} // verus!
