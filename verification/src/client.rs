//! The client of a Jenkins server: where requests go, how they are authenticated, and the
//! CSRF crumb that every `POST` carries.

use vstd::prelude::*;
use crate::http;
use crate::http::{Auth, Body, HttpStatus, Method, Request};
use crate::text;

verus! {

/// The answer of the crumb issuer.
#[derive(Debug)]
pub struct CrumbResponse {
    pub crumb: String,
    /// The name of the header that the crumb is sent in.
    pub crumb_request_field: String,
}

/// Why there is no crumb.
#[derive(Debug)]
pub enum CrumbError {
    /// The crumb issuer did not answer with success.
    Refused(HttpStatus),
    /// The answer could not be read; the words say why.
    Unreadable(String),
}

/// What it takes to send a `POST`.
#[derive(Debug)]
pub enum PostStep {
    /// The request, with the crumb attached. A body can be added before it is sent.
    Ready(Request),
    /// There is no crumb yet: this request fetches one.
    NeedsCrumb(Request),
}

/// A client of one server.
#[derive(Debug)]
pub struct JenkinsClient {
    pub base_url: String,
    username: String,
    token: String,
    /// When set, sent as the `Cookie` header in place of basic authentication.
    cookie: Option<String>,
    /// The name and the value of the crumb header, once it was fetched.
    crumb_cache: Option<(String, String)>,
}

/// What a [`JenkinsClient`] stands for.
pub struct ClientModel {
    pub base_url: Seq<char>,
    pub auth: http::AuthModel,
    pub crumb: Option<(Seq<char>, Seq<char>)>,
}

/// What a [`PostStep`] stands for.
pub enum PostModel {
    Ready(http::RequestModel),
    NeedsCrumb(http::RequestModel),
}

impl View for JenkinsClient {
    type V = ClientModel;

    closed spec fn view(&self) -> ClientModel {
        ClientModel {
            base_url: self.base_url@,
            auth: match self.cookie {
                Some(c) => http::AuthModel::Cookie(c@),
                None => http::AuthModel::Basic(self.username@, self.token@),
            },
            crumb: match self.crumb_cache {
                Some(p) => Some((p.0@, p.1@)),
                None => None,
            },
        }
    }
}

impl View for PostStep {
    type V = PostModel;

    open spec fn view(&self) -> PostModel {
        match *self {
            PostStep::Ready(r) => PostModel::Ready(r@),
            PostStep::NeedsCrumb(r) => PostModel::NeedsCrumb(r@),
        }
    }
}

/// The path, relative to the server, of the crumb issuer.
pub const CRUMB_PATH: &'static str = "crumbIssuer/api/json";

/// The address of a path on a server: one slash between the two.
pub open spec fn url_of(base_url: Seq<char>, path: Seq<char>) -> Seq<char> {
    base_url + "/"@ + text::without_leading(path, '/')
}

/// The request that a client makes to read a path.
pub open spec fn get_request(client: ClientModel, path: Seq<char>) -> http::RequestModel {
    http::RequestModel {
        method: Method::Get,
        url: url_of(client.base_url, path),
        auth: client.auth,
        headers: Seq::empty(),
        body: http::BodyModel::Empty,
    }
}

/// The request that a client makes to post to a path, with its crumb in the headers.
pub open spec fn post_request(client: ClientModel, path: Seq<char>, crumb: (Seq<char>, Seq<char>)) -> http::RequestModel {
    http::RequestModel {
        method: Method::Post,
        url: url_of(client.base_url, path),
        auth: client.auth,
        headers: seq![crumb],
        body: http::BodyModel::Empty,
    }
}

/// What it takes a client to post to a path.
pub open spec fn post_step(client: ClientModel, path: Seq<char>) -> PostModel {
    match client.crumb {
        Some(crumb) => PostModel::Ready(post_request(client, path, crumb)),
        None => PostModel::NeedsCrumb(get_request(client, CRUMB_PATH@)),
    }
}

/// The client once it holds a crumb.
pub open spec fn with_crumb(client: ClientModel, field: Seq<char>, crumb: Seq<char>) -> ClientModel {
    ClientModel { crumb: Some((field, crumb)), ..client }
}

/// How often a client fetches a crumb while it posts to `paths`, one after the other, where
/// the crumb issuer answers with `crumb` in the header `field`.
pub open spec fn crumb_fetches(client: ClientModel, paths: Seq<Seq<char>>, field: Seq<char>, crumb: Seq<char>) -> nat
    decreases paths.len(),
{
    if paths.len() == 0 {
        0
    } else {
        match post_step(client, paths[0]) {
            PostModel::Ready(_) => crumb_fetches(client, paths.skip(1), field, crumb),
            PostModel::NeedsCrumb(_) => 1 + crumb_fetches(
                with_crumb(client, field, crumb),
                paths.skip(1),
                field,
                crumb,
            ),
        }
    }
}

/// However many requests a client posts, it fetches a crumb once, before the first.
pub proof fn law_crumb_is_fetched_once(
    client: ClientModel,
    paths: Seq<Seq<char>>,
    field: Seq<char>,
    crumb: Seq<char>,
)
    ensures
        crumb_fetches(client, paths, field, crumb) == if client.crumb is None && paths.len() > 0 {
            1nat
        } else {
            0nat
        },
    decreases paths.len(),
{
    if paths.len() > 0 {
        law_crumb_is_fetched_once(client, paths.skip(1), field, crumb);
        law_crumb_is_fetched_once(with_crumb(client, field, crumb), paths.skip(1), field, crumb);
    }
}

/// A crumb that was accepted goes with every request that is posted from then on, under the
/// header that it came with.
pub proof fn law_crumb_goes_with_every_post(client: ClientModel, path: Seq<char>, field: Seq<char>, crumb: Seq<char>)
    ensures
        post_step(with_crumb(client, field, crumb), path) matches PostModel::Ready(request) && request.headers
            == seq![(field, crumb)] && request.url == url_of(client.base_url, path),
{
}

impl JenkinsClient {
    /// A client that authenticates with a user name and a token. Slashes at the end of
    /// `base_url` are dropped.
    pub fn new(base_url: &str, username: &str, token: &str) -> (r: JenkinsClient)
        ensures
            r@ == (ClientModel {
                base_url: text::without_trailing(base_url@, '/'),
                auth: http::AuthModel::Basic(username@, token@),
                crumb: None,
            }),
    {
        JenkinsClient {
            base_url: text::trim_end_char(base_url, '/'),
            username: username.to_owned(),
            token: token.to_owned(),
            cookie: None,
            crumb_cache: None,
        }
    }

    /// A client that authenticates with a session cookie.
    pub fn new_with_cookie(base_url: &str, cookie: &str) -> (r: JenkinsClient)
        ensures
            r@ == (ClientModel {
                base_url: text::without_trailing(base_url@, '/'),
                auth: http::AuthModel::Cookie(cookie@),
                crumb: None,
            }),
    {
        JenkinsClient {
            base_url: text::trim_end_char(base_url, '/'),
            username: String::new(),
            token: String::new(),
            cookie: Some(cookie.to_owned()),
            crumb_cache: None,
        }
    }

    /// How requests are authenticated: a cookie takes precedence over a user name.
    pub fn auth(&self) -> (r: Auth)
        ensures
            r@ == self@.auth,
    {
        match &self.cookie {
            Some(cookie) => Auth::Cookie(cookie.clone()),
            None => Auth::Basic(self.username.clone(), self.token.clone()),
        }
    }

    /// The address of a path on the server.
    pub fn url(&self, path: &str) -> (r: String)
        ensures
            r@ == url_of(self@.base_url, path@),
    {
        text::cat3(self.base_url.as_str(), "/", text::trim_start_char(path, '/').as_str())
    }

    /// The authenticated request that reads a path.
    pub fn get(&self, path: &str) -> (r: Request)
        ensures
            r@ == get_request(self@, path@),
    {
        let headers: Vec<(String, String)> = Vec::new();
        proof {
            assert(text::pair_views(headers@) =~= Seq::empty());
        }
        Request { method: Method::Get, url: self.url(path), auth: self.auth(), headers, body: Body::Empty }
    }

    /// The authenticated request that posts to a path, with the crumb attached; where there
    /// is no crumb yet, the request that fetches it.
    pub fn post(&self, path: &str) -> (r: PostStep)
        ensures
            r@ == post_step(self@, path@),
    {
        match &self.crumb_cache {
            Some(crumb) => {
                let mut headers: Vec<(String, String)> = Vec::new();
                headers.push((crumb.0.clone(), crumb.1.clone()));
                proof {
                    assert(text::pair_views(headers@) =~= seq![self@.crumb->0]);
                }
                PostStep::Ready(
                    Request { method: Method::Post, url: self.url(path), auth: self.auth(), headers, body: Body::Empty },
                )
            },
            None => PostStep::NeedsCrumb(self.get(CRUMB_PATH)),
        }
    }

    /// Takes the answer of the crumb issuer. On success the crumb is kept for as long as the
    /// client lives; otherwise the client stays as it was.
    pub fn accept_crumb(&mut self, status: HttpStatus, answer: Result<CrumbResponse, String>) -> (r: Result<(), CrumbError>)
        ensures
            match r {
                Ok(_) => {
                    &&& http::successful(status@)
                    &&& answer matches Ok(data) && final(self)@ == with_crumb(
                        old(self)@,
                        data.crumb_request_field@,
                        data.crumb@,
                    )
                },
                Err(CrumbError::Refused(s)) => !http::successful(status@) && s == status && final(self)@ == old(self)@,
                Err(CrumbError::Unreadable(words)) => {
                    &&& http::successful(status@)
                    &&& answer matches Err(e) && words@ == e@ && final(self)@ == old(self)@
                },
            },
            final(self)@.base_url == old(self)@.base_url && final(self)@.auth == old(self)@.auth,
            r is Ok <==> 200 <= status@ < 300 && answer is Ok,
            r is Ok ==> final(self)@.crumb is Some,
    {
        if !status.is_success() {
            return Err(CrumbError::Refused(status));
        }
        match answer {
            Ok(data) => {
                self.crumb_cache = Some((data.crumb_request_field, data.crumb));
                Ok(())
            },
            Err(words) => Err(CrumbError::Unreadable(words)),
        }
    }
}

impl CrumbError {
    pub open spec fn words(self) -> Seq<char> {
        match self {
            CrumbError::Refused(status) => "crumbIssuer returned HTTP "@ + http::status_text(status@)
                + " — CSRF may be disabled on this server"@,
            CrumbError::Unreadable(words) => "deserialising CSRF crumb response: "@ + words@,
        }
    }

    /// The error in words.
    pub fn message(&self) -> (r: String)
        ensures
            r@ == self.words(),
    {
        match self {
            CrumbError::Refused(status) => text::cat3(
                "crumbIssuer returned HTTP ",
                status.text().as_str(),
                " — CSRF may be disabled on this server",
            ),
            CrumbError::Unreadable(words) => text::cat2("deserialising CSRF crumb response: ", words.as_str()),
        }
    }
}

// ---------------------------------------------------------------------------
// Job paths
// ---------------------------------------------------------------------------

/// A character of a job path in an address: a slash goes down into a folder's jobs, and a
/// space is escaped.
pub open spec fn job_url_char(c: char) -> Seq<char> {
    if c == '/' {
        "/job/"@
    } else if c == ' ' {
        "%20"@
    } else {
        seq![c]
    }
}

/// A job path in the nested form that addresses have it in.
pub open spec fn job_url(job: Seq<char>) -> Seq<char>
    decreases job.len(),
{
    if job.len() == 0 {
        Seq::empty()
    } else {
        job_url(job.drop_last()) + job_url_char(job.last())
    }
}

/// The nested form of a job path: `folder/subfolder/name` is `folder/job/subfolder/job/name`.
pub fn encode_job_path(job: &str) -> (r: String)
    ensures
        r@ == job_url(job@),
{
    let v = text::to_chars(job);
    let mut out = String::new();
    let mut i: usize = 0;
    while i < v.len()
        invariant
            i <= v@.len(),
            out@ == job_url(v@.take(i as int)),
        decreases v@.len() - i,
    {
        let ghost before = out@;
        if v[i] == '/' {
            out.append("/job/");
        } else if v[i] == ' ' {
            out.append("%20");
        } else {
            out.push(v[i]);
            proof {
                assert(out@ =~= before + seq![v@[i as int]]);
            }
        }
        proof {
            assert(v@.take(i + 1).drop_last() =~= v@.take(i as int));
        }
        i = i + 1;
    }
    proof {
        assert(v@.take(i as int) =~= v@);
    }
    out
}

/// The path, relative to the server, of something that belongs to a job.
pub open spec fn job_address(job: Seq<char>, rest: Seq<char>) -> Seq<char> {
    "job/"@ + job_url(job) + rest
}

/// The path, relative to the server, of something that belongs to a job.
pub fn job_path(job: &str, rest: &str) -> (r: String)
    ensures
        r@ == job_address(job@, rest@),
{
    text::cat3("job/", encode_job_path(job).as_str(), rest)
}

/// The nested form of two paths written one after the other.
proof fn lemma_job_url_concat(a: Seq<char>, b: Seq<char>)
    ensures
        job_url(a + b) == job_url(a) + job_url(b),
    decreases b.len(),
{
    if b.len() == 0 {
        assert(a + b =~= a);
        assert(job_url(a) + job_url(b) =~= job_url(a));
    } else {
        lemma_job_url_concat(a, b.drop_last());
        assert((a + b).drop_last() =~= a + b.drop_last());
        assert((a + b).last() == b.last());
        assert(job_url(a) + (job_url(b.drop_last()) + job_url_char(b.last())) =~= (job_url(a) + job_url(
            b.drop_last(),
        )) + job_url_char(b.last()));
    }
}

/// A job in a folder has the folder's nested form, `/job/` and its own.
pub proof fn law_job_url_of_nested_job(folder: Seq<char>, job: Seq<char>)
    ensures
        job_url(folder + "/"@ + job) == job_url(folder) + "/job/"@ + job_url(job),
{
    reveal_strlit("/");
    lemma_job_url_concat(folder + "/"@, job);
    lemma_job_url_concat(folder, "/"@);
    assert("/"@ =~= seq!['/']);
    assert("/"@.drop_last() =~= Seq::<char>::empty());
    assert(job_url("/"@.drop_last()) =~= Seq::<char>::empty());
    assert(job_url("/"@) =~= "/job/"@);
}

/// A job path without slashes and spaces is its own nested form.
pub proof fn law_job_url_of_plain_job(job: Seq<char>)
    requires
        !job.contains('/'),
        !job.contains(' '),
    ensures
        job_url(job) == job,
    decreases job.len(),
{
    if job.len() > 0 {
        let rest = job.drop_last();
        assert forall|c: char| rest.contains(c) implies job.contains(c) by {
            let i = choose|i: int| 0 <= i < rest.len() && rest[i] == c;
            assert(job[i] == c);
        }
        law_job_url_of_plain_job(rest);
        assert(job.contains(job.last()));
        assert(rest + seq![job.last()] =~= job);
    } else {
        assert(job =~= Seq::<char>::empty());
    }
}

/// A segment of a job path has no slash in its nested form.
proof fn lemma_segment_has_no_slash(segment: Seq<char>)
    requires
        !segment.contains('/'),
    ensures
        !job_url(segment).contains('/'),
    decreases segment.len(),
{
    if segment.len() > 0 {
        let rest = segment.drop_last();
        assert forall|c: char| rest.contains(c) implies segment.contains(c) by {
            let i = choose|i: int| 0 <= i < rest.len() && rest[i] == c;
            assert(segment[i] == c);
        }
        lemma_segment_has_no_slash(rest);
        assert(segment.contains(segment.last()));
        reveal_strlit("%20");
        let a = job_url(rest);
        let b = job_url_char(segment.last());
        assert forall|i: int| 0 <= i < (a + b).len() implies #[trigger] (a + b)[i] != '/' by {
            if i < a.len() {
                assert(a.contains(a[i]));
            }
        }
    }
}

/// A nested form holds no space.
proof fn lemma_url_has_no_space(job: Seq<char>)
    ensures
        !job_url(job).contains(' '),
    decreases job.len(),
{
    if job.len() > 0 {
        lemma_url_has_no_space(job.drop_last());
        reveal_strlit("%20");
        reveal_strlit("/job/");
        let a = job_url(job.drop_last());
        let b = job_url_char(job.last());
        assert forall|i: int| 0 <= i < (a + b).len() implies #[trigger] (a + b)[i] != ' ' by {
            if i < a.len() {
                assert(a.contains(a[i]));
            }
        }
    }
}

/// The parts of the nested form of a path with a slash: the first segment, `job`, and the parts
/// for what follows the slash.
proof fn lemma_url_parts(head: Seq<char>, tail: Seq<char>)
    requires
        !head.contains('/'),
    ensures
        text::pieces(job_url(head + "/"@ + tail), '/') == seq![job_url(head), "job"@] + text::pieces(job_url(tail), '/'),
{
    law_job_url_of_nested_job(head, tail);
    lemma_segment_has_no_slash(head);
    reveal_strlit("/job/");
    reveal_strlit("job");
    let first = job_url(head);
    let last = job_url(tail);
    let url = first + "/job/"@ + last;
    let n = first.len();
    assert forall|i: int| 0 <= i < n implies url[i] != '/' by {
        assert(first.contains(first[i]));
    }
    assert(url[n as int] == '/');
    text::lemma_position_is(url, '/', n);
    let rest = url.skip(n as int + 1);
    assert(url.take(n as int) =~= first);
    assert(rest =~= "job/"@ + last) by {
        reveal_strlit("job/");
    }
    assert(rest[3] == '/');
    text::lemma_position_is(rest, '/', 3);
    assert(rest.take(3) =~= "job"@);
    assert(rest.skip(4) =~= last);
    assert(text::pieces(rest, '/') =~= seq!["job"@] + text::pieces(last, '/'));
    assert(text::pieces(url, '/') =~= seq![first, "job"@] + text::pieces(last, '/'));
}

/// In the nested form of a job path every second part between the slashes is `job`, from the
/// second one on and but for the last; and there is no space.
pub proof fn law_job_url_alternates(job: Seq<char>)
    ensures
        text::pieces(job_url(job), '/').len() % 2 == 1,
        forall|k: int|
            0 <= k < text::pieces(job_url(job), '/').len() && k % 2 == 1 ==> #[trigger] text::pieces(
                job_url(job),
                '/',
            )[k] == "job"@,
        !job_url(job).contains(' '),
    decreases job.len(),
{
    lemma_url_has_no_space(job);
    text::lemma_position(job, '/');
    let n = text::position(job, '/') as int;
    if n < job.len() {
        let head = job.take(n);
        let tail = job.skip(n + 1);
        reveal_strlit("/");
        assert(head + "/"@ + tail =~= job);
        lemma_url_parts(head, tail);
        law_job_url_alternates(tail);
        let parts = text::pieces(job_url(job), '/');
        let later = text::pieces(job_url(tail), '/');
        assert forall|k: int| 0 <= k < parts.len() && k % 2 == 1 implies #[trigger] parts[k] == "job"@ by {
            if k >= 2 {
                assert(parts[k] == later[k - 2]);
            }
        }
    } else {
        lemma_segment_has_no_slash(job);
        let url = job_url(job);
        assert forall|i: int| 0 <= i < url.len() implies url[i] != '/' by {
            assert(url.contains(url[i]));
        }
        text::lemma_position_is(url, '/', url.len());
    }
}

/// A text with every `%20` turned back into a space, from left to right.
pub open spec fn unescaped(s: Seq<char>) -> Seq<char>
    decreases s.len(),
{
    if s.len() == 0 {
        Seq::empty()
    } else if s.len() >= 3 && s[0] == '%' && s[1] == '2' && s[2] == '0' {
        seq![' '] + unescaped(s.skip(3))
    } else {
        seq![s[0]] + unescaped(s.skip(1))
    }
}

/// The segments that an address in nested form stands for: its parts at even places, unescaped.
pub open spec fn url_segments(url: Seq<char>) -> Seq<Seq<char>> {
    let parts = text::pieces(url, '/');
    Seq::new(((parts.len() + 1) / 2) as nat, |k: int| unescaped(parts[2 * k]))
}

/// The nested form starts with that of the first character.
proof fn lemma_job_url_front(job: Seq<char>)
    requires
        job.len() > 0,
    ensures
        job_url(job) == job_url_char(job[0]) + job_url(job.skip(1)),
{
    let first = seq![job[0]];
    assert(first + job.skip(1) =~= job);
    lemma_job_url_concat(first, job.skip(1));
    assert(first.drop_last() =~= Seq::<char>::empty());
    assert(job_url(first.drop_last()) =~= Seq::<char>::empty());
    assert(job_url(first) =~= job_url_char(job[0]));
}

/// A nested form starts with a character other than `%` and the slash only if its path does.
proof fn lemma_url_start(job: Seq<char>, c: char)
    requires
        job_url(job).len() > 0,
        job_url(job)[0] == c,
        c != '%',
        c != '/',
    ensures
        job.len() > 0,
        job[0] == c,
        job_url(job) == seq![c] + job_url(job.skip(1)),
{
    reveal_strlit("%20");
    reveal_strlit("/job/");
    if job.len() > 0 {
        lemma_job_url_front(job);
        assert(job_url(job)[0] == job_url_char(job[0])[0]);
    }
}

proof fn lemma_segment_decodes(segment: Seq<char>)
    requires
        !segment.contains('/'),
        !text::occurs(segment, "%20"@),
    ensures
        unescaped(job_url(segment)) == segment,
    decreases segment.len(),
{
    reveal_strlit("%20");
    if segment.len() > 0 {
        let url = job_url(segment);
        let first = segment[0];
        let rest = segment.skip(1);
        assert(segment.contains(first));
        assert(seq![first] + rest =~= segment);
        assert(!rest.contains('/')) by {
            if rest.contains('/') {
                let i = choose|i: int| 0 <= i < rest.len() && rest[i] == '/';
                assert(segment[i + 1] == '/');
            }
        }
        lemma_no_escape_below(segment, 1);
        lemma_segment_decodes(rest);
        lemma_job_url_front(segment);
        if first == ' ' {
            assert(url.skip(3) =~= job_url(rest));
        } else {
            assert(url =~= seq![first] + job_url(rest));
            assert(url.skip(1) =~= job_url(rest));
            if url.len() >= 3 && url[0] == '%' && url[1] == '2' && url[2] == '0' {
                assert(job_url(rest)[0] == '2');
                lemma_url_start(rest, '2');
                assert(job_url(rest.skip(1))[0] == job_url(rest)[1]);
                lemma_url_start(rest.skip(1), '0');
                assert(segment.subrange(0int, 0int + "%20"@.len()) =~= "%20"@);
            }
        }
    } else {
        assert(segment =~= Seq::<char>::empty());
        assert(job_url(segment) =~= Seq::<char>::empty());
    }
}

/// What `%20` does not occur in, it does not occur in the rest of.
proof fn lemma_no_escape_below(s: Seq<char>, n: int)
    requires
        0 <= n <= s.len(),
        !text::occurs(s, "%20"@),
    ensures
        !text::occurs(s.skip(n), "%20"@),
        !text::occurs(s.take(n), "%20"@),
{
    reveal_strlit("%20");
    if text::occurs(s.skip(n), "%20"@) {
        let i = choose|i: int| 0 <= i <= s.skip(n).len() - 3 && #[trigger] s.skip(n).subrange(i, i + 3) == "%20"@;
        assert(s.subrange(i + n, i + n + 3) =~= "%20"@);
    }
    if text::occurs(s.take(n), "%20"@) {
        let i = choose|i: int| 0 <= i <= s.take(n).len() - 3 && #[trigger] s.take(n).subrange(i, i + 3) == "%20"@;
        assert(s.subrange(i, i + 3) =~= "%20"@);
    }
}

/// The nested form of a job path without `%20` can be read back: it stands for the segments of
/// the path, which joined by slashes are the path.
pub proof fn law_job_url_decodes(job: Seq<char>)
    requires
        !text::occurs(job, "%20"@),
    ensures
        url_segments(job_url(job)) == text::pieces(job, '/'),
        text::joined(url_segments(job_url(job)), "/"@) == job,
    decreases job.len(),
{
    reveal_strlit("/");
    text::law_join_of_split(job, '/');
    assert("/"@ =~= seq!['/']);
    text::lemma_position(job, '/');
    let n = text::position(job, '/') as int;
    let parts = text::pieces(job_url(job), '/');
    if n < job.len() {
        let head = job.take(n);
        let tail = job.skip(n + 1);
        assert(head + "/"@ + tail =~= job);
        lemma_no_escape_below(job, n);
        lemma_no_escape_below(job, n + 1);
        lemma_url_parts(head, tail);
        lemma_segment_decodes(head);
        law_job_url_decodes(tail);
        let later = text::pieces(job_url(tail), '/');
        assert(parts.len() == later.len() + 2);
        assert forall|k: int| 0 <= k < url_segments(job_url(job)).len() implies #[trigger] url_segments(job_url(job))[k]
            == (seq![head] + url_segments(job_url(tail)))[k] by {
            if k > 0 {
                assert(parts[2 * k] == later[2 * (k - 1)]);
            }
        }
        assert(url_segments(job_url(job)) =~= seq![head] + url_segments(job_url(tail)));
    } else {
        lemma_segment_has_no_slash(job);
        let url = job_url(job);
        assert forall|i: int| 0 <= i < url.len() implies url[i] != '/' by {
            assert(url.contains(url[i]));
        }
        text::lemma_position_is(url, '/', url.len());
        lemma_segment_decodes(job);
        assert(url_segments(url) =~= seq![job]);
    }
}

/// Two job paths without `%20` have the same addresses only if they are the same.
pub proof fn law_job_addresses_are_distinct(a: Seq<char>, b: Seq<char>, rest: Seq<char>)
    requires
        !text::occurs(a, "%20"@),
        !text::occurs(b, "%20"@),
        a != b,
    ensures
        job_url(a) != job_url(b),
        job_address(a, rest) != job_address(b, rest),
{
    law_job_url_decodes(a);
    law_job_url_decodes(b);
    if job_address(a, rest) == job_address(b, rest) {
        let whole = job_address(a, rest);
        let from = "job/"@.len() as int;
        let to = whole.len() - rest.len();
        assert(whole.subrange(from, to) =~= job_url(a));
        assert(whole.subrange(from, to) =~= job_url(b));
    }
}

// ---------------------------------------------------------------------------
// Laws
// ---------------------------------------------------------------------------

/// The address of a path begins with that of the server and goes on with one slash, however many
/// the path begins with: slashes in front of a path make no difference, and behind the server's
/// address there is one and then none.
pub proof fn law_url_has_one_slash(base_url: Seq<char>, path: Seq<char>)
    ensures
        base_url.is_prefix_of(url_of(base_url, path)),
        url_of(base_url, path)[base_url.len() as int] == '/',
        url_of(base_url, path).len() > base_url.len() + 1 ==> url_of(base_url, path)[base_url.len() as int + 1] != '/',
        url_of(base_url, seq!['/'] + path) == url_of(base_url, path),
        path.len() > 0 && path[0] != '/' ==> path.is_suffix_of(url_of(base_url, path)) && url_of(base_url, path).len()
            == base_url.len() + 1 + path.len(),
{
    reveal_strlit("/");
    let rest = text::without_leading(path, '/');
    let url = url_of(base_url, path);
    text::law_without_leading(path, '/');
    assert(url.subrange(0, base_url.len() as int) =~= base_url);
    assert((seq!['/'] + path).skip(1) =~= path);
    if url.len() > base_url.len() + 1 {
        assert(url[base_url.len() as int + 1] == rest[0]);
    }
    text::lemma_suffix(base_url + "/"@, rest);
}

/// What a client reads, it reads with its own credentials and with nothing else: no crumb and no
/// body.
pub proof fn law_get(client: ClientModel, path: Seq<char>)
    ensures
        ({
            let request = get_request(client, path);
            &&& request.method == Method::Get
            &&& request.url == url_of(client.base_url, path)
            &&& request.auth == client.auth
            &&& request.headers.len() == 0
            &&& request.body is Empty
        }),
{
}

/// A request is posted to the path that is meant, with the client's own credentials, once there
/// is a crumb. Until then the crumb issuer is asked, by reading, with the same credentials, and
/// nothing is posted.
pub proof fn law_post(client: ClientModel, path: Seq<char>)
    ensures
        client.crumb is Some <==> post_step(client, path) is Ready,
        post_step(client, path) matches PostModel::Ready(request) ==> {
            &&& request.method == Method::Post
            &&& request.url == url_of(client.base_url, path)
            &&& request.auth == client.auth
            &&& request.headers.len() == 1
            &&& request.body is Empty
        },
        post_step(client, path) matches PostModel::NeedsCrumb(request) ==> {
            &&& request.method == Method::Get
            &&& request.url == client.base_url + "/crumbIssuer/api/json"@
            &&& request.auth == client.auth
            &&& request.body is Empty
        },
{
    reveal_strlit("/");
    reveal_strlit("crumbIssuer/api/json");
    reveal_strlit("/crumbIssuer/api/json");
    assert(CRUMB_PATH@ =~= "crumbIssuer/api/json"@);
    assert(text::without_leading(CRUMB_PATH@, '/') == CRUMB_PATH@);
    assert(url_of(client.base_url, CRUMB_PATH@) =~= client.base_url + "/crumbIssuer/api/json"@);
}

/// A crumb changes neither the server nor the credentials of a client, and a new one takes the
/// place of the old.
pub proof fn law_crumb_is_kept(
    client: ClientModel,
    field: Seq<char>,
    crumb: Seq<char>,
    other_field: Seq<char>,
    other: Seq<char>,
)
    ensures
        with_crumb(client, field, crumb).base_url == client.base_url,
        with_crumb(client, field, crumb).auth == client.auth,
        with_crumb(client, field, crumb).crumb == Some((field, crumb)),
        with_crumb(with_crumb(client, field, crumb), other_field, other) == with_crumb(client, other_field, other),
{
}

/// What belongs to a job lies below `job/` and the nested form of its path, and what follows is
/// left as it is.
pub proof fn law_job_address(job: Seq<char>, rest: Seq<char>)
    ensures
        "job/"@.is_prefix_of(job_address(job, rest)),
        rest.is_suffix_of(job_address(job, rest)),
        job_address(job, rest).subrange(4, 4int + job_url(job).len()) == job_url(job),
        job_address(job, rest).len() == 4 + job_url(job).len() + rest.len(),
{
    reveal_strlit("job/");
    let address = job_address(job, rest);
    assert(address.subrange(0, "job/"@.len() as int) =~= "job/"@);
    assert(address.subrange(4, 4int + job_url(job).len()) =~= job_url(job));
    text::lemma_suffix("job/"@ + job_url(job), rest);
}

/// A space in a job path is escaped.
pub proof fn law_job_url_escapes_spaces(before: Seq<char>, after: Seq<char>)
    ensures
        job_url(before + seq![' '] + after) == job_url(before) + "%20"@ + job_url(after),
{
    let space = seq![' '];
    lemma_job_url_concat(before + space, after);
    lemma_job_url_concat(before, space);
    assert(space.drop_last() =~= Seq::<char>::empty());
    assert(job_url(space.drop_last()) =~= Seq::<char>::empty());
    assert(job_url(space) =~= "%20"@);
}

/// The errors for a missing crumb give the status or the words.
pub proof fn law_crumb_errors_name_their_cause(status: HttpStatus, words: String)
    ensures
        text::occurs(CrumbError::Refused(status).words(), http::status_text(status@)),
        words@.is_suffix_of(CrumbError::Unreadable(words).words()),
{
    let shown = http::status_text(status@);
    let at = "crumbIssuer returned HTTP "@.len() as int;
    assert(CrumbError::Refused(status).words().subrange(at, at + shown.len()) =~= shown);
    text::lemma_suffix("deserialising CSRF crumb response: "@, words@);
}

} // verus!
