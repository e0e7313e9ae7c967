//! Requests to the server and the status codes of its replies, as plain values.

use vstd::prelude::*;
use crate::text;

verus! {

/// The status code of a reply, from 100 to 999.
#[derive(Debug, Clone, Copy)]
pub struct HttpStatus {
    code: u16,
}

/// What `reqwest::StatusCode` prints for a code: the code, a space and its usual meaning.
pub uninterp spec fn status_text(code: u16) -> Seq<char>;

/// The `Display` of `reqwest::StatusCode`: it starts with the digits of the code, and depends
/// on the code alone. `from_u16` takes every code from 100 to 999.
#[verifier::external_body]
fn print_status(code: u16) -> (r: String)
    requires
        100 <= code <= 999,
    ensures
        r@ == status_text(code),
        text::decimal(code as nat).is_prefix_of(r@),
{
    reqwest::StatusCode::from_u16(code).unwrap().to_string()
}

impl View for HttpStatus {
    type V = u16;

    closed spec fn view(&self) -> u16 {
        self.code
    }
}

/// Whether a code reports success.
pub open spec fn successful(code: u16) -> bool {
    200 <= code < 300
}

impl HttpStatus {
    #[verifier::type_invariant]
    spec fn in_range(self) -> bool {
        100 <= self.code <= 999
    }

    /// The status with this code; `None` if no reply can have it.
    pub fn new(code: u16) -> (r: Option<HttpStatus>)
        ensures
            match r {
                Some(status) => 100 <= code <= 999 && status@ == code,
                None => !(100 <= code <= 999),
            },
    {
        if 100 <= code && code <= 999 {
            Some(HttpStatus { code })
        } else {
            None
        }
    }

    pub fn code(&self) -> (r: u16)
        ensures
            r == self@,
    {
        self.code
    }

    /// Whether the status reports success.
    pub fn is_success(&self) -> (r: bool)
        ensures
            r == successful(self@),
    {
        200 <= self.code && self.code < 300
    }

    /// The code and its usual meaning, as in `404 Not Found`.
    pub fn text(&self) -> (r: String)
        ensures
            r@ == status_text(self@),
            text::decimal(self@ as nat).is_prefix_of(r@),
    {
        proof {
            use_type_invariant(self);
        }
        print_status(self.code)
    }
}

#[derive(Debug, Clone, Copy, PartialEq, Eq, Structural)]
pub enum Method {
    Get,
    Post,
}

/// How a request is authenticated.
#[derive(Debug)]
pub enum Auth {
    /// The value of the `Cookie` header.
    Cookie(String),
    /// Basic authentication with a user name and a token.
    Basic(String, String),
}

/// What a request carries.
#[derive(Debug)]
pub enum Body {
    Empty,
    /// Form fields, in order.
    Form(Vec<(String, String)>),
    /// A text under the content type that a header of the request gives.
    Text(String),
}

/// A request to send.
#[derive(Debug)]
pub struct Request {
    pub method: Method,
    pub url: String,
    pub auth: Auth,
    pub headers: Vec<(String, String)>,
    pub body: Body,
}

/// What an [`Auth`] stands for.
pub enum AuthModel {
    Cookie(Seq<char>),
    Basic(Seq<char>, Seq<char>),
}

/// What a [`Body`] stands for.
pub enum BodyModel {
    Empty,
    Form(Seq<(Seq<char>, Seq<char>)>),
    Text(Seq<char>),
}

/// What a [`Request`] stands for.
pub struct RequestModel {
    pub method: Method,
    pub url: Seq<char>,
    pub auth: AuthModel,
    pub headers: Seq<(Seq<char>, Seq<char>)>,
    pub body: BodyModel,
}

impl View for Auth {
    type V = AuthModel;

    open spec fn view(&self) -> AuthModel {
        match *self {
            Auth::Cookie(c) => AuthModel::Cookie(c@),
            Auth::Basic(u, t) => AuthModel::Basic(u@, t@),
        }
    }
}

impl View for Body {
    type V = BodyModel;

    open spec fn view(&self) -> BodyModel {
        match *self {
            Body::Empty => BodyModel::Empty,
            Body::Form(fields) => BodyModel::Form(text::pair_views(fields@)),
            Body::Text(s) => BodyModel::Text(s@),
        }
    }
}

impl View for Request {
    type V = RequestModel;

    open spec fn view(&self) -> RequestModel {
        RequestModel {
            method: self.method,
            url: self.url@,
            auth: self.auth@,
            headers: text::pair_views(self.headers@),
            body: self.body@,
        }
    }
}

/// `request` with form fields as its body.
pub open spec fn with_form(request: RequestModel, fields: Seq<(Seq<char>, Seq<char>)>) -> RequestModel {
    RequestModel { body: BodyModel::Form(fields), ..request }
}

/// `request` with an XML document as its body.
pub open spec fn with_xml(request: RequestModel, xml: Seq<char>) -> RequestModel {
    RequestModel {
        headers: request.headers.push(("Content-Type"@, "application/xml"@)),
        body: BodyModel::Text(xml),
        ..request
    }
}

impl Request {
    /// The request with form fields as its body.
    pub fn form(self, fields: Vec<(String, String)>) -> (r: Request)
        ensures
            r@ == with_form(self@, text::pair_views(fields@)),
    {
        Request {
            method: self.method,
            url: self.url,
            auth: self.auth,
            headers: self.headers,
            body: Body::Form(fields),
        }
    }

    /// The request with an XML document as its body.
    pub fn xml(self, xml: &str) -> (r: Request)
        ensures
            r@ == with_xml(self@, xml@),
    {
        let mut headers = self.headers;
        let ghost before = text::pair_views(headers@);
        headers.push(("Content-Type".to_owned(), "application/xml".to_owned()));
        proof {
            assert(text::pair_views(headers@) =~= before.push(("Content-Type"@, "application/xml"@)));
        }
        Request {
            method: self.method,
            url: self.url,
            auth: self.auth,
            headers,
            body: Body::Text(xml.to_owned()),
        }
    }
}

/// A body is added to a request without a change to where it goes, how, and with what
/// credentials; form fields keep the headers, and a document adds one for its type behind them.
pub proof fn law_body_is_added(request: RequestModel, fields: Seq<(Seq<char>, Seq<char>)>, xml: Seq<char>)
    ensures
        ({
            let form = with_form(request, fields);
            let document = with_xml(request, xml);
            &&& form.method == request.method && document.method == request.method
            &&& form.url == request.url && document.url == request.url
            &&& form.auth == request.auth && document.auth == request.auth
            &&& form.headers == request.headers
            &&& form.body == BodyModel::Form(fields)
            &&& document.headers == request.headers + seq![("Content-Type"@, "application/xml"@)]
            &&& document.body == BodyModel::Text(xml)
        }),
{
    assert(with_xml(request, xml).headers =~= request.headers + seq![("Content-Type"@, "application/xml"@)]);
}

/// The codes of success are those from two hundred up to three hundred, and no others.
pub proof fn law_successful(code: u16)
    ensures
        successful(code) <==> code / 100 == 2,
{
}

} // verus!
