use rusty_jenkins::client::{encode_job_path, job_path, CrumbError, CrumbResponse, JenkinsClient, PostStep};
use rusty_jenkins::http::{Auth, Body, HttpStatus, Method, Request};

fn status(code: u16) -> HttpStatus {
    HttpStatus::new(code).unwrap()
}

fn crumb(value: &str) -> CrumbResponse {
    CrumbResponse { crumb: value.to_string(), crumb_request_field: "Jenkins-Crumb".to_string() }
}

fn ready(step: PostStep) -> Request {
    match step {
        PostStep::Ready(request) => request,
        PostStep::NeedsCrumb(_) => panic!("expected a request with a crumb"),
    }
}

#[test]
fn encode_job_path_plain_job_is_unchanged() {
    assert_eq!(encode_job_path("my-job"), "my-job");
}

#[test]
fn encode_job_path_single_folder() {
    assert_eq!(encode_job_path("folder/my-job"), "folder/job/my-job");
}

#[test]
fn encode_job_path_deep_nesting() {
    assert_eq!(
        encode_job_path("CONTROLLER/NAME/OF/OTHER/STUFF/jobname"),
        "CONTROLLER/job/NAME/job/OF/job/OTHER/job/STUFF/job/jobname"
    );
}

#[test]
fn encode_job_path_encodes_spaces_in_each_segment() {
    assert_eq!(encode_job_path("my folder/my job"), "my%20folder/job/my%20job");
}

#[test]
fn encode_job_path_can_be_read_back() {
    let jobs = ["my-job", "job/job", "a b/c d/%2 0/e%", "", "/", "//x ", "%%"];
    let mut paths = vec![];
    for job in jobs {
        let url = encode_job_path(job);
        let parts: Vec<&str> = url.split('/').collect();
        assert_eq!(parts.len() % 2, 1);
        assert!(parts.iter().skip(1).step_by(2).all(|part| *part == "job"));
        let segments: Vec<String> = parts.iter().step_by(2).map(|part| part.replace("%20", " ")).collect();
        assert_eq!(segments.join("/"), job);
        assert!(!url.contains(' ') && !paths.contains(&url));
        paths.push(url);
    }
    assert_eq!(encode_job_path("a b"), encode_job_path("a%20b"));
}

#[test]
fn encode_job_path_keeps_empty_segments() {
    assert_eq!(encode_job_path(""), "");
    assert_eq!(encode_job_path("/a//b/"), "/job/a/job//job/b/job/");
}

#[test]
fn nested_job_is_encoded_piece_by_piece() {
    let nested = encode_job_path("a b/c/d");
    assert_eq!(nested, format!("{}/job/{}", encode_job_path("a b/c"), encode_job_path("d")));
    assert_eq!(job_path("a/b", "/api/json"), "job/a/job/b/api/json");
}

#[test]
fn get_attaches_basic_auth_header() {
    let client = JenkinsClient::new("http://jenkins.local/", "thomas", "test-token");
    let request = client.get("/job/my-job/api/json");
    assert_eq!(request.method, Method::Get);
    assert_eq!(request.url, "http://jenkins.local/job/my-job/api/json");
    assert!(request.headers.is_empty());
    assert!(matches!(request.body, Body::Empty));
    match request.auth {
        Auth::Basic(user, token) => assert_eq!((user.as_str(), token.as_str()), ("thomas", "test-token")),
        Auth::Cookie(_) => panic!("expected basic authentication"),
    }
}

#[test]
fn cookie_takes_the_place_of_basic_auth() {
    let client = JenkinsClient::new_with_cookie("http://jenkins.local//", "JSESSIONID.a=1");
    assert_eq!(client.base_url, "http://jenkins.local");
    match client.get("x").auth {
        Auth::Cookie(cookie) => assert_eq!(cookie, "JSESSIONID.a=1"),
        Auth::Basic(_, _) => panic!("expected a cookie"),
    }
}

#[test]
fn url_has_one_slash_between_server_and_path() {
    let client = JenkinsClient::new("https://ci.example.com/controller-name///", "u", "p");
    assert_eq!(client.url("///job/a"), "https://ci.example.com/controller-name/job/a");
    assert_eq!(client.url(""), "https://ci.example.com/controller-name/");
}

#[test]
fn post_fetches_csrf_crumb_and_attaches_it() {
    let mut client = JenkinsClient::new("http://s", "thomas", "test-token");
    match client.post("/job/deploy/build") {
        PostStep::NeedsCrumb(request) => {
            assert_eq!(request.method, Method::Get);
            assert_eq!(request.url, "http://s/crumbIssuer/api/json");
        }
        PostStep::Ready(_) => panic!("expected a crumb to be fetched"),
    }
    client.accept_crumb(status(200), Ok(crumb("abc123"))).unwrap();
    let request = ready(client.post("/job/deploy/build"));
    assert_eq!(request.method, Method::Post);
    assert_eq!(request.url, "http://s/job/deploy/build");
    assert_eq!(request.headers, vec![("Jenkins-Crumb".to_string(), "abc123".to_string())]);
}

#[test]
fn crumb_is_fetched_only_once_across_multiple_posts() {
    let mut client = JenkinsClient::new("http://s", "u", "p");
    let mut fetched = 0;
    for path in ["/job/a/build", "/job/b/build", "/job/c/build"] {
        if let PostStep::NeedsCrumb(_) = client.post(path) {
            fetched += 1;
            client.accept_crumb(status(200), Ok(crumb("cached-value"))).unwrap();
        }
        let request = ready(client.post(path));
        assert_eq!(request.headers[0].1, "cached-value");
    }
    assert_eq!(fetched, 1);
}

#[test]
fn post_returns_error_when_crumb_endpoint_fails() {
    let mut client = JenkinsClient::new("http://s", "u", "p");
    let e = client.accept_crumb(status(404), Err("no body".to_string())).unwrap_err();
    assert!(matches!(e, CrumbError::Refused(_)));
    assert_eq!(
        e.message(),
        "crumbIssuer returned HTTP 404 Not Found — CSRF may be disabled on this server"
    );
    assert!(matches!(client.post("x"), PostStep::NeedsCrumb(_)));
}

#[test]
fn unreadable_crumb_is_an_error() {
    let mut client = JenkinsClient::new("http://s", "u", "p");
    let e = client.accept_crumb(status(200), Err("expected value".to_string())).unwrap_err();
    assert_eq!(e.message(), "deserialising CSRF crumb response: expected value");
    assert!(matches!(client.post("x"), PostStep::NeedsCrumb(_)));
}

#[test]
fn bodies_are_added_to_requests() {
    let mut client = JenkinsClient::new("http://s", "u", "p");
    client.accept_crumb(status(200), Ok(crumb("tok"))).unwrap();
    let form = ready(client.post("a")).form(vec![("k".to_string(), "v".to_string())]);
    match form.body {
        Body::Form(fields) => assert_eq!(fields, vec![("k".to_string(), "v".to_string())]),
        _ => panic!("expected form fields"),
    }
    let xml = ready(client.post("a")).xml("<a/>");
    assert_eq!(xml.headers[1], ("Content-Type".to_string(), "application/xml".to_string()));
    match xml.body {
        Body::Text(s) => assert_eq!(s, "<a/>"),
        _ => panic!("expected a document"),
    }
}

#[test]
fn status_codes_have_texts() {
    assert_eq!(status(404).text(), "404 Not Found");
    assert_eq!(status(200).text(), "200 OK");
    assert_eq!(status(599).text(), "599 <unknown status code>");
    assert!(status(200).is_success() && status(299).is_success());
    assert!(!status(199).is_success() && !status(300).is_success());
    assert_eq!(status(201).code(), 201);
    assert!(HttpStatus::new(99).is_none());
    assert!(HttpStatus::new(1000).is_none());
}
