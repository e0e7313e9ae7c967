use reqwest::header::{HeaderMap, HeaderName, HeaderValue};
use rusty_jenkins::cli::{
    Browser, BuildArgs, Cli, Credentials, InspectArgs, ListArgs, Plan, CONFIG_SWEEP_OUTPUT_DIR, DEFAULT_CHROME_PROFILE,
    DEFAULT_TOKEN, DEFAULT_USER, LOGS_POLL_MS, POST_CONFIG_DELAY_MS, SWEEP_OUTPUT_DIR, SWEEP_POLL_MS,
};
use rusty_jenkins::commands::builds::{parse_params, plan_build, report_build, show_queued};
use rusty_jenkins::commands::config::{check_files, check_get, config_filename, find_shared_file, report_set};
use rusty_jenkins::commands::inspect::{
    check_job, color_result, format_default, inspect_path, param_value, print_job, value_of, BuildRef, DefaultValue, JobInfo, ParamDef,
    ParamValue, Property, TREE,
};
use rusty_jenkins::commands::list::{check_list, plan_list, show_folder, FolderInfo, JobEntry};
use rusty_jenkins::commands::logs::{
    check_summary, latest_build, log_refused, more_data, next_start, read_flag, read_size, stream_heading,
    summary_path, JobSummary, LastBuild, LogStep, LogStream,
};
use rusty_jenkins::headers::{header, header_value, read_header, Header};
use rusty_jenkins::http::{Auth, HttpStatus};
use rusty_jenkins::json::Json;
use rusty_jenkins::output::{Line, Style};
use std::str::FromStr;

fn status(code: u16) -> HttpStatus {
    HttpStatus::new(code).unwrap()
}

fn texts(lines: &[Line]) -> Vec<String> {
    lines.iter().map(|l| l.text()).collect()
}

fn headers_with(pairs: &[(&str, &str)]) -> HeaderMap {
    let mut map = HeaderMap::new();
    for (k, v) in pairs {
        map.insert(HeaderName::from_str(k).unwrap(), HeaderValue::from_str(v).unwrap());
    }
    map
}

// ── arguments ───────────────────────────────────────────────────────────────

fn cli() -> Cli {
    Cli {
        url: Some("http://s/".to_string()),
        user: "bob".to_string(),
        token: "secret".to_string(),
        from_firefox: false,
        from_chrome: false,
        chrome_profile: DEFAULT_CHROME_PROFILE.to_string(),
        cookie: None,
        list_cookies: false,
        command: None,
    }
}

#[test]
fn url_is_required() {
    for url in [None, Some(String::new())] {
        let e = Cli { url, ..cli() }.plan().unwrap_err();
        assert_eq!(
            e.message(),
            "Jenkins URL is required. Set the JENKINS_URL environment variable or pass --url <URL>."
        );
    }
}

#[test]
fn credentials_have_a_precedence() {
    let cookie = Some("JSESSIONID.a=1".to_string());
    for (c, chrome, firefox) in [(true, true, true), (false, true, true), (false, false, true), (false, false, false)] {
        let args = Cli { cookie: if c { cookie.clone() } else { None }, from_chrome: chrome, from_firefox: firefox, ..cli() };
        match args.plan().unwrap() {
            Plan::Run(Credentials::Cookie(v), url) => {
                assert!(c && v == "JSESSIONID.a=1" && url == "http://s/")
            }
            Plan::Run(Credentials::Session(Browser::Chrome), _) => assert!(!c && chrome),
            Plan::Run(Credentials::Session(Browser::Firefox), _) => assert!(!c && !chrome && firefox),
            Plan::Run(Credentials::Token, _) => assert!(!c && !chrome && !firefox),
            Plan::ListCookies(_, _) => panic!("expected a run"),
        }
    }
}

#[test]
fn cookies_are_listed_for_a_browser() {
    let args = Cli { list_cookies: true, from_chrome: true, cookie: Some("x".to_string()), ..cli() };
    assert!(matches!(args.plan().unwrap(), Plan::ListCookies(Browser::Chrome, _)));
    let args = Cli { list_cookies: true, ..cli() };
    assert!(matches!(args.plan().unwrap(), Plan::ListCookies(Browser::Firefox, _)));
}

#[test]
fn client_uses_the_session_where_there_is_one() {
    let client = cli().client("http://s/", None);
    assert_eq!(client.base_url, "http://s");
    assert!(matches!(client.auth(), Auth::Basic(u, t) if u == "bob" && t == "secret"));
    let client = cli().client("http://s/", Some("c=1".to_string()));
    assert!(matches!(client.auth(), Auth::Cookie(c) if c == "c=1"));
}

#[test]
fn defaults_are_those_of_the_manual() {
    assert_eq!((DEFAULT_USER, DEFAULT_TOKEN, DEFAULT_CHROME_PROFILE), ("admin", "XXXXX", "Default"));
    assert_eq!((LOGS_POLL_MS, SWEEP_POLL_MS, POST_CONFIG_DELAY_MS), (1000, 2000, 3000));
    assert_eq!((SWEEP_OUTPUT_DIR, CONFIG_SWEEP_OUTPUT_DIR), ("sweep-logs", "config-sweep-logs"));
}

// ── headers ─────────────────────────────────────────────────────────────────

#[test]
fn headers_are_found_in_any_case() {
    let mut map = headers_with(&[("X-Thing", "one")]);
    map.append("x-thing", HeaderValue::from_static("two"));
    map.insert("bad", HeaderValue::from_bytes(&[0xe9]).unwrap());
    map.insert("tab", HeaderValue::from_bytes(b"a\tb").unwrap());
    assert_eq!(header_value(&map, "x-THING").as_deref(), Some("one"));
    assert_eq!(header_value(&map, "tab").as_deref(), Some("a\tb"));
    assert_eq!(header_value(&map, "bad"), None);
    assert!(matches!(header(&map, "bad"), Header::Unreadable));
    assert!(matches!(header(&map, "missing"), Header::Absent));
    assert!(matches!(header(&map, "not a name"), Header::Absent));
    assert!(matches!(read_header(Some(b"ok".to_vec())), Header::Value(s) if s == "ok"));
    assert!(matches!(read_header(Some(vec![127])), Header::Unreadable));
    assert!(matches!(read_header(None), Header::Absent));
}

// ── build ───────────────────────────────────────────────────────────────────

#[test]
fn parse_params_splits_on_first_equals_sign() {
    let raw = vec!["ENV=staging".to_string(), "VERSION=1.2.3".to_string()];
    let pairs = parse_params(&raw).unwrap();
    assert_eq!(pairs, vec![
        ("ENV".to_string(),     "staging".to_string()),
        ("VERSION".to_string(), "1.2.3".to_string()),
    ]);
}

#[test]
fn parse_params_value_may_contain_equals_sign() {
    let raw = vec!["MSG=hello=world".to_string()];
    let pairs = parse_params(&raw).unwrap();
    assert_eq!(pairs, vec![("MSG".to_string(), "hello=world".to_string())]);
}

#[test]
fn parse_params_empty_value_is_accepted() {
    let raw = vec!["FLAG=".to_string()];
    let pairs = parse_params(&raw).unwrap();
    assert_eq!(pairs, vec![("FLAG".to_string(), String::new())]);
}

#[test]
fn parse_params_errors_when_equals_is_absent() {
    let raw = vec!["NOEQUALSSIGN".to_string()];
    let err = parse_params(&raw).unwrap_err();
    assert!(err.message().contains("KEY=VALUE"));
}

#[test]
fn parse_params_mixed_valid_and_invalid_stops_at_first_error() {
    let raw = vec!["GOOD=ok".to_string(), "BAD".to_string()];
    assert!(parse_params(&raw).is_err());
}

#[test]
fn parse_params_names_the_first_bad_parameter() {
    let raw = vec!["a=1".to_string(), "first".to_string(), "second".to_string()];
    assert_eq!(
        parse_params(&raw).unwrap_err().message(),
        "invalid parameter 'first': expected KEY=VALUE format"
    );
}

#[test]
fn plain_build_posts_to_build_endpoint() {
    let plan = plan_build(&BuildArgs { job: "team/nightly".to_string(), params: vec![] }).unwrap();
    assert_eq!(plan.path, "job/team/job/nightly/build");
    assert!(plan.fields.is_empty());
}

#[test]
fn parameterized_build_posts_to_build_with_parameters_endpoint() {
    let args = BuildArgs {
        job: "deploy".to_string(),
        params: vec!["ENV=staging".to_string(), "VERSION=1.2.3".to_string()],
    };
    let plan = plan_build(&args).unwrap();
    assert_eq!(plan.path, "job/deploy/buildWithParameters");
    assert_eq!(plan.fields.len(), 2);
    assert_eq!(plan.fields[1], ("VERSION".to_string(), "1.2.3".to_string()));
}

#[test]
fn invalid_param_format_short_circuits_before_any_http_call() {
    let args = BuildArgs { job: "deploy".to_string(), params: vec!["NOEQUALSSIGN".to_string()] };
    assert!(plan_build(&args).unwrap_err().message().contains("KEY=VALUE"));
}

#[test]
fn queued_builds_are_reported() {
    let url = "http://jenkins/queue/item/7/";
    assert_eq!(report_build(status(201), &headers_with(&[("Location", url)])).unwrap().text(), format!("Queued: {url}"));
    assert_eq!(
        report_build(status(200), &HeaderMap::new()).unwrap().text(),
        "Build triggered (no Location header returned)."
    );
    assert_eq!(show_queued(Header::Unreadable).text(), "Queued: (unreadable URL)");
    let e = report_build(status(403), &HeaderMap::new()).unwrap_err();
    assert_eq!(e.message(), "Jenkins returned HTTP 403 Forbidden — check the job name and your permissions");
}

// ── logs ────────────────────────────────────────────────────────────────────

#[test]
fn next_start_parses_x_text_size() {
    let h = headers_with(&[("X-Text-Size", "1024")]);
    assert_eq!(next_start(&h), 1024);
}

#[test]
fn next_start_returns_zero_when_header_absent() {
    assert_eq!(next_start(&HeaderMap::new()), 0);
}

#[test]
fn next_start_returns_zero_on_non_numeric_value() {
    let h = headers_with(&[("X-Text-Size", "not-a-number")]);
    assert_eq!(next_start(&h), 0);
}

#[test]
fn more_data_true_when_header_is_true() {
    let h = headers_with(&[("X-More-Data", "true")]);
    assert!(more_data(&h));
}

#[test]
fn more_data_true_is_case_insensitive() {
    let h = headers_with(&[("X-More-Data", "True")]);
    assert!(more_data(&h));
}

#[test]
fn more_data_false_when_header_is_false() {
    let h = headers_with(&[("X-More-Data", "false")]);
    assert!(!more_data(&h));
}

#[test]
fn more_data_false_when_header_absent() {
    assert!(!more_data(&HeaderMap::new()));
}

#[test]
fn sizes_and_flags_are_read() {
    assert_eq!(read_size(Some("+12".to_string())), 12);
    assert_eq!(read_size(None), 0);
    assert!(read_flag(Some("TRUE".to_string())));
    assert!(!read_flag(Some("true ".to_string())));
    assert!(!read_flag(None));
}

#[test]
fn stream_advances_offset_with_x_text_size() {
    let mut stream = LogStream::new("pipe", 9, 250);
    for (start, size, more) in [("0", "512", true), ("512", "1024", true), ("1024", "1024", false)] {
        assert_eq!(stream.path(), format!("job/pipe/9/logText/progressiveText?start={start}"));
        let mut pairs = vec![("X-Text-Size", size)];
        if more {
            pairs.push(("X-More-Data", "true"));
        }
        match stream.handle(status(200), &headers_with(&pairs)) {
            LogStep::MoreAfter(ms) => assert!(more && ms == 250),
            LogStep::Last => assert!(!more),
            LogStep::Refused(_) => panic!("expected a piece of log"),
        }
    }
    assert_eq!(stream.start(), 1024);
}

#[test]
fn stream_returns_error_on_non_2xx() {
    let mut stream = LogStream::new("a/gone", 1, 0);
    assert_eq!(stream.path(), "job/a/job/gone/1/logText/progressiveText?start=0");
    match stream.handle(status(404), &headers_with(&[("X-Text-Size", "5")])) {
        LogStep::Refused(s) => assert_eq!(log_refused(s), "log endpoint returned HTTP 404 Not Found"),
        _ => panic!("expected a refusal"),
    }
    assert_eq!(stream.start(), 0);
    assert!(matches!(stream.advance(status(200), 7, false), LogStep::Last));
    assert_eq!(stream.start(), 7);
}

#[test]
fn resolve_latest_returns_last_build_number() {
    assert_eq!(summary_path("my-job"), "job/my-job/api/json");
    let summary = JobSummary { last_build: Some(LastBuild { number: 99 }) };
    assert_eq!(latest_build("my-job", &summary).unwrap(), 99);
    assert_eq!(stream_heading("my-job", 99).text(), "Streaming logs for my-job #99\n");
}

#[test]
fn resolve_latest_errors_when_no_builds_exist() {
    let e = latest_build("fresh", &JobSummary { last_build: None }).unwrap_err();
    assert_eq!(e.message(), "job 'fresh' has no builds yet");
    let e = check_summary("x", status(500)).unwrap_err();
    assert_eq!(e.message(), "could not fetch job info for 'x': HTTP 500 Internal Server Error");
    assert!(check_summary("x", status(200)).is_ok());
}

// ── list ────────────────────────────────────────────────────────────────────

fn entry(name: &str, class: &str, color: Option<&str>) -> JobEntry {
    JobEntry { name: name.to_string(), class: class.to_string(), color: color.map(str::to_string) }
}

#[test]
fn is_folder_detects_standard_folder_class() {
    assert!(entry("f", "com.cloudbees.hudson.plugins.folder.Folder", None).is_folder());
}

#[test]
fn is_folder_detects_cloudbees_folder_class() {
    assert!(entry("f", "com.cloudbees.hudson.plugins.folder.CloudBeesFolder", None).is_folder());
}

#[test]
fn is_folder_false_for_pipeline_job() {
    assert!(!entry("j", "org.jenkinsci.plugins.workflow.job.WorkflowJob", Some("blue")).is_folder());
}

#[test]
fn is_folder_false_for_freestyle_job() {
    assert!(!entry("j", "hudson.model.FreeStyleProject", Some("red")).is_folder());
}

#[test]
fn status_maps_all_color_values() {
    let cases = [
        ("blue",     "SUCCESS"),
        ("red",      "FAILED"),
        ("yellow",   "UNSTABLE"),
        ("aborted",  "ABORTED"),
        ("disabled", "DISABLED"),
        ("notbuilt", "NOT BUILT"),
    ];
    for (color, expected) in cases {
        let e = entry("j", "hudson.model.FreeStyleProject", Some(color));
        assert_eq!(e.status(), expected, "color={color}");
    }
}

#[test]
fn status_strips_anime_suffix_before_mapping() {
    let e = entry("j", "hudson.model.FreeStyleProject", Some("blue_anime"));
    assert_eq!(e.status(), "SUCCESS");
    assert!(e.is_building());
}

#[test]
fn is_building_false_when_no_anime_suffix() {
    assert!(!entry("j", "hudson.model.FreeStyleProject", Some("blue")).is_building());
}

#[test]
fn is_building_false_when_color_absent() {
    assert!(!entry("f", "com.cloudbees.hudson.plugins.folder.Folder", None).is_building());
}

#[test]
fn running_jobs_keep_their_status() {
    for color in ["blue", "red", "yellow", "aborted", "disabled", "notbuilt", "x"] {
        let running = entry("j", "c", Some(&format!("{color}_anime")));
        assert_eq!(running.status(), entry("j", "c", Some(color)).status());
        assert!(running.is_building());
    }
}

#[test]
fn list_folder_calls_correct_nested_path() {
    let (display, path) = plan_list(&ListArgs { path: Some("parent/child".to_string()) });
    assert_eq!(display, "parent/child/");
    assert_eq!(path, "job/parent/job/child/api/json?tree=jobs[name,_class,color]");
}

#[test]
fn list_root_calls_root_api_endpoint() {
    for path in [None, Some(String::new())] {
        let (display, path) = plan_list(&ListArgs { path });
        assert_eq!(display, "(root)");
        assert_eq!(path, "api/json?tree=jobs[name,_class,color]");
    }
}

#[test]
fn list_returns_error_on_404() {
    let e = check_list(status(404)).unwrap_err();
    assert_eq!(
        e.message(),
        "Jenkins returned HTTP 404 Not Found — check the path is a folder, not a job.\n\
         Hint: use `rj inspect <path>` if this is a job."
    );
    assert!(check_list(status(200)).is_ok());
}

#[test]
fn list_mixed_folders_and_jobs() {
    let job = "org.jenkinsci.plugins.workflow.job.WorkflowJob";
    let info = FolderInfo {
        jobs: vec![
            entry("sub-folder", "com.cloudbees.hudson.plugins.folder.Folder", None),
            entry("deploy", job, Some("blue")),
            entry("nightly", job, Some("red")),
            entry("in-progress", job, Some("blue_anime")),
        ],
    };
    let lines = show_folder("team/", &info);
    assert_eq!(
        texts(&lines),
        vec![
            "team/".to_string(),
            "  [FOLDER]  sub-folder".to_string(),
            format!("  [JOB]  {:<40} SUCCESS", "deploy"),
            format!("  [JOB]  {:<40} FAILED", "nightly"),
            format!("  [JOB]  {:<40} SUCCESS  *building*", "in-progress"),
            "\n  1 folder(s), 3 job(s)".to_string(),
        ]
    );
    assert_eq!(lines[0].spans[0].style, Style::CyanBold);
    assert_eq!(lines[2].spans[3].style, Style::Green);
    assert_eq!(lines[3].spans[3].style, Style::Red);
    assert_eq!(lines[4].spans[5].style, Style::BlueBold);
}

#[test]
fn empty_folders_get_a_hint() {
    assert_eq!(
        texts(&show_folder("(root)", &FolderInfo { jobs: vec![] })),
        vec![
            "(root)",
            "  (empty — or this path points to a job rather than a folder)",
            "  Hint: use `rj inspect <path>` for job details.",
        ]
    );
}

// ── inspect ─────────────────────────────────────────────────────────────────

fn param(class: &str, name: &str, description: Option<&str>, default: Option<ParamValue>, choices: &[&str]) -> ParamDef {
    ParamDef {
        class: class.to_string(),
        name: name.to_string(),
        description: description.map(str::to_string),
        default_parameter_value: default.map(|v| DefaultValue { value: Some(v) }),
        choices: choices.iter().map(|c| c.to_string()).collect(),
    }
}

fn sample() -> JobInfo {
    JobInfo {
        name: "deploy-prod".to_string(),
        description: Some("Deploys to the production environment".to_string()),
        buildable: true,
        last_build: Some(BuildRef { number: 42, result: Some("SUCCESS".to_string()) }),
        property: vec![
            Property { class: "other".to_string(), parameter_definitions: vec![] },
            Property {
                class: "hudson.model.ParametersDefinitionProperty".to_string(),
                parameter_definitions: vec![
                    param(
                        "hudson.model.StringParameterDefinition",
                        "ENV",
                        Some("Target environment"),
                        Some(param_value(serde_json::Value::from("staging"))),
                        &[],
                    ),
                    param(
                        "hudson.model.BooleanParameterDefinition",
                        "VERBOSE",
                        Some("  Enable verbose output\n"),
                        Some(param_value(serde_json::Value::from(false))),
                        &[],
                    ),
                    param(
                        "hudson.model.ChoiceParameterDefinition",
                        "REGION",
                        Some("AWS region"),
                        Some(param_value(serde_json::Value::from("us-east-1"))),
                        &["us-east-1", "eu-west-1", "ap-southeast-1"],
                    ),
                ],
            },
        ],
    }
}

#[test]
fn kind_strips_java_package_and_suffix() {
    let make = |class: &str| param(class, "", None, None, &[]);
    assert_eq!(make("hudson.model.StringParameterDefinition").kind(),   "String");
    assert_eq!(make("hudson.model.BooleanParameterDefinition").kind(),  "Boolean");
    assert_eq!(make("hudson.model.ChoiceParameterDefinition").kind(),   "Choice");
    assert_eq!(make("hudson.model.TextParameterDefinition").kind(),     "Text");
    assert_eq!(make("hudson.model.PasswordParameterDefinition").kind(), "Password");
}

#[test]
fn format_default_quotes_strings_and_serialises_booleans() {
    let info = sample();
    let ps = &info.property[1].parameter_definitions;
    assert_eq!(format_default(&ps[0]), "\"staging\"");
    assert_eq!(format_default(&ps[1]), "false");
}

#[test]
fn defaults_are_shown_in_compact_form() {
    let shown = |json: &str| match param_value(serde_json::from_str(json).unwrap()) {
        ParamValue::Json(s) => s,
        ParamValue::Text(_) => panic!("expected no string"),
    };
    assert_eq!(shown("null"), "null");
    assert_eq!(shown(" true "), "true");
    assert_eq!(shown("-12"), "-12");
    assert_eq!(shown("1.50"), "1.5");
    assert_eq!(shown("[1, \"a\\n\", {\"k\" : [ ]}]"), "[1,\"a\\n\",{\"k\":[]}]");
    match param_value(serde_json::from_str("\"a \\\"b\\\"\"").unwrap()) {
        ParamValue::Text(s) => assert_eq!(s, "a \"b\""),
        ParamValue::Json(_) => panic!("expected a string"),
    }
    assert!(matches!(value_of(Json::Text("x".to_string()), "y".to_string()), ParamValue::Text(s) if s == "x"));
    assert!(matches!(value_of(Json::Null, "y".to_string()), ParamValue::Json(s) if s == "y"));
}

#[test]
fn format_default_of_nothing() {
    let mut p = param("c", "n", None, None, &[]);
    assert_eq!(format_default(&p), "(none)");
    p.default_parameter_value = Some(DefaultValue { value: None });
    assert_eq!(format_default(&p), "(none)");
}

#[test]
fn jobs_are_shown_with_their_parameters() {
    let lines = print_job(&sample());
    assert_eq!(
        texts(&lines),
        vec![
            "Job:        deploy-prod".to_string(),
            "Desc:       Deploys to the production environment".to_string(),
            "Buildable:  true".to_string(),
            "Last build: #42 — SUCCESS".to_string(),
            "\nParameters:".to_string(),
            format!("  {:<22} [{:<8}] Default: {:<20}  — Target environment", "ENV", "String", "\"staging\""),
            format!("  {:<22} [{:<8}] Default: {:<20}  — Enable verbose output", "VERBOSE", "Boolean", "false"),
            format!(
                "  {:<22} [{:<8}] Choices: us-east-1, eu-west-1, ap-southeast-1  — AWS region",
                "REGION", "Choice"
            ),
        ]
    );
    assert_eq!(lines[3].spans[3].style, Style::Green);
}

#[test]
fn jobs_without_parameters_are_shown() {
    let info = JobInfo {
        name: "simple-job".to_string(),
        description: Some(" \n".to_string()),
        buildable: false,
        last_build: None,
        property: vec![],
    };
    assert_eq!(
        texts(&print_job(&info)),
        vec!["Job:        simple-job", "Buildable:  false", "Last build: (none)", "\nNo parameters defined."]
    );
    let running = JobInfo { last_build: Some(BuildRef { number: 3, result: None }), ..info };
    assert_eq!(print_job(&running)[2].text(), "Last build: #3 — IN PROGRESS");
}

#[test]
fn results_have_colors() {
    for (result, style) in [
        ("SUCCESS", Style::Green),
        ("FAILURE", Style::Red),
        ("UNSTABLE", Style::Yellow),
        ("ABORTED", Style::Dimmed),
        ("IN PROGRESS", Style::Blue),
        ("NOT_BUILT", Style::Plain),
    ] {
        assert_eq!(color_result(result), style);
    }
}

#[test]
fn run_requests_tree_param_so_result_field_is_returned() {
    let args = InspectArgs { job: "deploy-prod".to_string() };
    assert_eq!(inspect_path(&args.job), format!("job/deploy-prod/api/json?tree={TREE}"));
    assert!(TREE.contains("lastBuild[number,result]"));
}

#[test]
fn run_returns_error_on_404() {
    let e = check_job("missing", status(404)).unwrap_err();
    assert_eq!(e.message(), "Jenkins returned HTTP 404 Not Found for job 'missing'");
    assert!(check_job("j", status(200)).is_ok());
}

// ── config ──────────────────────────────────────────────────────────────────

#[test]
fn jobs_with_one_file_are_found() {
    let jobs = |names: &[&str]| names.iter().map(|n| n.to_string()).collect::<Vec<String>>();
    assert_eq!(find_shared_file(&jobs(&["a/b", "c", "a__b", "a/b"])), Some((0, 2)));
    assert_eq!(find_shared_file(&jobs(&["x", "a_/b", "a/_b"])), Some((1, 2)));
    assert_eq!(find_shared_file(&jobs(&["a/b", "a/b", "a_b", "a/b_c", "a/b/c", "b"])), None);
    assert_eq!(find_shared_file(&jobs(&["f/a_", "f/a__b", "f/a", "f/_a"])), None);
    assert_eq!(find_shared_file(&[]), None);
    assert!(check_files(&jobs(&["a/b", "a_b"])).is_ok());
    assert_eq!(
        check_files(&jobs(&["a/b", "a__b"])).unwrap_err(),
        "the configurations of 'a/b' and 'a__b' would both be saved as 'a__b.xml'"
    );
}

#[test]
fn config_files_are_named_after_the_job() {
    assert_eq!(config_filename("my-job"), "my-job.xml");
    assert_eq!(config_filename("a/b/c"), "a__b__c.xml");
}

#[test]
fn get_returns_error_on_404() {
    let e = check_get("missing", status(404)).unwrap_err();
    assert_eq!(e.message(), "Jenkins returned HTTP 404 Not Found for job 'missing'");
    assert!(check_get("j", status(200)).is_ok());
}

#[test]
fn set_returns_error_on_non_2xx_response() {
    let e = report_set("readonly", status(403)).unwrap_err();
    assert_eq!(e.message(), "Jenkins returned HTTP 403 Forbidden when updating config for 'readonly'");
    assert_eq!(report_set("j", status(200)).unwrap().text(), "Configuration updated for 'j'.");
}
