use reqwest::header::{HeaderMap, HeaderName, HeaderValue};
use rusty_jenkins::cli::{ConfigSweepArgs, SweepArgs};
use rusty_jenkins::commands::config_sweep;
use rusty_jenkins::commands::config_sweep::{
    check_fetched, check_uploaded, config_path, follow_scan, indexing_path, indexing_step, prepare, scan_path,
    scan_polled, scan_refused, scan_step, ConfigSweep, ConfigSweepAction, ConfigSweepEvent, IndexingStep, ScanStep, TagError, TriggerBuild,
    TriggerStep,
};
use rusty_jenkins::commands::sweep;
use rusty_jenkins::commands::sweep::{
    build_status_path, build_step, check_console, console_path, extract_queue_id, item_at, log_filename, queue_path,
    queue_step, queued_item, sanitise, trigger_path, BuildStatus, BuildStep, QueueExecutable, QueueItem, QueueStep, Sweep,
    SweepAction, SweepEvent,
};
use rusty_jenkins::http::HttpStatus;
use rusty_jenkins::output::{Line, Stream};
use std::str::FromStr;

const SAMPLE_XML: &str = r#"<?xml version="1.0" encoding="UTF-8"?>
<org.jenkinsci.plugins.workflow.multibranch.WorkflowMultiBranchProject>
  <sources>
    <data>
      <jenkins.branch.BranchSource>
        <source class="org.jenkinsci.plugins.github_branch_source.GitHubSCMSource">
          <repoOwner>my-org</repoOwner>
          <repository>original-repo</repository>
        </source>
      </jenkins.branch.BranchSource>
    </data>
  </sources>
</org.jenkinsci.plugins.workflow.multibranch.WorkflowMultiBranchProject>"#;

fn status(code: u16) -> HttpStatus {
    HttpStatus::new(code).unwrap()
}

fn texts(lines: &[Line]) -> Vec<String> {
    lines.iter().map(|l| l.text()).collect()
}

fn location(url: &str) -> HeaderMap {
    let mut map = HeaderMap::new();
    map.insert(HeaderName::from_str("Location").unwrap(), HeaderValue::from_str(url).unwrap());
    map
}

// ── queue items and builds ──────────────────────────────────────────────────

#[test]
fn extract_queue_id_parses_standard_url() {
    assert_eq!(extract_queue_id("http://jenkins.example.com:8080/queue/item/42/").unwrap(), 42);
}

#[test]
fn extract_queue_id_works_without_trailing_slash() {
    assert_eq!(extract_queue_id("http://jenkins.example.com:8080/queue/item/99").unwrap(), 99);
}

#[test]
fn extract_queue_id_errors_on_non_numeric_segment() {
    assert!(extract_queue_id("http://jenkins.example.com/queue/item/abc/").is_err());
}

#[test]
fn extract_queue_id_takes_any_number_of_slashes() {
    for n in [0u64, 7, u64::MAX] {
        for slashes in ["", "/", "///"] {
            assert_eq!(extract_queue_id(&format!("x/{n}{slashes}")).unwrap(), n);
        }
    }
    assert_eq!(extract_queue_id("12").unwrap(), 12);
    let e = extract_queue_id("http://x/18446744073709551616/").unwrap_err();
    assert_eq!(e.message(), "could not parse queue item ID from URL: http://x/18446744073709551616/");
    assert!(extract_queue_id("///").is_err());
}

#[test]
fn poll_queue_returns_build_number_when_executable_present() {
    assert_eq!(queue_path(7), "queue/item/7/api/json");
    let item = QueueItem { cancelled: None, executable: Some(QueueExecutable { number: 42 }) };
    assert_eq!(queue_step(&item), QueueStep::Started(42));
}

#[test]
fn poll_queue_retries_until_executable_appears() {
    assert_eq!(queue_path(3), "queue/item/3/api/json");
    let mut answers = vec![
        QueueItem { cancelled: None, executable: Some(QueueExecutable { number: 10 }) },
        QueueItem { cancelled: None, executable: None },
    ];
    let n = loop {
        match queue_step(&answers.pop().unwrap()) {
            QueueStep::Again => continue,
            QueueStep::Started(n) => break n,
            QueueStep::Cancelled => panic!("expected a build"),
        }
    };
    assert_eq!(n, 10);
    assert!(answers.is_empty());
    assert_eq!(queue_step(&QueueItem { cancelled: Some(false), executable: None }), QueueStep::Again);
}

#[test]
fn poll_queue_errors_when_build_is_cancelled() {
    assert_eq!(queue_path(5), "queue/item/5/api/json");
    assert_eq!(queue_step(&QueueItem { cancelled: Some(true), executable: None }), QueueStep::Cancelled);
    assert!(sweep::CANCELLED.contains("cancelled"));
    let item = QueueItem { cancelled: Some(true), executable: Some(QueueExecutable { number: 1 }) };
    assert_eq!(queue_step(&item), QueueStep::Cancelled);
}

#[test]
fn wait_for_completion_returns_result_when_not_building() {
    assert_eq!(build_status_path("my-job", 42), "job/my-job/42/api/json?tree=building,result");
    match build_step(BuildStatus { building: false, result: Some("SUCCESS".to_string()) }) {
        BuildStep::Finished(result) => assert_eq!(result.as_deref(), Some("SUCCESS")),
        BuildStep::Again => panic!("expected an end"),
    }
}

#[test]
fn wait_for_completion_polls_while_building_is_true() {
    assert_eq!(build_status_path("my-job", 5), "job/my-job/5/api/json?tree=building,result");
    let mut answers = vec![
        BuildStatus { building: false, result: Some("FAILURE".to_string()) },
        BuildStatus { building: true, result: None },
    ];
    let result = loop {
        match build_step(answers.pop().unwrap()) {
            BuildStep::Again => continue,
            BuildStep::Finished(result) => break result,
        }
    };
    assert_eq!(result.as_deref(), Some("FAILURE"));
    assert!(answers.is_empty());
}

#[test]
fn triggered_builds_are_queue_items() {
    assert_eq!(trigger_path("a b/c"), "job/a%20b/job/c/buildWithParameters");
    assert_eq!(queued_item(status(201), &location("http://s/queue/item/9/")).unwrap(), 9);
    let e = queued_item(status(500), &location("http://s/queue/item/9/")).unwrap_err();
    assert_eq!(e.message(), "Jenkins returned HTTP 500 Internal Server Error when triggering build");
    let e = queued_item(status(201), &HeaderMap::new()).unwrap_err();
    assert_eq!(e.message(), "no Location header in build response");
    let e = item_at(status(201), Some("http://s/x".to_string())).unwrap_err();
    assert_eq!(e.message(), "could not parse queue item ID from URL: http://s/x");
}

#[test]
fn console_logs_are_fetched_from_the_build() {
    assert_eq!(console_path("a/b", 3), "job/a/job/b/3/consoleText");
    assert!(check_console(status(200)).is_ok());
    assert_eq!(check_console(status(404)).unwrap_err(), "consoleText endpoint returned HTTP 404 Not Found");
}

// ── file names ──────────────────────────────────────────────────────────────

#[test]
fn log_filename_sanitises_special_characters() {
    let p = log_filename("my-job", "ENV", "us-east-1/prod", 7);
    assert_eq!(p, "my-job__ENV__us-east-1_prod__#7.log");
}

#[test]
fn log_filename_format_is_job_param_value_build() {
    let p = log_filename("deploy", "VERSION", "1.2.3", 55);
    assert_eq!(p, "deploy__VERSION__1.2.3__#55.log");
}

#[test]
fn every_special_character_is_replaced() {
    assert_eq!(sanitise("a/b\\c:d*e?f\"g<h>i|j k"), "a_b_c_d_e_f_g_h_i_j_k");
    assert_eq!(sanitise("é_-.#"), "é_-.#");
    assert_eq!(
        config_sweep::log_filename("my-pipeline/main", "branches/name", "*/x", 77),
        "my-pipeline__main__branches/name____x__#77.log"
    );
}

#[test]
fn log_names_of_jobs_in_folders_have_no_slash() {
    assert_eq!(log_filename("team/apps/deploy", "ENV", "a/b", 3), "team__apps__deploy__ENV__a_b__#3.log");
}

// ── sweep ───────────────────────────────────────────────────────────────────

fn sweep_args(values: &[&str], params: &[&str]) -> SweepArgs {
    SweepArgs {
        job: "deploy".to_string(),
        param_name: "ENV".to_string(),
        values: values.iter().map(|v| v.to_string()).collect(),
        params: params.iter().map(|v| v.to_string()).collect(),
        output_dir: "out".to_string(),
        poll_ms: 0,
    }
}

#[test]
fn run_triggers_one_build_per_value_and_saves_logs() {
    let mut sweep = Sweep::new(sweep_args(&["staging", "prod"], &[])).unwrap();
    let mut printed = vec![sweep.heading().text()];
    let mut triggered = vec![];
    let mut saved = vec![];
    let mut next = 10;
    loop {
        let event = match sweep.action() {
            SweepAction::Trigger(params) => {
                triggered.push(params);
                next += 1;
                SweepEvent::Triggered(Ok(next - 1))
            }
            SweepAction::Wait(build) => {
                assert_eq!(build, next - 1);
                SweepEvent::Completed(Ok(Some("SUCCESS".to_string())))
            }
            SweepAction::Save(_, file) => {
                saved.push(file.clone());
                SweepEvent::Saved(Ok(format!("out/{file}")))
            }
            SweepAction::Finish => break,
        };
        printed.extend(texts(&sweep.handle(event)));
    }
    let pair = |k: &str, v: &str| (k.to_string(), v.to_string());
    assert_eq!(
        triggered,
        vec![vec![pair("ENV", "staging")], vec![pair("ENV", "prod")]]
    );
    assert_eq!(saved, vec!["deploy__ENV__staging__#10.log", "deploy__ENV__prod__#11.log"]);
    assert_eq!(
        printed,
        vec![
            "\n[1/2] ENV=staging",
            "  Queued as build #10",
            "  Result: SUCCESS",
            "  Log:    out/deploy__ENV__staging__#10.log",
            "\n[2/2] ENV=prod",
            "  Queued as build #11",
            "  Result: SUCCESS",
            "  Log:    out/deploy__ENV__prod__#11.log",
            "\nSweep complete. Logs in 'out'.",
        ]
    );
}

#[test]
fn fixed_parameters_come_before_the_one_that_varies() {
    let mut sweep = Sweep::new(sweep_args(&["staging", "prod"], &["VERSION=1"])).unwrap();
    let pair = |k: &str, v: &str| (k.to_string(), v.to_string());
    for value in ["staging", "prod"] {
        match sweep.action() {
            SweepAction::Trigger(params) => assert_eq!(params, vec![pair("VERSION", "1"), pair("ENV", value)]),
            _ => panic!("expected a build"),
        }
        sweep.handle(SweepEvent::Triggered(Err("no".to_string())));
    }
}

#[test]
fn sweep_goes_on_after_failures() {
    let mut sweep = Sweep::new(sweep_args(&["a", "b", "c"], &[])).unwrap();
    let lines = sweep.handle(SweepEvent::Triggered(Err("no".to_string())));
    assert_eq!(texts(&lines), vec!["  Could not trigger build: no", "\n[2/3] ENV=b"]);
    assert_eq!(lines[0].stream, Stream::Error);
    sweep.handle(SweepEvent::Triggered(Ok(5)));
    let lines = sweep.handle(SweepEvent::Completed(Err("gone".to_string())));
    assert_eq!(texts(&lines), vec!["  Error waiting for build: gone", "\n[3/3] ENV=c"]);
    sweep.handle(SweepEvent::Triggered(Ok(6)));
    assert_eq!(texts(&sweep.handle(SweepEvent::Completed(Ok(None)))), vec!["  Result: UNKNOWN"]);
    let lines = sweep.handle(SweepEvent::Saved(Err("disk".to_string())));
    assert_eq!(texts(&lines), vec!["  Could not save log: disk", "\nSweep complete. Logs in 'out'."]);
    assert!(matches!(sweep.action(), SweepAction::Finish));
    assert!(sweep.handle(SweepEvent::Triggered(Ok(1))).is_empty());
}

#[test]
fn events_that_are_not_waited_for_change_nothing() {
    let mut sweep = Sweep::new(sweep_args(&["a"], &[])).unwrap();
    assert!(sweep.handle(SweepEvent::Saved(Ok("x".to_string()))).is_empty());
    assert!(sweep.handle(SweepEvent::Completed(Ok(None))).is_empty());
    assert!(matches!(sweep.action(), SweepAction::Trigger(_)));
}

#[test]
fn sweep_needs_values_and_good_parameters() {
    assert_eq!(
        Sweep::new(sweep_args(&[], &["bad"])).unwrap_err().message(),
        "provide at least one --value to sweep over"
    );
    assert_eq!(
        Sweep::new(sweep_args(&["a"], &["bad"])).unwrap_err().message(),
        "invalid parameter 'bad': expected KEY=VALUE format"
    );
}

// ── scanning and triggering ─────────────────────────────────────────────────

#[test]
fn scans_are_followed_in_the_queue_or_by_indexing() {
    assert!(matches!(scan_step(status(201), &location("http://s/queue/item/4/")), ScanStep::Queue(4)));
    assert!(matches!(scan_step(status(200), &HeaderMap::new()), ScanStep::Indexing));
    assert!(matches!(follow_scan(status(200), Some("http://s/".to_string())), ScanStep::Indexing));
    assert_eq!(scan_path("a/b"), "job/a/job/b/build");
    assert!(matches!(scan_polled(Ok(9)), ScanStep::Build(9)));
    assert!(matches!(scan_polled(Err("cancelled".to_string())), ScanStep::Indexing));
    match scan_step(status(500), &HeaderMap::new()) {
        ScanStep::Refused(s) => {
            assert_eq!(scan_refused(s), "scan trigger returned HTTP 500 Internal Server Error")
        }
        _ => panic!("expected a refusal"),
    }
}

#[test]
fn indexing_is_polled_while_it_runs() {
    assert_eq!(indexing_path("p"), "job/p/indexing/api/json?tree=building");
    assert_eq!(indexing_step(status(200), Some(Some(true)), 10), IndexingStep::AgainAfter(1000));
    assert_eq!(indexing_step(status(200), Some(Some(true)), 2500), IndexingStep::AgainAfter(2500));
    assert_eq!(indexing_step(status(200), Some(Some(false)), 10), IndexingStep::Done);
    assert_eq!(indexing_step(status(200), Some(None), 10), IndexingStep::Done);
    assert_eq!(indexing_step(status(200), None, 10), IndexingStep::Done);
    assert_eq!(indexing_step(status(404), None, 10), IndexingStep::DoneAfter(5000));
    assert_eq!(indexing_step(status(500), Some(Some(true)), 10), IndexingStep::Done);
}

#[test]
fn trigger_build_falls_back_to_build_with_parameters_on_400() {
    let mut trigger = TriggerBuild::new("my-job");
    assert_eq!(trigger.path(), "job/my-job/build");
    let (step, lines) = trigger.handle(status(400), &HeaderMap::new(), "");
    assert!(matches!(step, TriggerStep::PostAfter(0)));
    assert_eq!(texts(&lines), vec!["  HTTP 400 via /build (attempt 1/5): (empty)"]);
    assert_eq!(trigger.path(), "job/my-job/buildWithParameters");
    let (step, lines) = trigger.handle(status(201), &location("http://s/queue/item/1/"), "");
    assert!(matches!(step, TriggerStep::Queued(1)));
    assert!(lines.is_empty());
}

#[test]
fn trigger_build_retries_across_attempts_when_both_endpoints_fail() {
    let mut trigger = TriggerBuild::new("my-job");
    trigger.handle(status(400), &HeaderMap::new(), "first\nsecond");
    let (step, lines) = trigger.handle(status(400), &HeaderMap::new(), "why\r\nmore");
    assert!(matches!(step, TriggerStep::PostAfter(2000)));
    assert_eq!(
        texts(&lines),
        vec![
            "  HTTP 400 via /buildWithParameters (attempt 1/5): why",
            "  Both endpoints returned 400. Retrying in 2000ms…",
        ]
    );
    assert_eq!(trigger.path(), "job/my-job/build");
    let (step, _) = trigger.answered(status(201), Some("http://s/queue/item/2/".to_string()), "");
    assert!(matches!(step, TriggerStep::Queued(2)));
}

#[test]
fn trigger_build_gives_up_after_five_attempts() {
    let mut trigger = TriggerBuild::new("j");
    let mut waits = vec![];
    let mut paths = vec![];
    loop {
        paths.push(trigger.path());
        match trigger.answered(status(400), None, "x").0 {
            TriggerStep::PostAfter(ms) => waits.push(ms),
            TriggerStep::Queued(_) => panic!("expected no build"),
            TriggerStep::Failed(words) => {
                assert_eq!(
                    words,
                    "build trigger failed after 5 attempts on both /build and /buildWithParameters — \
                     check the 400 messages above for Jenkins' reason"
                );
                break;
            }
        }
    }
    assert_eq!(waits, vec![0, 2000, 0, 4000, 0, 8000, 0, 16000, 0]);
    assert_eq!(paths.len(), 10);
    assert!(paths.iter().step_by(2).all(|p| p == "job/j/build"));
    assert!(paths.iter().skip(1).step_by(2).all(|p| p == "job/j/buildWithParameters"));
}

#[test]
fn trigger_build_fails_at_once_on_other_answers() {
    let words = |code: u16, location: Option<&str>, body: &str| {
        match TriggerBuild::new("j").answered(status(code), location.map(str::to_string), body).0 {
            TriggerStep::Failed(words) => words,
            _ => panic!("expected a failure"),
        }
    };
    assert_eq!(words(403, None, "no\nway"), "Jenkins returned HTTP 403 Forbidden via /build: no");
    assert_eq!(words(201, None, ""), "no Location header in build response");
    assert_eq!(words(201, Some("x/y"), ""), "could not parse queue item ID from URL: x/y");
}

// ── configuration sweep ─────────────────────────────────────────────────────

fn config_args(values: &[&str]) -> ConfigSweepArgs {
    ConfigSweepArgs {
        job: "my-pipeline".to_string(),
        xml_tag: "repository".to_string(),
        values: values.iter().map(|v| v.to_string()).collect(),
        output_dir: "out".to_string(),
        poll_ms: 0,
        branch: None,
        skip_scan: true,
        post_config_delay_ms: 0,
        no_restore: false,
    }
}

/// Drives a sweep to its end, with builds numbered from `first` on; gives what was done.
fn drive_from(first: u64, sweep: &mut ConfigSweep, printed: &mut Vec<String>) -> Vec<String> {
    let mut done = vec![];
    let mut build = first;
    loop {
        let event = match sweep.action() {
            ConfigSweepAction::Upload(xml) => {
                done.push(format!("upload {xml}"));
                ConfigSweepEvent::Uploaded(Ok(()))
            }
            ConfigSweepAction::Pause(ms) => {
                done.push(format!("pause {ms}"));
                ConfigSweepEvent::Paused
            }
            ConfigSweepAction::Scan => {
                done.push("scan".to_string());
                ConfigSweepEvent::Scanned(Ok(()))
            }
            ConfigSweepAction::Trigger => {
                done.push("trigger".to_string());
                build += 1;
                ConfigSweepEvent::Triggered(Ok(build - 1))
            }
            ConfigSweepAction::Wait(n) => {
                done.push(format!("wait {n}"));
                ConfigSweepEvent::Completed(Ok(Some("SUCCESS".to_string())))
            }
            ConfigSweepAction::Save(n, file) => {
                done.push(format!("save {n} {file}"));
                ConfigSweepEvent::Saved(Ok(file))
            }
            ConfigSweepAction::Finish => return done,
        };
        printed.extend(texts(&sweep.handle(event)));
    }
}

fn drive(sweep: &mut ConfigSweep, printed: &mut Vec<String>) -> Vec<String> {
    drive_from(10, sweep, printed)
}

#[test]
fn run_patches_config_triggers_build_and_restores() {
    let args = ConfigSweepArgs { job: "my-job".to_string(), ..config_args(&["repo-a", "repo-b"]) };
    assert_eq!(config_path(&args.job), "job/my-job/config.xml");
    assert_eq!(TriggerBuild::new(&prepare(&args).unwrap().0).path(), "job/my-job/build");
    let (mut sweep, lines) = ConfigSweep::start(args, SAMPLE_XML.to_string());
    let mut printed = texts(&lines);
    let done = drive(&mut sweep, &mut printed);
    assert_eq!(done.len(), 9);
    assert!(done[0].contains("<repository>repo-a</repository>") && done[0].contains("<repoOwner>my-org</repoOwner>"));
    assert_eq!(done[1..4], ["trigger", "wait 10", "save 10 my-job__repository__repo-a__#10.log"]);
    assert!(done[4].contains("<repository>repo-b</repository>"));
    assert_eq!(done[7], "save 11 my-job__repository__repo-b__#11.log");
    assert_eq!(done[8], format!("upload {SAMPLE_XML}"));
    assert_eq!(
        printed,
        vec![
            "\n[1/2] <repository> = repo-a",
            "  Config updated.",
            "  Queued as build #10",
            "  Result: SUCCESS",
            "  Log:    my-job__repository__repo-a__#10.log",
            "\n[2/2] <repository> = repo-b",
            "  Config updated.",
            "  Queued as build #11",
            "  Result: SUCCESS",
            "  Log:    my-job__repository__repo-b__#11.log",
            "\nRestoring original config.xml… ",
            "done.",
            "\nConfig sweep complete. Logs in 'out'.",
        ]
    );
}

#[test]
fn run_uploads_correct_patched_value_for_each_iteration() {
    let args = ConfigSweepArgs { job: "my-job".to_string(), ..config_args(&["patched-repo"]) };
    assert_eq!(config_path(&args.job), "job/my-job/config.xml");
    let (mut sweep, _) = ConfigSweep::start(args, SAMPLE_XML.to_string());
    let done = drive_from(5, &mut sweep, &mut vec![]);
    let uploads: Vec<&String> = done.iter().filter(|d| d.starts_with("upload ")).collect();
    assert_eq!(uploads.len(), 2);
    assert!(uploads[0].contains("<repository>patched-repo</repository>"));
    assert!(uploads[1].contains("<repository>original-repo</repository>"));
}

#[test]
fn scan_runs_before_branch_build_when_skip_scan_is_false() {
    let args = ConfigSweepArgs {
        branch: Some("main".to_string()),
        skip_scan: false,
        ..config_args(&["repo-y"])
    };
    let (target, _) = prepare(&args).unwrap();
    assert_eq!(scan_path(&args.job), "job/my-pipeline/build");
    assert_eq!(TriggerBuild::new(&target).path(), "job/my-pipeline/job/main/build");
    let (mut sweep, _) = ConfigSweep::start(args, SAMPLE_XML.to_string());
    let done = drive_from(20, &mut sweep, &mut vec![]);
    let order: Vec<&String> = done.iter().filter(|d| *d == "scan" || *d == "trigger").collect();
    assert_eq!(order, ["scan", "trigger"]);
    assert!(done.contains(&"save 20 my-pipeline__main__repository__repo-y__#20.log".to_string()));
}

#[test]
fn pauses_stand_round_a_scan() {
    let args = ConfigSweepArgs {
        branch: Some("main".to_string()),
        skip_scan: false,
        post_config_delay_ms: 3000,
        ..config_args(&["repo-y"])
    };
    let (target, lines) = prepare(&args).unwrap();
    assert_eq!(target, "my-pipeline/main");
    assert_eq!(
        texts(&lines),
        vec![
            "Config: 'my-pipeline' — Build target: 'my-pipeline/main' (no branch scan triggered)",
            "Fetching config.xml for 'my-pipeline'…",
        ]
    );
    let (mut sweep, _) = ConfigSweep::start(args, SAMPLE_XML.to_string());
    let mut printed = vec![];
    let done = drive(&mut sweep, &mut printed);
    assert_eq!(done[1..5], ["pause 3000", "scan", "pause 3000", "trigger"]);
    assert_eq!(done[6], "save 10 my-pipeline__main__repository__repo-y__#10.log");
    assert_eq!(
        printed[..4],
        [
            "  Config updated.",
            "  Waiting 3000ms for Jenkins to apply config…",
            "  Scanning parent pipeline to index new repository…",
            "  Scan complete.",
        ]
    );
}

#[test]
fn branch_flag_builds_branch_job_not_parent_pipeline() {
    let args = ConfigSweepArgs { branch: Some("main".to_string()), ..config_args(&["repo-x"]) };
    let (target, _) = prepare(&args).unwrap();
    assert_eq!(TriggerBuild::new(&target).path(), "job/my-pipeline/job/main/build");
    assert_eq!(config_path(&args.job), "job/my-pipeline/config.xml");
    let (mut sweep, _) = ConfigSweep::start(args, SAMPLE_XML.to_string());
    let done = drive_from(77, &mut sweep, &mut vec![]);
    assert_eq!(done[1..3], ["trigger", "wait 77"]);
    assert_eq!(done[3], "save 77 my-pipeline__main__repository__repo-x__#77.log");
    assert_eq!(build_status_path(&target, 77), "job/my-pipeline/job/main/77/api/json?tree=building,result");
    assert_eq!(console_path(&target, 77), "job/my-pipeline/job/main/77/consoleText");
}

#[test]
fn values_that_cannot_be_patched_are_passed_over() {
    let patches = vec![
        Err(TagError::PathNotFound("repository".to_string())),
        Ok("<two/>".to_string()),
        Err(TagError::Malformed("bad".to_string())),
    ];
    let args = ConfigSweepArgs { no_restore: true, ..config_args(&["one", "two", "three"]) };
    let (mut sweep, lines) = ConfigSweep::new(args, "<orig/>".to_string(), patches);
    assert_eq!(lines.len(), 3);
    assert!(lines[1].text().starts_with("  Could not patch XML: XML path <repository> not found in config.xml."));
    assert_eq!(lines[2].text(), "\n[2/3] <repository> = two");
    let mut printed = vec![];
    let done = drive(&mut sweep, &mut printed);
    assert_eq!(done[0], "upload <two/>");
    assert_eq!(done.len(), 4);
    assert_eq!(
        printed[4..],
        [
            "\n[3/3] <repository> = three",
            "  Could not patch XML: parsing config.xml: bad",
            "\nSkipping config restore (--no-restore).",
            "\nConfig sweep complete. Logs in 'out'.",
        ]
    );
}

#[test]
fn config_sweep_goes_on_after_failures() {
    let args = ConfigSweepArgs {
        branch: Some("b".to_string()),
        skip_scan: false,
        ..config_args(&["1", "2", "3", "4", "5"])
    };
    let (mut sweep, _) = ConfigSweep::start(args, SAMPLE_XML.to_string());
    let failed = || Err("why".to_string());
    let lines = sweep.handle(ConfigSweepEvent::Uploaded(failed()));
    assert_eq!(texts(&lines), vec!["  Could not upload config: why", "\n[2/5] <repository> = 2"]);
    sweep.handle(ConfigSweepEvent::Uploaded(Ok(())));
    let lines = sweep.handle(ConfigSweepEvent::Scanned(failed()));
    assert_eq!(texts(&lines), vec!["  Scan failed: why. Attempting branch build anyway…"]);
    assert!(sweep.handle(ConfigSweepEvent::Paused).is_empty());
    let lines = sweep.handle(ConfigSweepEvent::Triggered(Err("why".to_string())));
    assert_eq!(texts(&lines), vec!["  Could not trigger build: why", "\n[3/5] <repository> = 3"]);
    for (event, words) in [
        (ConfigSweepEvent::Completed(Err("why".to_string())), "  Error waiting for build: why"),
        (ConfigSweepEvent::Saved(Err("why".to_string())), "  Could not save log: why"),
    ] {
        sweep.handle(ConfigSweepEvent::Uploaded(Ok(())));
        sweep.handle(ConfigSweepEvent::Scanned(Ok(())));
        sweep.handle(ConfigSweepEvent::Paused);
        sweep.handle(ConfigSweepEvent::Triggered(Ok(1)));
        if let ConfigSweepEvent::Saved(_) = event {
            assert_eq!(texts(&sweep.handle(ConfigSweepEvent::Completed(Ok(None)))), vec!["  Result: UNKNOWN"]);
        }
        assert_eq!(sweep.handle(event)[0].text(), words);
    }
    let lines = sweep.handle(ConfigSweepEvent::Uploaded(failed()));
    assert_eq!(lines[1].text(), "\nRestoring original config.xml… ");
    assert!(!lines[1].closed);
    assert!(matches!(sweep.action(), ConfigSweepAction::Upload(xml) if xml == SAMPLE_XML));
    let lines = sweep.handle(ConfigSweepEvent::Uploaded(failed()));
    assert_eq!(texts(&lines), vec!["FAILED: why", "\nConfig sweep complete. Logs in 'out'."]);
    assert!(matches!(sweep.action(), ConfigSweepAction::Finish));
}

#[test]
fn config_sweep_needs_values() {
    assert_eq!(prepare(&config_args(&[])).unwrap_err().message(), "provide at least one --value to sweep over");
    let (target, lines) = prepare(&config_args(&["x"])).unwrap();
    assert_eq!((target.as_str(), lines.len()), ("my-pipeline", 1));
}

#[test]
fn configurations_are_fetched_and_uploaded() {
    assert!(check_fetched(status(200), "j").is_ok());
    assert_eq!(
        check_fetched(status(404), "j").unwrap_err(),
        "Jenkins returned HTTP 404 Not Found fetching config.xml for 'j'"
    );
    assert!(check_uploaded(status(200)).is_ok());
    assert_eq!(check_uploaded(status(403)).unwrap_err(), "Jenkins returned HTTP 403 Forbidden uploading config.xml");
}
