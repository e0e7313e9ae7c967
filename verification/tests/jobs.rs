use rusty_jenkins::cli::{JobTarget, ListTagArgs, PatchTagArgs};
use rusty_jenkins::commands::list_tag;
use rusty_jenkins::commands::list_tag::{read_tags, show_job, show_values};
use rusty_jenkins::commands::patch_tag;
use rusty_jenkins::commands::patch_tag::{patch_tags, show_heading, show_outcome, PatchAction, PatchEvent, PatchRun};
use rusty_jenkins::commands::{is_folder_class, ClassInfo, FolderInfo, JobEntry, ResolveError, ResolveStep, Resolver};
use rusty_jenkins::http::HttpStatus;
use rusty_jenkins::output::{Line, Stream, Style};

const SAMPLE_XML: &str = r#"<?xml version="1.0"?>
<project>
  <scm>
    <remote>git@github.com:org/old-repo.git</remote>
    <branch>develop</branch>
  </scm>
</project>"#;

fn status(code: u16) -> HttpStatus {
    HttpStatus::new(code).unwrap()
}

fn texts(lines: &[Line]) -> Vec<String> {
    lines.iter().map(|l| l.text()).collect()
}

fn list(items: &[&str]) -> Vec<String> {
    items.iter().map(|s| s.to_string()).collect()
}

fn target(paths: &[&str], names: &[&str], recursive: bool) -> JobTarget {
    JobTarget { paths: list(paths), job_names: list(names), recursive }
}

fn folder(jobs: &[(&str, &str)]) -> FolderInfo {
    FolderInfo {
        class: None,
        jobs: jobs.iter().map(|(n, c)| JobEntry { name: n.to_string(), class: c.to_string() }).collect(),
    }
}

fn resolve(target: &JobTarget, folders: &[(&str, FolderInfo)]) -> (Vec<String>, Vec<String>) {
    let mut resolver = Resolver::new(target);
    let mut asked = vec![];
    loop {
        match resolver.step() {
            ResolveStep::CheckClass(_, path) => {
                asked.push(path);
                resolver.class_checked(status(404), None).unwrap();
            }
            ResolveStep::ListFolder(name, path) => {
                asked.push(path);
                let info = &folders.iter().find(|(n, _)| *n == name).unwrap().1;
                let copy = FolderInfo {
                    class: info.class.clone(),
                    jobs: info
                        .jobs
                        .iter()
                        .map(|j| JobEntry { name: j.name.clone(), class: j.class.clone() })
                        .collect(),
                };
                resolver.folder_listed(status(200), Ok(copy)).unwrap();
            }
            ResolveStep::Done(jobs) => return (jobs, asked),
            ResolveStep::NoJobs => return (vec![], asked),
        }
    }
}

// ── resolving ───────────────────────────────────────────────────────────────

#[test]
fn folder_classes_end_in_folder() {
    assert!(is_folder_class("com.cloudbees.hudson.plugins.folder.Folder"));
    assert!(is_folder_class("jenkins.branch.OrganizationFolder"));
    assert!(is_folder_class("FOLDER"));
    assert!(!is_folder_class("org.jenkinsci.plugins.workflow.multibranch.WorkflowMultiBranchProject"));
    assert!(!is_folder_class("com.cloudbees.hudson.plugins.folder.Thing"));
    assert!(!is_folder_class(""));
}

#[test]
fn resolve_jobs_explicit_names_are_returned_as_is() {
    let (jobs, asked) = resolve(&target(&[], &["folder/job1", "folder/job2"], false), &[]);
    assert_eq!(jobs, vec!["folder/job1", "folder/job2"]);
    assert_eq!(
        asked,
        vec!["job/folder/job/job1/api/json?tree=_class", "job/folder/job/job2/api/json?tree=_class"]
    );
}

#[test]
fn resolve_jobs_lists_non_folder_children() {
    let folders = [(
        "abc",
        folder(&[("job1", "WorkflowJob"), ("sub", "com.cloudbees.hudson.plugins.folder.Folder")]),
    )];
    let (jobs, asked) = resolve(&target(&["abc"], &[], false), &folders);
    assert_eq!(jobs, vec!["abc/job1"]);
    assert_eq!(asked, vec!["job/abc/api/json?tree=_class,jobs[name,_class]"]);
}

#[test]
fn resolve_jobs_recursive_descends_into_subfolders() {
    let folders = [
        ("parent", folder(&[("job1", "WorkflowJob"), ("sub", "Folder")])),
        ("parent/sub", folder(&[("job2", "WorkflowJob")])),
    ];
    let (jobs, asked) = resolve(&target(&["parent"], &[], true), &folders);
    assert_eq!(jobs, vec!["parent/job1", "parent/sub/job2"]);
    assert_eq!(asked[1], "job/parent/job/sub/api/json?tree=_class,jobs[name,_class]");
}

#[test]
fn resolve_jobs_multiple_paths_combined() {
    let folders = [
        ("team-a", folder(&[("svc", "WorkflowJob")])),
        ("team-b", folder(&[("svc", "WorkflowJob")])),
    ];
    let (jobs, _) = resolve(&target(&["team-a", "team-b"], &["extra/job"], false), &folders);
    assert_eq!(jobs, vec!["extra/job", "team-a/svc", "team-b/svc"]);
}

#[test]
fn jobs_of_a_folder_stand_in_its_place() {
    let folders = [
        ("p", folder(&[("a", "J"), ("x", "Folder"), ("b", "J"), ("y", "Folder"), ("c", "J")])),
        ("p/x", folder(&[("x1", "J"), ("deep", "Folder"), ("x2", "J")])),
        ("p/x/deep", folder(&[("d", "J")])),
        ("p/y", folder(&[])),
    ];
    let (jobs, asked) = resolve(&target(&["p"], &[], true), &folders);
    assert_eq!(jobs, vec!["p/a", "p/x/x1", "p/x/deep/d", "p/x/x2", "p/b", "p/c"]);
    assert_eq!(asked.len(), 4);
}

#[test]
fn no_jobs_is_an_error() {
    let (jobs, _) = resolve(&target(&[], &[], false), &[]);
    assert!(jobs.is_empty());
    assert!(matches!(Resolver::new(&target(&[], &[], false)).step(), ResolveStep::NoJobs));
    assert_eq!(
        ResolveError::NoJobs.message(),
        "no jobs targeted — provide --path or at least one --job-name"
    );
}

#[test]
fn folders_are_not_jobs_and_jobs_not_folders() {
    let mut resolver = Resolver::new(&target(&[], &["f"], false));
    let info = ClassInfo { class: Some("Folder".to_string()) };
    let e = resolver.class_checked(status(200), Some(info)).unwrap_err();
    assert_eq!(e.message(), "'f' is a folder — use --path instead of --job-name");
    resolver.class_checked(status(200), Some(ClassInfo { class: None })).unwrap();
    assert!(matches!(resolver.step(), ResolveStep::Done(_)));

    let mut resolver = Resolver::new(&target(&["j"], &[], false));
    let info = FolderInfo { class: Some("WorkflowJob".to_string()), jobs: vec![] };
    let e = resolver.folder_listed(status(200), Ok(info)).unwrap_err();
    assert_eq!(e.message(), "'j' is a job, not a folder — use --job-name instead of --path");
    let e = resolver.folder_listed(status(404), Err("x".to_string())).unwrap_err();
    assert_eq!(
        e.message(),
        "could not list 'j': HTTP 404 Not Found — is it a job? Try --job-name instead of --path"
    );
    let e = resolver.folder_listed(status(200), Err("eof".to_string())).unwrap_err();
    assert_eq!(e.message(), "parsing folder JSON: eof");
    assert!(matches!(resolver.step(), ResolveStep::ListFolder(_, _)));
}

#[test]
fn answers_that_were_not_asked_for_change_nothing() {
    let mut resolver = Resolver::new(&target(&["p"], &["j"], false));
    resolver.folder_listed(status(500), Err("x".to_string())).unwrap();
    assert!(matches!(resolver.step(), ResolveStep::CheckClass(_, _)));
    resolver.class_checked(status(404), None).unwrap();
    resolver.class_checked(status(200), Some(ClassInfo { class: Some("Folder".to_string()) })).unwrap();
    assert!(matches!(resolver.step(), ResolveStep::ListFolder(_, _)));
}

// ── tag list ────────────────────────────────────────────────────────────────

#[test]
fn lists_multiple_tags_from_single_config_fetch() {
    let tags = list(&["remote", "branch", "nothing"]);
    assert_eq!(
        read_tags(SAMPLE_XML, &tags).unwrap(),
        vec![Some("git@github.com:org/old-repo.git".to_string()), Some("develop".to_string()), None]
    );
    let lines = show_job("abc/job1", &tags, Ok(SAMPLE_XML.to_string()));
    assert_eq!(
        texts(&lines),
        vec![
            "abc/job1",
            "  remote:git@github.com:org/old-repo.git",
            "  branch:develop",
            "  (tag <nothing> not found)",
        ]
    );
    assert_eq!(lines[1].spans[3].style, Style::Yellow);
}

#[test]
fn shows_not_found_when_tag_absent() {
    let tags = list(&["missing-tag"]);
    let lines = show_job("abc/job1", &tags, Ok("<root><other>x</other></root>".to_string()));
    assert_eq!(texts(&lines), vec!["abc/job1: (tag <missing-tag> not found)"]);
    let lines = show_job("folder/job1", &list(&["other"]), Ok("<root><other>s3</other></root>".to_string()));
    assert_eq!(texts(&lines), vec!["folder/job1:s3"]);
}

#[test]
fn errors_of_single_jobs_are_printed() {
    let lines = show_job("j", &list(&["t"]), Err(list_tag::check_config(status(404)).unwrap_err()));
    assert_eq!(texts(&lines), vec!["j: error — HTTP 404 Not Found"]);
    assert_eq!(lines[0].stream, Stream::Error);
    let lines = show_job("j", &list(&["t"]), Ok("<a>".to_string()));
    assert!(lines[0].text().starts_with("j: error — parsing config.xml: Malformed XML. "));
    let lines = show_values("j", &list(&["t"]), Ok(vec![Some("v".to_string())]));
    assert_eq!(texts(&lines), vec!["j:v"]);
}

#[test]
fn errors_when_no_xml_tag_provided() {
    let args = ListTagArgs { target: target(&[], &["abc/job1"], false), xml_tags: vec![] };
    let err = list_tag::check_args(&args).unwrap_err();
    assert!(err.message().contains("--xml-tag"));
    assert!(list_tag::check_args(&ListTagArgs { xml_tags: list(&["a"]), ..args }).is_ok());
}

// ── tag patch ───────────────────────────────────────────────────────────────

fn patch_args(tags: &[&str], values: &[&str]) -> PatchTagArgs {
    PatchTagArgs {
        target: target(&[], &["abc/job1"], false),
        xml_tags: list(tags),
        values: list(values),
        show_old: false,
    }
}

/// Drives a run over a server on which these configurations can be had; gives the uploads and
/// the lines.
fn drive(jobs: &[String], args: &PatchTagArgs, configs: &[(&str, &str)]) -> (Vec<(String, String)>, Vec<String>) {
    let (mut run, lines) = PatchRun::new(jobs.to_vec(), args.xml_tags.clone(), args.values.clone());
    let mut printed = texts(&lines);
    let mut uploads = vec![];
    loop {
        let event = match run.action() {
            PatchAction::Prepare(path) => {
                let config = configs.iter().find(|(p, _)| *p == path).map(|(_, xml)| *xml);
                let answer = status(if config.is_some() { 200 } else { 404 });
                PatchEvent::Prepared(patch_tag::check_fetched(answer).and_then(|_| {
                    patch_tags(config.unwrap(), &args.xml_tags, &args.values, args.show_old).map_err(|e| e.message())
                }))
            }
            PatchAction::Upload(path, xml) => {
                uploads.push((path, xml));
                PatchEvent::Uploaded(patch_tag::check_uploaded(status(200)))
            }
            PatchAction::Finish => return (uploads, printed),
        };
        printed.extend(texts(&run.handle(event)));
    }
}

#[test]
fn patches_tag_for_each_job_no_build_triggered() {
    let args = patch_args(&["remote"], &["new-repo"]);
    let configs = [("job/abc/job/job1/config.xml", SAMPLE_XML), ("job/abc/job/job2/config.xml", SAMPLE_XML)];
    let (uploads, printed) = drive(&list(&["abc/job1", "abc/job2"]), &args, &configs);
    assert_eq!(uploads.len(), 2);
    for (upload, (path, _)) in uploads.iter().zip(configs) {
        assert_eq!(upload.0, path);
        assert!(upload.1.contains("<remote>new-repo</remote>"));
    }
    assert_eq!(
        printed,
        vec!["[1/2] abc/job1", "  <remote> → new-repo", "[2/2] abc/job2", "  <remote> → new-repo"]
    );
}

#[test]
fn patches_all_jobs_in_folder() {
    let workflow = "org.jenkinsci.plugins.workflow.job.WorkflowJob";
    let team = folder(&[
        ("alpha", workflow),
        ("beta", workflow),
        ("sub", "com.cloudbees.hudson.plugins.folder.Folder"),
    ]);
    let (jobs, _) = resolve(&target(&["team"], &[], false), &[("team", team)]);
    let configs = [("job/team/job/alpha/config.xml", SAMPLE_XML), ("job/team/job/beta/config.xml", SAMPLE_XML)];
    let (uploads, _) = drive(&jobs, &patch_args(&["remote"], &["new-value"]), &configs);
    let paths: Vec<&str> = uploads.iter().map(|(path, _)| path.as_str()).collect();
    assert_eq!(paths, vec!["job/team/job/alpha/config.xml", "job/team/job/beta/config.xml"]);
    assert!(uploads.iter().all(|(_, xml)| xml.contains("<remote>new-value</remote>")));
}

#[test]
fn continues_on_individual_job_failure() {
    let args = patch_args(&["remote"], &["x"]);
    let (uploads, printed) =
        drive(&list(&["abc/job1", "abc/job2"]), &args, &[("job/abc/job/job2/config.xml", SAMPLE_XML)]);
    assert_eq!(uploads.len(), 1);
    assert_eq!(uploads[0].0, "job/abc/job/job2/config.xml");
    assert!(uploads[0].1.contains("<remote>x</remote>"));
    assert_eq!(
        printed,
        vec![
            "[1/2] abc/job1",
            "  FAILED — GET config.xml returned HTTP 404 Not Found",
            "[2/2] abc/job2",
            "  <remote> → x",
        ]
    );
}

#[test]
fn refused_uploads_and_stray_answers_do_not_stop_a_run() {
    let tags = list(&["remote"]);
    let (mut run, _) = PatchRun::new(list(&["a", "b"]), tags.clone(), list(&["x"]));
    assert!(run.handle(PatchEvent::Uploaded(Ok(()))).is_empty());
    let patch = patch_tags(SAMPLE_XML, &tags, &list(&["x"]), true).unwrap();
    assert!(run.handle(PatchEvent::Prepared(Ok(patch))).is_empty());
    assert!(run.handle(PatchEvent::Prepared(Err("late".to_string()))).is_empty());
    let lines = run.handle(PatchEvent::Uploaded(patch_tag::check_uploaded(status(500))));
    assert_eq!(
        texts(&lines),
        vec!["  FAILED — POST config.xml returned HTTP 500 Internal Server Error", "[2/2] b"]
    );
    let patch = patch_tags(SAMPLE_XML, &tags, &list(&["x"]), true).unwrap();
    run.handle(PatchEvent::Prepared(Ok(patch)));
    let lines = run.handle(PatchEvent::Uploaded(Ok(())));
    assert_eq!(texts(&lines), vec!["  <remote>: git@github.com:org/old-repo.git → x"]);
    assert!(matches!(run.action(), PatchAction::Finish));
    assert!(run.handle(PatchEvent::Prepared(Err("late".to_string()))).is_empty());
}

#[test]
fn patches_multiple_tags_in_single_upload() {
    let tags = list(&["remote", "branch"]);
    let values = list(&["new-remote", "main"]);
    let patch = patch_tags(SAMPLE_XML, &tags, &values, true).unwrap();
    assert!(patch.xml.contains("<remote>new-remote</remote>"));
    assert!(patch.xml.contains("<branch>main</branch>"));
    assert_eq!(
        patch.old_values,
        vec![Some("git@github.com:org/old-repo.git".to_string()), Some("develop".to_string())]
    );
    let patch = patch_tags(SAMPLE_XML, &tags, &values, false).unwrap();
    assert_eq!(patch.old_values, vec![None, None]);
}

#[test]
fn patch_stops_at_the_first_failure() {
    let tags = list(&["remote", "missing", "other"]);
    let values = list(&["a", "b", "c"]);
    let e = patch_tags(SAMPLE_XML, &tags, &values, true).unwrap_err();
    assert!(e.message().contains("<missing>"));
    let e = patch_tags("<a>", &tags, &values, true).unwrap_err();
    assert!(e.message().starts_with("parsing config.xml: "));
}

#[test]
fn later_patches_of_a_tag_win() {
    let tags = list(&["branch", "branch"]);
    let patch = patch_tags(SAMPLE_XML, &tags, &list(&["one", "two"]), true).unwrap();
    assert!(patch.xml.contains("<branch>two</branch>") && !patch.xml.contains("one"));
    assert_eq!(patch.old_values[1].as_deref(), Some("develop"));
}

#[test]
fn errors_when_tag_value_counts_mismatch() {
    let err = patch_tag::check_args(&patch_args(&["tag1", "tag2"], &["val1"])).unwrap_err();
    assert!(err.message().contains("does not match"));
    assert_eq!(err.message(), "--xml-tag count (2) does not match --value count (1)");
    let err = patch_tag::check_args(&patch_args(&[], &["val1"])).unwrap_err();
    assert_eq!(err.message(), "at least one --xml-tag is required");
    assert!(patch_tag::check_args(&patch_args(&["a"], &["b"])).is_ok());
}

#[test]
fn changes_are_shown_with_old_values() {
    assert_eq!(show_heading(1, 3, "folder/job1").text(), "[1/3] folder/job1");
    let tags = list(&["branches/name", "remote"]);
    let values = list(&["*/develop", "r"]);
    let lines = show_outcome(&tags, &values, Ok(vec![Some("*/main".to_string()), None]));
    assert_eq!(texts(&lines), vec!["  <branches/name>: */main → */develop", "  <remote> → r"]);
    let lines = show_outcome(&tags, &values, Err("GET config.xml returned HTTP 404 Not Found".to_string()));
    assert_eq!(texts(&lines), vec!["  FAILED — GET config.xml returned HTTP 404 Not Found"]);
    assert_eq!(lines[0].stream, Stream::Output);
}

#[test]
fn patch_answers_are_checked() {
    assert!(patch_tag::check_fetched(status(200)).is_ok());
    assert_eq!(
        patch_tag::check_fetched(status(404)).unwrap_err(),
        "GET config.xml returned HTTP 404 Not Found"
    );
    assert!(patch_tag::check_uploaded(status(204)).is_ok());
    assert_eq!(
        patch_tag::check_uploaded(status(409)).unwrap_err(),
        "POST config.xml returned HTTP 409 Conflict"
    );
}
