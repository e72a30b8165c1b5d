use enzyme_installer::executor::{
    advance, begin, confirm_within, execute_plan, execute_step, join_path, perform_download,
    plan_entry, replace_placeholders, run_command, sanitize_extract_path, shell_for,
    CommandReport, DownloadReport, EntryAction, ExecutionError, ExecutionResult, Progress,
};
use enzyme_installer::manifest::Step;
use enzyme_installer::planner::{InstallPlan, PlannedStep};
use enzyme_installer::strmap::StrMap;
use std::cell::RefCell;

fn vars(pairs: &[(&str, &str)]) -> StrMap<String> {
    let mut m = StrMap::new();
    for (k, v) in pairs {
        m.insert(k.to_string(), v.to_string());
    }
    m
}

fn plan(commands: &[&str]) -> InstallPlan {
    InstallPlan {
        app_name: "demo".to_string(),
        app_version: "1".to_string(),
        chosen_mode: "full".to_string(),
        os: "macos".to_string(),
        steps: commands
            .iter()
            .enumerate()
            .map(|(index, c)| PlannedStep {
                index,
                description: format!("Run: {c}"),
                command: c.to_string(),
                step: Step::Run { run: c.to_string() },
            })
            .collect(),
    }
}

#[test]
fn template_keeps_unresolved_placeholders_verbatim() {
    let rendered = replace_placeholders(
        "Host: {{ host }}, Port: {{port}}",
        &vars(&[("host", "example.com")]),
    );
    assert_eq!(rendered, "Host: example.com, Port: {{port}}");
}

#[test]
fn template_edge_cases() {
    let v = vars(&[("a", "1"), ("b c", "2"), ("", "empty")]);
    assert_eq!(replace_placeholders("", &v), "");
    assert_eq!(replace_placeholders("plain", &v), "plain");
    assert_eq!(replace_placeholders("{{a}}{{ a }}{{a }}", &v), "111");
    assert_eq!(replace_placeholders("{{ b c }}", &v), "2");
    assert_eq!(replace_placeholders("{{}}|{{  }}", &v), "empty|empty");
    assert_eq!(replace_placeholders("x {{ a", &v), "x {{ a");
    assert_eq!(replace_placeholders("x }} {{a}}", &v), "x }} 1");
    assert_eq!(replace_placeholders("{{ {{a}} }}", &v), "{{ {{a}} }}");
    assert_eq!(replace_placeholders("{{a}}}}", &v), "1}}");
    assert_eq!(replace_placeholders("{{{a}}", &v), "{{{a}}");
    assert_eq!(replace_placeholders("{{ zz }} and {{a}}", &v), "{{ zz }} and 1");
    assert_eq!(replace_placeholders("h\u{e9} {{a}} \u{4e16}", &v), "h\u{e9} 1 \u{4e16}");
    assert_eq!(replace_placeholders("{{a}}", &vars(&[("a", "{{a}}")])), "{{a}}");
}

#[test]
fn archive_entries_that_escape_are_rejected() {
    assert_eq!(
        sanitize_extract_path("out", "../escape.txt"),
        Err("archive entry escapes destination: ../escape.txt".to_string())
    );
    assert_eq!(
        sanitize_extract_path("out", "/etc/passwd"),
        Err("archive entry has absolute path: /etc/passwd".to_string())
    );
    assert_eq!(
        sanitize_extract_path("out", "sub/dir/file.txt"),
        Ok("out/sub/dir/file.txt".to_string())
    );
}

#[test]
fn archive_entry_edge_cases() {
    assert!(sanitize_extract_path("out", "a/../b").is_err());
    assert!(sanitize_extract_path("out", "a/..").is_err());
    assert!(sanitize_extract_path("out", "..").is_err());
    assert_eq!(
        sanitize_extract_path("out", "/../x"),
        Err("archive entry escapes destination: /../x".to_string())
    );
    assert_eq!(sanitize_extract_path("out", "a/..b/c"), Ok("out/a/..b/c".to_string()));
    assert_eq!(sanitize_extract_path("out", "a/.../c"), Ok("out/a/.../c".to_string()));
    assert_eq!(sanitize_extract_path("out/", "dir/"), Ok("out/dir/".to_string()));
    assert_eq!(sanitize_extract_path("", "file"), Ok("file".to_string()));
    assert_eq!(sanitize_extract_path("/abs/out", "file"), Ok("/abs/out/file".to_string()));
    assert_eq!(join_path("a", "b"), "a/b");
    assert_eq!(join_path("a/", "b"), "a/b");
    assert_eq!(join_path("", "b"), "b");
}

#[test]
fn resolved_targets_must_lie_within_the_destination() {
    let list = |items: &[&str]| items.iter().map(|s| s.to_string()).collect::<Vec<String>>();
    let root = list(&["/", "tmp", "out"]);
    assert_eq!(confirm_within("a", &root, &list(&["/", "tmp", "out", "a"])), Ok(()));
    assert_eq!(confirm_within("a", &root, &root), Ok(()));
    assert_eq!(
        confirm_within("link/x", &root, &list(&["/", "etc", "x"])),
        Err("archive entry outside destination: link/x".to_string())
    );
    assert_eq!(
        confirm_within("x", &root, &list(&["/", "tmp"])),
        Err("archive entry outside destination: x".to_string())
    );
    assert_eq!(
        confirm_within("x", &root, &list(&["/", "tmp", "output", "x"])),
        Err("archive entry outside destination: x".to_string())
    );
    assert_eq!(confirm_within("x", &Vec::new(), &list(&["anything"])), Ok(()));
}

#[test]
fn archive_entries_become_actions() {
    match plan_entry("out", "sub/dir/", true, Some(0o755), true).unwrap() {
        EntryAction::CreateDirectory { path } => assert_eq!(path, "out/sub/dir/"),
        other => panic!("unexpected action {other:?}"),
    }
    match plan_entry("out", "bin/tool", false, Some(0o755), true).unwrap() {
        EntryAction::WriteFile { path, mode } => {
            assert_eq!(path, "out/bin/tool");
            assert_eq!(mode, Some(0o755));
        }
        other => panic!("unexpected action {other:?}"),
    }
    match plan_entry("out", "bin/tool", false, Some(0o755), false).unwrap() {
        EntryAction::WriteFile { mode, .. } => assert_eq!(mode, None),
        other => panic!("unexpected action {other:?}"),
    }
    match plan_entry("out", "bin/tool", false, None, true).unwrap() {
        EntryAction::WriteFile { mode, .. } => assert_eq!(mode, None),
        other => panic!("unexpected action {other:?}"),
    }
    assert_eq!(
        plan_entry("out", "../x", false, None, true).unwrap_err(),
        "archive entry escapes destination: ../x"
    );
}

#[test]
fn shell_depends_on_the_platform() {
    assert_eq!(shell_for("windows"), ("cmd".to_string(), "/C".to_string()));
    assert_eq!(shell_for("macos"), ("/bin/sh".to_string(), "-c".to_string()));
    assert_eq!(shell_for("linux"), ("/bin/sh".to_string(), "-c".to_string()));
    assert_eq!(shell_for("Windows"), ("/bin/sh".to_string(), "-c".to_string()));
}

#[test]
fn command_succeeds_only_with_exit_code_zero() {
    assert_eq!(run_command("echo", CommandReport::Exited(Some(0))), Ok(()));
    assert_eq!(
        run_command("false", CommandReport::Exited(Some(1))),
        Err("command exited with status Some(1)".to_string())
    );
    assert_eq!(
        run_command("x", CommandReport::Exited(Some(-1073741819))),
        Err("command exited with status Some(-1073741819)".to_string())
    );
    assert_eq!(
        run_command("sleep 9", CommandReport::Exited(None)),
        Err("command exited with status None".to_string())
    );
    assert_eq!(
        run_command("nope --x", CommandReport::NotStarted),
        Err("running shell command: nope --x".to_string())
    );
}

#[test]
fn download_succeeds_only_with_2xx() {
    let answered = |status: u16, text: &str| DownloadReport::Answered {
        status,
        status_text: text.to_string(),
    };
    assert_eq!(perform_download("http://x", &answered(200, "200 OK")), Ok(()));
    assert_eq!(perform_download("http://x", &answered(204, "204 No Content")), Ok(()));
    assert_eq!(perform_download("http://x", &answered(299, "299")), Ok(()));
    assert_eq!(
        perform_download("http://x", &answered(404, "404 Not Found")),
        Err("download failed with status 404 Not Found".to_string())
    );
    assert_eq!(
        perform_download("http://x", &answered(199, "199")),
        Err("download failed with status 199".to_string())
    );
    assert_eq!(
        perform_download("http://x", &answered(300, "300 Multiple Choices")),
        Err("download failed with status 300 Multiple Choices".to_string())
    );
    assert_eq!(
        perform_download("http://x", &DownloadReport::RequestFailed),
        Err("requesting http://x".to_string())
    );
}

#[test]
fn second_step_failure_stops_the_plan() {
    let p = plan(&["one", "two", "three"]);
    let attempted: RefCell<Vec<usize>> = RefCell::new(Vec::new());
    let result = execute_plan(&p, |step: &PlannedStep| {
        attempted.borrow_mut().push(step.index);
        let outcome = if step.index == 1 {
            Err("boom".to_string())
        } else {
            Ok(())
        };
        execute_step(step, outcome)
    });
    match result {
        Err(ExecutionError::StepFailed { index, message }) => {
            assert_eq!(index, 1);
            assert_eq!(message, "boom");
        }
        other => panic!("unexpected result {other:?}"),
    }
    assert_eq!(*attempted.borrow(), vec![0, 1]);
}

#[test]
fn all_steps_succeeding_completes_the_plan() {
    let p = plan(&["one", "two", "three"]);
    let attempted: RefCell<Vec<usize>> = RefCell::new(Vec::new());
    let result = execute_plan(&p, |step: &PlannedStep| {
        attempted.borrow_mut().push(step.index);
        Ok(())
    })
    .unwrap();
    assert_eq!(
        result,
        ExecutionResult {
            completed_steps: 3,
            total_steps: 3
        }
    );
    assert_eq!(*attempted.borrow(), vec![0, 1, 2]);
    let empty = execute_plan(&plan(&[]), |_step: &PlannedStep| {
        Err(ExecutionError::Other("never called".to_string()))
    })
    .unwrap();
    assert_eq!(
        empty,
        ExecutionResult {
            completed_steps: 0,
            total_steps: 0
        }
    );
}

#[test]
fn failure_without_index_is_ascribed_to_the_position() {
    let p = plan(&["one", "two", "three"]);
    let result = execute_plan(&p, |step: &PlannedStep| {
        if step.index == 2 {
            Err(ExecutionError::Other("disk full".to_string()))
        } else {
            Ok(())
        }
    });
    match result {
        Err(ExecutionError::StepFailed { index, message }) => {
            assert_eq!(index, 2);
            assert_eq!(message, "disk full");
        }
        other => panic!("unexpected result {other:?}"),
    }
}

#[test]
fn progress_moves_one_step_at_a_time() {
    let p = plan(&["one", "two"]);
    assert!(matches!(begin(&p), Progress::Continue(0)));
    assert!(matches!(
        begin(&plan(&[])),
        Progress::Finished(ExecutionResult {
            completed_steps: 0,
            total_steps: 0
        })
    ));
    assert!(matches!(advance(&p, 0, Ok(())), Progress::Continue(1)));
    assert!(matches!(
        advance(&p, 1, Ok(())),
        Progress::Finished(ExecutionResult {
            completed_steps: 2,
            total_steps: 2
        })
    ));
    match advance(&p, 0, execute_step(&p.steps[0], Err("bad".to_string()))) {
        Progress::Failed(ExecutionError::StepFailed { index, message }) => {
            assert_eq!(index, 0);
            assert_eq!(message, "bad");
        }
        other => panic!("unexpected progress {other:?}"),
    }
    match advance(&p, 1, Err(ExecutionError::Other("odd".to_string()))) {
        Progress::Failed(ExecutionError::StepFailed { index, message }) => {
            assert_eq!(index, 1);
            assert_eq!(message, "odd");
        }
        other => panic!("unexpected progress {other:?}"),
    }
}

#[test]
fn execution_errors_read_as_sentences() {
    let failed = ExecutionError::StepFailed {
        index: 12,
        message: "command exited with status Some(2)".to_string(),
    };
    assert_eq!(failed.message(), "step 12 failed: command exited with status Some(2)");
    assert_eq!(ExecutionError::Other("plain".to_string()).message(), "plain");
}
