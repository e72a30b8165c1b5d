use enzyme_installer::cli::{
    exit_code, failed_step_index, install_outcome, no_compatible_message, no_compatible_summary,
    planning_outcome, progress_line, Outcome,
};
use enzyme_installer::env_detect::Environment;
use enzyme_installer::executor::{ExecutionError, ExecutionResult};
use enzyme_installer::manifest::Step;
use enzyme_installer::planner::{InstallPlan, PlannedStep, PlannerError};
use enzyme_installer::runtime_env::{
    create_venv, local_node, node_bin_dir, prepare_node_env, prepare_python_env,
    prepare_runtime_env, resolve_root, venv_bin_dir, venv_dir, venv_exists, venv_launcher,
    venv_python, ExecutionContext, NodeRuntime, RuntimeEnv, RuntimeEnvType, RuntimeFacts,
};

fn facts(root: &str) -> RuntimeFacts {
    RuntimeFacts {
        root: root.to_string(),
        local_node_present: false,
        global_node_present: false,
        venv_failure: None,
        existing_path: "/usr/bin:/bin".to_string(),
        windows_host: false,
    }
}

fn node_runtime(strategy: Option<&str>) -> RuntimeEnv {
    RuntimeEnv {
        kind: RuntimeEnvType::NodeLocal,
        root: "rt".to_string(),
        node: Some(NodeRuntime {
            install_strategy: strategy.map(str::to_string),
        }),
    }
}

#[test]
fn new_context_changes_nothing() {
    let ctx = ExecutionContext::new();
    assert!(ctx.env.is_empty());
    assert!(ctx.path_prefixes.is_empty());
    assert_eq!(ctx.merged_path("/usr/bin", false), None);
}

#[test]
fn merged_path_puts_prefixes_first() {
    let mut ctx = ExecutionContext::new();
    ctx.path_prefixes.push("/opt/a/bin".to_string());
    ctx.path_prefixes.push("/opt/b/bin".to_string());
    assert_eq!(
        ctx.merged_path("/usr/bin:/bin", false),
        Some("/opt/a/bin:/opt/b/bin:/usr/bin:/bin".to_string())
    );
    assert_eq!(ctx.merged_path("", false), Some("/opt/a/bin:/opt/b/bin".to_string()));
    assert_eq!(
        ctx.merged_path("C:\\Windows", true),
        Some("/opt/a/bin;/opt/b/bin;C:\\Windows".to_string())
    );
}

#[test]
fn runtime_layout_depends_on_the_platform() {
    assert_eq!(node_bin_dir("/rt"), "/rt/node/bin");
    assert_eq!(local_node("/rt", "macos"), "/rt/node/bin/node");
    assert_eq!(local_node("/rt", "windows"), "/rt/node/bin/node.exe");
    assert_eq!(venv_dir("/rt"), "/rt/venv");
    assert_eq!(venv_bin_dir("/rt", "macos"), "/rt/venv/bin");
    assert_eq!(venv_bin_dir("/rt", "windows"), "/rt/venv/Scripts");
    assert_eq!(venv_python("/rt", "macos"), "/rt/venv/bin/python");
    assert_eq!(venv_python("/rt", "windows"), "/rt/venv/Scripts/python.exe");
    assert_eq!(venv_launcher("windows"), "py");
    assert_eq!(venv_launcher("macos"), "python3");
    assert_eq!(resolve_root("/abs/rt", true, "/work"), "/abs/rt");
    assert_eq!(resolve_root("rt", false, "/work"), "/work/rt");
    assert!(venv_exists("/rt", "macos", &vec!["/rt/venv/bin/python".to_string()]));
    assert!(!venv_exists("/rt", "windows", &vec!["/rt/venv/bin/python".to_string()]));
    assert!(!venv_exists("/rt", "macos", &Vec::new()));
}

#[test]
fn venv_creation_falls_back() {
    assert_eq!(create_venv(true, false), Ok(()));
    assert_eq!(create_venv(false, true), Ok(()));
    assert_eq!(
        create_venv(false, false),
        Err("failed to create python virtual environment".to_string())
    );
}

#[test]
fn node_runtime_prefers_the_local_one() {
    let mut ctx = ExecutionContext::new();
    assert_eq!(prepare_node_env(&node_runtime(None), "/rt", true, false, &mut ctx), Ok(()));
    assert_eq!(ctx.path_prefixes, vec!["/rt/node/bin"]);
    assert!(ctx.env.is_empty());

    let mut ctx = ExecutionContext::new();
    assert_eq!(prepare_node_env(&node_runtime(None), "/rt", false, true, &mut ctx), Ok(()));
    assert!(ctx.path_prefixes.is_empty());

    let mut ctx = ExecutionContext::new();
    assert_eq!(
        prepare_node_env(&node_runtime(Some("prefer_global")), "/rt", false, true, &mut ctx),
        Ok(())
    );

    let message = "Node runtime not available locally and no compatible global installation found";
    let mut ctx = ExecutionContext::new();
    assert_eq!(
        prepare_node_env(&node_runtime(Some("local_only")), "/rt", false, true, &mut ctx),
        Err(message.to_string())
    );
    assert_eq!(
        prepare_node_env(&node_runtime(None), "/rt", false, false, &mut ctx),
        Err(message.to_string())
    );
    assert!(ctx.path_prefixes.is_empty());
}

#[test]
fn python_runtime_names_the_virtual_environment() {
    let mut ctx = ExecutionContext::new();
    prepare_python_env("/rt", "windows", &mut ctx);
    assert_eq!(ctx.env.get("VIRTUAL_ENV"), Some(&"/rt/venv".to_string()));
    assert_eq!(ctx.env.len(), 1);
    assert_eq!(ctx.path_prefixes, vec!["/rt/venv/Scripts"]);
}

#[test]
fn runtime_context_is_prepared_from_facts() {
    assert!(prepare_runtime_env(None, "macos", &facts("/rt")).unwrap().is_none());

    let python = RuntimeEnv {
        kind: RuntimeEnvType::PythonVenv,
        root: "rt".to_string(),
        node: None,
    };
    let ctx = prepare_runtime_env(Some(&python), "macos", &facts("/rt"))
        .unwrap()
        .unwrap();
    assert_eq!(ctx.path_prefixes, vec!["/rt/venv/bin"]);
    assert_eq!(ctx.env.get("VIRTUAL_ENV"), Some(&"/rt/venv".to_string()));
    assert_eq!(ctx.env.get("PATH"), Some(&"/rt/venv/bin:/usr/bin:/bin".to_string()));
    assert_eq!(ctx.env.len(), 2);

    let failed = RuntimeFacts {
        venv_failure: Some("failed to create python virtual environment".to_string()),
        ..facts("/rt")
    };
    assert_eq!(
        prepare_runtime_env(Some(&python), "macos", &failed).unwrap_err(),
        "failed to create python virtual environment"
    );

    let local = RuntimeFacts {
        local_node_present: true,
        ..facts("/rt")
    };
    let ctx = prepare_runtime_env(Some(&node_runtime(None)), "macos", &local)
        .unwrap()
        .unwrap();
    assert_eq!(ctx.path_prefixes, vec!["/rt/node/bin"]);
    assert_eq!(ctx.env.get("PATH"), Some(&"/rt/node/bin:/usr/bin:/bin".to_string()));

    let global = RuntimeFacts {
        global_node_present: true,
        ..facts("/rt")
    };
    let ctx = prepare_runtime_env(Some(&node_runtime(None)), "macos", &global)
        .unwrap()
        .unwrap();
    assert!(ctx.path_prefixes.is_empty());
    assert!(ctx.env.is_empty());

    assert!(prepare_runtime_env(Some(&node_runtime(None)), "macos", &facts("/rt")).is_err());
}

#[test]
fn exit_codes_tell_outcomes_apart() {
    assert_eq!(exit_code(Outcome::Done), 0);
    assert_eq!(exit_code(Outcome::SetupFailed), 1);
    assert_eq!(exit_code(Outcome::NoCompatibleMode), 2);
    assert_eq!(exit_code(Outcome::InstallFailed), 3);

    let plan = InstallPlan {
        app_name: "demo".to_string(),
        app_version: "1".to_string(),
        chosen_mode: "full".to_string(),
        os: "macos".to_string(),
        steps: vec![
            PlannedStep {
                index: 0,
                description: "Run: a".to_string(),
                command: "a".to_string(),
                step: Step::Run {
                    run: "a".to_string(),
                },
            },
            PlannedStep {
                index: 1,
                description: "Run: b".to_string(),
                command: "b".to_string(),
                step: Step::Run {
                    run: "b".to_string(),
                },
            },
        ],
    };
    assert_eq!(progress_line(&plan, 0), "==> [1/2] Run: a");
    assert_eq!(progress_line(&plan, 1), "==> [2/2] Run: b");
    assert_eq!(planning_outcome(&Ok(plan)), Outcome::Done);
    let nothing = PlannerError::NoCompatibleMode {
        environment: Environment {
            os: "macos".to_string(),
            os_version: "14".to_string(),
            cpu_arch: "arm64".to_string(),
            ram_gb: 8,
            pkg_managers: Vec::new(),
            fingerprint: None,
        },
        reasons: Vec::new(),
    };
    assert_eq!(planning_outcome(&Err(nothing)), Outcome::NoCompatibleMode);

    let done: Result<ExecutionResult, ExecutionError> = Ok(ExecutionResult {
        completed_steps: 2,
        total_steps: 2,
    });
    assert_eq!(install_outcome(&done), Outcome::Done);
    let failed = ExecutionError::StepFailed {
        index: 1,
        message: "x".to_string(),
    };
    assert_eq!(failed_step_index(&failed), Some(1));
    assert_eq!(failed_step_index(&ExecutionError::Other("x".to_string())), None);
    assert_eq!(install_outcome(&Err(failed)), Outcome::InstallFailed);
}

#[test]
fn failures_are_summed_up() {
    assert_eq!(no_compatible_message(), "No compatible modes for this environment");
    let reasons = vec![
        "full: missing required steps for macos".to_string(),
        "lite: requires >= 8 GiB RAM, found 4 GiB".to_string(),
    ];
    assert_eq!(
        no_compatible_summary(&reasons),
        "No compatible modes for this environment: full: missing required steps for macos; \
         lite: requires >= 8 GiB RAM, found 4 GiB"
    );
    assert_eq!(
        no_compatible_summary(&Vec::new()),
        "No compatible modes for this environment: "
    );
}
