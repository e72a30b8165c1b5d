use enzyme_installer::env_detect::{Environment, Fingerprint};
use enzyme_installer::manifest::{
    parse_os_constraint, DownloadStep, Manifest, Mode, Requirements, Step,
};
use enzyme_installer::planner::{
    choose_best_mode, is_mode_compatible, os_matches, plan_install, required_ram, PlannerError,
};
use enzyme_installer::strmap::StrMap;

fn env(os: &str, os_version: &str, cpu_arch: &str, ram_gb: u64) -> Environment {
    Environment {
        os: os.to_string(),
        os_version: os_version.to_string(),
        cpu_arch: cpu_arch.to_string(),
        ram_gb,
        pkg_managers: Vec::new(),
        fingerprint: None,
    }
}

fn run(command: &str) -> Step {
    Step::Run {
        run: command.to_string(),
    }
}

fn mode(requirements: Option<Requirements>, platforms: Vec<(&str, Vec<Step>)>) -> Mode {
    let mut steps = StrMap::new();
    for (platform, list) in platforms {
        steps.insert(platform.to_string(), list);
    }
    Mode {
        requirements,
        steps,
    }
}

fn ram(ram_gb: u64) -> Option<Requirements> {
    Some(Requirements {
        os: Vec::new(),
        cpu_arch: Vec::new(),
        ram_gb: Some(ram_gb),
    })
}

fn manifest(modes: Vec<(&str, Mode)>) -> Manifest {
    let mut map = StrMap::new();
    for (name, m) in modes {
        map.insert(name.to_string(), m);
    }
    Manifest {
        name: "demo".to_string(),
        version: "1.2.3".to_string(),
        modes: map,
    }
}

#[test]
fn full_is_chosen_irrespective_of_ram() {
    let m = manifest(vec![
        ("full", mode(ram(1), vec![("windows", vec![run("full")])])),
        ("lite", mode(ram(64), vec![("windows", vec![run("lite")])])),
    ]);
    let plan = plan_install(&m, &env("windows", "10.0", "x64", 128)).unwrap();
    assert_eq!(plan.chosen_mode, "full");
    let m = manifest(vec![
        ("full", mode(None, vec![("windows", vec![run("full")])])),
        ("zzz", mode(ram(64), vec![("windows", vec![run("zzz")])])),
        ("aaa", mode(ram(64), vec![("windows", vec![run("aaa")])])),
    ]);
    let plan = plan_install(&m, &env("windows", "10.0", "x64", 128)).unwrap();
    assert_eq!(plan.chosen_mode, "full");
}

#[test]
fn largest_ram_requirement_wins_without_full() {
    let m = manifest(vec![
        ("lite", mode(ram(4), vec![("windows", vec![run("lite")])])),
        ("pro", mode(ram(16), vec![("windows", vec![run("pro")])])),
    ]);
    let plan = plan_install(&m, &env("windows", "10.0", "x64", 32)).unwrap();
    assert_eq!(plan.chosen_mode, "pro");
    let m = manifest(vec![
        ("big", mode(ram(16), vec![("windows", vec![run("big")])])),
        ("small", mode(None, vec![("windows", vec![run("small")])])),
    ]);
    let plan = plan_install(&m, &env("windows", "10.0", "x64", 32)).unwrap();
    assert_eq!(plan.chosen_mode, "big");
}

#[test]
fn incompatible_full_does_not_win() {
    let m = manifest(vec![
        ("full", mode(ram(64), vec![("windows", vec![run("full")])])),
        ("lite", mode(ram(4), vec![("windows", vec![run("lite")])])),
    ]);
    let plan = plan_install(&m, &env("windows", "10.0", "x64", 8)).unwrap();
    assert_eq!(plan.chosen_mode, "lite");
}

#[test]
fn ties_go_to_the_mode_listed_first() {
    let m = manifest(vec![
        ("beta", mode(ram(8), vec![("windows", vec![run("beta")])])),
        ("alpha", mode(ram(8), vec![("windows", vec![run("alpha")])])),
        ("gamma", mode(ram(2), vec![("windows", vec![run("gamma")])])),
    ]);
    let plan = plan_install(&m, &env("windows", "10.0", "x64", 8)).unwrap();
    assert_eq!(plan.chosen_mode, "alpha");
}

#[test]
fn plan_lists_the_steps_of_the_platform_in_order() {
    let download = Step::Download {
        download: DownloadStep {
            url: "https://example.com/app.zip".to_string(),
            dest: "app.zip".to_string(),
        },
    };
    let m = manifest(vec![(
        "full",
        mode(
            None,
            vec![
                ("macos", vec![run("brew install x"), download.clone(), run("echo done")]),
                ("windows", vec![run("winget install x")]),
            ],
        ),
    )]);
    let plan = plan_install(&m, &env("macos", "14.2", "arm64", 16)).unwrap();
    assert_eq!(plan.app_name, "demo");
    assert_eq!(plan.app_version, "1.2.3");
    assert_eq!(plan.chosen_mode, "full");
    assert_eq!(plan.os, "macos");
    assert_eq!(plan.steps.len(), 3);
    assert_eq!(plan.steps[0].index, 0);
    assert_eq!(plan.steps[0].description, "Run: brew install x");
    assert_eq!(plan.steps[0].command, "brew install x");
    assert_eq!(plan.steps[1].index, 1);
    assert_eq!(plan.steps[1].description, "Download: https://example.com/app.zip -> app.zip");
    assert_eq!(plan.steps[1].command, "");
    assert!(matches!(plan.steps[1].step, Step::Download { .. }));
    assert_eq!(plan.steps[2].index, 2);
    assert_eq!(plan.steps[2].command, "echo done");
    let copy = plan.clone();
    assert_eq!(copy.steps.len(), 3);
    assert_eq!(copy.chosen_mode, "full");
}

#[test]
fn mode_without_steps_for_the_platform_is_excluded() {
    let only_mac = mode(None, vec![("macos", vec![run("echo")])]);
    let windows = env("windows", "10.0", "x64", 8);
    assert_eq!(is_mode_compatible("full", &only_mac, &windows), Ok(false));
    let generous = mode(ram(0), vec![("macos", vec![run("echo")])]);
    assert_eq!(is_mode_compatible("full", &generous, &windows), Ok(false));
    let impossible = mode(ram(u64::MAX), vec![("macos", vec![run("echo")])]);
    assert_eq!(is_mode_compatible("full", &impossible, &windows), Ok(false));
}

#[test]
fn no_compatible_mode_gives_one_reason_per_mode_in_order() {
    let os_req = Some(Requirements {
        os: vec![
            parse_os_constraint("macos").unwrap(),
            parse_os_constraint("windows>=11").unwrap(),
        ],
        cpu_arch: Vec::new(),
        ram_gb: None,
    });
    let arch_req = Some(Requirements {
        os: Vec::new(),
        cpu_arch: vec!["arm64".to_string(), "risc\"v".to_string()],
        ram_gb: None,
    });
    let m = manifest(vec![
        ("ram", mode(ram(64), vec![("windows", vec![run("echo")])])),
        ("os", mode(os_req, vec![("windows", vec![run("echo")])])),
        ("mac", mode(None, vec![("macos", vec![run("echo")])])),
        ("arch", mode(arch_req, vec![("windows", vec![run("echo")])])),
    ]);
    let detected = env("windows", "10.0", "x64", 8);
    let err = plan_install(&m, &detected).unwrap_err();
    let PlannerError::NoCompatibleMode {
        environment,
        reasons,
    } = err;
    assert_eq!(environment.os, "windows");
    assert_eq!(environment.os_version, "10.0");
    assert_eq!(environment.cpu_arch, "x64");
    assert_eq!(environment.ram_gb, 8);
    assert_eq!(
        reasons,
        vec![
            "arch: requires CPU in [\"arm64\", \"risc\\\"v\"], found x64".to_string(),
            "mac: missing required steps for windows".to_string(),
            "os: requires [OsConstraint { family: \"macos\", min_version: None }, \
             OsConstraint { family: \"windows\", min_version: Some(\"11\") }], found windows 10.0"
                .to_string(),
            "ram: requires >= 64 GiB RAM, found 8 GiB".to_string(),
        ]
    );
}

#[test]
fn requirements_are_checked_os_then_arch_then_ram() {
    let all = Some(Requirements {
        os: vec![parse_os_constraint("macos").unwrap()],
        cpu_arch: vec!["arm64".to_string()],
        ram_gb: Some(64),
    });
    let m = mode(all, vec![("windows", vec![run("echo")])]);
    let reason = is_mode_compatible("m", &m, &env("windows", "10", "x64", 8)).unwrap_err();
    assert!(reason.starts_with("requires [OsConstraint"));
    let arch_and_ram = Some(Requirements {
        os: vec![parse_os_constraint("windows").unwrap()],
        cpu_arch: vec!["arm64".to_string()],
        ram_gb: Some(64),
    });
    let m = mode(arch_and_ram, vec![("windows", vec![run("echo")])]);
    let reason = is_mode_compatible("m", &m, &env("windows", "10", "x64", 8)).unwrap_err();
    assert_eq!(reason, "requires CPU in [\"arm64\"], found x64");
}

#[test]
fn os_constraints_match_family_and_minimum_version() {
    let detected = env("windows", "10.0.19045", "x64", 8);
    assert!(os_matches(&detected, &parse_os_constraint("windows").unwrap()));
    assert!(os_matches(&detected, &parse_os_constraint("Windows>=10").unwrap()));
    assert!(os_matches(&detected, &parse_os_constraint("windows>=10.0.19045").unwrap()));
    assert!(!os_matches(&detected, &parse_os_constraint("windows>=11").unwrap()));
    assert!(!os_matches(&detected, &parse_os_constraint("macos").unwrap()));
    let named = env("Windows", "Windows 11 Pro", "x64", 8);
    assert!(os_matches(&named, &parse_os_constraint("windows").unwrap()));
    assert!(!os_matches(&named, &parse_os_constraint("windows>=10").unwrap()));
    assert!(os_matches(&named, &parse_os_constraint("windows>=Windows 11 Pro").unwrap()));
}

#[test]
fn architecture_and_ram_requirements() {
    let req = Some(Requirements {
        os: Vec::new(),
        cpu_arch: vec!["X64".to_string(), "arm64".to_string()],
        ram_gb: Some(8),
    });
    let m = mode(req, vec![("windows", vec![run("echo")])]);
    assert_eq!(is_mode_compatible("m", &m, &env("windows", "10", "x64", 8)), Ok(true));
    assert_eq!(is_mode_compatible("m", &m, &env("windows", "10", "ARM64", 9)), Ok(true));
    assert_eq!(
        is_mode_compatible("m", &m, &env("windows", "10", "x64", 7)),
        Err("requires >= 8 GiB RAM, found 7 GiB".to_string())
    );
    assert_eq!(
        is_mode_compatible("m", &m, &env("windows", "10", "x86", 16)),
        Err("requires CPU in [\"X64\", \"arm64\"], found x86".to_string())
    );
}

#[test]
fn required_ram_defaults_to_zero() {
    assert_eq!(required_ram(&mode(None, vec![])), 0);
    assert_eq!(required_ram(&mode(Some(Requirements::default()), vec![])), 0);
    assert_eq!(required_ram(&mode(ram(12), vec![])), 12);
}

#[test]
fn best_mode_among_candidates() {
    let lite = mode(ram(4), vec![]);
    let pro = mode(ram(16), vec![]);
    let full = mode(None, vec![]);
    let names = ["lite".to_string(), "pro".to_string(), "full".to_string()];
    let chosen = choose_best_mode(&[(&names[0], &lite), (&names[1], &pro)]);
    assert_eq!(chosen.0, "pro");
    let chosen = choose_best_mode(&[(&names[0], &lite), (&names[1], &pro), (&names[2], &full)]);
    assert_eq!(chosen.0, "full");
    let chosen = choose_best_mode(&[(&names[0], &lite)]);
    assert_eq!(chosen.0, "lite");
}

#[test]
fn planner_error_reads_as_a_sentence() {
    let mut detected = env("windows", "10.0", "x64", 8);
    detected.pkg_managers = vec!["choco".to_string(), "scoop".to_string()];
    let err = PlannerError::NoCompatibleMode {
        environment: detected.clone(),
        reasons: vec!["a: missing required steps for windows".to_string(), "b: \"q\"".to_string()],
    };
    assert_eq!(
        err.message(),
        "no compatible mode found for environment Environment { os: \"windows\", \
         os_version: \"10.0\", cpu_arch: \"x64\", ram_gb: 8, \
         pkg_managers: [\"choco\", \"scoop\"], fingerprint: None }: \
         [\"a: missing required steps for windows\", \"b: \\\"q\\\"\"]"
    );
    detected.pkg_managers = Vec::new();
    detected.fingerprint = Some(Fingerprint {
        os: "windows".to_string(),
        os_version: "10.0".to_string(),
        cpu_arch: "x64".to_string(),
        ram_gb: 8,
        hostname: Some("box".to_string()),
        hash: "ab12".to_string(),
    });
    assert_eq!(
        detected.debug_text(),
        "Environment { os: \"windows\", os_version: \"10.0\", cpu_arch: \"x64\", ram_gb: 8, \
         pkg_managers: [], fingerprint: Some(Fingerprint { os: \"windows\", \
         os_version: \"10.0\", cpu_arch: \"x64\", ram_gb: 8, hostname: Some(\"box\"), \
         extra: None, hash: \"ab12\" }) }"
    );
}
