use enzyme_installer::env_detect::{
    compute_fingerprint, detect_environment, detect_package_managers, normalize_arch, normalize_os,
    package_manager_candidates, to_hex, HostProbe,
};
use enzyme_installer::executor::{ExecutionError, ExecutionResult};
use enzyme_installer::planner::InstallPlan;
use enzyme_installer::state::{
    add_install_record, load_state, save_state, state_file_path, temp_file_path, InstallRecord,
    InstallStatus, State, StoreAction, Timestamp,
};

#[test]
fn normalizes_platform_names() {
    assert_eq!(normalize_os("macos"), "macos");
    assert_eq!(normalize_os("windows"), "windows");
    assert_eq!(normalize_os("Linux"), "linux");
    assert_eq!(normalize_os("FreeBSD"), "freebsd");
    assert_eq!(normalize_arch("x86_64"), "x64");
    assert_eq!(normalize_arch("aarch64"), "arm64");
    assert_eq!(normalize_arch("RISCV64"), "riscv64");
    assert_eq!(normalize_arch("X86_64"), "x86_64");
}

#[test]
fn lists_package_managers_by_platform() {
    assert_eq!(package_manager_candidates("macos"), vec!["brew"]);
    assert_eq!(package_manager_candidates("windows"), vec!["winget", "choco", "scoop"]);
    assert!(package_manager_candidates("linux").is_empty());
    let found = vec!["scoop".to_string(), "brew".to_string(), "winget".to_string()];
    assert_eq!(detect_package_managers("windows", &found), vec!["winget", "scoop"]);
    assert_eq!(detect_package_managers("macos", &found), vec!["brew"]);
    assert!(detect_package_managers("linux", &found).is_empty());
    assert!(detect_package_managers("windows", &Vec::new()).is_empty());
}

#[test]
fn hex_is_lowercase_two_digits_per_byte() {
    assert_eq!(to_hex(&[]), "");
    assert_eq!(to_hex(&[0x00, 0x0f, 0xa0, 0xff]), "000fa0ff");
}

#[test]
fn fingerprint_digests_the_attributes() {
    let f = compute_fingerprint("macos", "14.2", "arm64", 16, Some("studio".to_string()));
    assert_eq!(f.os, "macos");
    assert_eq!(f.os_version, "14.2");
    assert_eq!(f.cpu_arch, "arm64");
    assert_eq!(f.ram_gb, 16);
    assert_eq!(f.hostname.as_deref(), Some("studio"));
    assert_eq!(f.hash, "1ce34cdea7db0dd37dd13283986bde5f2ef1caa47be41a76705fc145871f407a");
    let g = compute_fingerprint("windows", "unknown", "x64", 8, None);
    assert_eq!(g.hostname, None);
    assert_eq!(g.hash, "cf1fb373b62169d65b769cf8179b79cc676eabdc512ac200de5ae4346c1bfc5e");
}

#[test]
fn environment_is_assembled_from_the_probe() {
    let probe = HostProbe {
        os: "windows".to_string(),
        arch: "x86_64".to_string(),
        long_os_version: None,
        os_version: None,
        total_memory: 8 * 1_048_576 + 1_048_575,
        host_name: None,
        commands: vec!["choco".to_string()],
    };
    let env = detect_environment(&probe);
    assert_eq!(env.os, "windows");
    assert_eq!(env.os_version, "unknown");
    assert_eq!(env.cpu_arch, "x64");
    assert_eq!(env.ram_gb, 8);
    assert_eq!(env.pkg_managers, vec!["choco"]);
    let fingerprint = env.fingerprint.clone().unwrap();
    assert_eq!(
        fingerprint.hash,
        "cf1fb373b62169d65b769cf8179b79cc676eabdc512ac200de5ae4346c1bfc5e"
    );
    let copy = env.clone();
    assert_eq!(copy.os, "windows");
    assert_eq!(copy.pkg_managers, vec!["choco"]);
    assert_eq!(copy.fingerprint.unwrap().hash, fingerprint.hash);

    let probe = HostProbe {
        os: "macos".to_string(),
        arch: "aarch64".to_string(),
        long_os_version: Some("macOS 14.2 Sonoma".to_string()),
        os_version: Some("14.2".to_string()),
        total_memory: 1_048_575,
        host_name: Some("studio".to_string()),
        commands: Vec::new(),
    };
    let env = detect_environment(&probe);
    assert_eq!(env.os_version, "macOS 14.2 Sonoma");
    assert_eq!(env.ram_gb, 0);
    assert!(env.pkg_managers.is_empty());
    let probe = HostProbe {
        long_os_version: None,
        ..probe
    };
    assert_eq!(detect_environment(&probe).os_version, "14.2");
}

fn record(name: &str, status: InstallStatus) -> InstallRecord {
    InstallRecord {
        app_name: name.to_string(),
        app_version: "1".to_string(),
        mode: "full".to_string(),
        os: "macos".to_string(),
        cpu_arch: "arm64".to_string(),
        timestamp: Timestamp {
            secs: 1_700_000_000,
            nanos: 5,
        },
        status,
    }
}

#[test]
fn appends_keep_insertion_order() {
    let mut state = load_state(None);
    assert!(state.installs.is_empty());
    let names = ["a", "b", "c", "d"];
    for (n, name) in names.iter().enumerate() {
        add_install_record(&mut state, record(name, InstallStatus::Success));
        assert_eq!(state.installs.len(), n + 1);
        assert_eq!(state.installs[n].app_name, *name);
    }
    let order: Vec<&str> = state.installs.iter().map(|r| r.app_name.as_str()).collect();
    assert_eq!(order, names);
    let copy = state.clone();
    let reloaded = load_state(Some(copy));
    assert_eq!(reloaded.installs.len(), 4);
    assert_eq!(reloaded.installs[3].app_name, "d");
    assert!(State::default().installs.is_empty());
}

#[test]
fn records_describe_the_attempt() {
    let plan = InstallPlan {
        app_name: "demo".to_string(),
        app_version: "2.0".to_string(),
        chosen_mode: "pro".to_string(),
        os: "windows".to_string(),
        steps: Vec::new(),
    };
    let env = detect_environment(&HostProbe {
        os: "windows".to_string(),
        arch: "aarch64".to_string(),
        long_os_version: None,
        os_version: Some("11".to_string()),
        total_memory: 0,
        host_name: None,
        commands: Vec::new(),
    });
    let at = Timestamp { secs: 42, nanos: 7 };
    let ok: Result<ExecutionResult, ExecutionError> = Ok(ExecutionResult {
        completed_steps: 0,
        total_steps: 0,
    });
    let failed: Result<ExecutionResult, ExecutionError> =
        Err(ExecutionError::Other("x".to_string()));
    assert_eq!(InstallStatus::of(&ok), InstallStatus::Success);
    assert_eq!(InstallStatus::of(&failed), InstallStatus::Failed);
    let r = InstallRecord::of_attempt(&plan, &env, at, InstallStatus::of(&failed));
    assert_eq!(r.app_name, "demo");
    assert_eq!(r.app_version, "2.0");
    assert_eq!(r.mode, "pro");
    assert_eq!(r.os, "windows");
    assert_eq!(r.cpu_arch, "arm64");
    assert_eq!(r.timestamp, at);
    assert_eq!(r.status, InstallStatus::Failed);
    assert_eq!(InstallStatus::Success.as_str(), "success");
    assert_eq!(InstallStatus::Failed.as_str(), "failed");
}

#[test]
fn history_file_lives_under_the_data_directory() {
    assert_eq!(
        state_file_path(Some("/home/u/.local/share")),
        Ok("/home/u/.local/share/enzyme-installer/state.json".to_string())
    );
    assert_eq!(
        state_file_path(None),
        Err("could not determine platform data directory".to_string())
    );
    assert_eq!(
        temp_file_path("/home/u/.local/share/"),
        "/home/u/.local/share/enzyme-installer/state.tmp"
    );
}

#[test]
fn history_is_replaced_by_a_rename_at_the_end() {
    let actions = save_state("/data");
    assert_eq!(actions.len(), 3);
    assert!(matches!(
        &actions[0],
        StoreAction::CreateDirectory { path } if path == "/data/enzyme-installer"
    ));
    assert!(matches!(
        &actions[1],
        StoreAction::WriteFile { path } if path == "/data/enzyme-installer/state.tmp"
    ));
    assert!(matches!(
        &actions[2],
        StoreAction::Rename { from, to }
            if from == "/data/enzyme-installer/state.tmp"
                && to == "/data/enzyme-installer/state.json"
    ));
}
