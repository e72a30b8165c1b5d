use enzyme_installer::manifest::{
    parse_os_constraint, validate_manifest, DownloadStep, ExtractStep, Manifest, ManifestError,
    ManifestValidationError, Mode, Requirements, Step, TemplateConfigStep,
};
use enzyme_installer::strmap::StrMap;

#[test]
fn parses_os_constraint_with_version() {
    let parsed = parse_os_constraint("windows>=10").expect("should parse valid constraint");
    assert_eq!(parsed.family, "windows");
    assert_eq!(parsed.min_version.as_deref(), Some("10"));
}

#[test]
fn validates_manifest_structure() {
    let manifest = Manifest {
        name: "demo".to_string(),
        version: "1.0.0".to_string(),
        modes: {
            let mut modes = StrMap::new();
            modes.insert(
                "full".to_string(),
                Mode {
                    requirements: Some(Requirements {
                        os: vec![parse_os_constraint("windows>=10").unwrap()],
                        cpu_arch: vec!["x64".to_string()],
                        ram_gb: Some(8),
                    }),
                    steps: {
                        let mut steps = StrMap::new();
                        steps.insert(
                            "windows".to_string(),
                            vec![Step::Run {
                                run: "echo ok".to_string(),
                            }],
                        );
                        steps
                    },
                },
            );
            modes
        },
    };

    validate_manifest(manifest).expect("manifest should be valid");
}

#[test]
fn rejects_empty_steps() {
    let manifest = Manifest {
        name: "demo".to_string(),
        version: "1.0.0".to_string(),
        modes: {
            let mut modes = StrMap::new();
            modes.insert(
                "full".to_string(),
                Mode {
                    requirements: None,
                    steps: StrMap::new(),
                },
            );
            modes
        },
    };

    let err = validate_manifest(manifest).expect_err("manifest should be invalid");
    assert!(matches!(err, ManifestValidationError::ModeMissingSteps(_)));
}

#[test]
fn refuses_unsupported_platforms() {
    let manifest = Manifest {
        name: "demo".to_string(),
        version: "1.0.0".to_string(),
        modes: {
            let mut modes = StrMap::new();
            let mut steps = StrMap::new();
            steps.insert("linux".to_string(), vec![Step::Run { run: "echo".into() }]);
            modes.insert(
                "full".to_string(),
                Mode {
                    requirements: None,
                    steps,
                },
            );
            modes
        },
    };

    let err = validate_manifest(manifest).expect_err("manifest should be invalid");
    assert!(matches!(err, ManifestValidationError::UnsupportedPlatform(_)));
}

#[test]
fn parses_os_constraint_forms() {
    let plain = parse_os_constraint("macos").unwrap();
    assert_eq!(plain.family, "macos");
    assert_eq!(plain.min_version, None);
    let spaced = parse_os_constraint("  Windows >= 10.0 ").unwrap();
    assert_eq!(spaced.family, "windows");
    assert_eq!(spaced.min_version.as_deref(), Some("10.0"));
    let upper = parse_os_constraint("MACOS").unwrap();
    assert_eq!(upper.family, "macos");
    let twice = parse_os_constraint("windows>=10>=11").unwrap();
    assert_eq!(twice.family, "windows");
    assert_eq!(twice.min_version.as_deref(), Some("10>=11"));
}

#[test]
fn rejects_malformed_os_constraints() {
    for raw in ["", "   ", ">=10", "  >= 10", "windows>=", "windows>=   "] {
        let err = parse_os_constraint(raw).expect_err("constraint should be refused");
        match &err {
            ManifestError::InvalidOsConstraint(text) => {
                assert_eq!(text, raw)
            }
        }
        assert_eq!(err.message(), format!("invalid OS constraint format: {raw}"));
    }
}

fn manifest_with(name: &str, version: &str, modes: Vec<(&str, Mode)>) -> Manifest {
    let mut map = StrMap::new();
    for (mode_name, mode) in modes {
        map.insert(mode_name.to_string(), mode);
    }
    Manifest {
        name: name.to_string(),
        version: version.to_string(),
        modes: map,
    }
}

fn mode_with(requirements: Option<Requirements>, platforms: Vec<(&str, Vec<Step>)>) -> Mode {
    let mut steps = StrMap::new();
    for (platform, list) in platforms {
        steps.insert(platform.to_string(), list);
    }
    Mode {
        requirements,
        steps,
    }
}

fn run(command: &str) -> Step {
    Step::Run {
        run: command.to_string(),
    }
}

#[test]
fn validation_reports_each_rule() {
    let ok_mode = || mode_with(None, vec![("windows", vec![run("echo")])]);

    let err = validate_manifest(manifest_with(" ", "1", vec![("full", ok_mode())])).unwrap_err();
    assert!(matches!(&err, ManifestValidationError::MissingField(f) if f == "name"));
    assert_eq!(err.message(), "manifest missing required field: name");

    let err = validate_manifest(manifest_with("demo", "", vec![("full", ok_mode())])).unwrap_err();
    assert!(matches!(&err, ManifestValidationError::MissingField(f) if f == "version"));
    assert_eq!(err.message(), "manifest missing required field: version");

    let err = validate_manifest(manifest_with("demo", "1", vec![])).unwrap_err();
    assert!(matches!(&err, ManifestValidationError::EmptyModes));
    assert_eq!(err.message(), "manifest has no modes defined");

    let err = validate_manifest(manifest_with("demo", "1", vec![("lite", mode_with(None, vec![]))]))
        .unwrap_err();
    assert!(matches!(&err, ManifestValidationError::ModeMissingSteps(m) if m == "lite"));
    assert_eq!(err.message(), "mode 'lite' has no steps defined for any platform");

    let err = validate_manifest(manifest_with(
        "demo",
        "1",
        vec![("lite", mode_with(None, vec![("macos", vec![])]))],
    ))
    .unwrap_err();
    assert!(matches!(
        &err,
        ManifestValidationError::ModeMissingPlatformSteps { mode, platform }
            if mode == "lite" && platform == "macos"
    ));
    assert_eq!(err.message(), "mode 'lite' has no steps for platform 'macos'");

    let err = validate_manifest(manifest_with(
        "demo",
        "1",
        vec![("lite", mode_with(None, vec![("linux", vec![run("echo")])]))],
    ))
    .unwrap_err();
    assert!(matches!(&err, ManifestValidationError::UnsupportedPlatform(p) if p == "linux"));
    assert_eq!(err.message(), "unsupported platform 'linux' in manifest");

    let bad_family = Requirements {
        os: vec![parse_os_constraint("linux>=5").unwrap()],
        cpu_arch: vec![],
        ram_gb: None,
    };
    let err = validate_manifest(manifest_with(
        "demo",
        "1",
        vec![("lite", mode_with(Some(bad_family), vec![("macos", vec![run("echo")])]))],
    ))
    .unwrap_err();
    assert!(matches!(&err, ManifestValidationError::UnsupportedPlatform(p) if p == "linux"));

    let blank_arch = Requirements {
        os: vec![],
        cpu_arch: vec!["x64".to_string(), "  ".to_string()],
        ram_gb: None,
    };
    let err = validate_manifest(manifest_with(
        "demo",
        "1",
        vec![("lite", mode_with(Some(blank_arch), vec![("macos", vec![run("echo")])]))],
    ))
    .unwrap_err();
    assert!(matches!(
        &err,
        ManifestValidationError::InvalidRequirement(m, r)
            if m == "lite" && r == "cpu_arch entries must not be empty"
    ));
    assert_eq!(
        err.message(),
        "mode 'lite' has an invalid requirement: cpu_arch entries must not be empty"
    );

    let err = validate_manifest(manifest_with(
        "demo",
        "1",
        vec![("lite", mode_with(None, vec![("macos", vec![run("echo"), run("  ")])]))],
    ))
    .unwrap_err();
    assert!(matches!(
        &err,
        ManifestValidationError::InvalidStep(m, r)
            if m == "lite" && r == "run command cannot be empty"
    ));
    assert_eq!(
        err.message(),
        "mode 'lite' has an invalid step: run command cannot be empty"
    );
}

#[test]
fn validation_reports_the_first_fault_in_mode_order() {
    let err = validate_manifest(manifest_with(
        "demo",
        "1",
        vec![
            ("zeta", mode_with(None, vec![])),
            ("alpha", mode_with(None, vec![("linux", vec![run("echo")])])),
        ],
    ))
    .unwrap_err();
    assert!(matches!(&err, ManifestValidationError::UnsupportedPlatform(p) if p == "linux"));
}

#[test]
fn valid_manifest_is_handed_back_unchanged() {
    let manifest = manifest_with(
        "demo",
        "1.0.0",
        vec![
            ("full", mode_with(None, vec![("windows", vec![run("echo a")])])),
            ("lite", mode_with(None, vec![("macos", vec![run("echo b")])])),
        ],
    );
    let checked = validate_manifest(manifest).unwrap();
    assert_eq!(checked.name, "demo");
    assert_eq!(checked.version, "1.0.0");
    assert_eq!(checked.modes.len(), 2);
    assert_eq!(checked.modes.entry(0).unwrap().0, "full");
    assert_eq!(checked.modes.entry(1).unwrap().0, "lite");
}

#[test]
fn steps_describe_themselves() {
    let step = run("echo ok");
    assert_eq!(step.description(), "Run: echo ok");
    assert_eq!(step.command(), "echo ok");
    assert!(step.validate().is_ok());
    assert!(run("").validate().is_err());
    assert!(run(" \t").validate().is_err());

    let download = Step::Download {
        download: DownloadStep {
            url: "https://example.com/a.zip".to_string(),
            dest: "tmp/a.zip".to_string(),
        },
    };
    assert_eq!(download.description(), "Download: https://example.com/a.zip -> tmp/a.zip");
    assert_eq!(download.command(), "");
    assert!(download.validate().is_ok());

    let extract = Step::Extract {
        extract: ExtractStep {
            archive: "tmp/a.zip".to_string(),
            dest: "app".to_string(),
        },
    };
    assert_eq!(extract.description(), "Extract: tmp/a.zip -> app");
    assert_eq!(extract.command(), "");

    let mut vars = StrMap::new();
    vars.insert("host".to_string(), "example.com".to_string());
    let template = Step::TemplateConfig {
        template_config: TemplateConfigStep {
            source: "app.conf.in".to_string(),
            dest: "app.conf".to_string(),
            vars,
        },
    };
    assert_eq!(template.description(), "Template: app.conf.in -> app.conf");
    assert_eq!(template.command(), "");
    let copy = template.clone();
    assert_eq!(copy.description(), "Template: app.conf.in -> app.conf");
}

#[test]
fn default_requirements_constrain_nothing() {
    let req = Requirements::default();
    assert!(req.os.is_empty());
    assert!(req.cpu_arch.is_empty());
    assert_eq!(req.ram_gb, None);
}
