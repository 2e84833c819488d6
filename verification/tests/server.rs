use daml_ide::server::{build_args, resolve_command, LogLevel, ServerSettings, INSTALL_HINT};

#[test]
fn builds_default_arguments() {
    assert_eq!(
        build_args(&ServerSettings::default()),
        vec![
            "damlc".to_string(),
            "multi-ide".to_string(),
            "--telemetry-ignored".to_string(),
            "--log-level=Warning".to_string(),
        ]
    );
}

#[test]
fn honours_log_level() {
    let settings = ServerSettings { log_level: LogLevel::Debug, ..Default::default() };
    assert!(build_args(&settings).contains(&"--log-level=Debug".to_string()));
}

#[test]
fn autorun_is_off_by_default() {
    assert!(!build_args(&ServerSettings::default()).iter().any(|a| a.contains("auto-run")));
}

#[test]
fn autorun_turns_script_failures_into_diagnostics() {
    let settings = ServerSettings { autorun_scripts: true, ..Default::default() };
    assert!(build_args(&settings).contains(&"--studio-auto-run-all-scenarios=yes".to_string()));
}

#[test]
fn appends_extra_arguments_last() {
    let settings = ServerSettings {
        extra_arguments: vec!["--ghc-option".into(), "-W".into()],
        ..Default::default()
    };
    let args = build_args(&settings);
    assert_eq!(&args[args.len() - 2..], &["--ghc-option", "-W"]);
}

#[test]
fn never_enables_telemetry() {
    // A Zed extension cannot show a consent dialog, so telemetry stays off.
    let args = build_args(&ServerSettings::default());
    assert!(args.contains(&"--telemetry-ignored".to_string()));
    assert!(!args.contains(&"--telemetry".to_string()));
    assert!(!args.contains(&"--optOutTelemetry".to_string()));
}

#[test]
fn missing_dpm_produces_an_actionable_error() {
    let err = resolve_command(None, None, &ServerSettings::default()).unwrap_err();
    assert!(err.contains("dpm"));
    assert!(err.contains("https://docs.digitalasset.com"));
}

#[test]
fn uses_dpm_when_found() {
    let cmd = resolve_command(Some("/opt/dpm/bin/dpm".into()), None, &ServerSettings::default()).unwrap();
    assert_eq!(cmd.program, "/opt/dpm/bin/dpm");
    assert_eq!(cmd.args[0], "damlc");
    assert_eq!(cmd.args[1], "multi-ide");
}

#[test]
fn wraps_the_server_in_the_bridge_when_one_is_available() {
    let cmd = resolve_command(
        Some("/opt/dpm/bin/dpm".into()),
        Some("/opt/bin/daml-ide-bridge".into()),
        &ServerSettings::default(),
    )
    .unwrap();
    assert_eq!(cmd.program, "/opt/bin/daml-ide-bridge");
    assert_eq!(cmd.args[0], "--");
    assert_eq!(cmd.args[1], "/opt/dpm/bin/dpm");
    assert_eq!(cmd.args[2], "damlc");
    assert_eq!(cmd.args[3], "multi-ide");
}

#[test]
fn script_results_can_be_turned_off() {
    let settings = ServerSettings { script_results: false, ..Default::default() };
    let cmd = resolve_command(
        Some("/opt/dpm/bin/dpm".into()),
        Some("/opt/bin/daml-ide-bridge".into()),
        &settings,
    )
    .unwrap();
    assert_eq!(cmd.program, "/opt/dpm/bin/dpm");
}

#[test]
fn bridge_arguments_come_before_the_separator() {
    let settings = ServerSettings { bridge_args: vec!["--no-open".into()], ..Default::default() };
    let cmd = resolve_command(
        Some("/opt/dpm/bin/dpm".into()),
        Some("/opt/bin/daml-ide-bridge".into()),
        &settings,
    )
    .unwrap();
    assert_eq!(cmd.args[0], "--no-open");
    assert_eq!(cmd.args[1], "--");
}

#[test]
fn script_results_are_on_by_default() {
    assert!(ServerSettings::default().script_results);
    assert_eq!(ServerSettings::default().log_level, LogLevel::Warning);
    assert_eq!(LogLevel::default(), LogLevel::Warning);
}

#[test]
fn every_level_has_its_damlc_name() {
    assert_eq!(LogLevel::Debug.as_str(), "Debug");
    assert_eq!(LogLevel::Info.as_str(), "Info");
    assert_eq!(LogLevel::Warning.as_str(), "Warning");
    assert_eq!(LogLevel::Error.as_str(), "Error");
}

#[test]
fn the_full_bridge_command_line() {
    let settings = ServerSettings {
        log_level: LogLevel::Error,
        autorun_scripts: true,
        extra_arguments: vec!["-x".into()],
        bridge_args: vec!["--no-open".into(), "--log".into(), "/tmp/t.log".into()],
        ..Default::default()
    };
    let cmd = resolve_command(Some("dpm".into()), Some("bridge".into()), &settings).unwrap();
    assert_eq!(cmd.program, "bridge");
    assert_eq!(
        cmd.args,
        vec![
            "--no-open",
            "--log",
            "/tmp/t.log",
            "--",
            "dpm",
            "damlc",
            "multi-ide",
            "--telemetry-ignored",
            "--log-level=Error",
            "--studio-auto-run-all-scenarios=yes",
            "-x",
        ]
    );
}

#[test]
fn without_dpm_the_bridge_does_not_help() {
    let err = resolve_command(None, Some("bridge".into()), &ServerSettings::default()).unwrap_err();
    assert_eq!(err, INSTALL_HINT);
}
