use docker_tray::cli::CliOutput;
use docker_tray::provider::ProviderKind;
use docker_tray::runtime::{
    brew_install_args, brew_list_args, colima_candidates, colima_env_for, colima_fallback_paths,
    colima_ps_candidates, colima_socket_path, colima_start_args, colima_stop_args, command_error,
    detect_apple, detect_docker, detect_runtime, docker_host_url, docker_info_args, extract_error,
    homebrew_paths, read_vm_config, rewrite_colima_config, rewrite_lima_config,
    runtime_base_from_colima, runtime_formulas, standard_docker_sockets, start_builtin,
    start_builtin_with_config, stop_builtin, trimmed_output, RuntimeKind, RuntimeProbe, StartAction,
    StartEvent, StartState, VmConfig,
};

fn out(stdout: &str, stderr: &str, success: bool) -> CliOutput {
    CliOutput {
        stdout: stdout.to_string(),
        stderr: stderr.to_string(),
        success,
        status: if success { "exit status: 0".to_string() } else { "exit status: 1".to_string() },
    }
}

fn probe(external: bool, socket: bool, bundled: bool, apple_cli: bool, apple_running: bool) -> RuntimeProbe {
    RuntimeProbe {
        external_docker: external,
        colima_socket: socket,
        bundled_colima: bundled,
        apple_cli,
        apple_running,
    }
}

fn strings(v: &[&str]) -> Vec<String> {
    v.iter().map(|s| s.to_string()).collect()
}

#[test]
fn vm_config_default_values() {
    let c = VmConfig::default();
    assert_eq!(c, VmConfig { cpu: 2, memory: 4, disk: 20 });
}

#[test]
fn detect_docker_prefers_external_socket() {
    let s = detect_docker(&probe(true, true, true, false, false));
    assert_eq!(s.kind, RuntimeKind::External);
    assert!(s.running);
    assert_eq!(s.message, "External Docker runtime detected");
    assert_eq!(s.provider, ProviderKind::Docker);
}

#[test]
fn detect_docker_running_colima() {
    let s = detect_docker(&probe(false, true, false, false, false));
    assert_eq!(s.kind, RuntimeKind::Builtin);
    assert!(s.running);
    assert_eq!(s.message, "Built-in runtime (Colima) is running");
    assert_eq!(s.provider, ProviderKind::Colima);
}

#[test]
fn detect_docker_stopped_colima() {
    let s = detect_docker(&probe(false, false, true, false, false));
    assert_eq!(s.kind, RuntimeKind::Builtin);
    assert!(!s.running);
    assert_eq!(s.message, "Built-in runtime (Colima) is stopped");
    assert_eq!(s.provider, ProviderKind::Colima);
}

#[test]
fn detect_docker_nothing_found() {
    let s = detect_docker(&probe(false, false, false, true, true));
    assert_eq!(s.kind, RuntimeKind::Absent);
    assert!(!s.running);
    assert_eq!(s.message, "No Docker runtime found");
    assert_eq!(s.provider, ProviderKind::Docker);
}

#[test]
fn detect_apple_states() {
    let missing = detect_apple(&probe(true, true, true, false, false));
    assert_eq!(missing.kind, RuntimeKind::Absent);
    assert_eq!(missing.message, "Apple Container CLI not found. Install with: brew install container");
    assert_eq!(missing.provider, ProviderKind::Apple);
    let running = detect_apple(&probe(false, false, false, true, true));
    assert_eq!(running.kind, RuntimeKind::Apple);
    assert!(running.running);
    assert_eq!(running.message, "Apple Container is running");
    let stopped = detect_apple(&probe(false, false, false, true, false));
    assert_eq!(stopped.kind, RuntimeKind::Apple);
    assert!(!stopped.running);
    assert_eq!(stopped.message, "Apple Container is stopped");
}

#[test]
fn detect_runtime_docker_and_colima_share_detection() {
    let p = probe(false, true, false, true, true);
    let d = detect_runtime(ProviderKind::Docker, &p);
    let c = detect_runtime(ProviderKind::Colima, &p);
    assert_eq!(d, c);
    let a = detect_runtime(ProviderKind::Apple, &p);
    assert_eq!(a.kind, RuntimeKind::Apple);
}

#[test]
fn docker_socket_candidates() {
    assert_eq!(
        standard_docker_sockets("/Users/me"),
        strings(&[
            "/var/run/docker.sock",
            "/Users/me/.orbstack/run/docker.sock",
            "/Users/me/.docker/run/docker.sock",
        ])
    );
    assert_eq!(docker_host_url("/var/run/docker.sock"), "unix:///var/run/docker.sock");
    assert_eq!(docker_info_args(), strings(&["info", "--format", "{{.ID}}"]));
}

#[test]
fn colima_daemons_from_ps() {
    let ps = "COMMAND\n/opt/homebrew/bin/colima daemon start default\nbash\n  /x/colima daemon  \n";
    assert_eq!(colima_ps_candidates(ps), strings(&["/opt/homebrew/bin/colima", "/x/colima"]));
    assert_eq!(colima_ps_candidates(""), Vec::<String>::new());
}

#[test]
fn colima_candidates_in_order() {
    let c = colima_candidates("/app/Resources", Some("/usr/bin/colima daemon\n"));
    assert_eq!(
        c,
        strings(&[
            "/app/Resources/runtime/colima/bin/colima",
            "/usr/bin/colima",
            "/Applications/Docker Tray.app/Contents/Resources/runtime/colima/bin/colima",
            "/opt/homebrew/bin/colima",
            "/usr/local/bin/colima",
        ])
    );
    let without_ps = colima_candidates("", None);
    assert_eq!(without_ps[0], "runtime/colima/bin/colima");
    assert_eq!(without_ps.len(), 4);
    assert_eq!(colima_fallback_paths().len(), 3);
    assert_eq!(homebrew_paths(), strings(&["/opt/homebrew/bin/brew", "/usr/local/bin/brew"]));
}

#[test]
fn trimmed_output_cases() {
    assert_eq!(trimmed_output(Ok(out("  /opt/homebrew/bin/brew\n", "", true))), Some("/opt/homebrew/bin/brew".to_string()));
    assert_eq!(trimmed_output(Ok(out("   \n", "", true))), None);
    assert_eq!(trimmed_output(Ok(out("/x", "", false))), None);
    assert_eq!(trimmed_output(Err("no sh".to_string())), None);
}

#[test]
fn command_error_messages() {
    assert_eq!(
        command_error("Installing Colima", "", "", "exit status: 1"),
        "Installing Colima failed with status exit status: 1"
    );
    assert_eq!(
        command_error("Installing Colima", "Error: ", "no bottle\n", "exit status: 1"),
        "Installing Colima failed: Error: no bottle"
    );
}

#[test]
fn brew_arguments() {
    assert_eq!(runtime_formulas(), strings(&["colima", "docker"]));
    assert_eq!(brew_list_args("docker"), strings(&["list", "--formula", "docker"]));
    assert_eq!(brew_install_args(&strings(&["colima", "docker"])), strings(&["install", "colima", "docker"]));
    assert_eq!(brew_install_args(&vec![]), strings(&["install"]));
}

#[test]
fn runtime_base_three_levels_up() {
    assert_eq!(
        runtime_base_from_colima("/app/Resources/runtime/colima/bin/colima"),
        Some("/app/Resources/runtime".to_string())
    );
    assert_eq!(runtime_base_from_colima("colima"), None);
}

#[test]
fn colima_environment() {
    let bundled = colima_env_for("/Users/me", Some("/app/runtime"));
    assert_eq!(
        bundled,
        vec![
            ("LIMA_HOME".to_string(), "/Users/me/.lima".to_string()),
            (
                "PATH".to_string(),
                "/app/runtime/lima/bin:/app/runtime/colima/bin:/app/runtime/docker/bin:/usr/local/bin:/opt/homebrew/bin:/usr/bin:/bin"
                    .to_string()
            ),
            ("LIMA_DIR".to_string(), "/app/runtime/lima".to_string()),
        ]
    );
    let brewed = colima_env_for("/Users/me", None);
    assert_eq!(
        brewed,
        vec![
            ("LIMA_HOME".to_string(), "/Users/me/.lima".to_string()),
            ("PATH".to_string(), "/opt/homebrew/bin:/usr/local/bin:/usr/bin:/bin".to_string()),
        ]
    );
    assert_eq!(colima_socket_path("/Users/me"), "/Users/me/.colima/default/docker.sock");
    assert_eq!(colima_socket_path("/Users/me/"), "/Users/me/.colima/default/docker.sock");
    assert_eq!(colima_socket_path(""), ".colima/default/docker.sock");
}

#[test]
fn extract_error_takes_last_error_line_message() {
    let log = "time=1 level=info msg=\"starting\"\ntime=2 level=error msg=\"first\"\ntime=3 level=fatal msg=\"disk cannot shrink\"\ntime=4 level=info msg=\"bye\"\n";
    assert_eq!(extract_error(log), "disk cannot shrink");
}

#[test]
fn extract_error_without_error_lines_takes_last_nonblank() {
    assert_eq!(extract_error("something went wrong\n\n   \n"), "something went wrong");
    assert_eq!(extract_error(""), "Unknown error");
    assert_eq!(extract_error("  \n\t\n"), "Unknown error");
    assert_eq!(extract_error("level=error plain failure"), "level=error plain failure");
}

#[test]
fn read_lima_config_in_mib() {
    let lima = "# comment\ncpus: 6\nmemory: 8192MiB\ndisk: 100GiB\n";
    assert_eq!(read_vm_config(Some(lima), Some("cpu: 1\n")), VmConfig { cpu: 6, memory: 8, disk: 100 });
}

#[test]
fn read_lima_config_small_memory_and_bad_values() {
    let lima = "cpus: many\nmemory: 6GiB\n#disk: 5GiB\ndisk: 60GiB\n";
    assert_eq!(read_vm_config(Some(lima), None), VmConfig { cpu: 2, memory: 6, disk: 60 });
}

#[test]
fn read_colima_config_when_no_lima() {
    let colima = "cpu: 4\nmemory: 12\ndisk: 80\nruntime: docker\n";
    assert_eq!(read_vm_config(None, Some(colima)), VmConfig { cpu: 4, memory: 12, disk: 80 });
    assert_eq!(read_vm_config(None, None), VmConfig { cpu: 2, memory: 4, disk: 20 });
}

#[test]
fn rewrite_colima_lines() {
    let colima = "# cpu: 1\ncpu: 2\nmemory: 4\ndisk: 60\nruntime: docker";
    let c = VmConfig { cpu: 8, memory: 16, disk: 120 };
    assert_eq!(rewrite_colima_config(colima, &c), "# cpu: 1\ncpu: 8\nmemory: 16\ndisk: 120\nruntime: docker\n");
}

#[test]
fn rewrite_lima_lines() {
    let lima = "vmType: vz\ncpus: 2\nmemory: 4GiB\ndisk: 60GiB\r\n";
    let c = VmConfig { cpu: 3, memory: 5, disk: 70 };
    assert_eq!(rewrite_lima_config(lima, &c), "vmType: vz\ncpus: 3\nmemory: 5120MiB\ndisk: 70GiB\n");
    assert_eq!(rewrite_lima_config("", &c), "\n");
}

#[test]
fn written_config_reads_back_from_lima() {
    let lima = "cpus: 2\nmemory: 4GiB\ndisk: 60GiB\n";
    let c = VmConfig { cpu: 5, memory: 9, disk: 200 };
    let written = rewrite_lima_config(lima, &c);
    assert_eq!(read_vm_config(Some(written.as_str()), None), c);
}

#[test]
fn written_config_reads_back_from_colima() {
    let colima = "cpu: 2\nmemory: 4\ndisk: 60\n";
    let c = VmConfig { cpu: 7, memory: 3, disk: 90 };
    let written = rewrite_colima_config(colima, &c);
    assert_eq!(read_vm_config(None, Some(written.as_str())), c);
}

#[test]
fn settings_missing_from_the_file_read_as_defaults() {
    let lima = "cpus: 1\n";
    let c = VmConfig { cpu: 5, memory: 9, disk: 200 };
    let written = rewrite_lima_config(lima, &c);
    assert_eq!(read_vm_config(Some(written.as_str()), None), VmConfig { cpu: 5, memory: 4, disk: 20 });
}

#[test]
fn start_and_stop_arguments() {
    let c = VmConfig { cpu: 4, memory: 8, disk: 100 };
    assert_eq!(
        colima_start_args(&c),
        strings(&["start", "--cpu", "4", "--memory", "8", "--disk", "100", "--runtime", "docker"])
    );
    assert_eq!(colima_stop_args(), strings(&["stop"]));
}

#[test]
fn start_builtin_keeps_current_allocation() {
    let (config, state, action) = start_builtin(Some("disk: 250GiB\n"), None);
    assert_eq!(config, VmConfig { cpu: 2, memory: 4, disk: 250 });
    assert_eq!(state, StartState::Locating);
    assert_eq!(action, StartAction::LocateColima { in_resources: true });
}

#[test]
fn start_with_bundled_colima_succeeds_first_time() {
    let c = VmConfig { cpu: 2, memory: 4, disk: 20 };
    let (s, a) = start_builtin_with_config(&c, StartState::Locating, StartEvent::Located(Some("/c".to_string())));
    assert_eq!(s, StartState::Configuring { colima: "/c".to_string() });
    assert_eq!(a, StartAction::WriteConfig);
    let (s, a) = start_builtin_with_config(&c, s, StartEvent::Configured);
    assert_eq!(s, StartState::Starting { colima: "/c".to_string() });
    assert_eq!(
        a,
        StartAction::RunColima {
            colima: "/c".to_string(),
            args: strings(&["start", "--cpu", "2", "--memory", "4", "--disk", "20", "--runtime", "docker"])
        }
    );
    let (s, a) = start_builtin_with_config(&c, s, StartEvent::Ran(Ok(out("", "", true))));
    assert_eq!(s, StartState::Finished);
    assert_eq!(a, StartAction::Finish(Ok("Runtime started".to_string())));
}

#[test]
fn start_retries_once_after_deleting_the_vm() {
    let c = VmConfig { cpu: 2, memory: 4, disk: 20 };
    let s = StartState::Starting { colima: "/c".to_string() };
    let (s, a) = start_builtin_with_config(
        &c,
        s,
        StartEvent::Ran(Ok(out("level=info msg=\"x\"\n", "level=fatal msg=\"broken vm\"\n", false))),
    );
    assert_eq!(
        s,
        StartState::Cleaning {
            colima: "/c".to_string(),
            failure: "level=info msg=\"x\"\nlevel=fatal msg=\"broken vm\"\n".to_string()
        }
    );
    assert_eq!(a, StartAction::RunColima { colima: "/c".to_string(), args: strings(&["delete", "--force"]) });
    let (s, a) = start_builtin_with_config(&c, s, StartEvent::Ran(Err("ignored".to_string())));
    assert!(matches!(s, StartState::Retrying { .. }));
    assert!(matches!(a, StartAction::RunColima { .. }));
    let (s2, a2) = start_builtin_with_config(&c, s, StartEvent::Ran(Ok(out("", "", false))));
    assert_eq!(s2, StartState::Finished);
    assert_eq!(a2, StartAction::Finish(Err("broken vm".to_string())));
}

#[test]
fn start_retry_can_succeed() {
    let c = VmConfig { cpu: 2, memory: 4, disk: 20 };
    let s = StartState::Retrying { failure: "x".to_string() };
    let (_, a) = start_builtin_with_config(&c, s, StartEvent::Ran(Ok(out("", "", true))));
    assert_eq!(a, StartAction::Finish(Ok("Runtime started".to_string())));
}

#[test]
fn start_launch_failure_is_reported() {
    let c = VmConfig { cpu: 2, memory: 4, disk: 20 };
    let s = StartState::Starting { colima: "/c".to_string() };
    let (_, a) = start_builtin_with_config(&c, s, StartEvent::Ran(Err("No such file".to_string())));
    assert_eq!(a, StartAction::Finish(Err("No such file".to_string())));
}

#[test]
fn start_without_colima_or_homebrew_fails() {
    let c = VmConfig { cpu: 2, memory: 4, disk: 20 };
    let (s, a) = start_builtin_with_config(&c, StartState::Locating, StartEvent::Located(None));
    assert_eq!(s, StartState::FindingHomebrew);
    assert_eq!(a, StartAction::FindHomebrew);
    let (s, a) = start_builtin_with_config(&c, s, StartEvent::Homebrew(None));
    assert_eq!(s, StartState::Finished);
    assert_eq!(
        a,
        StartAction::Finish(Err(
            "Colima is not bundled and Homebrew was not found. Install Homebrew, then try again.".to_string()
        ))
    );
}

#[test]
fn start_installs_missing_formulas() {
    let c = VmConfig { cpu: 2, memory: 4, disk: 20 };
    let brew = "/opt/homebrew/bin/brew".to_string();
    let (s, a) = start_builtin_with_config(&c, StartState::FindingHomebrew, StartEvent::Homebrew(Some(brew.clone())));
    assert_eq!(s, StartState::Checking { brew: brew.clone(), next: 0, missing: vec![] });
    assert_eq!(a, StartAction::RunBrew { brew: brew.clone(), args: strings(&["list", "--formula", "colima"]) });
    let (s, a) = start_builtin_with_config(&c, s, StartEvent::Ran(Ok(out("", "", false))));
    assert_eq!(s, StartState::Checking { brew: brew.clone(), next: 1, missing: strings(&["colima"]) });
    assert_eq!(a, StartAction::RunBrew { brew: brew.clone(), args: strings(&["list", "--formula", "docker"]) });
    let (s, a) = start_builtin_with_config(&c, s, StartEvent::Ran(Ok(out("", "", true))));
    assert_eq!(s, StartState::Installing { brew: brew.clone() });
    assert_eq!(a, StartAction::RunBrew { brew: brew.clone(), args: strings(&["install", "colima"]) });
    let (s, a) = start_builtin_with_config(&c, s, StartEvent::Ran(Ok(out("", "", true))));
    assert_eq!(s, StartState::Relocating);
    assert_eq!(a, StartAction::LocateColima { in_resources: false });
    let (s, a) = start_builtin_with_config(&c, s, StartEvent::Located(None));
    assert_eq!(s, StartState::Finished);
    assert_eq!(
        a,
        StartAction::Finish(Err(
            "Colima was installed, but its executable could not be found. Restart the app and try again."
                .to_string()
        ))
    );
}

#[test]
fn start_skips_install_when_formulas_present() {
    let c = VmConfig { cpu: 2, memory: 4, disk: 20 };
    let s = StartState::Checking { brew: "b".to_string(), next: 1, missing: vec![] };
    let (s, a) = start_builtin_with_config(&c, s, StartEvent::Ran(Ok(out("", "", true))));
    assert_eq!(s, StartState::Relocating);
    assert_eq!(a, StartAction::LocateColima { in_resources: false });
}

#[test]
fn start_install_failures() {
    let c = VmConfig { cpu: 2, memory: 4, disk: 20 };
    let s = StartState::Installing { brew: "b".to_string() };
    let (_, a) = start_builtin_with_config(&c, s, StartEvent::Ran(Err("denied".to_string())));
    assert_eq!(a, StartAction::Finish(Err("Could not run Homebrew: denied".to_string())));
    let s = StartState::Installing { brew: "b".to_string() };
    let (_, a) = start_builtin_with_config(&c, s, StartEvent::Ran(Ok(out("", "Error: offline\n", false))));
    assert_eq!(a, StartAction::Finish(Err("Installing Colima failed: Error: offline".to_string())));
}

#[test]
fn stop_outcomes() {
    assert_eq!(stop_builtin(None), Err("Bundled Colima not found".to_string()));
    assert_eq!(stop_builtin(Some(Err("cannot run".to_string()))), Err("cannot run".to_string()));
    assert_eq!(stop_builtin(Some(Ok(out("", "", true)))), Ok("Runtime stopped".to_string()));
    assert_eq!(
        stop_builtin(Some(Ok(out("", "level=error msg=\"not running\"\n", false)))),
        Err("not running".to_string())
    );
}

#[test]
fn longest_start_ends_within_ten_steps() {
    let c = VmConfig { cpu: 2, memory: 4, disk: 20 };
    let mut state = StartState::Locating;
    let mut steps = 0;
    let mut colima_starts = 0;
    loop {
        let event = match &state {
            StartState::Locating => StartEvent::Located(None),
            StartState::FindingHomebrew => StartEvent::Homebrew(Some("brew".to_string())),
            StartState::Checking { .. } => StartEvent::Ran(Ok(out("", "", false))),
            StartState::Installing { .. } => StartEvent::Ran(Ok(out("", "", true))),
            StartState::Relocating => StartEvent::Located(Some("/c".to_string())),
            StartState::Configuring { .. } => StartEvent::Configured,
            StartState::Starting { .. } => StartEvent::Ran(Ok(out("", "level=fatal msg=\"no\"", false))),
            StartState::Cleaning { .. } => StartEvent::Ran(Ok(out("", "", true))),
            StartState::Retrying { .. } => StartEvent::Ran(Ok(out("", "", false))),
            StartState::Finished => break,
        };
        let (next, action) = start_builtin_with_config(&c, state, event);
        if let StartAction::RunColima { args, .. } = &action {
            if args[0] == "start" {
                colima_starts += 1;
            }
        }
        state = next;
        steps += 1;
        assert!(steps <= 10);
    }
    assert_eq!(steps, 10);
    assert_eq!(colima_starts, 2);
}
