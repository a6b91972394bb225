use docker_tray::cli::CliOutput;
use docker_tray::docker::FileEntry;
use docker_tray::files::{
    import_to_container, import_to_container_args, list_container_files,
    list_container_files_after_gnu, list_container_files_after_plain, ls_command, parse_ls_output,
    read_container_file, read_container_file_args, save_from_container, save_from_container_args, LsStep,
};
use docker_tray::terminal::{
    detect_terminal, escape_for_applescript, open_in_finder, open_in_finder_args, open_terminal,
    terminal_choice, terminal_script_name,
};

fn strings(v: &[&str]) -> Vec<String> {
    v.iter().map(|s| s.to_string()).collect()
}

fn out(stdout: &str, stderr: &str, success: bool) -> CliOutput {
    CliOutput { stdout: stdout.to_string(), stderr: stderr.to_string(), success, status: String::new() }
}

fn entry(name: &str, is_dir: bool, size: &str, modified: &str, permissions: &str) -> FileEntry {
    FileEntry {
        name: name.to_string(),
        is_dir,
        size: size.to_string(),
        modified: modified.to_string(),
        permissions: permissions.to_string(),
    }
}

#[test]
fn gnu_listing_is_parsed() {
    let ls = "total 12\n\
drwxr-xr-x 1 root root 4096 2024-01-02 03:04 .\n\
drwxr-xr-x 1 root root 4096 2024-01-02 03:04 ..\n\
-rw-r--r-- 1 root root  220 2024-01-02 03:04 my file.txt\n\
lrwxrwxrwx 1 root root    7 2024-01-02 03:04 bin -> usr/bin\n\
drwxr-xr-x 2 root root 4096 2024-01-02 03:04 etc\n";
    assert_eq!(
        parse_ls_output(ls, true),
        vec![
            entry("my file.txt", false, "220", "2024-01-02 03:04", "-rw-r--r--"),
            entry("bin", false, "7", "2024-01-02 03:04", "lrwxrwxrwx"),
            entry("etc", true, "4096", "2024-01-02 03:04", "drwxr-xr-x"),
        ]
    );
}

#[test]
fn busybox_listing_is_parsed() {
    let ls = "total 4\n-rw-r--r--    1 root     root          12 Jan  2 03:04 a.txt\nshort line\n";
    assert_eq!(parse_ls_output(ls, false), vec![entry("a.txt", false, "12", "Jan 2 03:04", "-rw-r--r--")]);
    assert_eq!(parse_ls_output("", true), vec![]);
}

#[test]
fn listing_steps() {
    assert_eq!(
        list_container_files("abc", "/etc"),
        LsStep::Run(strings(&["exec", "abc", "ls", "-la", "--time-style=long-iso", "/etc"]))
    );
    assert_eq!(list_container_files("a b", "/"), LsStep::Finished(Err("Invalid container ID".to_string())));
    assert_eq!(
        list_container_files_after_gnu("abc", "/etc", Ok(out("", "unrecognized option", false))),
        LsStep::Run(strings(&["exec", "abc", "ls", "-la", "/etc"]))
    );
    assert_eq!(
        list_container_files_after_gnu("abc", "/etc", Err("no docker".to_string())),
        LsStep::Finished(Err("no docker".to_string()))
    );
    assert_eq!(
        list_container_files_after_plain(Ok(out("", "No such file\n", false))),
        Err("Failed to list files: No such file\n".to_string())
    );
    assert_eq!(ls_command("abc", "/", false), strings(&["exec", "abc", "ls", "-la", "/"]));
}

#[test]
fn reading_and_copying_files() {
    assert_eq!(read_container_file_args("abc", "/etc/hosts"), Ok(strings(&["exec", "abc", "cat", "/etc/hosts"])));
    assert_eq!(read_container_file_args("", "/etc/hosts"), Err("Invalid container ID".to_string()));
    assert_eq!(read_container_file(Ok(out("hello", "", true))), Ok("hello".to_string()));
    assert_eq!(read_container_file(Ok(out("", "denied", false))), Err("Failed to read file: denied".to_string()));
    assert_eq!(save_from_container_args("abc", "/data", "/tmp/x"), Ok(strings(&["cp", "abc:/data", "/tmp/x"])));
    assert_eq!(import_to_container_args("abc", "/tmp/x", "/data"), Ok(strings(&["cp", "/tmp/x", "abc:/data"])));
    assert_eq!(import_to_container_args("a;b", "/tmp/x", "/data"), Err("Invalid container ID".to_string()));
    assert_eq!(save_from_container(Ok(out("", "", true))), Ok(()));
    assert_eq!(save_from_container(Ok(out("", "no space", false))), Err("Failed to copy: no space".to_string()));
    assert_eq!(import_to_container(Ok(out("", "gone", false))), Err("Failed to import: gone".to_string()));
    assert_eq!(import_to_container(Err("cannot run".to_string())), Err("cannot run".to_string()));
}

#[test]
fn terminal_detection_order() {
    assert_eq!(detect_terminal(true, true), "ghostty");
    assert_eq!(detect_terminal(false, true), "iterm");
    assert_eq!(detect_terminal(false, false), "terminal");
    assert_eq!(terminal_choice(Some("auto".to_string())), None);
    assert_eq!(terminal_choice(Some("iterm".to_string())), Some("iterm".to_string()));
    assert_eq!(terminal_choice(None), None);
}

#[test]
fn terminal_scripts() {
    assert_eq!(terminal_script_name("abc"), "docker-tray-abc.sh");
    assert_eq!(escape_for_applescript("a\"b\\c"), "a\\\"b\\\\c");
    let l = open_terminal("abc", None, "ghostty", "/tmp/docker-tray-abc.sh").unwrap();
    assert_eq!(l.script, "#!/bin/sh\ndocker exec -it abc /bin/sh\n");
    assert_eq!(l.program, "/Applications/Ghostty.app/Contents/MacOS/ghostty");
    assert_eq!(l.args, strings(&["-e", "/tmp/docker-tray-abc.sh"]));
    let t = open_terminal("abc", Some("/bin/bash".to_string()), "terminal", "/tmp/s.sh").unwrap();
    assert_eq!(t.script, "#!/bin/sh\ndocker exec -it abc /bin/bash\n");
    assert_eq!(t.program, "osascript");
    assert_eq!(
        t.args,
        vec![
            "-e".to_string(),
            "tell application \"Terminal\"\n                    activate\n                    do script \"/tmp/s.sh\"\n                end tell"
                .to_string()
        ]
    );
    let i = open_terminal("abc", None, "iterm", "/tmp/s.sh").unwrap();
    assert!(i.args[1].starts_with("tell application \"iTerm\""));
}

#[test]
fn terminal_refusals() {
    assert_eq!(open_terminal("a b", None, "terminal", "/tmp/s"), Err("Invalid container ID".to_string()));
    assert_eq!(
        open_terminal("abc", Some("/bin/fish".to_string()), "terminal", "/tmp/s"),
        Err("Shell not allowed: /bin/fish".to_string())
    );
}

#[test]
fn finder() {
    assert_eq!(open_in_finder_args("/Users/me"), strings(&["-R", "/Users/me"]));
    assert_eq!(open_in_finder(Ok(out("", "", true))), Ok(()));
    assert_eq!(open_in_finder(Ok(out("", "missing", false))), Err("Cannot open path: missing".to_string()));
}
