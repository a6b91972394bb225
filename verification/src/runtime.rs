//! The container runtime behind the tray: detecting which one is usable,
//! and starting, stopping and configuring the bundled Colima VM.

use vstd::prelude::*;
use crate::cli::{concat, last_nonblank, texts, CliOutput};
use crate::provider::ProviderKind;
use crate::files::append_chars;
use crate::text::{
    chars_of, contains, contains_chars, copy_range, decimal, decimal_chars, find, find_chars,
    has_prefix, is_digit, is_ws, join, lemma_decimal_digits, lemma_digits_not_ws, lemma_find_bounds,
    lemma_join_terminated, lemma_lines_cons, lemma_lines_no_newline, lemma_lines_terminated,
    lemma_parse_decimal, lines, no_newline, parse_bounded, parse_unsigned_chars, split_lines,
    split_words, starts_with, strip_all_prefix, strip_all_suffix, strip_cr, string_of, trim,
    trim_chars, trim_end_matches, trim_start_matches, views, words, lemma_strip_cr_prefix,
    lemma_strip_cr_keeps_prefix, lemma_no_newline_concat, lemma_trim_padded, lemma_no_unit,
    lemma_strip_unit, ends_with,
};

verus! {

/// The kind of runtime found.
#[derive(Debug, Clone, Copy, PartialEq, Eq, Structural)]
pub enum RuntimeKind {
    /// A Docker socket that another product provides (Docker Desktop, OrbStack).
    External,
    /// The bundled Colima VM.
    Builtin,
    /// Apple's `container` tool.
    Apple,
    /// No runtime.
    Absent,
}

/// What the tray reports about the runtime.
#[derive(Debug, PartialEq, Eq)]
pub struct RuntimeStatus {
    pub kind: RuntimeKind,
    pub running: bool,
    pub message: String,
    pub provider: ProviderKind,
}

/// The resources of the Colima VM: CPUs, memory in GiB, disk in GiB.
#[derive(Debug, Clone, Copy, PartialEq, Eq, Structural)]
pub struct VmConfig {
    pub cpu: u32,
    pub memory: u32,
    pub disk: u32,
}

impl View for RuntimeStatus {
    /// Kind, whether it runs, message, provider.
    type V = (RuntimeKind, bool, Seq<char>, ProviderKind);

    open spec fn view(&self) -> (RuntimeKind, bool, Seq<char>, ProviderKind) {
        (self.kind, self.running, self.message@, self.provider)
    }
}

/// The VM resources used when none are configured: 2 CPUs, 4 GiB, 20 GiB.
pub open spec fn default_vm() -> VmConfig {
    VmConfig { cpu: 2, memory: 4, disk: 20 }
}

impl Default for VmConfig {
    /// 2 CPUs, 4 GiB of memory, 20 GiB of disk.
    fn default() -> (r: VmConfig)
        ensures
            r == default_vm(),
    {
        VmConfig { cpu: 2, memory: 4, disk: 20 }
    }
}

/// What the probes of the machine found; a probe that was not needed is false.
#[derive(Debug, PartialEq, Eq)]
pub struct RuntimeProbe {
    /// A working Docker socket of another product.
    pub external_docker: bool,
    /// Colima's Docker socket exists.
    pub colima_socket: bool,
    /// A Colima binary was found.
    pub bundled_colima: bool,
    /// Apple's `container` tool runs.
    pub apple_cli: bool,
    /// `container list` succeeds, so its backend runs.
    pub apple_running: bool,
}

/// The status a detection reports: kind, whether it runs, message, provider.
pub open spec fn status_is(s: RuntimeStatus, kind: RuntimeKind, running: bool, message: Seq<char>, provider: ProviderKind) -> bool {
    s.kind == kind && s.running == running && s.message@ == message && s.provider == provider
}

/// The status of the Docker path: an external socket first, then a running
/// Colima, then a Colima binary that can be started, else nothing.
pub open spec fn docker_status(p: RuntimeProbe, s: RuntimeStatus) -> bool {
    if p.external_docker {
        status_is(s, RuntimeKind::External, true, "External Docker runtime detected"@, ProviderKind::Docker)
    } else if p.colima_socket {
        status_is(s, RuntimeKind::Builtin, true, "Built-in runtime (Colima) is running"@, ProviderKind::Colima)
    } else if p.bundled_colima {
        status_is(s, RuntimeKind::Builtin, false, "Built-in runtime (Colima) is stopped"@, ProviderKind::Colima)
    } else {
        status_is(s, RuntimeKind::Absent, false, "No Docker runtime found"@, ProviderKind::Docker)
    }
}

/// The status of Apple's tool: missing, running, or stopped.
pub open spec fn apple_status(p: RuntimeProbe, s: RuntimeStatus) -> bool {
    if !p.apple_cli {
        status_is(
            s,
            RuntimeKind::Absent,
            false,
            "Apple Container CLI not found. Install with: brew install container"@,
            ProviderKind::Apple,
        )
    } else if p.apple_running {
        status_is(s, RuntimeKind::Apple, true, "Apple Container is running"@, ProviderKind::Apple)
    } else {
        status_is(s, RuntimeKind::Apple, false, "Apple Container is stopped"@, ProviderKind::Apple)
    }
}

/// Detects the Docker path's status.
pub fn detect_docker(p: &RuntimeProbe) -> (r: RuntimeStatus)
    ensures
        docker_status(*p, r),
{
    if p.external_docker {
        RuntimeStatus {
            kind: RuntimeKind::External,
            running: true,
            message: String::from_str("External Docker runtime detected"),
            provider: ProviderKind::Docker,
        }
    } else if p.colima_socket {
        RuntimeStatus {
            kind: RuntimeKind::Builtin,
            running: true,
            message: String::from_str("Built-in runtime (Colima) is running"),
            provider: ProviderKind::Colima,
        }
    } else if p.bundled_colima {
        RuntimeStatus {
            kind: RuntimeKind::Builtin,
            running: false,
            message: String::from_str("Built-in runtime (Colima) is stopped"),
            provider: ProviderKind::Colima,
        }
    } else {
        RuntimeStatus {
            kind: RuntimeKind::Absent,
            running: false,
            message: String::from_str("No Docker runtime found"),
            provider: ProviderKind::Docker,
        }
    }
}

/// Detects the status of Apple's tool.
pub fn detect_apple(p: &RuntimeProbe) -> (r: RuntimeStatus)
    ensures
        apple_status(*p, r),
{
    if !p.apple_cli {
        RuntimeStatus {
            kind: RuntimeKind::Absent,
            running: false,
            message: String::from_str(
                "Apple Container CLI not found. Install with: brew install container",
            ),
            provider: ProviderKind::Apple,
        }
    } else if p.apple_running {
        RuntimeStatus {
            kind: RuntimeKind::Apple,
            running: true,
            message: String::from_str("Apple Container is running"),
            provider: ProviderKind::Apple,
        }
    } else {
        RuntimeStatus {
            kind: RuntimeKind::Apple,
            running: false,
            message: String::from_str("Apple Container is stopped"),
            provider: ProviderKind::Apple,
        }
    }
}

/// The runtime status for the selected provider: whether that provider is
/// usable now, whatever the user chose. Docker and Colima share detection.
pub fn detect_runtime(provider: ProviderKind, p: &RuntimeProbe) -> (r: RuntimeStatus)
    ensures
        match provider {
            ProviderKind::Apple => apple_status(*p, r),
            _ => docker_status(*p, r),
        },
{
    match provider {
        ProviderKind::Apple => detect_apple(p),
        ProviderKind::Docker | ProviderKind::Colima => detect_docker(p),
    }
}

/// The Docker sockets of other products, checked in order: the standard
/// one, OrbStack's and Docker Desktop's under the home directory.
pub fn standard_docker_sockets(home: &str) -> (r: Vec<String>)
    ensures
        texts(r@) == seq![
            "/var/run/docker.sock"@,
            home@ + "/.orbstack/run/docker.sock"@,
            home@ + "/.docker/run/docker.sock"@,
        ],
{
    let r = vec![
        String::from_str("/var/run/docker.sock"),
        concat(home, "/.orbstack/run/docker.sock"),
        concat(home, "/.docker/run/docker.sock"),
    ];
    assert(texts(r@) =~= seq![
        "/var/run/docker.sock"@,
        home@ + "/.orbstack/run/docker.sock"@,
        home@ + "/.docker/run/docker.sock"@,
    ]);
    r
}

/// The Docker host address of a socket path.
pub fn docker_host_url(socket: &str) -> (r: String)
    ensures
        r@ == "unix://"@ + socket@,
{
    concat("unix://", socket)
}

/// The first word of a line, if it has one.
pub open spec fn first_word(l: Seq<char>) -> Option<Seq<char>> {
    if words(l).len() > 0 {
        Some(words(l)[0])
    } else {
        None
    }
}

/// The program path of a running Colima daemon in a line of `ps` output.
pub open spec fn daemon_path(l: Seq<char>) -> Option<Seq<char>> {
    if contains(l, "colima daemon"@) {
        first_word(l)
    } else {
        None
    }
}

/// The Colima programs that running daemons were started from, in the order
/// `ps -eo command` lists them.
pub open spec fn daemon_paths(ps_stdout: Seq<char>) -> Seq<Seq<char>> {
    lines(ps_stdout).filter_map(|l: Seq<char>| daemon_path(l))
}

/// The Colima programs that running daemons were started from.
pub fn colima_ps_candidates(ps_stdout: &str) -> (r: Vec<String>)
    ensures
        texts(r@) == daemon_paths(ps_stdout@),
{
    let cs = chars_of(ps_stdout);
    let ls = split_lines(cs.as_slice());
    let ghost all = views(ls@);
    let ghost f = |l: Seq<char>| daemon_path(l);
    let needle = chars_of("colima daemon");
    let mut out: Vec<String> = Vec::new();
    let mut i: usize = 0;
    assert(all.take(0).filter_map(f) =~= Seq::<Seq<char>>::empty());
    assert(texts(out@) =~= Seq::<Seq<char>>::empty());
    while i < ls.len()
        invariant
            i <= ls@.len(),
            all == views(ls@),
            all == lines(ps_stdout@),
            needle@ == "colima daemon"@,
            f == (|l: Seq<char>| daemon_path(l)),
            texts(out@) == all.take(i as int).filter_map(f),
        decreases ls@.len() - i,
    {
        proof {
            all.lemma_filter_map_take_succ(f, i as int);
        }
        assert(all[i as int] == ls@[i as int]@);
        let ghost before = out@;
        if contains_chars(ls[i].as_slice(), needle.as_slice()) {
            let ws = split_words(ls[i].as_slice());
            if ws.len() > 0 {
                assert(views(ws@)[0] == ws@[0]@);
                let w = string_of(ws[0].as_slice());
                out.push(w);
                assert(texts(out@) =~= texts(before).push(w@));
            }
        }
        assert(texts(out@) =~= all.take(i + 1).filter_map(f));
        i = i + 1;
    }
    assert(all.take(i as int) =~= all);
    out
}

/// Where Colima is looked for after the bundle and the running daemons: the
/// installed app's bundle, then Homebrew's two prefixes.
pub fn colima_fallback_paths() -> (r: Vec<String>)
    ensures
        texts(r@) == seq![
            "/Applications/Docker Tray.app/Contents/Resources/runtime/colima/bin/colima"@,
            "/opt/homebrew/bin/colima"@,
            "/usr/local/bin/colima"@,
        ],
{
    let r = vec![
        String::from_str("/Applications/Docker Tray.app/Contents/Resources/runtime/colima/bin/colima"),
        String::from_str("/opt/homebrew/bin/colima"),
        String::from_str("/usr/local/bin/colima"),
    ];
    assert(texts(r@) =~= seq![
        "/Applications/Docker Tray.app/Contents/Resources/runtime/colima/bin/colima"@,
        "/opt/homebrew/bin/colima"@,
        "/usr/local/bin/colima"@,
    ]);
    r
}

/// The fixed places where Colima is looked for after the running daemons.
pub open spec fn colima_fallbacks() -> Seq<Seq<char>> {
    seq![
        "/Applications/Docker Tray.app/Contents/Resources/runtime/colima/bin/colima"@,
        "/opt/homebrew/bin/colima"@,
        "/usr/local/bin/colima"@,
    ]
}

/// Where Colima is looked for, in order: bundled under the resource
/// directory (`""` for the empty base path), then the programs that running
/// Colima daemons were started from (when `ps -eo command` ran), then the
/// installed app and Homebrew's two prefixes. The first that exists is used.
pub open spec fn colima_candidate_paths(resource_dir: Seq<char>, ps_stdout: Option<Seq<char>>) -> Seq<Seq<char>> {
    seq![path_join_of(resource_dir, "runtime/colima/bin/colima"@)] + match ps_stdout {
        Some(t) => daemon_paths(t),
        None => seq![],
    } + colima_fallbacks()
}

/// The places where Colima is looked for, in order.
pub fn colima_candidates(resource_dir: &str, ps_stdout: Option<&str>) -> (r: Vec<String>)
    ensures
        texts(r@) == colima_candidate_paths(resource_dir@, opt_text(ps_stdout)),
{
    let mut r = vec![path_join(resource_dir, "runtime/colima/bin/colima")];
    let ghost first = texts(r@);
    let running = match ps_stdout {
        Some(t) => colima_ps_candidates(t),
        None => Vec::new(),
    };
    let fallbacks = colima_fallback_paths();
    let ghost mid = texts(running@);
    assert(mid == match opt_text(ps_stdout) {
        Some(t) => daemon_paths(t),
        None => Seq::<Seq<char>>::empty(),
    }) by {
        if ps_stdout is None {
            assert(texts(running@) =~= Seq::<Seq<char>>::empty());
        }
    }
    let mut i: usize = 0;
    while i < running.len()
        invariant
            i <= running@.len(),
            texts(r@) == first + texts(running@).subrange(0, i as int),
        decreases running@.len() - i,
    {
        let ghost before = r@;
        let x = running[i].clone();
        r.push(x);
        assert(texts(r@) =~= texts(before).push(x@));
        assert(texts(r@) =~= first + texts(running@).subrange(0, i + 1));
        i = i + 1;
    }
    assert(texts(running@).subrange(0, i as int) =~= texts(running@));
    let ghost second = texts(r@);
    let mut j: usize = 0;
    while j < fallbacks.len()
        invariant
            j <= fallbacks@.len(),
            texts(r@) == second + texts(fallbacks@).subrange(0, j as int),
        decreases fallbacks@.len() - j,
    {
        let ghost before = r@;
        let x = fallbacks[j].clone();
        r.push(x);
        assert(texts(r@) =~= texts(before).push(x@));
        assert(texts(r@) =~= second + texts(fallbacks@).subrange(0, j + 1));
        j = j + 1;
    }
    assert(texts(fallbacks@).subrange(0, j as int) =~= texts(fallbacks@));
    assert(texts(r@) =~= colima_candidate_paths(resource_dir@, opt_text(ps_stdout)));
    r
}

/// Where Homebrew's `brew` is looked for before asking a login shell.
pub fn homebrew_paths() -> (r: Vec<String>)
    ensures
        texts(r@) == seq!["/opt/homebrew/bin/brew"@, "/usr/local/bin/brew"@],
{
    let r = vec![String::from_str("/opt/homebrew/bin/brew"), String::from_str("/usr/local/bin/brew")];
    assert(texts(r@) =~= seq!["/opt/homebrew/bin/brew"@, "/usr/local/bin/brew"@]);
    r
}

/// The trimmed output of a command that succeeded, if it is not empty.
pub open spec fn trimmed_answer(out: Result<CliOutput, String>) -> Option<Seq<char>> {
    match out {
        Ok(o) => if o.success && trim(o.stdout@).len() > 0 {
            Some(trim(o.stdout@))
        } else {
            None
        },
        Err(_) => None,
    }
}

/// The trimmed output of a command that succeeded, if it is not empty (the
/// path a login shell gives for `brew`, or the file a picker returned).
pub fn trimmed_output(out: Result<CliOutput, String>) -> (r: Option<String>)
    ensures
        match r {
            Some(s) => trimmed_answer(out) == Some(s@),
            None => trimmed_answer(out) is None,
        },
{
    match out {
        Ok(o) => if o.success {
            let cs = chars_of(o.stdout.as_str());
            let t = trim_chars(cs.as_slice());
            if t.len() > 0 {
                Some(string_of(t.as_slice()))
            } else {
                None
            }
        } else {
            None
        },
        Err(_) => None,
    }
}

/// The message a failed command is reported with: its output and error
/// output, trimmed, or its exit status when it printed nothing.
pub open spec fn command_error_text(action: Seq<char>, stdout: Seq<char>, stderr: Seq<char>, status: Seq<char>) -> Seq<char> {
    let details = trim(stdout + stderr);
    if details.len() == 0 {
        action + " failed with status "@ + status
    } else {
        action + " failed: "@ + details
    }
}

/// Reports a failed command.
pub fn command_error(action: &str, stdout: &str, stderr: &str, status: &str) -> (r: String)
    ensures
        r@ == command_error_text(action@, stdout@, stderr@, status@),
{
    let all = concat(stdout, stderr);
    let cs = chars_of(all.as_str());
    let details = trim_chars(cs.as_slice());
    let mut r = String::from_str(action);
    if details.len() == 0 {
        r.append(" failed with status ");
        r.append(status);
    } else {
        r.append(" failed: ");
        let d = string_of(details.as_slice());
        r.append(d.as_str());
    }
    r
}

/// The Homebrew formulas a usable runtime needs.
pub fn runtime_formulas() -> (r: Vec<String>)
    ensures
        texts(r@) == seq!["colima"@, "docker"@],
{
    let r = vec![String::from_str("colima"), String::from_str("docker")];
    assert(texts(r@) =~= seq!["colima"@, "docker"@]);
    r
}

/// The arguments of `brew` that tell whether a formula is installed.
pub fn brew_list_args(formula: &str) -> (r: Vec<String>)
    ensures
        texts(r@) == seq!["list"@, "--formula"@, formula@],
{
    let r = vec![String::from_str("list"), String::from_str("--formula"), String::from_str(formula)];
    assert(texts(r@) =~= seq!["list"@, "--formula"@, formula@]);
    r
}

/// The arguments of `brew` that install the missing formulas.
pub fn brew_install_args(missing: &Vec<String>) -> (r: Vec<String>)
    ensures
        texts(r@) == seq!["install"@] + texts(missing@),
{
    let mut r = vec![String::from_str("install")];
    let mut i: usize = 0;
    while i < missing.len()
        invariant
            i <= missing@.len(),
            texts(r@) == seq!["install"@] + texts(missing@).subrange(0, i as int),
        decreases missing@.len() - i,
    {
        let ghost before = r@;
        let m = missing[i].clone();
        r.push(m);
        assert(texts(r@) =~= texts(before).push(m@));
        assert(texts(r@) =~= seq!["install"@] + texts(missing@).subrange(0, i + 1));
        i = i + 1;
    }
    assert(texts(missing@).subrange(0, i as int) =~= texts(missing@));
    r
}

/// The message when Colima is not bundled and Homebrew is not there.
pub fn no_homebrew_error() -> (r: String)
    ensures
        r@ == "Colima is not bundled and Homebrew was not found. Install Homebrew, then try again."@,
{
    String::from_str("Colima is not bundled and Homebrew was not found. Install Homebrew, then try again.")
}

/// The message when `brew` cannot be launched.
pub fn homebrew_launch_error(e: &str) -> (r: String)
    ensures
        r@ == "Could not run Homebrew: "@ + e@,
{
    concat("Could not run Homebrew: ", e)
}

/// The message when Colima was installed but is still not found.
pub fn colima_missing_after_install() -> (r: String)
    ensures
        r@ == "Colima was installed, but its executable could not be found. Restart the app and try again."@,
{
    String::from_str(
        "Colima was installed, but its executable could not be found. Restart the app and try again.",
    )
}

/// `base` joined with `rel` as `Path::join` forms it with Unix paths (the
/// syntax of macOS, which this library targets): an absolute `rel` (one
/// starting with `/`) replaces `base`; after an empty `base`, or one that
/// ends with `/`, `rel` follows directly; otherwise a `/` goes between.
pub open spec fn path_join_of(base: Seq<char>, rel: Seq<char>) -> Seq<char> {
    if rel.len() > 0 && rel[0] == '/' {
        rel
    } else if base.len() == 0 || base.last() == '/' {
        base + rel
    } else {
        base + seq!['/'] + rel
    }
}

/// Calls `Path::join` (that is, `PathBuf::push` on a copy of `base`) and
/// converts the result to text; for a path made from text the conversion
/// loses nothing. The contract states the join as `PathBuf::push` documents
/// it for Unix paths: an absolute `rel` replaces `base`, otherwise `rel` is
/// appended with a `/` between them where `base` does not already end with one.
#[verifier::external_body]
pub(crate) fn path_join(base: &str, rel: &str) -> (r: String)
    ensures
        r@ == path_join_of(base@, rel@),
{
    std::path::Path::new(base).join(rel).to_string_lossy().to_string()
}

/// The parent of a path, as `Path::parent` gives it.
pub uninterp spec fn path_parent_of(path: Seq<char>) -> Option<Seq<char>>;

/// Calls `Path::parent`: the path without its final component, or nothing
/// for a root or an empty path. The result is named `path_parent_of` of the
/// argument; nothing else is claimed of it.
#[verifier::external_body]
pub(crate) fn path_parent(path: &str) -> (r: Option<String>)
    ensures
        match r {
            Some(p) => path_parent_of(path@) == Some(p@),
            None => path_parent_of(path@) is None,
        },
{
    std::path::Path::new(path).parent().map(|p| p.to_string_lossy().to_string())
}

/// The runtime directory of a bundled Colima: three levels up from
/// `.../runtime/colima/bin/colima`.
pub open spec fn runtime_base_of(colima_path: Seq<char>) -> Option<Seq<char>> {
    match path_parent_of(colima_path) {
        Some(a) => match path_parent_of(a) {
            Some(b) => path_parent_of(b),
            None => None,
        },
        None => None,
    }
}

/// The runtime directory of a Colima binary.
pub fn runtime_base_from_colima(colima_path: &str) -> (r: Option<String>)
    ensures
        match r {
            Some(b) => runtime_base_of(colima_path@) == Some(b@),
            None => runtime_base_of(colima_path@) is None,
        },
{
    let a = path_parent(colima_path)?;
    let b = path_parent(a.as_str())?;
    path_parent(b.as_str())
}

/// The paths whose presence shows a runtime directory to be a full bundle:
/// its `limactl` and its `docker`.
pub fn bundle_markers(base: &str) -> (r: (String, String))
    ensures
        r.0@ == path_join_of(base@, "lima/bin/limactl"@),
        r.1@ == path_join_of(base@, "docker/bin/docker"@),
{
    (path_join(base, "lima/bin/limactl"), path_join(base, "docker/bin/docker"))
}

/// The views of environment pairs.
pub open spec fn pair_texts(v: Seq<(String, String)>) -> Seq<(Seq<char>, Seq<char>)> {
    v.map_values(|p: (String, String)| (p.0@, p.1@))
}

/// The environment Colima runs with. Lima's home is under the user's home.
/// A full bundle (its base given) puts its own lima, colima and docker
/// first on the PATH and names its lima directory; otherwise Homebrew's and
/// the system's directories form the PATH.
pub open spec fn colima_env(home: Seq<char>, bundle: Option<Seq<char>>) -> Seq<(Seq<char>, Seq<char>)> {
    let lima_home = ("LIMA_HOME"@, path_join_of(home, ".lima"@));
    match bundle {
        Some(base) => {
            let lima_dir = path_join_of(base, "lima"@);
            seq![
                lima_home,
                (
                    "PATH"@,
                    path_join_of(lima_dir, "bin"@) + ":"@ + path_join_of(base, "colima/bin"@) + ":"@
                        + path_join_of(base, "docker/bin"@) + ":/usr/local/bin:/opt/homebrew/bin:/usr/bin:/bin"@,
                ),
                ("LIMA_DIR"@, lima_dir),
            ]
        },
        None => seq![lima_home, ("PATH"@, "/opt/homebrew/bin:/usr/local/bin:/usr/bin:/bin"@)],
    }
}

/// The environment Colima runs with.
pub fn colima_env_for(home: &str, bundle: Option<&str>) -> (r: Vec<(String, String)>)
    ensures
        pair_texts(r@) == colima_env(
            home@,
            match bundle {
                Some(b) => Some(b@),
                None => None,
            },
        ),
{
    let lima_home = (String::from_str("LIMA_HOME"), path_join(home, ".lima"));
    match bundle {
        Some(base) => {
            let lima_dir = path_join(base, "lima");
            let mut path = path_join(lima_dir.as_str(), "bin");
            path.append(":");
            path.append(path_join(base, "colima/bin").as_str());
            path.append(":");
            path.append(path_join(base, "docker/bin").as_str());
            path.append(":/usr/local/bin:/opt/homebrew/bin:/usr/bin:/bin");
            let r = vec![lima_home, (String::from_str("PATH"), path), (String::from_str("LIMA_DIR"), lima_dir)];
            assert(pair_texts(r@) =~= colima_env(home@, Some(base@)));
            r
        },
        None => {
            let r = vec![
                lima_home,
                (String::from_str("PATH"), String::from_str("/opt/homebrew/bin:/usr/local/bin:/usr/bin:/bin")),
            ];
            assert(pair_texts(r@) =~= colima_env(home@, None));
            r
        },
    }
}

/// Colima's Docker socket under the user's home.
pub fn colima_socket_path(home: &str) -> (r: String)
    ensures
        r@ == path_join_of(home@, ".colima/default/docker.sock"@),
{
    path_join(home, ".colima/default/docker.sock")
}

/// Whether a line of Colima's log reports an error.
pub open spec fn is_error_line(l: Seq<char>) -> bool {
    contains(l, "level=fatal"@) || contains(l, "level=error"@)
}

/// The log line that explains a failure: the last error line, else the last
/// non-blank line, else a generic message.
pub open spec fn failure_line(full: Seq<char>) -> Seq<char> {
    let errs = lines(full).filter(|l: Seq<char>| is_error_line(l));
    if errs.len() > 0 {
        errs.last()
    } else {
        match last_nonblank(lines(full)) {
            Some(l) => l,
            None => "Unknown error"@,
        }
    }
}

/// `s` without double quotes at either end.
pub open spec fn trim_quotes(s: Seq<char>) -> Seq<char> {
    trim_end_matches(trim_start_matches(s, "\""@), "\""@)
}

/// A clean error message from Colima's verbose log: the explaining line, or
/// only its `msg=` part, unquoted, when it has one.
pub open spec fn extracted_error(full: Seq<char>) -> Seq<char> {
    let raw = failure_line(full);
    match find(raw, "msg="@) {
        Some(i) => trim_quotes(raw.subrange(i + 4, raw.len() as int)),
        None => raw,
    }
}

/// Among the first `k` lines, the last that reports an error is the one at
/// `j`, when no later line of all reports one.
proof fn lemma_error_lines_filter(ls: Seq<Seq<char>>, j: int, k: int)
    requires
        0 <= j < k <= ls.len(),
        contains(ls[j], "level=error"@) || contains(ls[j], "level=fatal"@),
        forall|m: int| j < m < ls.len() ==> !contains(#[trigger] ls[m], "level=error"@) && !contains(
            ls[m],
            "level=fatal"@,
        ),
    ensures
        ls.take(k).filter(|l: Seq<char>| is_error_line(l)).len() > 0,
        ls.take(k).filter(|l: Seq<char>| is_error_line(l)).last() == ls[j],
    decreases k - j,
{
    let p = |l: Seq<char>| is_error_line(l);
    assert(ls.take(k) =~= ls.take(k - 1).push(ls[k - 1]));
    ls.take(k - 1).lemma_filter_push(ls[k - 1], p);
    if k - 1 > j {
        lemma_error_lines_filter(ls, j, k - 1);
        assert(!is_error_line(ls[k - 1]));
    } else {
        assert(is_error_line(ls[j]));
    }
}

/// The message of a failed Colima run comes from the last line of its log
/// that reports an error (one containing `level=error` or `level=fatal`),
/// never from a later line: that line, or, when it has a `msg=` field, the
/// text after the first `msg=` without surrounding double quotes.
pub proof fn lemma_error_from_last_error_line(full: Seq<char>, j: int)
    requires
        0 <= j < lines(full).len(),
        contains(lines(full)[j], "level=error"@) || contains(lines(full)[j], "level=fatal"@),
        forall|m: int| j < m < lines(full).len() ==> !contains(#[trigger] lines(full)[m], "level=error"@)
            && !contains(lines(full)[m], "level=fatal"@),
    ensures
        failure_line(full) == lines(full)[j],
        extracted_error(full) == match find(lines(full)[j], "msg="@) {
            Some(i) => trim_end_matches(
                trim_start_matches(lines(full)[j].subrange(i + 4, lines(full)[j].len() as int), "\""@),
                "\""@,
            ),
            None => lines(full)[j],
        },
{
    let ls = lines(full);
    lemma_error_lines_filter(ls, j, ls.len() as int);
    assert(ls.take(ls.len() as int) =~= ls);
}

/// Extracts a clean error message from Colima's log output.
pub fn extract_error(full: &str) -> (r: String)
    ensures
        r@ == extracted_error(full@),
{
    let cs = chars_of(full);
    let ls = split_lines(cs.as_slice());
    let ghost all = views(ls@);
    let ghost keep = |l: Seq<char>| is_error_line(l);
    let fatal = chars_of("level=fatal");
    let error = chars_of("level=error");
    let mut last_err: Option<usize> = None;
    let mut i: usize = 0;
    assert(all.take(0).filter(keep) =~= Seq::<Seq<char>>::empty());
    while i < ls.len()
        invariant
            i <= ls@.len(),
            all == views(ls@),
            all == lines(full@),
            fatal@ == "level=fatal"@,
            error@ == "level=error"@,
            keep == (|l: Seq<char>| is_error_line(l)),
            match last_err {
                Some(k) => k < i && all.take(i as int).filter(keep).len() > 0 && all.take(i as int).filter(
                    keep,
                ).last() == all[k as int],
                None => all.take(i as int).filter(keep).len() == 0,
            },
        decreases ls@.len() - i,
    {
        assert(all.take(i + 1) =~= all.take(i as int).push(all[i as int]));
        proof {
            all.take(i as int).lemma_filter_push(all[i as int], keep);
        }
        assert(all[i as int] == ls@[i as int]@);
        if contains_chars(ls[i].as_slice(), fatal.as_slice()) || contains_chars(ls[i].as_slice(), error.as_slice()) {
            last_err = Some(i);
        }
        i = i + 1;
    }
    assert(all.take(i as int) =~= all);
    let raw: Vec<char> = match last_err {
        Some(k) => copy_range(ls[k].as_slice(), 0, ls[k].len()),
        None => match last_nonblank_index(&ls) {
            Some(j) => copy_range(ls[j].as_slice(), 0, ls[j].len()),
            None => chars_of("Unknown error"),
        },
    };
    assert(ls@.len() == all.len());
    assert(raw@ == failure_line(full@));
    let marker = chars_of("msg=");
    let n = raw.len();
    match find_chars(raw.as_slice(), marker.as_slice()) {
        Some(i) => {
            proof {
                reveal_strlit("msg=");
                lemma_find_bounds(raw@, marker@);
                assert(marker@.len() == 4);
                assert(i + 4 <= n);
            }
            let rest = copy_range(raw.as_slice(), i + 4, n);
            let quote = chars_of("\"");
            let a = strip_all_prefix(rest.as_slice(), quote.as_slice());
            let b = strip_all_suffix(a.as_slice(), quote.as_slice());
            string_of(b.as_slice())
        },
        None => string_of(raw.as_slice()),
    }
}

/// The position of the last line that holds more than whitespace.
fn last_nonblank_index(ls: &Vec<Vec<char>>) -> (r: Option<usize>)
    ensures
        match r {
            Some(j) => j < ls@.len() && last_nonblank(views(ls@)) == Some(ls@[j as int]@),
            None => last_nonblank(views(ls@)) is None,
        },
{
    let ghost all = views(ls@);
    assert(all.subrange(0, all.len() as int) =~= all);
    let mut k = ls.len();
    while k > 0
        invariant
            k <= ls@.len(),
            all == views(ls@),
            last_nonblank(all) == last_nonblank(all.subrange(0, k as int)),
        decreases k,
    {
        let ghost pre = all.subrange(0, k as int);
        assert(pre.drop_last() =~= all.subrange(0, k - 1));
        assert(pre.last() == ls@[k - 1]@);
        let t = trim_chars(ls[k - 1].as_slice());
        if t.len() > 0 {
            return Some(k - 1);
        }
        k = k - 1;
    }
    assert(all.subrange(0, 0) =~= Seq::<Seq<char>>::empty());
    None
}


/// `c` with its CPU count replaced by `v`, when `v` holds a value.
pub open spec fn with_cpu(c: VmConfig, v: Option<nat>) -> VmConfig {
    match v {
        Some(n) => VmConfig { cpu: n as u32, memory: c.memory, disk: c.disk },
        None => c,
    }
}

/// `c` with its memory replaced by `v`, when `v` holds a value.
pub open spec fn with_memory(c: VmConfig, v: Option<nat>) -> VmConfig {
    match v {
        Some(n) => VmConfig { cpu: c.cpu, memory: n as u32, disk: c.disk },
        None => c,
    }
}

/// `c` with its disk replaced by `v`, when `v` holds a value.
pub open spec fn with_disk(c: VmConfig, v: Option<nat>) -> VmConfig {
    match v {
        Some(n) => VmConfig { cpu: c.cpu, memory: c.memory, disk: n as u32 },
        None => c,
    }
}

/// The text after `key` on a line, trimmed.
pub open spec fn value_after(l: Seq<char>, key: Seq<char>) -> Seq<char> {
    trim(l.subrange(key.len() as int, l.len() as int))
}

/// What parsing text as a `u32` gives.
pub open spec fn parse_u32(s: Seq<char>) -> Option<nat> {
    parse_bounded(s, u32::MAX as nat)
}

/// Lima's memory in GiB: a value of 1024 or more is taken for MiB.
pub open spec fn lima_memory_gib(v: nat) -> nat {
    if v >= 1024 {
        v / 1024
    } else {
        v
    }
}

/// The number on Lima's memory line, its unit removed.
pub open spec fn lima_memory_text(l: Seq<char>) -> Seq<char> {
    trim_end_matches(trim_end_matches(value_after(l, "memory:"@), "MiB"@), "GiB"@)
}

/// The number on Lima's disk line, its unit removed.
pub open spec fn lima_disk_text(l: Seq<char>) -> Seq<char> {
    trim_end_matches(trim_end_matches(value_after(l, "disk:"@), "GiB"@), "MiB"@)
}

/// What one line of Lima's `lima.yaml` does to the configuration read so
/// far: a comment or another line changes nothing; `cpus:`, `memory:` and
/// `disk:` lines set their value when it parses.
pub open spec fn lima_step(c: VmConfig, l: Seq<char>) -> VmConfig {
    if starts_with(l, "#"@) {
        c
    } else if starts_with(l, "cpus:"@) {
        with_cpu(c, parse_u32(value_after(l, "cpus:"@)))
    } else if starts_with(l, "memory:"@) {
        with_memory(
            c,
            match parse_u32(lima_memory_text(l)) {
                Some(v) => Some(lima_memory_gib(v)),
                None => None,
            },
        )
    } else if starts_with(l, "disk:"@) {
        with_disk(c, parse_u32(lima_disk_text(l)))
    } else {
        c
    }
}

/// The configuration that the lines of Lima's file give, from the defaults.
pub open spec fn lima_config(ls: Seq<Seq<char>>) -> VmConfig
    decreases ls.len(),
{
    if ls.len() == 0 {
        default_vm()
    } else {
        lima_step(lima_config(ls.drop_last()), ls.last())
    }
}

/// What one line of Colima's `colima.yaml` does to the configuration read so far.
pub open spec fn colima_step(c: VmConfig, l: Seq<char>) -> VmConfig {
    if starts_with(l, "#"@) {
        c
    } else if starts_with(l, "cpu:"@) {
        with_cpu(c, parse_u32(value_after(l, "cpu:"@)))
    } else if starts_with(l, "memory:"@) {
        with_memory(c, parse_u32(value_after(l, "memory:"@)))
    } else if starts_with(l, "disk:"@) {
        with_disk(c, parse_u32(value_after(l, "disk:"@)))
    } else {
        c
    }
}

/// The configuration that the lines of Colima's file give, from the defaults.
pub open spec fn colima_config(ls: Seq<Seq<char>>) -> VmConfig
    decreases ls.len(),
{
    if ls.len() == 0 {
        default_vm()
    } else {
        colima_step(colima_config(ls.drop_last()), ls.last())
    }
}

/// The text of a file that could be read.
pub open spec fn opt_text(o: Option<&str>) -> Option<Seq<char>> {
    match o {
        Some(s) => Some(s@),
        None => None,
    }
}

/// The VM configuration in force: Lima's file when it could be read (it holds
/// the values of the running VM), else Colima's, else the defaults.
pub open spec fn vm_config_of(lima: Option<Seq<char>>, colima: Option<Seq<char>>) -> VmConfig {
    match lima {
        Some(t) => lima_config(lines(t)),
        None => match colima {
            Some(t) => colima_config(lines(t)),
            None => default_vm(),
        },
    }
}

/// Parses text as a `u32`.
fn parse_u32_chars(s: &[char]) -> (r: Option<u32>)
    ensures
        match r {
            Some(v) => parse_u32(s@) == Some(v as nat),
            None => parse_u32(s@) is None,
        },
{
    match parse_unsigned_chars(s, 0xffff_ffffu64) {
        Some(v) => Some(v as u32),
        None => None,
    }
}

/// The trimmed text after `key` on a line that starts with it.
fn value_chars(l: &[char], key: &[char]) -> (r: Vec<char>)
    requires
        key@.len() <= l@.len(),
    ensures
        r@ == value_after(l@, key@),
{
    let v = copy_range(l, key.len(), l.len());
    trim_chars(v.as_slice())
}

/// Applies one line of Lima's file.
fn lima_step_exec(c: VmConfig, l: &[char]) -> (r: VmConfig)
    ensures
        r == lima_step(c, l@),
{
    let hash = chars_of("#");
    let cpus = chars_of("cpus:");
    let memory = chars_of("memory:");
    let disk = chars_of("disk:");
    if has_prefix(l, hash.as_slice()) {
        c
    } else if has_prefix(l, cpus.as_slice()) {
        let t = value_chars(l, cpus.as_slice());
        match parse_u32_chars(t.as_slice()) {
            Some(v) => VmConfig { cpu: v, memory: c.memory, disk: c.disk },
            None => c,
        }
    } else if has_prefix(l, memory.as_slice()) {
        let t = value_chars(l, memory.as_slice());
        let mib = chars_of("MiB");
        let gib = chars_of("GiB");
        let a = strip_all_suffix(t.as_slice(), mib.as_slice());
        let b = strip_all_suffix(a.as_slice(), gib.as_slice());
        match parse_u32_chars(b.as_slice()) {
            Some(v) => {
                let g = if v >= 1024 { v / 1024 } else { v };
                VmConfig { cpu: c.cpu, memory: g, disk: c.disk }
            },
            None => c,
        }
    } else if has_prefix(l, disk.as_slice()) {
        let t = value_chars(l, disk.as_slice());
        let mib = chars_of("MiB");
        let gib = chars_of("GiB");
        let a = strip_all_suffix(t.as_slice(), gib.as_slice());
        let b = strip_all_suffix(a.as_slice(), mib.as_slice());
        match parse_u32_chars(b.as_slice()) {
            Some(v) => VmConfig { cpu: c.cpu, memory: c.memory, disk: v },
            None => c,
        }
    } else {
        c
    }
}

/// Applies one line of Colima's file.
fn colima_step_exec(c: VmConfig, l: &[char]) -> (r: VmConfig)
    ensures
        r == colima_step(c, l@),
{
    let hash = chars_of("#");
    let cpu = chars_of("cpu:");
    let memory = chars_of("memory:");
    let disk = chars_of("disk:");
    if has_prefix(l, hash.as_slice()) {
        c
    } else if has_prefix(l, cpu.as_slice()) {
        let t = value_chars(l, cpu.as_slice());
        match parse_u32_chars(t.as_slice()) {
            Some(v) => VmConfig { cpu: v, memory: c.memory, disk: c.disk },
            None => c,
        }
    } else if has_prefix(l, memory.as_slice()) {
        let t = value_chars(l, memory.as_slice());
        match parse_u32_chars(t.as_slice()) {
            Some(v) => VmConfig { cpu: c.cpu, memory: v, disk: c.disk },
            None => c,
        }
    } else if has_prefix(l, disk.as_slice()) {
        let t = value_chars(l, disk.as_slice());
        match parse_u32_chars(t.as_slice()) {
            Some(v) => VmConfig { cpu: c.cpu, memory: c.memory, disk: v },
            None => c,
        }
    } else {
        c
    }
}

/// Reads Lima's file.
fn read_lima(content: &str) -> (r: VmConfig)
    ensures
        r == lima_config(lines(content@)),
{
    let cs = chars_of(content);
    let ls = split_lines(cs.as_slice());
    let ghost all = views(ls@);
    let mut c = VmConfig { cpu: 2, memory: 4, disk: 20 };
    let mut i: usize = 0;
    assert(all.take(0) =~= Seq::<Seq<char>>::empty());
    while i < ls.len()
        invariant
            i <= ls@.len(),
            all == views(ls@),
            all == lines(content@),
            c == lima_config(all.take(i as int)),
        decreases ls@.len() - i,
    {
        assert(all.take(i + 1).drop_last() =~= all.take(i as int));
        assert(all.take(i + 1).last() == ls@[i as int]@);
        c = lima_step_exec(c, ls[i].as_slice());
        i = i + 1;
    }
    assert(all.take(i as int) =~= all);
    c
}

/// Reads Colima's file.
fn read_colima(content: &str) -> (r: VmConfig)
    ensures
        r == colima_config(lines(content@)),
{
    let cs = chars_of(content);
    let ls = split_lines(cs.as_slice());
    let ghost all = views(ls@);
    let mut c = VmConfig { cpu: 2, memory: 4, disk: 20 };
    let mut i: usize = 0;
    assert(all.take(0) =~= Seq::<Seq<char>>::empty());
    while i < ls.len()
        invariant
            i <= ls@.len(),
            all == views(ls@),
            all == lines(content@),
            c == colima_config(all.take(i as int)),
        decreases ls@.len() - i,
    {
        assert(all.take(i + 1).drop_last() =~= all.take(i as int));
        assert(all.take(i + 1).last() == ls@[i as int]@);
        c = colima_step_exec(c, ls[i].as_slice());
        i = i + 1;
    }
    assert(all.take(i as int) =~= all);
    c
}

/// The current VM configuration, from the text of Lima's `lima.yaml` (the
/// values of the running VM) when it could be read, else from Colima's
/// `colima.yaml`, else the defaults.
pub fn read_vm_config(lima: Option<&str>, colima: Option<&str>) -> (r: VmConfig)
    ensures
        r == vm_config_of(opt_text(lima), opt_text(colima)),
{
    match lima {
        Some(t) => read_lima(t),
        None => match colima {
            Some(t) => read_colima(t),
            None => VmConfig { cpu: 2, memory: 4, disk: 20 },
        },
    }
}

/// A line that is not commented out and starts with `key`.
pub open spec fn sets_line(l: Seq<char>, key: Seq<char>) -> bool {
    !starts_with(l, "#"@) && starts_with(l, key)
}

/// Whether some line of `ls` that is not commented out starts with `key`.
pub open spec fn sets_key(ls: Seq<Seq<char>>, key: Seq<char>) -> bool
    decreases ls.len(),
{
    if ls.len() == 0 {
        false
    } else {
        sets_key(ls.drop_last(), key) || sets_line(ls.last(), key)
    }
}

/// A line of Colima's file after `c` was written into it: the `cpu:`,
/// `memory:` and `disk:` lines carry `c`'s values, the others stay.
pub open spec fn colima_line(l: Seq<char>, c: VmConfig) -> Seq<char> {
    if starts_with(l, "#"@) {
        l
    } else if starts_with(l, "cpu:"@) {
        "cpu: "@ + decimal(c.cpu as nat)
    } else if starts_with(l, "memory:"@) {
        "memory: "@ + decimal(c.memory as nat)
    } else if starts_with(l, "disk:"@) {
        "disk: "@ + decimal(c.disk as nat)
    } else {
        l
    }
}

/// A line of Lima's file after `c` was written into it: `cpus:` carries the
/// CPU count, `memory:` the memory in MiB, `disk:` the disk in GiB.
pub open spec fn lima_line(l: Seq<char>, c: VmConfig) -> Seq<char> {
    if starts_with(l, "#"@) {
        l
    } else if starts_with(l, "cpus:"@) {
        "cpus: "@ + decimal(c.cpu as nat)
    } else if starts_with(l, "memory:"@) {
        "memory: "@ + decimal((c.memory * 1024) as nat) + "MiB"@
    } else if starts_with(l, "disk:"@) {
        "disk: "@ + decimal(c.disk as nat) + "GiB"@
    } else {
        l
    }
}

/// Colima's file with `c` written into it: its lines rewritten, joined by
/// line breaks, with a final line break.
pub open spec fn colima_rewritten(content: Seq<char>, c: VmConfig) -> Seq<char> {
    join(lines(content).map_values(|l: Seq<char>| colima_line(l, c)), "\n"@) + "\n"@
}

/// Lima's file with `c` written into it.
pub open spec fn lima_rewritten(content: Seq<char>, c: VmConfig) -> Seq<char> {
    join(lines(content).map_values(|l: Seq<char>| lima_line(l, c)), "\n"@) + "\n"@
}

/// Rewrites one line of Colima's file.
fn colima_line_exec(l: &[char], c: &VmConfig) -> (r: Vec<char>)
    ensures
        r@ == colima_line(l@, *c),
{
    if has_prefix(l, chars_of("#").as_slice()) {
        copy_range(l, 0, l.len())
    } else if has_prefix(l, chars_of("cpu:").as_slice()) {
        let mut r = chars_of("cpu: ");
        append_chars(&mut r, decimal_chars(c.cpu as u64).as_slice());
        r
    } else if has_prefix(l, chars_of("memory:").as_slice()) {
        let mut r = chars_of("memory: ");
        append_chars(&mut r, decimal_chars(c.memory as u64).as_slice());
        r
    } else if has_prefix(l, chars_of("disk:").as_slice()) {
        let mut r = chars_of("disk: ");
        append_chars(&mut r, decimal_chars(c.disk as u64).as_slice());
        r
    } else {
        copy_range(l, 0, l.len())
    }
}

/// Rewrites one line of Lima's file.
fn lima_line_exec(l: &[char], c: &VmConfig) -> (r: Vec<char>)
    requires
        sets_line(l@, "memory:"@) ==> c.memory * 1024 <= u32::MAX,
    ensures
        r@ == lima_line(l@, *c),
{
    if has_prefix(l, chars_of("#").as_slice()) {
        copy_range(l, 0, l.len())
    } else if has_prefix(l, chars_of("cpus:").as_slice()) {
        let mut r = chars_of("cpus: ");
        append_chars(&mut r, decimal_chars(c.cpu as u64).as_slice());
        r
    } else if has_prefix(l, chars_of("memory:").as_slice()) {
        let mib = c.memory * 1024;
        let mut r = chars_of("memory: ");
        append_chars(&mut r, decimal_chars(mib as u64).as_slice());
        append_chars(&mut r, chars_of("MiB").as_slice());
        r
    } else if has_prefix(l, chars_of("disk:").as_slice()) {
        let mut r = chars_of("disk: ");
        append_chars(&mut r, decimal_chars(c.disk as u64).as_slice());
        append_chars(&mut r, chars_of("GiB").as_slice());
        r
    } else {
        copy_range(l, 0, l.len())
    }
}

pub proof fn lemma_sets_key_at(ls: Seq<Seq<char>>, key: Seq<char>, i: int)
    requires
        0 <= i < ls.len(),
        sets_line(ls[i], key),
    ensures
        sets_key(ls, key),
    decreases ls.len(),
{
    if i < ls.len() - 1 {
        lemma_sets_key_at(ls.drop_last(), key, i);
    }
}

/// Colima's file with `c` written into it.
pub fn rewrite_colima_config(content: &str, config: &VmConfig) -> (r: String)
    ensures
        r@ == colima_rewritten(content@, *config),
{
    let cs = chars_of(content);
    let ls = split_lines(cs.as_slice());
    let ghost all = views(ls@);
    let ghost new = all.map_values(|l: Seq<char>| colima_line(l, *config));
    let nl = chars_of("\n");
    let mut out: Vec<char> = Vec::new();
    let mut i: usize = 0;
    assert(new.take(0) =~= Seq::<Seq<char>>::empty());
    while i < ls.len()
        invariant
            i <= ls@.len(),
            all == views(ls@),
            all == lines(content@),
            new == all.map_values(|l: Seq<char>| colima_line(l, *config)),
            nl@ == "\n"@,
            out@ == join(new.take(i as int), "\n"@),
        decreases ls@.len() - i,
    {
        let line = colima_line_exec(ls[i].as_slice(), config);
        let ghost prev = new.take(i as int);
        let ghost next = new.take(i + 1);
        assert(next.drop_last() =~= prev);
        assert(all[i as int] == ls@[i as int]@);
        assert(next.last() == line@);
        if i > 0 {
            append_chars(&mut out, nl.as_slice());
        }
        append_chars(&mut out, line.as_slice());
        assert(out@ =~= join(next, "\n"@));
        i = i + 1;
    }
    assert(new.take(i as int) =~= new);
    append_chars(&mut out, nl.as_slice());
    string_of(out.as_slice())
}

/// Lima's file with `c` written into it. Lima counts memory in MiB, so the
/// memory times 1024 must fit a `u32` when the file has a memory line.
pub fn rewrite_lima_config(content: &str, config: &VmConfig) -> (r: String)
    requires
        sets_key(lines(content@), "memory:"@) ==> config.memory * 1024 <= u32::MAX,
    ensures
        r@ == lima_rewritten(content@, *config),
{
    let cs = chars_of(content);
    let ls = split_lines(cs.as_slice());
    let ghost all = views(ls@);
    let ghost new = all.map_values(|l: Seq<char>| lima_line(l, *config));
    let nl = chars_of("\n");
    let mut out: Vec<char> = Vec::new();
    let mut i: usize = 0;
    assert(new.take(0) =~= Seq::<Seq<char>>::empty());
    while i < ls.len()
        invariant
            i <= ls@.len(),
            all == views(ls@),
            all == lines(content@),
            sets_key(all, "memory:"@) ==> config.memory * 1024 <= u32::MAX,
            new == all.map_values(|l: Seq<char>| lima_line(l, *config)),
            nl@ == "\n"@,
            out@ == join(new.take(i as int), "\n"@),
        decreases ls@.len() - i,
    {
        assert(all[i as int] == ls@[i as int]@);
        proof {
            if sets_line(all[i as int], "memory:"@) {
                lemma_sets_key_at(all, "memory:"@, i as int);
            }
        }
        let line = lima_line_exec(ls[i].as_slice(), config);
        let ghost prev = new.take(i as int);
        let ghost next = new.take(i + 1);
        assert(next.drop_last() =~= prev);
        assert(next.last() == line@);
        if i > 0 {
            append_chars(&mut out, nl.as_slice());
        }
        append_chars(&mut out, line.as_slice());
        assert(out@ =~= join(next, "\n"@));
        i = i + 1;
    }
    assert(new.take(i as int) =~= new);
    append_chars(&mut out, nl.as_slice());
    string_of(out.as_slice())
}

/// A line that starts with `p` starts with its first character.
proof fn lemma_first_char(l: Seq<char>, p: Seq<char>)
    requires
        starts_with(l, p),
        p.len() > 0,
    ensures
        l[0] == p[0],
{
    assert(l.subrange(0, p.len() as int)[0] == l[0]);
}

/// A rewritten `key: value` line as it reads back: its number parses.
proof fn lemma_number_line(key: Seq<char>, n: nat, unit: Seq<char>, first: Seq<char>, second: Seq<char>)
    requires
        key.len() > 0,
        key.last() == ':',
        key[0] != '#',
        n <= u32::MAX,
        unit.len() == 0 || !is_digit(unit.last()),
        unit.len() == 0 || !is_ws(unit.last()),
        first.len() > 0 && !is_digit(first.last()),
        second.len() > 0 && !is_digit(second.last()),
        unit.len() == 0 || unit == first,
    ensures
        ({
            let line = key + " "@ + decimal(n) + unit;
            &&& strip_cr(line) == line
            &&& starts_with(line, key)
            &&& !starts_with(line, "#"@)
            &&& no_newline(key) ==> (no_newline(unit) ==> no_newline(line))
            &&& value_after(line, key) == decimal(n) + unit
            &&& trim_end_matches(trim_end_matches(decimal(n) + unit, first), second) == decimal(n)
            &&& parse_u32(decimal(n)) == Some(n)
        }),
{
    reveal_strlit(" ");
    reveal_strlit("#");
    let d = decimal(n);
    lemma_decimal_digits(n);
    lemma_digits_not_ws(d);
    lemma_parse_decimal(n);
    let body = d + unit;
    let line = key + " "@ + body;
    assert(key + " "@ + d + unit =~= line);
    assert(line.last() == body.last());
    if unit.len() == 0 {
        assert(body =~= d);
    } else {
        assert(body.last() == unit.last());
    }
    assert(body[0] == d[0]);
    assert(line.subrange(0, key.len() as int) =~= key);
    assert(line[0] == key[0]);
    assert(line.subrange(key.len() as int, line.len() as int) =~= " "@ + body);
    lemma_trim_padded(" "@, body);
    if no_newline(key) && no_newline(unit) {
        lemma_no_newline_concat(key, " "@);
        lemma_no_newline_concat(key + " "@, d);
        lemma_no_newline_concat(key + " "@ + d, unit);
    }
    if unit.len() == 0 {
        assert(body =~= d);
        lemma_no_unit(d, first);
        lemma_no_unit(d, second);
    } else {
        lemma_strip_unit(d, first);
        lemma_no_unit(d, second);
    }
}

/// A line that none of the keys starts and that is not rewritten: the
/// reading does not change the configuration.
proof fn lemma_other_line(l: Seq<char>, k1: Seq<char>, k2: Seq<char>, k3: Seq<char>)
    requires
        !starts_with(l, k1) || starts_with(l, "#"@),
        !starts_with(l, k2) || starts_with(l, "#"@),
        !starts_with(l, k3) || starts_with(l, "#"@),
    ensures
        starts_with(l, "#"@) ==> starts_with(strip_cr(l), "#"@),
        !starts_with(l, "#"@) ==> !starts_with(strip_cr(l), "#"@) && !starts_with(strip_cr(l), k1)
            && !starts_with(strip_cr(l), k2) && !starts_with(strip_cr(l), k3),
{
    reveal_strlit("#");
    lemma_strip_cr_prefix(l, "#"@);
    lemma_strip_cr_prefix(l, k1);
    lemma_strip_cr_prefix(l, k2);
    lemma_strip_cr_prefix(l, k3);
    if starts_with(l, "#"@) {
        lemma_first_char(l, "#"@);
        if l.len() == 1 {
            assert(l.last() == l[0]);
        }
        lemma_strip_cr_keeps_prefix(l, "#"@);
    }
}

/// A `cpus:` line of Lima's file, rewritten, reads back as `c`'s CPU count.
proof fn lemma_lima_cpus_line(x: VmConfig, l: Seq<char>, c: VmConfig)
    requires
        sets_line(l, "cpus:"@),
    ensures
        lima_step(x, strip_cr(lima_line(l, c))) == with_cpu(x, Some(c.cpu as nat)),
        no_newline(lima_line(l, c)),
{
    reveal_strlit("cpus:");
    reveal_strlit("cpus: ");
    reveal_strlit(" ");
    reveal_strlit("MiB");
    reveal_strlit("GiB");
    lemma_number_line("cpus:"@, c.cpu as nat, Seq::<char>::empty(), "MiB"@, "GiB"@);
    assert("cpus: "@ + decimal(c.cpu as nat) =~= "cpus:"@ + " "@ + decimal(c.cpu as nat) + Seq::<char>::empty());
    let nl = lima_line(l, c);
    lemma_first_char(nl, "cpus:"@);
    assert(!starts_with(nl, "#"@));
}

/// A `memory:` line of Lima's file, rewritten, reads back as `c`'s memory.
proof fn lemma_lima_memory_line(x: VmConfig, l: Seq<char>, c: VmConfig)
    requires
        sets_line(l, "memory:"@),
        c.memory * 1024 <= u32::MAX,
    ensures
        lima_step(x, strip_cr(lima_line(l, c))) == with_memory(x, Some(c.memory as nat)),
        no_newline(lima_line(l, c)),
{
    reveal_strlit("memory:");
    reveal_strlit("memory: ");
    reveal_strlit("cpus:");
    reveal_strlit(" ");
    reveal_strlit("MiB");
    reveal_strlit("GiB");
    lemma_first_char(l, "memory:"@);
    let m = (c.memory * 1024) as nat;
    lemma_number_line("memory:"@, m, "MiB"@, "MiB"@, "GiB"@);
    assert("memory: "@ + decimal(m) + "MiB"@ =~= "memory:"@ + " "@ + decimal(m) + "MiB"@);
    let nl = lima_line(l, c);
    lemma_first_char(nl, "memory:"@);
    assert(!starts_with(nl, "cpus:"@) && !starts_with(nl, "#"@));
    assert(lima_memory_gib(m) == c.memory) by (nonlinear_arith)
        requires
            m == c.memory * 1024,
    {
    }
}

/// A `disk:` line of Lima's file, rewritten, reads back as `c`'s disk.
proof fn lemma_lima_disk_line(x: VmConfig, l: Seq<char>, c: VmConfig)
    requires
        sets_line(l, "disk:"@),
    ensures
        lima_step(x, strip_cr(lima_line(l, c))) == with_disk(x, Some(c.disk as nat)),
        no_newline(lima_line(l, c)),
{
    reveal_strlit("disk:");
    reveal_strlit("disk: ");
    reveal_strlit("cpus:");
    reveal_strlit("memory:");
    reveal_strlit(" ");
    reveal_strlit("MiB");
    reveal_strlit("GiB");
    lemma_first_char(l, "disk:"@);
    lemma_number_line("disk:"@, c.disk as nat, "GiB"@, "GiB"@, "MiB"@);
    assert("disk: "@ + decimal(c.disk as nat) + "GiB"@ =~= "disk:"@ + " "@ + decimal(c.disk as nat) + "GiB"@);
    let nl = lima_line(l, c);
    lemma_first_char(nl, "disk:"@);
    assert(!starts_with(nl, "cpus:"@) && !starts_with(nl, "memory:"@) && !starts_with(nl, "#"@));
}

/// How one rewritten line of Lima's file reads back.
proof fn lemma_lima_line_read(x: VmConfig, l: Seq<char>, c: VmConfig)
    requires
        sets_line(l, "memory:"@) ==> c.memory * 1024 <= u32::MAX,
    ensures
        lima_step(x, strip_cr(lima_line(l, c))) == (VmConfig {
            cpu: if sets_line(l, "cpus:"@) { c.cpu } else { x.cpu },
            memory: if sets_line(l, "memory:"@) { c.memory } else { x.memory },
            disk: if sets_line(l, "disk:"@) { c.disk } else { x.disk },
        }),
        no_newline(l) ==> no_newline(lima_line(l, c)),
{
    reveal_strlit("cpus:");
    reveal_strlit("memory:");
    reveal_strlit("disk:");
    if sets_line(l, "cpus:"@) {
        lemma_first_char(l, "cpus:"@);
        lemma_lima_cpus_line(x, l, c);
    } else if sets_line(l, "memory:"@) {
        lemma_first_char(l, "memory:"@);
        lemma_lima_memory_line(x, l, c);
    } else if sets_line(l, "disk:"@) {
        lemma_first_char(l, "disk:"@);
        lemma_lima_disk_line(x, l, c);
    } else {
        lemma_other_line(l, "cpus:"@, "memory:"@, "disk:"@);
    }
}

/// How one rewritten line of Colima's file reads back.
proof fn lemma_colima_line_read(x: VmConfig, l: Seq<char>, c: VmConfig)
    ensures
        colima_step(x, strip_cr(colima_line(l, c))) == (VmConfig {
            cpu: if sets_line(l, "cpu:"@) { c.cpu } else { x.cpu },
            memory: if sets_line(l, "memory:"@) { c.memory } else { x.memory },
            disk: if sets_line(l, "disk:"@) { c.disk } else { x.disk },
        }),
        no_newline(l) ==> no_newline(colima_line(l, c)),
{
    reveal_strlit("#");
    reveal_strlit("cpu:");
    reveal_strlit("memory:");
    reveal_strlit("disk:");
    reveal_strlit("MiB");
    reveal_strlit("GiB");
    let e = Seq::<char>::empty();
    if !starts_with(l, "#"@) && starts_with(l, "cpu:"@) {
        lemma_first_char(l, "cpu:"@);
        lemma_number_line("cpu:"@, c.cpu as nat, e, "MiB"@, "GiB"@);
        assert("cpu: "@ =~= "cpu:"@ + " "@) by {
            reveal_strlit("cpu: ");
            reveal_strlit(" ");
        }
        assert("cpu: "@ + decimal(c.cpu as nat) =~= "cpu:"@ + " "@ + decimal(c.cpu as nat) + e);
        let nl = colima_line(l, c);
        assert(nl[0] == 'c');
        assert(!starts_with(nl, "memory:"@) && !starts_with(nl, "disk:"@) && !starts_with(nl, "#"@));
    } else if !starts_with(l, "#"@) && starts_with(l, "memory:"@) {
        lemma_first_char(l, "memory:"@);
        lemma_number_line("memory:"@, c.memory as nat, e, "MiB"@, "GiB"@);
        assert("memory: "@ =~= "memory:"@ + " "@) by {
            reveal_strlit("memory: ");
            reveal_strlit(" ");
        }
        assert("memory: "@ + decimal(c.memory as nat) =~= "memory:"@ + " "@ + decimal(c.memory as nat) + e);
        let nl = colima_line(l, c);
        assert(nl[0] == 'm');
        assert(!starts_with(nl, "cpu:"@) && !starts_with(nl, "#"@));
    } else if !starts_with(l, "#"@) && starts_with(l, "disk:"@) {
        lemma_first_char(l, "disk:"@);
        lemma_number_line("disk:"@, c.disk as nat, e, "MiB"@, "GiB"@);
        assert("disk: "@ =~= "disk:"@ + " "@) by {
            reveal_strlit("disk: ");
            reveal_strlit(" ");
        }
        assert("disk: "@ + decimal(c.disk as nat) =~= "disk:"@ + " "@ + decimal(c.disk as nat) + e);
        let nl = colima_line(l, c);
        assert(nl[0] == 'd');
        assert(!starts_with(nl, "cpu:"@) && !starts_with(nl, "memory:"@) && !starts_with(nl, "#"@));
    } else {
        lemma_other_line(l, "cpu:"@, "memory:"@, "disk:"@);
    }
}

/// A `key value` line: it starts with the key, and the text after the key,
/// trimmed, is the value.
proof fn lemma_key_value_line(key: Seq<char>, n: nat, unit: Seq<char>)
    requires
        key.len() > 0,
        unit == Seq::<char>::empty() || unit == "MiB"@ || unit == "GiB"@,
    ensures
        ({
            let line = key + " "@ + decimal(n) + unit;
            &&& starts_with(line, key)
            &&& line[0] == key[0]
            &&& value_after(line, key) == decimal(n) + unit
        }),
{
    reveal_strlit(" ");
    reveal_strlit("MiB");
    reveal_strlit("GiB");
    let d = decimal(n);
    lemma_decimal_digits(n);
    lemma_digits_not_ws(d);
    let body = d + unit;
    let line = key + " "@ + d + unit;
    assert(line =~= key + (" "@ + body));
    assert(line.subrange(0, key.len() as int) =~= key);
    assert(line.subrange(key.len() as int, line.len() as int) =~= " "@ + body);
    assert(body[0] == d[0]);
    if unit.len() > 0 {
        assert(body.last() == unit.last());
    } else {
        assert(body =~= d);
    }
    lemma_trim_padded(" "@, body);
}

/// A number followed by `MiB`, `GiB` or nothing loses its unit when both
/// units are trimmed from its end, in either order.
proof fn lemma_units_trimmed(n: nat, unit: Seq<char>)
    requires
        unit == Seq::<char>::empty() || unit == "MiB"@ || unit == "GiB"@,
    ensures
        trim_end_matches(trim_end_matches(decimal(n) + unit, "MiB"@), "GiB"@) == decimal(n),
        trim_end_matches(trim_end_matches(decimal(n) + unit, "GiB"@), "MiB"@) == decimal(n),
{
    reveal_strlit("MiB");
    reveal_strlit("GiB");
    let d = decimal(n);
    lemma_decimal_digits(n);
    assert(is_digit(d.last()));
    let mib = "MiB"@;
    let gib = "GiB"@;
    if unit.len() == 0 {
        assert(d + unit =~= d);
        lemma_no_unit(d, mib);
        lemma_no_unit(d, gib);
    } else {
        let (u, other) = if unit == mib { (mib, gib) } else { (gib, mib) };
        lemma_strip_unit(d, u);
        lemma_no_unit(d, other);
        let s = d + u;
        assert(s.subrange(s.len() - 3, s.len() as int) =~= u);
        assert(u[0] != other[0]);
        assert(!ends_with(s, other));
    }
}

/// How Lima's file is read: a `cpus:` value N gives N CPUs and a `disk:`
/// value N (in `GiB`, `MiB` or without unit) N GiB of disk; a `memory:`
/// value N below 1024 gives N GiB, whatever its unit, and from 1024 on is
/// taken for MiB, giving N / 1024 GiB.
pub proof fn lemma_lima_values_read(n: nat, unit: Seq<char>, c: VmConfig)
    requires
        n <= u32::MAX,
        unit == Seq::<char>::empty() || unit == "MiB"@ || unit == "GiB"@,
    ensures
        lima_step(c, "cpus: "@ + decimal(n)) == (VmConfig { cpu: n as u32, memory: c.memory, disk: c.disk }),
        lima_step(c, "memory: "@ + decimal(n) + unit) == (VmConfig {
            cpu: c.cpu,
            memory: (if n < 1024 { n } else { n / 1024 }) as u32,
            disk: c.disk,
        }),
        lima_step(c, "disk: "@ + decimal(n) + unit) == (VmConfig { cpu: c.cpu, memory: c.memory, disk: n as u32 }),
        vm_config_of(Some("memory: "@ + decimal(n) + unit + "\n"@), None) == (VmConfig {
            cpu: 2,
            memory: (if n < 1024 { n } else { n / 1024 }) as u32,
            disk: 20,
        }),
{
    reveal_strlit("#");
    reveal_strlit("cpus:");
    reveal_strlit("cpus: ");
    reveal_strlit("memory:");
    reveal_strlit("memory: ");
    reveal_strlit("disk:");
    reveal_strlit("disk: ");
    reveal_strlit(" ");
    reveal_strlit("\n");
    reveal_strlit("MiB");
    reveal_strlit("GiB");
    lemma_parse_decimal(n);
    lemma_units_trimmed(n, unit);
    let e = Seq::<char>::empty();
    let cl = "cpus: "@ + decimal(n);
    assert(cl =~= "cpus:"@ + " "@ + decimal(n) + e);
    lemma_key_value_line("cpus:"@, n, e);
    assert(decimal(n) + e =~= decimal(n));
    lemma_first_char(cl, "cpus:"@);
    let ml = "memory: "@ + decimal(n) + unit;
    assert(ml =~= "memory:"@ + " "@ + decimal(n) + unit);
    lemma_key_value_line("memory:"@, n, unit);
    lemma_first_char(ml, "memory:"@);
    let dl = "disk: "@ + decimal(n) + unit;
    assert(dl =~= "disk:"@ + " "@ + decimal(n) + unit);
    lemma_key_value_line("disk:"@, n, unit);
    lemma_first_char(dl, "disk:"@);
    assert(!starts_with(ml, "#"@) && !starts_with(ml, "cpus:"@));
    assert(!starts_with(dl, "#"@) && !starts_with(dl, "cpus:"@) && !starts_with(dl, "memory:"@));
    assert(!starts_with(cl, "#"@));
    // the whole file of one memory line
    lemma_decimal_digits(n);
    assert(no_newline(ml)) by {
        let pre = "memory: "@;
        assert(pre =~= seq!['m', 'e', 'm', 'o', 'r', 'y', ':', ' ']);
        assert forall|k: int| 0 <= k < pre.len() implies pre[k] != '\n' by {
            if k == 0 {} else if k == 1 {} else if k == 2 {} else if k == 3 {} else if k == 4 {}
            else if k == 5 {} else if k == 6 {} else {}
        }
        lemma_digits_not_ws(decimal(n));
        assert(no_newline(unit)) by {
            assert("MiB"@ =~= seq!['M', 'i', 'B']);
            assert("GiB"@ =~= seq!['G', 'i', 'B']);
            assert forall|k: int| 0 <= k < unit.len() implies unit[k] != '\n' by {
                if k == 0 {} else if k == 1 {} else {}
            }
        }
        lemma_no_newline_concat(pre, decimal(n));
        lemma_no_newline_concat(pre + decimal(n), unit);
    }
    assert(ml + "\n"@ =~= ml + seq!['\n'] + e);
    lemma_lines_cons(ml, e);
    assert(lines(e) =~= Seq::<Seq<char>>::empty());
    if unit.len() > 0 {
        assert("MiB"@ =~= seq!['M', 'i', 'B']);
        assert("GiB"@ =~= seq!['G', 'i', 'B']);
        assert(unit.last() == 'B');
        assert(ml.last() == unit.last());
    } else {
        assert(ml.last() == decimal(n).last());
        assert(is_digit(decimal(n).last()));
    }
    assert(strip_cr(ml) == ml);
    let one = seq![ml];
    assert(lines(ml + "\n"@) =~= one);
    assert(one.drop_last() =~= Seq::<Seq<char>>::empty());
    assert(lima_config(Seq::<Seq<char>>::empty()) == default_vm());
}

/// What a file whose lines are `ls` gives after `c` was written into it:
/// `c`'s value for each setting that a line of it sets (the CPU count under
/// `cpu_key`), the default for each other setting.
pub open spec fn config_after_write(ls: Seq<Seq<char>>, c: VmConfig, cpu_key: Seq<char>) -> VmConfig {
    VmConfig {
        cpu: if sets_key(ls, cpu_key) { c.cpu } else { default_vm().cpu },
        memory: if sets_key(ls, "memory:"@) { c.memory } else { default_vm().memory },
        disk: if sets_key(ls, "disk:"@) { c.disk } else { default_vm().disk },
    }
}

proof fn lemma_lima_fold(ls: Seq<Seq<char>>, c: VmConfig)
    requires
        sets_key(ls, "memory:"@) ==> c.memory * 1024 <= u32::MAX,
    ensures
        lima_config(ls.map_values(|l: Seq<char>| strip_cr(lima_line(l, c)))) == config_after_write(ls, c, "cpus:"@),
    decreases ls.len(),
{
    let m = ls.map_values(|l: Seq<char>| strip_cr(lima_line(l, c)));
    if ls.len() == 0 {
        assert(m =~= Seq::<Seq<char>>::empty());
    } else {
        let p = ls.drop_last();
        lemma_lima_fold(p, c);
        assert(m.drop_last() =~= p.map_values(|l: Seq<char>| strip_cr(lima_line(l, c))));
        assert(m.last() == strip_cr(lima_line(ls.last(), c)));
        lemma_lima_line_read(config_after_write(p, c, "cpus:"@), ls.last(), c);
    }
}

proof fn lemma_colima_fold(ls: Seq<Seq<char>>, c: VmConfig)
    ensures
        colima_config(ls.map_values(|l: Seq<char>| strip_cr(colima_line(l, c)))) == config_after_write(ls, c, "cpu:"@),
    decreases ls.len(),
{
    let m = ls.map_values(|l: Seq<char>| strip_cr(colima_line(l, c)));
    if ls.len() == 0 {
        assert(m =~= Seq::<Seq<char>>::empty());
    } else {
        let p = ls.drop_last();
        lemma_colima_fold(p, c);
        assert(m.drop_last() =~= p.map_values(|l: Seq<char>| strip_cr(colima_line(l, c))));
        assert(m.last() == strip_cr(colima_line(ls.last(), c)));
        lemma_colima_line_read(config_after_write(p, c, "cpu:"@), ls.last(), c);
    }
}

/// The lines of a file rewritten line by line: the rewritten lines, each
/// without one final carriage return; one empty line for an empty file.
proof fn lemma_rewritten_lines(ls: Seq<Seq<char>>, new: Seq<Seq<char>>)
    requires
        new.len() == ls.len(),
        forall|i: int| 0 <= i < new.len() ==> no_newline(#[trigger] new[i]),
    ensures
        ls.len() == 0 ==> lines(join(new, "\n"@) + "\n"@) == seq![Seq::<char>::empty()],
        ls.len() > 0 ==> lines(join(new, "\n"@) + "\n"@) == new.map_values(|l: Seq<char>| strip_cr(l)),
{
    reveal_strlit("\n");
    assert("\n"@ =~= seq!['\n']);
    if ls.len() == 0 {
        let e = Seq::<char>::empty();
        assert(join(new, "\n"@) + "\n"@ =~= e + seq!['\n'] + e);
        lemma_lines_cons(e, e);
        assert(lines(e) =~= Seq::<Seq<char>>::empty());
        assert(strip_cr(e) == e);
    } else {
        lemma_join_terminated(new);
        lemma_lines_terminated(new);
    }
}

/// Reading Lima's file back after the tray wrote `c` into it: each of the
/// CPU count, memory and disk that the file sets reads as `c`'s, the others
/// as the defaults. The allocation written is the allocation the next start
/// reads, whatever Colima's file holds.
pub proof fn lemma_lima_write_read(content: Seq<char>, c: VmConfig, colima: Option<Seq<char>>)
    requires
        sets_key(lines(content), "memory:"@) ==> c.memory * 1024 <= u32::MAX,
    ensures
        vm_config_of(Some(lima_rewritten(content, c)), colima) == config_after_write(lines(content), c, "cpus:"@),
{
    let ls = lines(content);
    let new = ls.map_values(|l: Seq<char>| lima_line(l, c));
    lemma_lines_no_newline(content);
    assert forall|i: int| 0 <= i < new.len() implies no_newline(#[trigger] new[i]) by {
        if sets_line(ls[i], "memory:"@) {
            lemma_sets_key_at(ls, "memory:"@, i);
        }
        lemma_lima_line_read(default_vm(), ls[i], c);
    }
    lemma_rewritten_lines(ls, new);
    if ls.len() == 0 {
        reveal_strlit("#");
        reveal_strlit("cpus:");
        reveal_strlit("memory:");
        reveal_strlit("disk:");
        let one = seq![Seq::<char>::empty()];
        let none = Seq::<Seq<char>>::empty();
        assert(one.drop_last() =~= none);
        assert(one.last() == Seq::<char>::empty());
        assert(lima_config(none) == default_vm());
        assert(lima_config(one) == lima_step(lima_config(none), Seq::<char>::empty()));
        assert(!starts_with(Seq::<char>::empty(), "#"@));
    } else {
        assert(new.map_values(|l: Seq<char>| strip_cr(l)) =~= ls.map_values(
            |l: Seq<char>| strip_cr(lima_line(l, c)),
        ));
        lemma_lima_fold(ls, c);
    }
}

/// Reading Colima's file back after the tray wrote `c` into it, when Lima's
/// file could not be read: each of the CPU count, memory and disk that the
/// file sets reads as `c`'s, the others as the defaults.
pub proof fn lemma_colima_write_read(content: Seq<char>, c: VmConfig)
    ensures
        vm_config_of(None, Some(colima_rewritten(content, c))) == config_after_write(lines(content), c, "cpu:"@),
{
    let ls = lines(content);
    let new = ls.map_values(|l: Seq<char>| colima_line(l, c));
    lemma_lines_no_newline(content);
    assert forall|i: int| 0 <= i < new.len() implies no_newline(#[trigger] new[i]) by {
        lemma_colima_line_read(default_vm(), ls[i], c);
    }
    lemma_rewritten_lines(ls, new);
    if ls.len() == 0 {
        reveal_strlit("#");
        reveal_strlit("cpu:");
        reveal_strlit("memory:");
        reveal_strlit("disk:");
        let one = seq![Seq::<char>::empty()];
        let none = Seq::<Seq<char>>::empty();
        assert(one.drop_last() =~= none);
        assert(one.last() == Seq::<char>::empty());
        assert(colima_config(none) == default_vm());
        assert(colima_config(one) == colima_step(colima_config(none), Seq::<char>::empty()));
        assert(!starts_with(Seq::<char>::empty(), "#"@));
    } else {
        assert(new.map_values(|l: Seq<char>| strip_cr(l)) =~= ls.map_values(
            |l: Seq<char>| strip_cr(colima_line(l, c)),
        ));
        lemma_colima_fold(ls, c);
    }
}

/// The arguments that start Colima with the configured resources.
pub open spec fn start_args(c: VmConfig) -> Seq<Seq<char>> {
    seq![
        "start"@,
        "--cpu"@,
        decimal(c.cpu as nat),
        "--memory"@,
        decimal(c.memory as nat),
        "--disk"@,
        decimal(c.disk as nat),
        "--runtime"@,
        "docker"@,
    ]
}

/// The arguments that start Colima with `c`'s resources.
pub fn colima_start_args(c: &VmConfig) -> (r: Vec<String>)
    ensures
        texts(r@) == start_args(*c),
{
    let cpu = string_of(decimal_chars(c.cpu as u64).as_slice());
    let memory = string_of(decimal_chars(c.memory as u64).as_slice());
    let disk = string_of(decimal_chars(c.disk as u64).as_slice());
    let r = vec![
        String::from_str("start"),
        String::from_str("--cpu"),
        cpu,
        String::from_str("--memory"),
        memory,
        String::from_str("--disk"),
        disk,
        String::from_str("--runtime"),
        String::from_str("docker"),
    ];
    assert(texts(r@) =~= start_args(*c));
    r
}

/// The arguments that delete a broken Colima VM.
pub open spec fn delete_args() -> Seq<Seq<char>> {
    seq!["delete"@, "--force"@]
}

/// The arguments that stop Colima.
pub fn colima_stop_args() -> (r: Vec<String>)
    ensures
        texts(r@) == seq!["stop"@],
{
    let r = vec![String::from_str("stop")];
    assert(texts(r@) =~= seq!["stop"@]);
    r
}

/// The arguments of `docker` that check a socket answers.
pub fn docker_info_args() -> (r: Vec<String>)
    ensures
        texts(r@) == seq!["info"@, "--format"@, "{{.ID}}"@],
{
    let r = vec![String::from_str("info"), String::from_str("--format"), String::from_str("{{.ID}}")];
    assert(texts(r@) =~= seq!["info"@, "--format"@, "{{.ID}}"@]);
    r
}

/// Where starting the bundled runtime stands.
#[derive(Debug, PartialEq, Eq)]
pub enum StartState {
    /// Looking for Colima before installing anything.
    Locating,
    /// Colima was not found; looking for Homebrew.
    FindingHomebrew,
    /// Asking `brew` whether the runtime formula at position `next` is
    /// installed; `missing` holds those found missing so far.
    Checking { brew: String, next: usize, missing: Vec<String> },
    /// Installing the missing formulas.
    Installing { brew: String },
    /// Looking for Colima after the install.
    Relocating,
    /// Writing the configuration; Colima is at `colima`.
    Configuring { colima: String },
    /// The first `colima start` runs.
    Starting { colima: String },
    /// Deleting the VM after a start that failed with the output `failure`.
    Cleaning { colima: String, failure: String },
    /// The second `colima start` runs.
    Retrying { failure: String },
    /// Nothing is left to do.
    Finished,
}

/// What the outside work that an action asked for came to.
#[derive(Debug, PartialEq, Eq)]
pub enum StartEvent {
    /// Where Colima was found, if anywhere.
    Located(Option<String>),
    /// Where Homebrew was found, if anywhere.
    Homebrew(Option<String>),
    /// How a command went: its output, or why it could not be launched.
    Ran(Result<CliOutput, String>),
    /// The configuration files were written.
    Configured,
}

/// The outside work that starting the runtime needs next.
#[derive(Debug, PartialEq, Eq)]
pub enum StartAction {
    /// Look for Colima: in the app's resources when `in_resources` (else under
    /// the empty base path), then among running daemons, in the installed app
    /// and in Homebrew's prefixes.
    LocateColima { in_resources: bool },
    /// Look for Homebrew's `brew`.
    FindHomebrew,
    /// Run `brew` with `args`.
    RunBrew { brew: String, args: Vec<String> },
    /// Write the configuration into Colima's and Lima's files.
    WriteConfig,
    /// Run Colima with `args`, in the environment its location calls for.
    RunColima { colima: String, args: Vec<String> },
    /// Report this and stop.
    Finish(Result<String, String>),
}

/// Whether `e` is the kind of answer that state `s` waits for.
pub open spec fn answers(s: StartState, e: StartEvent) -> bool {
    match s {
        StartState::Locating => e is Located,
        StartState::Relocating => e is Located,
        StartState::FindingHomebrew => e is Homebrew,
        StartState::Checking { next, .. } => e is Ran && next < 2,
        StartState::Installing { .. } => e is Ran,
        StartState::Configuring { .. } => e is Configured,
        StartState::Starting { .. } => e is Ran,
        StartState::Cleaning { .. } => e is Ran,
        StartState::Retrying { .. } => e is Ran,
        StartState::Finished => false,
    }
}

/// The runtime formula at position `k` of `runtime_formulas`.
pub open spec fn formula(k: int) -> Seq<char> {
    if k == 0 {
        "colima"@
    } else {
        "docker"@
    }
}

/// Whether a command ran and succeeded.
pub open spec fn succeeded(out: Result<CliOutput, String>) -> bool {
    match out {
        Ok(o) => o.success,
        Err(_) => false,
    }
}

/// The process stops and reports `outcome`.
pub open spec fn reports(s2: StartState, a: StartAction, outcome: Result<Seq<char>, Seq<char>>) -> bool {
    &&& s2 is Finished
    &&& match a {
        StartAction::Finish(r) => match (r, outcome) {
            (Ok(m), Ok(t)) => m@ == t,
            (Err(m), Err(t)) => m@ == t,
            _ => false,
        },
        _ => false,
    }
}

/// `brew` at `brew` is asked about the formula at `next`, `missing` so far.
pub open spec fn checks(s2: StartState, a: StartAction, brew: Seq<char>, next: int, missing: Seq<Seq<char>>) -> bool {
    &&& (s2 matches StartState::Checking { brew: b, next: n, missing: m } && b@ == brew && n == next && texts(m@) == missing)
    &&& (a matches StartAction::RunBrew { brew: b, args } && b@ == brew && texts(args@) == seq!["list"@, "--formula"@, formula(next)])
}

/// Colima runs from `colima` with `args`, and the state is `s2`.
pub open spec fn runs_colima(a: StartAction, colima: Seq<char>, args: Seq<Seq<char>>) -> bool {
    a matches StartAction::RunColima { colima: p, args: x } && p@ == colima && texts(x@) == args
}

/// Colima was found at `colima`: the configuration is written next.
pub open spec fn configures(s2: StartState, a: StartAction, colima: Seq<char>) -> bool {
    &&& (s2 matches StartState::Configuring { colima: p } && p@ == colima)
    &&& a == StartAction::WriteConfig
}

/// The step that follows state `s` when `e` comes, starting Colima with
/// `config`: find Colima, else install it with Homebrew (checking which
/// formulas are missing), write the configuration, start, and when that
/// fails delete the VM and start once more.
pub open spec fn start_next(config: VmConfig, s: StartState, e: StartEvent, s2: StartState, a: StartAction) -> bool {
    match (s, e) {
        (StartState::Locating, StartEvent::Located(Some(p))) => configures(s2, a, p@),
        (StartState::Locating, StartEvent::Located(None)) => s2 is FindingHomebrew && a == StartAction::FindHomebrew,
        (StartState::FindingHomebrew, StartEvent::Homebrew(None)) => reports(
            s2,
            a,
            Err("Colima is not bundled and Homebrew was not found. Install Homebrew, then try again."@),
        ),
        (StartState::FindingHomebrew, StartEvent::Homebrew(Some(b))) => checks(s2, a, b@, 0, seq![]),
        (StartState::Checking { brew, next, missing }, StartEvent::Ran(out)) => {
            let still = if succeeded(out) {
                texts(missing@)
            } else {
                texts(missing@).push(formula(next as int))
            };
            if next + 1 < 2 {
                checks(s2, a, brew@, next + 1, still)
            } else if still.len() == 0 {
                s2 is Relocating && a == StartAction::LocateColima { in_resources: false }
            } else {
                &&& (s2 matches StartState::Installing { brew: b } && b@ == brew@)
                &&& (a matches StartAction::RunBrew { brew: b, args } && b@ == brew@ && texts(args@) == seq!["install"@] + still)
            }
        },
        (StartState::Installing { .. }, StartEvent::Ran(Err(e))) => reports(s2, a, Err("Could not run Homebrew: "@ + e@)),
        (StartState::Installing { .. }, StartEvent::Ran(Ok(o))) => if o.success {
            s2 is Relocating && a == StartAction::LocateColima { in_resources: false }
        } else {
            reports(s2, a, Err(command_error_text("Installing Colima"@, o.stdout@, o.stderr@, o.status@)))
        },
        (StartState::Relocating, StartEvent::Located(Some(p))) => configures(s2, a, p@),
        (StartState::Relocating, StartEvent::Located(None)) => reports(
            s2,
            a,
            Err("Colima was installed, but its executable could not be found. Restart the app and try again."@),
        ),
        (StartState::Configuring { colima }, StartEvent::Configured) => {
            &&& (s2 matches StartState::Starting { colima: p } && p@ == colima@)
            &&& runs_colima(a, colima@, start_args(config))
        },
        (StartState::Starting { .. }, StartEvent::Ran(Err(e))) => reports(s2, a, Err(e@)),
        (StartState::Starting { colima }, StartEvent::Ran(Ok(o))) => if o.success {
            reports(s2, a, Ok("Runtime started"@))
        } else {
            &&& (s2 matches StartState::Cleaning { colima: p, failure: f } && p@ == colima@ && f@ == o.stdout@ + o.stderr@)
            &&& runs_colima(a, colima@, delete_args())
        },
        (StartState::Cleaning { colima, failure }, StartEvent::Ran(_)) => {
            &&& (s2 matches StartState::Retrying { failure: f } && f@ == failure@)
            &&& runs_colima(a, colima@, start_args(config))
        },
        (StartState::Retrying { .. }, StartEvent::Ran(Err(e))) => reports(s2, a, Err(e@)),
        (StartState::Retrying { failure }, StartEvent::Ran(Ok(o))) => if o.success {
            reports(s2, a, Ok("Runtime started"@))
        } else {
            reports(s2, a, Err(extracted_error(failure@)))
        },
        _ => false,
    }
}

/// Begins starting the bundled runtime with the resources currently
/// configured (read from Lima's file, else Colima's), so that the user's
/// allocation is kept: a VM whose disk was enlarged cannot be started with a
/// smaller one. Returns that configuration, the first state and the first
/// action, which is to look for Colima.
pub fn start_builtin(lima: Option<&str>, colima: Option<&str>) -> (r: (VmConfig, StartState, StartAction))
    ensures
        r.0 == vm_config_of(opt_text(lima), opt_text(colima)),
        r.1 is Locating,
        r.2 == (StartAction::LocateColima { in_resources: true }),
{
    (read_vm_config(lima, colima), StartState::Locating, StartAction::LocateColima { in_resources: true })
}

/// One step of starting Colima with `config`: from the state and what the
/// last action came to, the next state and action.
pub fn start_builtin_with_config(config: &VmConfig, state: StartState, event: StartEvent) -> (r: (StartState, StartAction))
    requires
        answers(state, event),
    ensures
        start_next(*config, state, event, r.0, r.1),
{
    match state {
        StartState::Locating => match event {
            StartEvent::Located(Some(p)) => (StartState::Configuring { colima: p }, StartAction::WriteConfig),
            StartEvent::Located(None) => (StartState::FindingHomebrew, StartAction::FindHomebrew),
            _ => (StartState::Finished, StartAction::FindHomebrew),
        },
        StartState::Relocating => match event {
            StartEvent::Located(Some(p)) => (StartState::Configuring { colima: p }, StartAction::WriteConfig),
            StartEvent::Located(None) => (
                StartState::Finished,
                StartAction::Finish(Err(colima_missing_after_install())),
            ),
            _ => (StartState::Finished, StartAction::FindHomebrew),
        },
        StartState::FindingHomebrew => match event {
            StartEvent::Homebrew(Some(b)) => {
                let args = brew_list_args("colima");
                let brew = b.clone();
                let missing: Vec<String> = Vec::new();
                assert(texts(missing@) =~= Seq::<Seq<char>>::empty());
                (StartState::Checking { brew: b, next: 0, missing }, StartAction::RunBrew { brew, args })
            },
            StartEvent::Homebrew(None) => (StartState::Finished, StartAction::Finish(Err(no_homebrew_error()))),
            _ => (StartState::Finished, StartAction::FindHomebrew),
        },
        StartState::Checking { brew, next, missing } => match event {
            StartEvent::Ran(out) => {
                let ok = match &out {
                    Ok(o) => o.success,
                    Err(_) => false,
                };
                let mut still = missing;
                let ghost before = still@;
                if !ok {
                    let f = if next == 0 { String::from_str("colima") } else { String::from_str("docker") };
                    still.push(f);
                    assert(texts(still@) =~= texts(before).push(formula(next as int)));
                }
                if next + 1 < 2 {
                    let args = brew_list_args("docker");
                    let b = brew.clone();
                    (StartState::Checking { brew, next: next + 1, missing: still }, StartAction::RunBrew { brew: b, args })
                } else if still.len() == 0 {
                    (StartState::Relocating, StartAction::LocateColima { in_resources: false })
                } else {
                    let args = brew_install_args(&still);
                    let b = brew.clone();
                    (StartState::Installing { brew }, StartAction::RunBrew { brew: b, args })
                }
            },
            _ => (StartState::Finished, StartAction::FindHomebrew),
        },
        StartState::Installing { .. } => match event {
            StartEvent::Ran(Err(e)) => (
                StartState::Finished,
                StartAction::Finish(Err(homebrew_launch_error(e.as_str()))),
            ),
            StartEvent::Ran(Ok(o)) => if o.success {
                (StartState::Relocating, StartAction::LocateColima { in_resources: false })
            } else {
                let msg = command_error("Installing Colima", o.stdout.as_str(), o.stderr.as_str(), o.status.as_str());
                (StartState::Finished, StartAction::Finish(Err(msg)))
            },
            _ => (StartState::Finished, StartAction::FindHomebrew),
        },
        StartState::Configuring { colima } => {
            let args = colima_start_args(config);
            let p = colima.clone();
            (StartState::Starting { colima }, StartAction::RunColima { colima: p, args })
        },
        StartState::Starting { colima } => match event {
            StartEvent::Ran(Err(e)) => (StartState::Finished, StartAction::Finish(Err(e))),
            StartEvent::Ran(Ok(o)) => if o.success {
                (StartState::Finished, StartAction::Finish(Ok(String::from_str("Runtime started"))))
            } else {
                let failure = concat(o.stdout.as_str(), o.stderr.as_str());
                let args = vec![String::from_str("delete"), String::from_str("--force")];
                assert(texts(args@) =~= delete_args());
                let p = colima.clone();
                (StartState::Cleaning { colima, failure }, StartAction::RunColima { colima: p, args })
            },
            _ => (StartState::Finished, StartAction::FindHomebrew),
        },
        StartState::Cleaning { colima, failure } => {
            let args = colima_start_args(config);
            (StartState::Retrying { failure }, StartAction::RunColima { colima, args })
        },
        StartState::Retrying { failure } => match event {
            StartEvent::Ran(Err(e)) => (StartState::Finished, StartAction::Finish(Err(e))),
            StartEvent::Ran(Ok(o)) => if o.success {
                (StartState::Finished, StartAction::Finish(Ok(String::from_str("Runtime started"))))
            } else {
                (StartState::Finished, StartAction::Finish(Err(extract_error(failure.as_str()))))
            },
            _ => (StartState::Finished, StartAction::FindHomebrew),
        },
        StartState::Finished => (StartState::Finished, StartAction::FindHomebrew),
    }
}

/// How far a state is from the end of starting the runtime.
pub open spec fn start_rank(s: StartState) -> int {
    match s {
        StartState::Locating => 10,
        StartState::FindingHomebrew => 9,
        StartState::Checking { next, .. } => 8 - next,
        StartState::Installing { .. } => 6,
        StartState::Relocating => 5,
        StartState::Configuring { .. } => 4,
        StartState::Starting { .. } => 3,
        StartState::Cleaning { .. } => 2,
        StartState::Retrying { .. } => 1,
        StartState::Finished => 0,
    }
}

/// Starting the runtime always comes to an end: every step moves to a state
/// nearer the end, so a start takes at most ten steps, and Colima is started
/// at most twice (the first start and its one retry).
pub proof fn lemma_start_progresses(config: VmConfig, s: StartState, e: StartEvent, s2: StartState, a: StartAction)
    requires
        answers(s, e),
        start_next(config, s, e, s2, a),
    ensures
        0 <= start_rank(s2) < start_rank(s),
{
}

/// How stopping the bundled runtime ends: no Colima found, the stop could
/// not be launched, it succeeded, or Colima's log explains its failure.
pub open spec fn stop_outcome(run: Option<Result<CliOutput, String>>) -> Result<Seq<char>, Seq<char>> {
    match run {
        None => Err("Bundled Colima not found"@),
        Some(Err(e)) => Err(e@),
        Some(Ok(o)) => if o.success {
            Ok("Runtime stopped"@)
        } else {
            Err(extracted_error(o.stdout@ + o.stderr@))
        },
    }
}

/// The answer to stopping the bundled runtime, from the `colima stop` run
/// (none when no Colima was found).
pub fn stop_builtin(run: Option<Result<CliOutput, String>>) -> (r: Result<String, String>)
    ensures
        match r {
            Ok(m) => stop_outcome(run) == Ok::<Seq<char>, Seq<char>>(m@),
            Err(m) => stop_outcome(run) == Err::<Seq<char>, Seq<char>>(m@),
        },
{
    match run {
        None => Err(String::from_str("Bundled Colima not found")),
        Some(Err(e)) => Err(e),
        Some(Ok(o)) => if o.success {
            Ok(String::from_str("Runtime stopped"))
        } else {
            let full = concat(o.stdout.as_str(), o.stderr.as_str());
            Err(extract_error(full.as_str()))
        },
    }
}

} // verus!
