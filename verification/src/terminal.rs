//! Opening a shell into a container in a terminal application, and showing a
//! host path in Finder.

use vstd::prelude::*;
use crate::cli::{concat, texts, CliOutput};
use crate::docker::{valid_container_id, validate_container_id};
use crate::files::{done_outcome, done_result};
use crate::text::chars_of;

verus! {

/// Which terminal application an installed set gives: Ghostty, else iTerm,
/// else Terminal.
pub open spec fn detected_terminal(ghostty_installed: bool, iterm_installed: bool) -> Seq<char> {
    if ghostty_installed {
        "ghostty"@
    } else if iterm_installed {
        "iterm"@
    } else {
        "terminal"@
    }
}

/// The terminal application to use, from which ones are installed.
pub fn detect_terminal(ghostty_installed: bool, iterm_installed: bool) -> (r: String)
    ensures
        r@ == detected_terminal(ghostty_installed, iterm_installed),
{
    if ghostty_installed {
        String::from_str("ghostty")
    } else if iterm_installed {
        String::from_str("iterm")
    } else {
        String::from_str("terminal")
    }
}

/// The terminal the user picked, unless the pick is absent or "auto", in
/// which case the installed one is detected.
pub fn terminal_choice(terminal_override: Option<String>) -> (r: Option<String>)
    ensures
        match terminal_override {
            Some(t) => if t@ == "auto"@ {
                r is None
            } else {
                r matches Some(c) && c@ == t@
            },
            None => r is None,
        },
{
    match terminal_override {
        Some(t) => if t == String::from_str("auto") {
            None
        } else {
            Some(t)
        },
        None => None,
    }
}

/// The shells a terminal may be opened with.
pub open spec fn allowed_shell(sh: Seq<char>) -> bool {
    sh == "/bin/sh"@ || sh == "/bin/bash"@ || sh == "/bin/zsh"@ || sh == "/bin/ash"@
}

/// The shell asked for, "/bin/sh" when none is.
pub open spec fn shell_of(shell: Option<String>) -> Seq<char> {
    match shell {
        Some(s) => s@,
        None => "/bin/sh"@,
    }
}

/// `s` made safe inside an AppleScript string literal: each backslash and
/// each double quote preceded by a backslash.
pub open spec fn escape_quoted(s: Seq<char>) -> Seq<char>
    decreases s.len(),
{
    if s.len() == 0 {
        Seq::empty()
    } else {
        escape_quoted(s.drop_last()) + (if s.last() == '\\' {
            seq!['\\', '\\']
        } else if s.last() == '"' {
            seq!['\\', '"']
        } else {
            seq![s.last()]
        })
    }
}

/// The shells a terminal may be opened with are exactly `/bin/sh`,
/// `/bin/bash`, `/bin/zsh` and `/bin/ash`: each of them is accepted, any
/// other text is refused, and without a shell asked for `/bin/sh` is used.
pub proof fn lemma_allowed_shells(sh: Seq<char>)
    ensures
        allowed_shell("/bin/sh"@),
        allowed_shell("/bin/bash"@),
        allowed_shell("/bin/zsh"@),
        allowed_shell("/bin/ash"@),
        allowed_shell(sh) ==> sh == "/bin/sh"@ || sh == "/bin/bash"@ || sh == "/bin/zsh"@ || sh == "/bin/ash"@,
        shell_of(None) == "/bin/sh"@,
{
}

/// The name of the script file that runs the shell for a container.
pub open spec fn script_name(container_id: Seq<char>) -> Seq<char> {
    "docker-tray-"@ + container_id + ".sh"@
}

/// The contents of the script that opens the shell in the container.
pub open spec fn script_text(container_id: Seq<char>, sh: Seq<char>) -> Seq<char> {
    "#!/bin/sh\n"@ + "docker exec -it "@ + container_id + " "@ + sh + "\n"@
}

/// The AppleScript text before the script path when iTerm opens it.
pub open spec fn iterm_head() -> Seq<char> {
    "tell application \"iTerm\"\n                    activate\n                    create window with default profile command \""@
}

/// The AppleScript text before the script path when Terminal opens it.
pub open spec fn terminal_head() -> Seq<char> {
    "tell application \"Terminal\"\n                    activate\n                    do script \""@
}

/// The AppleScript text after the script path.
pub open spec fn script_tail() -> Seq<char> {
    "\"\n                end tell"@
}

/// The program and arguments that open the script at `path` in `terminal`.
pub open spec fn launch_of(terminal: Seq<char>, path: Seq<char>) -> (Seq<char>, Seq<Seq<char>>) {
    if terminal == "ghostty"@ {
        ("/Applications/Ghostty.app/Contents/MacOS/ghostty"@, seq!["-e"@, path])
    } else if terminal == "iterm"@ {
        ("osascript"@, seq!["-e"@, iterm_head() + escape_quoted(path) + script_tail()])
    } else {
        ("osascript"@, seq!["-e"@, terminal_head() + escape_quoted(path) + script_tail()])
    }
}

/// How a shell into a container is opened: the script to write, and the
/// program to spawn with its arguments.
#[derive(Debug, PartialEq, Eq)]
pub struct TerminalLaunch {
    pub script: String,
    pub program: String,
    pub args: Vec<String>,
}

/// The name of the script file for a container.
pub fn terminal_script_name(container_id: &str) -> (r: String)
    ensures
        r@ == script_name(container_id@),
{
    let mut r = concat("docker-tray-", container_id);
    r.append(".sh");
    r
}

/// `s` escaped for an AppleScript string literal.
pub fn escape_for_applescript(s: &str) -> (r: String)
    ensures
        r@ == escape_quoted(s@),
{
    let cs = chars_of(s);
    let mut out: Vec<char> = Vec::new();
    let mut i: usize = 0;
    while i < cs.len()
        invariant
            i <= cs@.len(),
            cs@ == s@,
            out@ == escape_quoted(cs@.subrange(0, i as int)),
        decreases cs@.len() - i,
    {
        let c = cs[i];
        assert(cs@.subrange(0, i + 1).drop_last() =~= cs@.subrange(0, i as int));
        let ghost before = out@;
        if c == '\\' {
            out.push('\\');
            out.push('\\');
            assert(out@ =~= before + seq!['\\', '\\']);
        } else if c == '"' {
            out.push('\\');
            out.push('"');
            assert(out@ =~= before + seq!['\\', '"']);
        } else {
            out.push(c);
            assert(out@ =~= before + seq![c]);
        }
        i = i + 1;
    }
    assert(cs@.subrange(0, i as int) =~= cs@);
    crate::text::string_of(out.as_slice())
}

/// Whether `sh` may be opened.
fn shell_allowed(sh: &String) -> (r: bool)
    ensures
        r == allowed_shell(sh@),
{
    *sh == String::from_str("/bin/sh") || *sh == String::from_str("/bin/bash") || *sh == String::from_str(
        "/bin/zsh",
    ) || *sh == String::from_str("/bin/ash")
}

/// How to open `shell` (by default /bin/sh) in a container through
/// `terminal`, the script being written at `script_path`: refused for an
/// invalid container ID or a shell outside the allowed ones.
pub fn open_terminal(container_id: &str, shell: Option<String>, terminal: &str, script_path: &str) -> (r: Result<TerminalLaunch, String>)
    ensures
        if !valid_container_id(container_id@) {
            r matches Err(e) && e@ == "Invalid container ID"@
        } else if !allowed_shell(shell_of(shell)) {
            r matches Err(e) && e@ == "Shell not allowed: "@ + shell_of(shell)
        } else {
            r matches Ok(l) && l.script@ == script_text(container_id@, shell_of(shell)) && (
            l.program@, texts(l.args@)) == launch_of(terminal@, script_path@)
        },
{
    validate_container_id(container_id)?;
    let ghost sv = shell_of(shell);
    let sh = match shell {
        Some(s) => s,
        None => String::from_str("/bin/sh"),
    };
    assert(sh@ == sv);
    if !shell_allowed(&sh) {
        return Err(concat("Shell not allowed: ", sh.as_str()));
    }
    let mut script = String::from_str("#!/bin/sh\n");
    script.append("docker exec -it ");
    script.append(container_id);
    script.append(" ");
    script.append(sh.as_str());
    script.append("\n");
    let t = String::from_str(terminal);
    let (program, args) = if t == String::from_str("ghostty") {
        let a = vec![String::from_str("-e"), String::from_str(script_path)];
        assert(texts(a@) =~= seq!["-e"@, script_path@]);
        (String::from_str("/Applications/Ghostty.app/Contents/MacOS/ghostty"), a)
    } else {
        let escaped = escape_for_applescript(script_path);
        let mut text = if t == String::from_str("iterm") {
            String::from_str(
                "tell application \"iTerm\"\n                    activate\n                    create window with default profile command \"",
            )
        } else {
            String::from_str(
                "tell application \"Terminal\"\n                    activate\n                    do script \"",
            )
        };
        text.append(escaped.as_str());
        text.append("\"\n                end tell");
        let a = vec![String::from_str("-e"), text];
        assert(texts(a@) =~= seq!["-e"@, text@]);
        (String::from_str("osascript"), a)
    };
    Ok(TerminalLaunch { script, program, args })
}

/// The arguments of `open` that reveal a host path in Finder.
pub fn open_in_finder_args(path: &str) -> (r: Vec<String>)
    ensures
        texts(r@) == seq!["-R"@, path@],
{
    let r = vec![String::from_str("-R"), String::from_str(path)];
    assert(texts(r@) =~= seq!["-R"@, path@]);
    r
}

/// The answer to revealing a path in Finder.
pub fn open_in_finder(out: Result<CliOutput, String>) -> (r: Result<(), String>)
    ensures
        match r {
            Ok(()) => done_outcome(out, "Cannot open path: "@) == Ok::<(), Seq<char>>(()),
            Err(e) => done_outcome(out, "Cannot open path: "@) == Err::<(), Seq<char>>(e@),
        },
{
    done_result(out, "Cannot open path: ")
}

} // verus!
