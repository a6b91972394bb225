//! The tray's own decisions: the runtime start it runs in the background and
//! what the window shows meanwhile, when the window hides on losing focus,
//! and the texts and windows it opens.

use vstd::prelude::*;
use crate::cli::{concat, CliOutput};
use crate::runtime::{trimmed_answer, RuntimeKind, RuntimeStatus};
use crate::text::{chars_of, string_of, trim_chars};
use std::sync::atomic::AtomicBool;
use std::sync::Arc;

verus! {

/// Whether a file picker is open, shared with the thread that hides the
/// window on losing focus: while it is set the window stays.
pub struct BrowsingState(pub Arc<AtomicBool>);

/// What the tray knows about the start of the bundled runtime.
#[derive(Debug, PartialEq, Eq)]
pub struct RuntimeState {
    /// A start runs in the background.
    pub starting: bool,
    /// The error of the last start that failed, until a status shows it.
    pub error: Option<String>,
}

/// The message left when the runtime started but Docker could not be reached.
pub open spec fn connection_failed() -> Seq<char> {
    "Runtime started but Docker connection failed. Try again."@
}

/// The message shown while a start runs.
pub open spec fn starting_message() -> Seq<char> {
    "Starting runtime..."@
}

impl View for RuntimeState {
    /// Whether a start runs, and the error waiting to be shown.
    type V = (bool, Option<Seq<char>>);

    open spec fn view(&self) -> (bool, Option<Seq<char>>) {
        (
            self.starting,
            match self.error {
                Some(e) => Some(e@),
                None => None,
            },
        )
    }
}

/// A start asked for from the window: ignored while one runs; otherwise it
/// begins, and the error of an earlier start is dropped.
pub open spec fn on_request(v: (bool, Option<Seq<char>>)) -> (bool, (bool, Option<Seq<char>>)) {
    if v.0 {
        (false, v)
    } else {
        (true, (true, None))
    }
}

/// The start at launch: made only when no external Docker runtime answers
/// and no start runs; it keeps an earlier error.
pub open spec fn on_launch(v: (bool, Option<Seq<char>>), external_docker: bool) -> (bool, (bool, Option<Seq<char>>)) {
    if external_docker || v.0 {
        (false, v)
    } else {
        (true, (true, v.1))
    }
}

/// A start ended: whether the runtime is ready, and the new state. A failed
/// start leaves its error; a runtime that started but could not be reached
/// leaves a message when the start was asked for from the window.
pub open spec fn on_finish(
    v: (bool, Option<Seq<char>>),
    started: Result<Seq<char>, Seq<char>>,
    connected: bool,
    requested: bool,
) -> (bool, (bool, Option<Seq<char>>)) {
    match started {
        Err(e) => (false, (false, Some(e))),
        Ok(_) => if connected {
            (true, (false, v.1))
        } else if requested {
            (false, (false, Some(connection_failed())))
        } else {
            (false, (false, v.1))
        },
    }
}

/// The status shown for the detected one `d`: a waiting error replaces it
/// (no runtime, stopped, the error as message); else a running start shows as
/// a stopped built-in runtime that is starting; else `d` as it is. The
/// error is consumed.
pub open spec fn on_status(
    v: (bool, Option<Seq<char>>),
    d: (RuntimeKind, bool, Seq<char>, crate::provider::ProviderKind),
) -> ((RuntimeKind, bool, Seq<char>, crate::provider::ProviderKind), (bool, Option<Seq<char>>)) {
    let shown = match v.1 {
        Some(e) => (RuntimeKind::Absent, false, e, d.3),
        None => if v.0 {
            (RuntimeKind::Builtin, false, starting_message(), d.3)
        } else {
            d
        },
    };
    (shown, (v.0, None))
}

/// The view of a start's outcome.
pub open spec fn outcome_view(r: Result<String, String>) -> Result<Seq<char>, Seq<char>> {
    match r {
        Ok(m) => Ok(m@),
        Err(e) => Err(e@),
    }
}

impl RuntimeState {
    /// No start runs and no error waits.
    pub fn new() -> (r: RuntimeState)
        ensures
            r@ == (false, None::<Seq<char>>),
    {
        RuntimeState { starting: false, error: None }
    }

    /// A start asked for from the window. Returns whether it begins.
    pub fn request_start(&mut self) -> (began: bool)
        ensures
            (began, final(self)@) == on_request(old(self)@),
    {
        if self.starting {
            false
        } else {
            self.error = None;
            self.starting = true;
            true
        }
    }

    /// The start at launch, given whether an external Docker runtime answers.
    /// Returns whether it begins.
    pub fn launch_start(&mut self, external_docker: bool) -> (began: bool)
        ensures
            (began, final(self)@) == on_launch(old(self)@, external_docker),
    {
        if external_docker || self.starting {
            false
        } else {
            self.starting = true;
            true
        }
    }

    /// Records how a start ended: `started` is what starting the runtime
    /// answered, `connected` whether Docker could then be reached, and
    /// `requested` whether the start was asked for from the window. Returns
    /// whether the runtime is ready.
    pub fn finish_start(&mut self, started: Result<String, String>, connected: bool, requested: bool) -> (ready: bool)
        ensures
            (ready, final(self)@) == on_finish(old(self)@, outcome_view(started), connected, requested),
    {
        self.starting = false;
        match started {
            Err(e) => {
                self.error = Some(e);
                false
            },
            Ok(_) => if connected {
                true
            } else {
                if requested {
                    self.error = Some(
                        String::from_str("Runtime started but Docker connection failed. Try again."),
                    );
                }
                false
            },
        }
    }

    /// The status to report for the detected one, consuming a waiting error.
    pub fn status(&mut self, detected: RuntimeStatus) -> (r: RuntimeStatus)
        ensures
            (r@, final(self)@) == on_status(old(self)@, detected@),
    {
        let mut status = detected;
        if self.starting {
            status.running = false;
            status.message = String::from_str("Starting runtime...");
            status.kind = RuntimeKind::Builtin;
        }
        match self.error.take() {
            Some(err) => {
                status.kind = RuntimeKind::Absent;
                status.running = false;
                status.message = err;
            },
            None => {},
        }
        status
    }
}

/// While a start runs, another one is never begun: a second request, or the
/// start at launch, is ignored and changes nothing.
pub proof fn lemma_start_not_doubled(v: (bool, Option<Seq<char>>), external_docker: bool)
    ensures
        on_request(v).0 ==> !on_request(on_request(v).1).0 && on_request(on_request(v).1).1 == on_request(v).1,
        on_request(v).0 ==> !on_launch(on_request(v).1, external_docker).0,
        on_launch(v, external_docker).0 ==> !on_request(on_launch(v, external_docker).1).0,
{
}

/// Once a start has ended, whatever its outcome, a new one can be asked for.
pub proof fn lemma_start_again_after_finish(
    v: (bool, Option<Seq<char>>),
    started: Result<Seq<char>, Seq<char>>,
    connected: bool,
    requested: bool,
)
    ensures
        on_request(on_finish(v, started, connected, requested).1).0,
{
}

/// A failed start is reported once: the next status shows its error (no
/// runtime, not running), and the status after that shows the detected
/// runtime again.
pub proof fn lemma_error_shown_once(
    v: (bool, Option<Seq<char>>),
    e: Seq<char>,
    requested: bool,
    d1: (RuntimeKind, bool, Seq<char>, crate::provider::ProviderKind),
    d2: (RuntimeKind, bool, Seq<char>, crate::provider::ProviderKind),
)
    ensures
        ({
            let after = on_finish(v, Err(e), false, requested).1;
            let (shown1, next) = on_status(after, d1);
            let (shown2, _) = on_status(next, d2);
            shown1 == (RuntimeKind::Absent, false, e, d1.3) && shown2 == d2
        }),
{
}

/// A runtime that started and was reached leaves no error: the next status
/// shows the detected runtime.
pub proof fn lemma_ready_shows_detected(
    v: (bool, Option<Seq<char>>),
    m: Seq<char>,
    requested: bool,
    d: (RuntimeKind, bool, Seq<char>, crate::provider::ProviderKind),
)
    requires
        v.1 is None,
    ensures
        on_finish(v, Ok(m), true, requested).0,
        on_status(on_finish(v, Ok(m), true, requested).1, d).0 == d,
{
}

/// The tray's tooltip while the runtime starts.
pub fn starting_tooltip() -> (r: String)
    ensures
        r@ == "Docker Tray — Starting runtime..."@,
{
    String::from_str("Docker Tray — Starting runtime...")
}

/// The tray's tooltip once a start ended.
pub fn finished_tooltip(ready: bool) -> (r: String)
    ensures
        r@ == (if ready { "Docker Tray"@ } else { "Docker Tray — Runtime failed"@ }),
{
    if ready {
        String::from_str("Docker Tray")
    } else {
        String::from_str("Docker Tray — Runtime failed")
    }
}

/// The title and body of the notification sent once a start ended.
pub fn finished_notification(ready: bool) -> (r: (String, String))
    ensures
        r.0@ == "Docker Tray"@,
        r.1@ == (if ready { "Runtime is ready"@ } else { "Runtime failed to start"@ }),
{
    let body = if ready {
        String::from_str("Runtime is ready")
    } else {
        String::from_str("Runtime failed to start")
    };
    (String::from_str("Docker Tray"), body)
}

/// The AppleScript that shows a notification, used when the app may not
/// send one itself.
pub fn notification_script(title: &str, body: &str) -> (r: String)
    ensures
        r@ == "display notification \""@ + body@ + "\" with title \""@ + title@ + "\""@,
{
    let mut r = String::from_str("display notification \"");
    r.append(body);
    r.append("\" with title \"");
    r.append(title);
    r.append("\"");
    r
}

/// Whether the window hides after losing focus: not while a file picker is
/// open, nor within 200 ms of a click on the tray icon (which toggles the
/// window itself).
pub fn should_hide_on_blur(browsing: bool, now_ms: u64, clicked_at_ms: u64) -> (r: bool)
    requires
        !browsing ==> clicked_at_ms <= now_ms,
    ensures
        r == (!browsing && now_ms - clicked_at_ms >= 200),
{
    if browsing {
        return false;
    }
    let elapsed = now_ms - clicked_at_ms;
    elapsed >= 200
}

/// What a choice in the tray's menu does.
#[derive(Debug, Clone, Copy, PartialEq, Eq, Structural)]
pub enum MenuAction {
    /// Quit the app.
    Quit,
    /// Turn starting at login on when it is off, off when it is on.
    ToggleAutostart,
    /// Nothing.
    Ignore,
}

/// The action of the menu item with identifier `id`.
pub fn menu_action(id: &str) -> (r: MenuAction)
    ensures
        r == (if id@ == "quit"@ {
            MenuAction::Quit
        } else if id@ == "autostart"@ {
            MenuAction::ToggleAutostart
        } else {
            MenuAction::Ignore
        }),
{
    let cs = chars_of(id);
    let quit = chars_of("quit");
    let autostart = chars_of("autostart");
    if crate::text::same_chars(cs.as_slice(), quit.as_slice()) {
        MenuAction::Quit
    } else if crate::text::same_chars(cs.as_slice(), autostart.as_slice()) {
        MenuAction::ToggleAutostart
    } else {
        MenuAction::Ignore
    }
}

/// A window the tray opens for one container: its label (one window per
/// label), the page it shows, its title, and its size and smallest size in
/// logical pixels.
#[derive(Debug, PartialEq, Eq)]
pub struct WindowSpec {
    pub label: String,
    pub url: String,
    pub title: String,
    pub width: u32,
    pub height: u32,
    pub min_width: u32,
    pub min_height: u32,
}

/// The log window of a container.
pub fn log_window(container_id: &str, container_name: &str) -> (r: WindowSpec)
    ensures
        r.label@ == "log-"@ + container_id@,
        r.url@ == "index.html#/logs/"@ + container_id@ + "/"@ + container_name@,
        r.title@ == "Logs: "@ + container_name@,
        r.width == 960 && r.height == 600,
        r.min_width == 600 && r.min_height == 400,
{
    let mut url = concat("index.html#/logs/", container_id);
    url.append("/");
    url.append(container_name);
    WindowSpec {
        label: concat("log-", container_id),
        url,
        title: concat("Logs: ", container_name),
        width: 960,
        height: 600,
        min_width: 600,
        min_height: 400,
    }
}

/// The file explorer window of a container.
pub fn file_explorer_window(container_id: &str, container_name: &str) -> (r: WindowSpec)
    ensures
        r.label@ == "files-"@ + container_id@,
        r.url@ == "index.html#/files/"@ + container_id@ + "/"@ + container_name@,
        r.title@ == "Files: "@ + container_name@,
        r.width == 800 && r.height == 600,
        r.min_width == 500 && r.min_height == 400,
{
    let mut url = concat("index.html#/files/", container_id);
    url.append("/");
    url.append(container_name);
    WindowSpec {
        label: concat("files-", container_id),
        url,
        title: concat("Files: ", container_name),
        width: 800,
        height: 600,
        min_width: 500,
        min_height: 400,
    }
}

/// What a file picker run answers: the error when it could not be launched;
/// nothing when it was cancelled (it failed) or returned no path; else the
/// trimmed path.
pub open spec fn picked(out: Result<CliOutput, String>) -> Result<Option<Seq<char>>, Seq<char>> {
    match out {
        Err(e) => Err(e@),
        Ok(o) => Ok(trimmed_answer(Ok(o))),
    }
}

/// The path a file picker returned.
pub fn picked_path(out: Result<CliOutput, String>) -> (r: Result<Option<String>, String>)
    ensures
        match r {
            Err(e) => picked(out) == Err::<Option<Seq<char>>, Seq<char>>(e@),
            Ok(Some(p)) => picked(out) == Ok::<Option<Seq<char>>, Seq<char>>(Some(p@)),
            Ok(None) => picked(out) == Ok::<Option<Seq<char>>, Seq<char>>(None),
        },
{
    match out {
        Err(e) => Err(e),
        Ok(o) => if o.success {
            let cs = chars_of(o.stdout.as_str());
            let t = trim_chars(cs.as_slice());
            if t.len() > 0 {
                Ok(Some(string_of(t.as_slice())))
            } else {
                Ok(None)
            }
        } else {
            Ok(None)
        },
    }
}

} // verus!
