//! The `tmux` command line: which commands to run for each operation, and
//! what their output means. Running the commands is left to the caller.
use crate::text::{
    chars_of, join_str, contains_str, has_infix, is_blank, lines, lines_of, opt_view, owned,
    parse_u32, parse_u32_chars, push_char, split_chars, split_on, string_of, trim,
    trim_newlines, trim_newlines_str, trim_str, views,
};
use vstd::prelude::*;

verus! {

broadcast use vstd::string::group_string_axioms;

/// A tmux session as `list-sessions` reports it.
#[derive(Debug, Clone, PartialEq, Eq)]
pub struct Session {
    pub name: String,
    pub windows: u32,
    pub attached: bool,
    pub created: String,
    /// The folder the session was started in.
    pub path: String,
}

/// A window of a tmux session as `list-windows` reports it.
#[derive(Debug, Clone, PartialEq, Eq)]
pub struct Window {
    pub index: u32,
    pub name: String,
    pub active: bool,
    pub command: String,
}

pub struct SessionView {
    pub name: Seq<char>,
    pub windows: u32,
    pub attached: bool,
    pub created: Seq<char>,
    pub path: Seq<char>,
}

pub struct WindowView {
    pub index: u32,
    pub name: Seq<char>,
    pub active: bool,
    pub command: Seq<char>,
}

impl View for Session {
    type V = SessionView;

    open spec fn view(&self) -> SessionView {
        SessionView {
            name: self.name@,
            windows: self.windows,
            attached: self.attached,
            created: self.created@,
            path: self.path@,
        }
    }
}

impl View for Window {
    type V = WindowView;

    open spec fn view(&self) -> WindowView {
        WindowView {
            index: self.index,
            name: self.name@,
            active: self.active,
            command: self.command@,
        }
    }
}

impl Session {
    /// A copy of the session.
    pub fn duplicate(&self) -> (r: Session)
        ensures
            r@ == self@,
    {
        Session {
            name: self.name.clone(),
            windows: self.windows,
            attached: self.attached,
            created: self.created.clone(),
            path: self.path.clone(),
        }
    }
}

impl Window {
    /// A copy of the window.
    pub fn duplicate(&self) -> (r: Window)
        ensures
            r@ == self@,
    {
        Window {
            index: self.index,
            name: self.name.clone(),
            active: self.active,
            command: self.command.clone(),
        }
    }
}

// ---------------------------------------------------------------------------
// Reading tmux output
// ---------------------------------------------------------------------------

/// The `i`-th tab-separated field, or nothing where the line has fewer.
pub open spec fn field(f: Seq<Seq<char>>, i: int) -> Seq<char> {
    if i < f.len() {
        f[i]
    } else {
        Seq::<char>::empty()
    }
}

/// A line of `list-sessions` output: name, window count, attached-client
/// count, creation time and start folder, separated by tabs. The first three
/// are required and the counts must be numbers.
pub open spec fn session_line(l: Seq<char>) -> Option<SessionView> {
    let f = split_on(l, '\t');
    if f.len() >= 3 && parse_u32(f[1]) is Some && parse_u32(f[2]) is Some {
        Some(
            SessionView {
                name: f[0],
                windows: parse_u32(f[1])->0,
                attached: parse_u32(f[2])->0 > 0,
                created: field(f, 3),
                path: field(f, 4),
            },
        )
    } else {
        None
    }
}

/// A line of `list-windows -a` output: session name, window index, window
/// name, active flag and current command, separated by tabs. The first four
/// are required and the index must be a number.
pub open spec fn window_line(l: Seq<char>) -> Option<(Seq<char>, WindowView)> {
    let f = split_on(l, '\t');
    if f.len() >= 4 && parse_u32(f[1]) is Some {
        Some(
            (
                f[0],
                WindowView {
                    index: parse_u32(f[1])->0,
                    name: f[2],
                    active: f[3] == "1"@,
                    command: field(f, 4),
                },
            ),
        )
    } else {
        None
    }
}

/// The sessions read from the lines `ls`, skipping lines that do not parse.
pub open spec fn sessions_from(ls: Seq<Seq<char>>) -> Seq<SessionView>
    decreases ls.len(),
{
    if ls.len() == 0 {
        Seq::<SessionView>::empty()
    } else {
        let r = sessions_from(ls.drop_last());
        match session_line(ls.last()) {
            Some(s) => r.push(s),
            None => r,
        }
    }
}

/// The windows read from the lines `ls`, skipping lines that do not parse.
pub open spec fn windows_from(ls: Seq<Seq<char>>) -> Seq<(Seq<char>, WindowView)>
    decreases ls.len(),
{
    if ls.len() == 0 {
        Seq::<(Seq<char>, WindowView)>::empty()
    } else {
        let r = windows_from(ls.drop_last());
        match window_line(ls.last()) {
            Some(w) => r.push(w),
            None => r,
        }
    }
}

/// A tmux error that only says that no server is running: then there is
/// nothing to list.
pub open spec fn no_server(e: Seq<char>) -> bool {
    has_infix(e, "no server running"@) || has_infix(e, "No such file"@)
}

pub open spec fn session_views(v: Seq<Session>) -> Seq<SessionView> {
    v.map_values(|s: Session| s@)
}

pub open spec fn window_views(v: Seq<(String, Window)>) -> Seq<(Seq<char>, WindowView)> {
    v.map_values(|p: (String, Window)| (p.0@, p.1@))
}

fn field_string(f: &Vec<Vec<char>>, i: usize) -> (s: String)
    ensures
        s@ == field(f@.map_values(|x: Vec<char>| x@), i as int),
{
    if i < f.len() {
        string_of(&f[i])
    } else {
        String::new()
    }
}

fn parse_session_line(l: &Vec<char>) -> (r: Option<Session>)
    ensures
        match r {
            Some(s) => session_line(l@) == Some(s@),
            None => session_line(l@) is None,
        },
{
    let f = split_chars(l, '\t');
    let ghost fv = f@.map_values(|x: Vec<char>| x@);
    if f.len() < 3 {
        return None;
    }
    assert(f[1]@ == fv[1] && f[2]@ == fv[2] && f[0]@ == fv[0]);
    let windows = match parse_u32_chars(&f[1]) {
        Some(n) => n,
        None => {
            return None;
        },
    };
    let attached = match parse_u32_chars(&f[2]) {
        Some(n) => n,
        None => {
            return None;
        },
    };
    let s = Session {
        name: string_of(&f[0]),
        windows,
        attached: attached > 0,
        created: field_string(&f, 3),
        path: field_string(&f, 4),
    };
    Some(s)
}

fn parse_window_line(l: &Vec<char>) -> (r: Option<(String, Window)>)
    ensures
        match r {
            Some(p) => window_line(l@) == Some((p.0@, p.1@)),
            None => window_line(l@) is None,
        },
{
    let f = split_chars(l, '\t');
    let ghost fv = f@.map_values(|x: Vec<char>| x@);
    if f.len() < 4 {
        return None;
    }
    assert(f[0]@ == fv[0] && f[1]@ == fv[1] && f[2]@ == fv[2] && f[3]@ == fv[3]);
    let index = match parse_u32_chars(&f[1]) {
        Some(n) => n,
        None => {
            return None;
        },
    };
    let flag = &f[3];
    let active = flag.len() == 1 && flag[0] == '1';
    proof {
        reveal_strlit("1");
        if flag@.len() == 1 && flag@[0] == '1' {
            assert(flag@ =~= "1"@);
        } else if flag@.len() == 1 {
            assert(flag@[0] != "1"@[0]);
        } else {
            assert(flag@.len() != "1"@.len());
        }
    }
    let w = Window {
        index,
        name: string_of(&f[2]),
        active,
        command: field_string(&f, 4),
    };
    Some((string_of(&f[0]), w))
}

/// Whether a tmux error only means that no server is running.
pub fn is_no_server(e: &str) -> (b: bool)
    ensures
        b == no_server(e@),
{
    contains_str(e, "no server running") || contains_str(e, "No such file")
}

/// The sessions listed by `list-sessions` (run with [`list_sessions_args`]),
/// given how that command ended: its output when it succeeded, its error
/// message when it failed. A failure because no server runs is an empty
/// list; any other failure is passed on.
pub fn list_sessions(output: Result<String, String>) -> (r: Result<Vec<Session>, String>)
    ensures
        match output {
            Ok(text) => r matches Ok(v) && session_views(v@) == sessions_from(lines(text@)),
            Err(e) => if no_server(e@) {
                r matches Ok(v) && v@.len() == 0
            } else {
                r matches Err(m) && m@ == e@
            },
        },
{
    let text = match output {
        Ok(t) => t,
        Err(e) => {
            if is_no_server(e.as_str()) {
                return Ok(Vec::new());
            }
            return Err(e);
        },
    };
    let ls = lines_of(text.as_str());
    let ghost lv = ls@.map_values(|x: Vec<char>| x@);
    let mut out: Vec<Session> = Vec::new();
    let mut i: usize = 0;
    while i < ls.len()
        invariant
            i <= ls.len(),
            lv == ls@.map_values(|x: Vec<char>| x@),
            session_views(out@) == sessions_from(lv.take(i as int)),
        decreases ls.len() - i,
    {
        let parsed = parse_session_line(&ls[i]);
        proof {
            let t = lv.take(i + 1);
            assert(t.drop_last() =~= lv.take(i as int));
            assert(t.last() == ls[i as int]@);
        }
        match parsed {
            Some(s) => {
                out.push(s);
                assert(session_views(out@) =~= sessions_from(lv.take(i as int)).push(
                    session_line(ls[i as int]@)->0,
                ));
            },
            None => {},
        }
        i += 1;
    }
    assert(lv.take(ls.len() as int) =~= lv);
    Ok(out)
}

/// The windows of every session, each with its session's name, listed by
/// `list-windows -a` (run with [`list_windows_args`]), in tmux's order. A
/// failure because no server runs is an empty list; any other failure is
/// passed on.
pub fn list_all_windows(output: Result<String, String>) -> (r: Result<Vec<(String, Window)>, String>)
    ensures
        match output {
            Ok(text) => r matches Ok(v) && window_views(v@) == windows_from(lines(text@)),
            Err(e) => if no_server(e@) {
                r matches Ok(v) && v@.len() == 0
            } else {
                r matches Err(m) && m@ == e@
            },
        },
{
    let text = match output {
        Ok(t) => t,
        Err(e) => {
            if is_no_server(e.as_str()) {
                return Ok(Vec::new());
            }
            return Err(e);
        },
    };
    let ls = lines_of(text.as_str());
    let ghost lv = ls@.map_values(|x: Vec<char>| x@);
    let mut out: Vec<(String, Window)> = Vec::new();
    let mut i: usize = 0;
    while i < ls.len()
        invariant
            i <= ls.len(),
            lv == ls@.map_values(|x: Vec<char>| x@),
            window_views(out@) == windows_from(lv.take(i as int)),
        decreases ls.len() - i,
    {
        let parsed = parse_window_line(&ls[i]);
        proof {
            let t = lv.take(i + 1);
            assert(t.drop_last() =~= lv.take(i as int));
            assert(t.last() == ls[i as int]@);
        }
        match parsed {
            Some(p) => {
                out.push(p);
                assert(window_views(out@) =~= windows_from(lv.take(i as int)).push(
                    window_line(ls[i as int]@)->0,
                ));
            },
            None => {},
        }
        i += 1;
    }
    assert(lv.take(ls.len() as int) =~= lv);
    Ok(out)
}

/// How many lines of scrollback history the preview shows besides the visible screen.
pub const PREVIEW_HISTORY_LINES: &'static str = "-5000";

/// The text of a pane as `capture-pane` printed it, without the line feeds
/// at either end.
pub fn pane_text(output: Result<String, String>) -> (r: Result<String, String>)
    ensures
        match output {
            Ok(t) => r matches Ok(s) && s@ == trim_newlines(t@),
            Err(e) => r matches Err(m) && m@ == e@,
        },
{
    match output {
        Ok(t) => Ok(trim_newlines_str(t.as_str())),
        Err(e) => Err(e),
    }
}

/// The outcome of a command whose output is not needed.
pub fn finished(output: Result<String, String>) -> (r: Result<(), String>)
    ensures
        match output {
            Ok(_) => r is Ok,
            Err(e) => r matches Err(m) && m@ == e@,
        },
{
    match output {
        Ok(_) => Ok(()),
        Err(e) => Err(e),
    }
}

// ---------------------------------------------------------------------------
// Running tmux
// ---------------------------------------------------------------------------

/// Where tmux is looked for when it is not on the `PATH`, in order.
pub open spec fn tmux_locations_spec() -> Seq<Seq<char>> {
    seq![
        "/opt/homebrew/bin/tmux"@,
        "/usr/local/bin/tmux"@,
        "/home/linuxbrew/.linuxbrew/bin/tmux"@,
        "/usr/bin/tmux"@,
    ]
}

/// The first location from `i` on that is installed, or plain `tmux`.
pub open spec fn installed_tmux_from(installed: Seq<bool>, i: int) -> Seq<char>
    decreases 4 - i,
{
    if i >= 4 || i >= installed.len() || i < 0 {
        "tmux"@
    } else if installed[i] {
        tmux_locations_spec()[i]
    } else {
        installed_tmux_from(installed, i + 1)
    }
}

/// The tmux program to run: `tmux` when it is on the `PATH`, else the first
/// installed location, else `tmux` all the same.
pub open spec fn chosen_tmux(on_path: bool, installed: Seq<bool>) -> Seq<char> {
    if on_path {
        "tmux"@
    } else {
        installed_tmux_from(installed, 0)
    }
}

proof fn lemma_installed_from_skips(installed: Seq<bool>, j: int, i: int)
    requires
        0 <= j <= i,
        forall|k: int| j <= k < i ==> !(#[trigger] installed[k]),
        i <= installed.len(),
        i <= 4,
    ensures
        installed_tmux_from(installed, j) == installed_tmux_from(installed, i),
    decreases i - j,
{
    if j < i {
        lemma_installed_from_skips(installed, j + 1, i);
    }
}

/// When tmux is not on the `PATH`, the program is the first of the fixed
/// locations, in their order, that is installed (Homebrew's on Apple
/// Silicon first); with none installed, plain `tmux`. On the `PATH`, it is
/// plain `tmux`.
pub proof fn lemma_first_installed_tmux(installed: Seq<bool>)
    ensures
        chosen_tmux(true, installed) == "tmux"@,
        forall|i: int|
            0 <= i < 4 && i < installed.len() && #[trigger] installed[i] && (forall|k: int|
                0 <= k < i ==> !installed[k]) ==> chosen_tmux(false, installed)
                == tmux_locations_spec()[i],
        (forall|k: int| 0 <= k < 4 && k < installed.len() ==> !(#[trigger] installed[k]))
            ==> chosen_tmux(false, installed) == "tmux"@,
        tmux_locations_spec()[0] == "/opt/homebrew/bin/tmux"@,
{
    assert forall|i: int|
        0 <= i < 4 && i < installed.len() && #[trigger] installed[i] && (forall|k: int|
            0 <= k < i ==> !installed[k]) implies chosen_tmux(false, installed)
        == tmux_locations_spec()[i] by {
        lemma_installed_from_skips(installed, 0, i);
    }
    if forall|k: int| 0 <= k < 4 && k < installed.len() ==> !(#[trigger] installed[k]) {
        let n = if installed.len() < 4 {
            installed.len() as int
        } else {
            4
        };
        lemma_installed_from_skips(installed, 0, n);
    }
}

fn strings_of(items: &[&str]) -> (v: Vec<String>)
    ensures
        views(v@) == items@.map_values(|s: &str| s@),
{
    let mut v: Vec<String> = Vec::new();
    let mut i: usize = 0;
    while i < items.len()
        invariant
            i <= items.len(),
            views(v@) == items@.take(i as int).map_values(|s: &str| s@),
        decreases items.len() - i,
    {
        v.push(owned(items[i]));
        assert(items@.take(i + 1).map_values(|s: &str| s@) =~= items@.take(i as int).map_values(
            |s: &str| s@,
        ).push(items@[i as int]@));
        i += 1;
    }
    assert(items@.take(items@.len() as int) =~= items@);
    v
}

/// The places where tmux is looked for when it is not on the `PATH`.
pub fn tmux_locations() -> (v: Vec<String>)
    ensures
        views(v@) == tmux_locations_spec(),
{
    let items = [
        "/opt/homebrew/bin/tmux",
        "/usr/local/bin/tmux",
        "/home/linuxbrew/.linuxbrew/bin/tmux",
        "/usr/bin/tmux",
    ];
    let v = strings_of(&items);
    assert(items@.map_values(|s: &str| s@) =~= tmux_locations_spec());
    v
}

/// The tmux program to run, given whether `tmux` is on the `PATH` and which
/// of [`tmux_locations`] hold a file. A program started from a desktop menu
/// does not get the shell's `PATH`, hence the fixed locations.
pub fn tmux_bin(on_path: bool, installed: &Vec<bool>) -> (bin: String)
    ensures
        bin@ == chosen_tmux(on_path, installed@),
{
    if on_path {
        return owned("tmux");
    }
    let locations = tmux_locations();
    assert(locations@.len() == views(locations@).len());
    let mut i: usize = 0;
    while i < 4 && i < installed.len()
        invariant
            i <= 4,
            !on_path,
            locations@.len() == 4,
            views(locations@) == tmux_locations_spec(),
            installed_tmux_from(installed@, 0) == installed_tmux_from(installed@, i as int),
        decreases 4 - i,
    {
        if installed[i] {
            assert(locations@[i as int]@ == tmux_locations_spec()[i as int]);
            return locations[i].clone();
        }
        i += 1;
    }
    owned("tmux")
}

/// How a finished tmux run turns out: its standard output when it succeeded;
/// else its trimmed error output, or, when that is empty, a note of the exit status.
pub open spec fn run_outcome_spec(success: bool, stdout: Seq<char>, stderr: Seq<char>, status: Seq<char>) -> Result<Seq<char>, Seq<char>> {
    if success {
        Ok(stdout)
    } else if trim(stderr).len() == 0 {
        Err("tmux exited with "@ + status)
    } else {
        Err(trim(stderr))
    }
}

/// What a tmux run gave: `success` and the two outputs as text; `status`
/// describes the exit status.
pub fn run_outcome(success: bool, stdout: String, stderr: &str, status: &str) -> (r: Result<String, String>)
    ensures
        match r {
            Ok(o) => run_outcome_spec(success, stdout@, stderr@, status@) == Ok::<Seq<char>, Seq<char>>(o@),
            Err(e) => run_outcome_spec(success, stdout@, stderr@, status@) == Err::<Seq<char>, Seq<char>>(e@),
        },
{
    if success {
        return Ok(stdout);
    }
    let e = trim_str(stderr);
    if e.as_str().is_empty() {
        Err(join_str("tmux exited with ", status))
    } else {
        Err(e)
    }
}

/// The message when tmux could not be started at all.
pub fn spawn_failure(reason: &str) -> (m: String)
    ensures
        m@ == "could not run tmux: "@ + reason@,
{
    join_str("could not run tmux: ", reason)
}

// ---------------------------------------------------------------------------
// The commands
// ---------------------------------------------------------------------------

/// The `-F` format of `list-sessions`: the fields [`list_sessions`] reads.
pub open spec fn session_format() -> Seq<char> {
    "#{session_name}\t#{session_windows}\t#{session_attached}\t#{t:session_created}\t#{session_path}"@
}

/// The `-F` format of `list-windows`: the fields [`list_all_windows`] reads.
pub open spec fn window_format() -> Seq<char> {
    "#{session_name}\t#{window_index}\t#{window_name}\t#{window_active}\t#{pane_current_command}"@
}

/// The arguments that list the sessions.
pub fn list_sessions_args() -> (args: Vec<String>)
    ensures
        views(args@) == seq!["list-sessions"@, "-F"@, session_format()],
{
    let items = [
        "list-sessions",
        "-F",
        "#{session_name}\t#{session_windows}\t#{session_attached}\t#{t:session_created}\t#{session_path}",
    ];
    let v = strings_of(&items);
    assert(items@.map_values(|s: &str| s@) =~= seq!["list-sessions"@, "-F"@, session_format()]);
    v
}

/// The arguments that list the windows of all sessions.
pub fn list_windows_args() -> (args: Vec<String>)
    ensures
        views(args@) == seq!["list-windows"@, "-a"@, "-F"@, window_format()],
{
    let items = [
        "list-windows",
        "-a",
        "-F",
        "#{session_name}\t#{window_index}\t#{window_name}\t#{window_active}\t#{pane_current_command}",
    ];
    let v = strings_of(&items);
    assert(items@.map_values(|s: &str| s@) =~= seq![
        "list-windows"@,
        "-a"@,
        "-F"@,
        window_format(),
    ]);
    v
}

/// The arguments that print the text of the active pane of `target` (a
/// session, or `session:window`), with scrollback history.
pub fn capture_pane(target: &str) -> (args: Vec<String>)
    ensures
        views(args@) == seq![
            "capture-pane"@,
            "-p"@,
            "-S"@,
            PREVIEW_HISTORY_LINES@,
            "-t"@,
            target@,
        ],
{
    let items = ["capture-pane", "-p", "-S", PREVIEW_HISTORY_LINES, "-t", target];
    let v = strings_of(&items);
    assert(items@.map_values(|s: &str| s@) =~= seq![
        "capture-pane"@,
        "-p"@,
        "-S"@,
        PREVIEW_HISTORY_LINES@,
        "-t"@,
        target@,
    ]);
    v
}

/// The arguments that rename the session `old` to `new`.
pub fn rename_session(old: &str, new: &str) -> (args: Vec<String>)
    ensures
        views(args@) == seq!["rename-session"@, "-t"@, old@, new@],
{
    let items = ["rename-session", "-t", old, new];
    let v = strings_of(&items);
    assert(items@.map_values(|s: &str| s@) =~= seq!["rename-session"@, "-t"@, old@, new@]);
    v
}

/// The arguments that end the session `name`.
pub fn kill_session(name: &str) -> (args: Vec<String>)
    ensures
        views(args@) == seq!["kill-session"@, "-t"@, name@],
{
    let items = ["kill-session", "-t", name];
    let v = strings_of(&items);
    assert(items@.map_values(|s: &str| s@) =~= seq!["kill-session"@, "-t"@, name@]);
    v
}

/// The arguments that create the detached session `name`, started in `dir`
/// when a folder that is not blank is given.
pub fn new_session(name: &str, dir: Option<&str>) -> (args: Vec<String>)
    ensures
        views(args@) == seq!["new-session"@, "-d"@, "-s"@, name@] + match dir {
            Some(d) => if trim(d@).len() > 0 {
                seq!["-c"@, d@]
            } else {
                Seq::<Seq<char>>::empty()
            },
            None => Seq::<Seq<char>>::empty(),
        },
{
    let items = ["new-session", "-d", "-s", name];
    let mut v = strings_of(&items);
    assert(items@.map_values(|s: &str| s@) =~= seq!["new-session"@, "-d"@, "-s"@, name@]);
    let ghost base = views(v@);
    match dir {
        Some(d) => {
            if !is_blank(d) {
                v.push(owned("-c"));
                v.push(owned(d));
                assert(views(v@) =~= base + seq!["-c"@, d@]);
            } else {
                assert(views(v@) =~= base + Seq::<Seq<char>>::empty());
            }
        },
        None => {
            assert(views(v@) =~= base + Seq::<Seq<char>>::empty());
        },
    }
    v
}

/// The arguments that close every terminal attached to the session `name`.
pub fn detach_clients(name: &str) -> (args: Vec<String>)
    ensures
        views(args@) == seq!["detach-client"@, "-s"@, name@],
{
    let items = ["detach-client", "-s", name];
    let v = strings_of(&items);
    assert(items@.map_values(|s: &str| s@) =~= seq!["detach-client"@, "-s"@, name@]);
    v
}

/// The arguments that add a window to `session`, named `name` when a name
/// that is not blank is given.
pub fn new_window(session: &str, name: Option<&str>) -> (args: Vec<String>)
    ensures
        views(args@) == seq!["new-window"@, "-t"@, session@] + match name {
            Some(n) => if trim(n@).len() > 0 {
                seq!["-n"@, n@]
            } else {
                Seq::<Seq<char>>::empty()
            },
            None => Seq::<Seq<char>>::empty(),
        },
{
    let items = ["new-window", "-t", session];
    let mut v = strings_of(&items);
    assert(items@.map_values(|s: &str| s@) =~= seq!["new-window"@, "-t"@, session@]);
    let ghost base = views(v@);
    match name {
        Some(n) => {
            if !is_blank(n) {
                v.push(owned("-n"));
                v.push(owned(n));
                assert(views(v@) =~= base + seq!["-n"@, n@]);
            } else {
                assert(views(v@) =~= base + Seq::<Seq<char>>::empty());
            }
        },
        None => {
            assert(views(v@) =~= base + Seq::<Seq<char>>::empty());
        },
    }
    v
}

/// The arguments that rename the window `target` (`session:index`) to `new`.
pub fn rename_window(target: &str, new: &str) -> (args: Vec<String>)
    ensures
        views(args@) == seq!["rename-window"@, "-t"@, target@, new@],
{
    let items = ["rename-window", "-t", target, new];
    let v = strings_of(&items);
    assert(items@.map_values(|s: &str| s@) =~= seq!["rename-window"@, "-t"@, target@, new@]);
    v
}

/// The arguments that close the window `target`.
pub fn kill_window(target: &str) -> (args: Vec<String>)
    ensures
        views(args@) == seq!["kill-window"@, "-t"@, target@],
{
    let items = ["kill-window", "-t", target];
    let v = strings_of(&items);
    assert(items@.map_values(|s: &str| s@) =~= seq!["kill-window"@, "-t"@, target@]);
    v
}

/// The arguments that make `target` the active window of its session (the
/// one an attached terminal shows).
pub fn select_window(target: &str) -> (args: Vec<String>)
    ensures
        views(args@) == seq!["select-window"@, "-t"@, target@],
{
    let items = ["select-window", "-t", target];
    let v = strings_of(&items);
    assert(items@.map_values(|s: &str| s@) =~= seq!["select-window"@, "-t"@, target@]);
    v
}

/// The two commands, to run in order until one fails, that type `line` into
/// the window `target` as if at its keyboard: first the text taken literally,
/// then Enter.
pub fn send_line(target: &str, line: &str) -> (cmds: Vec<Vec<String>>)
    ensures
        cmds@.len() == 2,
        views(cmds@[0]@) == seq!["send-keys"@, "-t"@, target@, "-l"@, line@],
        views(cmds@[1]@) == seq!["send-keys"@, "-t"@, target@, "Enter"@],
{
    let text = ["send-keys", "-t", target, "-l", line];
    let enter = ["send-keys", "-t", target, "Enter"];
    let a = strings_of(&text);
    let b = strings_of(&enter);
    assert(text@.map_values(|s: &str| s@) =~= seq!["send-keys"@, "-t"@, target@, "-l"@, line@]);
    assert(enter@.map_values(|s: &str| s@) =~= seq!["send-keys"@, "-t"@, target@, "Enter"@]);
    let mut cmds: Vec<Vec<String>> = Vec::new();
    cmds.push(a);
    cmds.push(b);
    cmds
}

/// The argument lists of several tmux commands, as views.
pub open spec fn command_views(cmds: Seq<Vec<String>>) -> Seq<Seq<Seq<char>>> {
    cmds.map_values(|c: Vec<String>| views(c@))
}

/// Commands run one after the other, stopping at the first that fails: what
/// comes after a failed command (such as the Enter after a line that could
/// not be typed) is never run. The caller runs [`CommandChain::next`] and
/// hands back its outcome with [`CommandChain::record`].
pub struct CommandChain {
    cmds: Vec<Vec<String>>,
    done: usize,
    failure: Option<String>,
}

impl CommandChain {
    /// The commands of the chain, in order.
    pub closed spec fn commands(&self) -> Seq<Seq<Seq<char>>> {
        command_views(self.cmds@)
    }

    /// How many commands have succeeded so far.
    pub closed spec fn ran(&self) -> nat {
        self.done as nat
    }

    /// The error of the command that failed, if one did.
    pub closed spec fn failed(&self) -> Option<Seq<char>> {
        opt_view(self.failure)
    }

    #[verifier::type_invariant]
    spec fn well_formed(&self) -> bool {
        self.done <= self.cmds.len()
    }

    /// A chain of `cmds` of which none has run yet.
    pub fn new(cmds: Vec<Vec<String>>) -> (c: CommandChain)
        ensures
            c.commands() == command_views(cmds@),
            c.ran() == 0,
            c.failed() is None,
    {
        CommandChain { cmds, done: 0, failure: None }
    }

    /// The command to run next: none once one has failed or all have run.
    pub fn next(&self) -> (r: Option<Vec<String>>)
        ensures
            match r {
                Some(cmd) => self.failed() is None && self.ran() < self.commands().len() && views(
                    cmd@,
                ) == self.commands()[self.ran() as int],
                None => self.failed() is Some || self.ran() == self.commands().len(),
            },
    {
        proof {
            use_type_invariant(self);
        }
        if self.failure.is_some() || self.done == self.cmds.len() {
            return None;
        }
        let mut cmd: Vec<String> = Vec::new();
        extend_strings(&mut cmd, &self.cmds[self.done]);
        assert(views(cmd@) =~= views(self.cmds@[self.done as int]@));
        Some(cmd)
    }

    /// Takes in the outcome of the command [`CommandChain::next`] gave:
    /// success moves on to the following command, a failure ends the chain.
    /// When no command was due, nothing changes.
    pub fn record(&mut self, outcome: Result<String, String>)
        ensures
            final(self).commands() == old(self).commands(),
            if old(self).failed() is None && old(self).ran() < old(self).commands().len() {
                match outcome {
                    Ok(_) => final(self).ran() == old(self).ran() + 1 && final(self).failed() is None,
                    Err(e) => final(self).ran() == old(self).ran() && final(self).failed() == Some(
                        e@,
                    ),
                }
            } else {
                final(self).ran() == old(self).ran() && final(self).failed() == old(self).failed()
            },
    {
        proof {
            use_type_invariant(&*self);
        }
        if self.failure.is_some() || self.done == self.cmds.len() {
            return;
        }
        match outcome {
            Ok(_) => {
                self.done = self.done + 1;
            },
            Err(e) => {
                self.failure = Some(e);
            },
        }
    }

    /// How the chain turned out: the error of the command that failed, else
    /// success.
    pub fn outcome(&self) -> (r: Result<(), String>)
        ensures
            match self.failed() {
                Some(e) => r matches Err(m) && m@ == e,
                None => r is Ok,
            },
    {
        match &self.failure {
            Some(e) => Err(e.clone()),
            None => Ok(()),
        }
    }
}

/// The target naming window `index` of `session`: `session:index`.
pub fn window_target(session: &str, index: u32) -> (t: String)
    ensures
        t@ == session@ + seq![':'] + crate::text::decimal(index as nat),
{
    let mut t = owned(session);
    push_char(&mut t, ':');
    let n = crate::text::decimal_string(index as u128);
    t.append(n.as_str());
    t
}

// ---------------------------------------------------------------------------
// Opening a terminal on a session
// ---------------------------------------------------------------------------

/// The terminal emulators that are tried, in order.
pub open spec fn terminal_names() -> Seq<Seq<char>> {
    seq![
        "gnome-terminal"@,
        "kitty"@,
        "alacritty"@,
        "wezterm"@,
        "konsole"@,
        "xfce4-terminal"@,
        "tilix"@,
        "foot"@,
        "xterm"@,
    ]
}

/// For each of [`terminal_names`], the arguments that go before the command it is to run.
pub open spec fn terminal_prefixes() -> Seq<Seq<Seq<char>>> {
    seq![
        seq!["--"@],
        Seq::<Seq<char>>::empty(),
        seq!["-e"@],
        seq!["start"@, "--"@],
        seq!["-e"@],
        seq!["-x"@],
        seq!["-e"@],
        Seq::<Seq<char>>::empty(),
        seq!["-e"@],
    ]
}

/// The arguments before the command for the terminal program called `base`,
/// looking from the `i`-th known terminal on: `-e` for an unknown one.
pub open spec fn prefix_from(base: Seq<char>, i: int) -> Seq<Seq<char>>
    decreases 9 - i,
{
    if i < 0 || i >= 9 {
        seq!["-e"@]
    } else if terminal_names()[i] == base {
        terminal_prefixes()[i]
    } else {
        prefix_from(base, i + 1)
    }
}

/// The first known terminal from the `i`-th on that was found installed.
pub open spec fn first_found(found: Seq<bool>, i: int) -> Option<int>
    decreases 9 - i,
{
    if i < 0 || i >= 9 || i >= found.len() {
        None
    } else if found[i] {
        Some(i)
    } else {
        first_found(found, i + 1)
    }
}

/// The terminal the user asked for: the preferred one when it is not blank
/// (trimmed), else the one from the environment, unless that is blank.
pub open spec fn user_terminal(preferred: Option<Seq<char>>, env_terminal: Option<Seq<char>>) -> Option<Seq<char>> {
    let pref = match preferred {
        Some(p) => if trim(p).len() > 0 {
            Some(trim(p))
        } else {
            None
        },
        None => None,
    };
    let t = match pref {
        Some(p) => Some(p),
        None => env_terminal,
    };
    match t {
        Some(t) => if trim(t).len() > 0 {
            Some(t)
        } else {
            None
        },
        None => None,
    }
}

/// The tmux command that attaches a terminal to the session `name`.
pub open spec fn attach_command(tmux: Seq<char>, name: Seq<char>) -> Seq<Seq<char>> {
    seq![tmux, "attach-session"@, "-t"@, name]
}

/// The program and arguments that open a terminal on the session `name`:
/// the terminal the user asked for, else the first known one installed;
/// none when neither exists.
pub open spec fn terminal_launch(
    name: Seq<char>,
    preferred: Option<Seq<char>>,
    env_terminal: Option<Seq<char>>,
    found: Seq<bool>,
    tmux: Seq<char>,
) -> Option<(Seq<char>, Seq<Seq<char>>)> {
    match user_terminal(preferred, env_terminal) {
        Some(t) => Some(
            (t, prefix_from(crate::projects::default_name(t), 0) + attach_command(tmux, name)),
        ),
        None => match first_found(found, 0) {
            Some(i) => Some(
                (terminal_names()[i], terminal_prefixes()[i] + attach_command(tmux, name)),
            ),
            None => None,
        },
    }
}

/// The program of a launch plan.
pub open spec fn launch_program(l: Option<(Seq<char>, Seq<Seq<char>>)>) -> Seq<char> {
    match l {
        Some((b, _)) => b,
        None => Seq::<char>::empty(),
    }
}

/// The arguments of a launch plan.
pub open spec fn launch_args(l: Option<(Seq<char>, Seq<Seq<char>>)>) -> Seq<Seq<char>> {
    match l {
        Some((_, a)) => a,
        None => Seq::<Seq<char>>::empty(),
    }
}

/// Whether an optional text is missing or blank.
pub open spec fn blank_or_none(o: Option<Seq<char>>) -> bool {
    match o {
        Some(p) => trim(p).len() == 0,
        None => true,
    }
}

/// The terminal chosen in the settings wins when it is not blank, whatever
/// `$TERMINAL` says; otherwise a `$TERMINAL` that is not blank is used; and
/// only with neither does the search of installed terminals matter.
pub proof fn lemma_preferred_terminal_first(
    name: Seq<char>,
    tmux: Seq<char>,
    preferred: Option<Seq<char>>,
    env_terminal: Option<Seq<char>>,
    found: Seq<bool>,
    other_found: Seq<bool>,
)
    ensures
        !blank_or_none(preferred) ==> user_terminal(preferred, env_terminal) == Some(
            trim(preferred->0),
        ),
        blank_or_none(preferred) && !blank_or_none(env_terminal) ==> user_terminal(
            preferred,
            env_terminal,
        ) == env_terminal,
        blank_or_none(preferred) && blank_or_none(env_terminal) ==> user_terminal(
            preferred,
            env_terminal,
        ) is None,
        user_terminal(preferred, env_terminal) is Some ==> terminal_launch(
            name,
            preferred,
            env_terminal,
            found,
            tmux,
        ) == terminal_launch(name, preferred, env_terminal, other_found, tmux),
        user_terminal(preferred, env_terminal) is None ==> (terminal_launch(
            name,
            preferred,
            env_terminal,
            found,
            tmux,
        ) is Some <==> exists|i: int| 0 <= i < 9 && i < found.len() && #[trigger] found[i]),
{
    if preferred is Some {
        crate::text::lemma_trim_idempotent(preferred->0);
    }
    if user_terminal(preferred, env_terminal) is None {
        if exists|i: int| 0 <= i < 9 && i < found.len() && #[trigger] found[i] {
            let i = choose|i: int| 0 <= i < 9 && i < found.len() && #[trigger] found[i];
            lemma_first_found_exists(found, 0, i);
        } else {
            lemma_first_found_none(found, 0);
        }
    }
}

proof fn lemma_first_found_exists(found: Seq<bool>, j: int, i: int)
    requires
        0 <= j <= i < 9,
        i < found.len(),
        found[i],
    ensures
        first_found(found, j) is Some,
    decreases i - j,
{
    if j < i && !found[j] {
        lemma_first_found_exists(found, j + 1, i);
    }
}

proof fn lemma_first_found_none(found: Seq<bool>, j: int)
    requires
        0 <= j,
        !(exists|i: int| 0 <= i < 9 && i < found.len() && #[trigger] found[i]),
    ensures
        first_found(found, j) is None,
    decreases 9 - j,
{
    if j < 9 && j < found.len() {
        assert(!found[j]);
        lemma_first_found_none(found, j + 1);
    }
}

proof fn lemma_prefix_skips(b: Seq<char>, j: int, i: int)
    requires
        0 <= j <= i <= 9,
        forall|k: int| j <= k < i ==> terminal_names()[k] != b,
    ensures
        prefix_from(b, j) == prefix_from(b, i),
    decreases i - j,
{
    if j < i {
        lemma_prefix_skips(b, j + 1, i);
    }
}

/// Each known terminal is a plain name (no `/`, not `.` or `..`), and the
/// arguments that go before the command for it are its own.
pub proof fn lemma_known_terminal(i: int)
    requires
        0 <= i < 9,
    ensures
        terminal_names()[i].len() > 0,
        !terminal_names()[i].contains('/'),
        terminal_names()[i] != seq!['.'],
        terminal_names()[i] != seq!['.', '.'],
        prefix_from(terminal_names()[i], 0) == terminal_prefixes()[i],
{
    reveal_strlit("gnome-terminal");
    reveal_strlit("kitty");
    reveal_strlit("alacritty");
    reveal_strlit("wezterm");
    reveal_strlit("konsole");
    reveal_strlit("xfce4-terminal");
    reveal_strlit("tilix");
    reveal_strlit("foot");
    reveal_strlit("xterm");
    let n = terminal_names()[i];
    assert(forall|k: int| 0 <= k < n.len() ==> n[k] != '/');
    assert(n.len() > 2);
    assert forall|k: int| 0 <= k < i implies terminal_names()[k] != n by {
        let m = terminal_names()[k];
        if m.len() == n.len() {
            assert(m[0] != n[0]);
        }
    }
    lemma_prefix_skips(n, 0, i);
}

/// The arguments for the terminal the user asked for depend only on the
/// file name of its path: a terminal given by its full path gets the same
/// arguments as the same terminal given by name.
pub proof fn lemma_terminal_arguments_follow_file_name(
    name: Seq<char>,
    tmux: Seq<char>,
    dir: Seq<char>,
    t: Seq<char>,
    p1: Option<Seq<char>>,
    e1: Option<Seq<char>>,
    f1: Seq<bool>,
    p2: Option<Seq<char>>,
    e2: Option<Seq<char>>,
    f2: Seq<bool>,
)
    requires
        t.len() > 0,
        !t.contains('/'),
        t != seq!['.'],
        t != seq!['.', '.'],
        user_terminal(p1, e1) == Some(dir + seq!['/'] + t),
        user_terminal(p2, e2) == Some(t),
    ensures
        terminal_launch(name, p1, e1, f1, tmux) is Some,
        terminal_launch(name, p2, e2, f2, tmux) is Some,
        launch_program(terminal_launch(name, p1, e1, f1, tmux)) == dir + seq!['/'] + t,
        launch_program(terminal_launch(name, p2, e2, f2, tmux)) == t,
        launch_args(terminal_launch(name, p1, e1, f1, tmux)) == launch_args(terminal_launch(name, p2, e2, f2, tmux)),
{
    crate::projects::lemma_default_name_is_last_component(dir, t);
}

/// A known terminal asked for by name, or by a path that ends in its name,
/// is started with its own arguments before the attach command: for
/// `/usr/bin/wezterm`, `start --`.
pub proof fn lemma_known_terminal_arguments(
    name: Seq<char>,
    tmux: Seq<char>,
    dir: Seq<char>,
    i: int,
    preferred: Option<Seq<char>>,
    env_terminal: Option<Seq<char>>,
    found: Seq<bool>,
)
    requires
        0 <= i < 9,
        user_terminal(preferred, env_terminal) == Some(dir + seq!['/'] + terminal_names()[i])
            || user_terminal(preferred, env_terminal) == Some(terminal_names()[i]),
    ensures
        terminal_launch(name, preferred, env_terminal, found, tmux) is Some,
        user_terminal(preferred, env_terminal) == Some(
            launch_program(terminal_launch(name, preferred, env_terminal, found, tmux)),
        ),
        launch_args(terminal_launch(name, preferred, env_terminal, found, tmux)) == terminal_prefixes()[i]
            + attach_command(tmux, name),
{
    lemma_known_terminal(i);
    crate::projects::lemma_default_name_is_last_component(dir, terminal_names()[i]);
}

/// The message when no terminal emulator can be found.
pub open spec fn no_terminal_message() -> Seq<char> {
    "no terminal emulator found (set one in Settings or $TERMINAL)"@
}

fn terminal_name(i: usize) -> (n: String)
    requires
        i < 9,
    ensures
        n@ == terminal_names()[i as int],
{
    let names = [
        "gnome-terminal",
        "kitty",
        "alacritty",
        "wezterm",
        "konsole",
        "xfce4-terminal",
        "tilix",
        "foot",
        "xterm",
    ];
    assert(names@.map_values(|s: &str| s@) =~= terminal_names());
    assert(names@[i as int]@ == names@.map_values(|s: &str| s@)[i as int]);
    owned(names[i])
}

/// The terminal emulators that are tried, in order: whether each is
/// installed is what [`attach_in_terminal`] takes as `found`.
pub fn known_terminals() -> (v: Vec<String>)
    ensures
        views(v@) == terminal_names(),
{
    let mut v: Vec<String> = Vec::new();
    let mut i: usize = 0;
    while i < 9
        invariant
            i <= 9,
            views(v@) == terminal_names().take(i as int),
        decreases 9 - i,
    {
        v.push(terminal_name(i));
        assert(terminal_names().take(i + 1) =~= terminal_names().take(i as int).push(
            terminal_names()[i as int],
        ));
        i += 1;
    }
    assert(terminal_names().take(9) =~= terminal_names());
    v
}

fn terminal_prefix(i: usize) -> (p: Vec<String>)
    requires
        i < 9,
    ensures
        views(p@) == terminal_prefixes()[i as int],
{
    let v = if i == 0 {
        let items = ["--"];
        let v = strings_of(&items);
        assert(items@.map_values(|s: &str| s@) =~= seq!["--"@]);
        v
    } else if i == 1 || i == 7 {
        let items: [&str; 0] = [];
        let v = strings_of(&items);
        assert(items@.map_values(|s: &str| s@) =~= Seq::<Seq<char>>::empty());
        v
    } else if i == 3 {
        let items = ["start", "--"];
        let v = strings_of(&items);
        assert(items@.map_values(|s: &str| s@) =~= seq!["start"@, "--"@]);
        v
    } else if i == 5 {
        let items = ["-x"];
        let v = strings_of(&items);
        assert(items@.map_values(|s: &str| s@) =~= seq!["-x"@]);
        v
    } else {
        let items = ["-e"];
        let v = strings_of(&items);
        assert(items@.map_values(|s: &str| s@) =~= seq!["-e"@]);
        v
    };
    v
}

/// The arguments that go before the command for the terminal program `base`.
fn prefix_for(base: &String) -> (p: Vec<String>)
    ensures
        views(p@) == prefix_from(base@, 0),
{
    let mut i: usize = 0;
    while i < 9
        invariant
            i <= 9,
            prefix_from(base@, 0) == prefix_from(base@, i as int),
        decreases 9 - i,
    {
        let n = terminal_name(i);
        if n == *base {
            return terminal_prefix(i);
        }
        i += 1;
    }
    let items = ["-e"];
    let v = strings_of(&items);
    assert(items@.map_values(|s: &str| s@) =~= seq!["-e"@]);
    v
}

/// How to open a terminal on the session `name`: the program to start and
/// its arguments. `preferred` is the terminal chosen in the settings,
/// `env_terminal` the value of `$TERMINAL`, `found` tells for each of the
/// known terminals, in order, whether it is on the `PATH`, and `tmux` is the
/// tmux program.
pub fn attach_in_terminal(
    name: &str,
    preferred: Option<&str>,
    env_terminal: Option<String>,
    found: &Vec<bool>,
    tmux: &str,
) -> (r: Result<(String, Vec<String>), String>)
    ensures
        match r {
            Ok((bin, args)) => terminal_launch(
                name@,
                match preferred {
                    Some(p) => Some(p@),
                    None => None,
                },
                opt_view(env_terminal),
                found@,
                tmux@,
            ) == Some((bin@, views(args@))),
            Err(m) => terminal_launch(
                name@,
                match preferred {
                    Some(p) => Some(p@),
                    None => None,
                },
                opt_view(env_terminal),
                found@,
                tmux@,
            ) is None && m@ == no_terminal_message(),
        },
{
    let ghost pref_view = match preferred {
        Some(p) => Some(p@),
        None => None,
    };
    let ghost env_view = opt_view(env_terminal);
    let pref: Option<String> = match preferred {
        Some(p) => {
            let t = trim_str(p);
            if t.as_str().is_empty() {
                None
            } else {
                Some(t)
            }
        },
        None => None,
    };
    let chosen = match pref {
        Some(p) => Some(p),
        None => env_terminal,
    };
    let user = match chosen {
        Some(t) => if is_blank(t.as_str()) {
            None
        } else {
            Some(t)
        },
        None => None,
    };
    assert(opt_view(user) == user_terminal(pref_view, env_view));
    let items = [tmux, "attach-session", "-t", name];
    let attach = strings_of(&items);
    assert(items@.map_values(|s: &str| s@) =~= attach_command(tmux@, name@));
    match user {
        Some(t) => {
            let base = match crate::projects::path_file_name(t.as_str()) {
                Some(n) => n,
                None => t.clone(),
            };
            let mut args = prefix_for(&base);
            extend_strings(&mut args, &attach);
            Ok((t, args))
        },
        None => match first_found_index(found) {
            Some(i) => {
                let mut args = terminal_prefix(i);
                extend_strings(&mut args, &attach);
                Ok((terminal_name(i), args))
            },
            None => Err(owned("no terminal emulator found (set one in Settings or $TERMINAL)")),
        },
    }
}

/// Appends copies of `more` to `args`.
fn extend_strings(args: &mut Vec<String>, more: &Vec<String>)
    ensures
        views(final(args)@) == views(old(args)@) + views(more@),
{
    let ghost pre = views(args@);
    let mut k: usize = 0;
    while k < more.len()
        invariant
            k <= more.len(),
            views(args@) == pre + views(more@).take(k as int),
        decreases more.len() - k,
    {
        let ghost before = args@;
        let c = more[k].clone();
        args.push(c);
        assert(args@ == before.push(c));
        assert(views(args@) =~= views(before).push(c@));
        assert(views(more@).take(k + 1) =~= views(more@).take(k as int).push(more@[k as int]@));
        k += 1;
    }
    assert(views(more@).take(more.len() as int) =~= views(more@));
}

/// The first of the known terminals that was found installed.
fn first_found_index(found: &Vec<bool>) -> (r: Option<usize>)
    ensures
        match r {
            Some(i) => first_found(found@, 0) == Some(i as int) && i < 9,
            None => first_found(found@, 0) is None,
        },
{
    let mut i: usize = 0;
    while i < 9 && i < found.len()
        invariant
            i <= 9,
            first_found(found@, 0) == first_found(found@, i as int),
        decreases 9 - i,
    {
        if found[i] {
            return Some(i);
        }
        i += 1;
    }
    None
}

/// The message when the terminal program could not be started.
pub fn launch_failure(bin: &str, reason: &str) -> (m: String)
    ensures
        m@ == "could not start "@ + bin@ + ": "@ + reason@,
{
    let mut m = join_str("could not start ", bin);
    m.append(": ");
    m.append(reason);
    m
}

// ---------------------------------------------------------------------------
// Terminal.app and iTerm2, driven through AppleScript
// ---------------------------------------------------------------------------

/// A character of a session name inside single quotes for the shell: a
/// quote closes the quoting, is escaped, and reopens it.
pub open spec fn shell_quoted_char(c: char) -> Seq<char> {
    if c == '\'' {
        seq!['\'', '\\', '\'', '\'']
    } else {
        seq![c]
    }
}

/// A character inside an AppleScript double-quoted literal.
pub open spec fn applescript_char(c: char) -> Seq<char> {
    if c == '\\' {
        seq!['\\', '\\']
    } else if c == '"' {
        seq!['\\', '"']
    } else {
        seq![c]
    }
}

/// The attach command as one shell line, with the session name single-quoted.
pub open spec fn attach_shell_line_spec(tmux: Seq<char>, name: Seq<char>) -> Seq<char> {
    tmux + " attach-session -t "@ + seq!['\''] + crate::text::escape_with(
        name,
        |c: char| shell_quoted_char(c),
    ) + seq!['\'']
}

/// `s` escaped for use inside an AppleScript double-quoted literal.
pub open spec fn applescript_spec(s: Seq<char>) -> Seq<char> {
    crate::text::escape_with(s, |c: char| applescript_char(c))
}

/// The terminal programs that are driven through AppleScript.
#[derive(Debug, Clone, Copy, PartialEq, Eq, Structural)]
pub enum MacTerminal {
    TerminalApp,
    ITerm,
    /// Any other program, started from the command line.
    Other,
}

/// Which kind of terminal the choice `lowered`, in lowercase, names.
pub open spec fn mac_terminal_kind(lowered: Seq<char>) -> MacTerminal {
    if lowered == "terminal"@ || lowered == "terminal.app"@ {
        MacTerminal::TerminalApp
    } else if lowered == "iterm"@ || lowered == "iterm2"@ || lowered == "iterm.app"@ {
        MacTerminal::ITerm
    } else {
        MacTerminal::Other
    }
}

/// The terminal to drive on macOS: the preferred one when not blank, else
/// iTerm when it is installed, else Terminal.
pub open spec fn mac_choice(preferred: Option<Seq<char>>, iterm_installed: bool) -> Seq<char> {
    match preferred {
        Some(p) if trim(p).len() > 0 => trim(p),
        _ => if iterm_installed {
            "iTerm"@
        } else {
            "Terminal"@
        },
    }
}

fn escape_chars(s: &str, shell: bool) -> (r: String)
    ensures
        r@ == if shell {
            crate::text::escape_with(s@, |c: char| shell_quoted_char(c))
        } else {
            applescript_spec(s@)
        },
{
    let ghost f = if shell {
        |c: char| shell_quoted_char(c)
    } else {
        |c: char| applescript_char(c)
    };
    let v = chars_of(s);
    let mut r = String::new();
    let mut i: usize = 0;
    while i < v.len()
        invariant
            i <= v.len(),
            v@ == s@,
            f == (if shell {
                |c: char| shell_quoted_char(c)
            } else {
                |c: char| applescript_char(c)
            }),
            r@ == crate::text::escape_with(v@.take(i as int), f),
        decreases v.len() - i,
    {
        let c = v[i];
        let ghost before = r@;
        if shell && c == '\'' {
            push_char(&mut r, '\'');
            push_char(&mut r, '\\');
            push_char(&mut r, '\'');
            push_char(&mut r, '\'');
        } else if !shell && c == '\\' {
            push_char(&mut r, '\\');
            push_char(&mut r, '\\');
        } else if !shell && c == '"' {
            push_char(&mut r, '\\');
            push_char(&mut r, '"');
        } else {
            push_char(&mut r, c);
        }
        proof {
            let t = v@.take(i + 1);
            assert(t.drop_last() =~= v@.take(i as int));
            assert(t.last() == c);
            assert(r@ =~= before + f(c));
        }
        i += 1;
    }
    assert(v@.take(v@.len() as int) =~= v@);
    r
}

/// The attach command as one shell line: `tmux attach-session -t 'name'`,
/// with the name single-quoted for the shell.
pub fn attach_shell_line(tmux: &str, name: &str) -> (line: String)
    ensures
        line@ == attach_shell_line_spec(tmux@, name@),
{
    let mut line = join_str(tmux, " attach-session -t ");
    push_char(&mut line, '\'');
    let quoted = escape_chars(name, true);
    line.append(quoted.as_str());
    push_char(&mut line, '\'');
    line
}

/// `s` escaped for use inside an AppleScript double-quoted literal:
/// backslashes and double quotes get a backslash before them.
pub fn applescript_str(s: &str) -> (r: String)
    ensures
        r@ == applescript_spec(s@),
{
    escape_chars(s, false)
}

/// `prefix`, then `body`, then a closing double quote.
fn quoted_line(prefix: &str, body: &str) -> (r: String)
    ensures
        r@ == prefix@ + body@ + seq!['"'],
{
    let mut r = join_str(prefix, body);
    push_char(&mut r, '"');
    r
}

/// The AppleScript lines that open a Terminal.app window attached to the session `name`.
pub fn mac_terminal_app(tmux: &str, name: &str) -> (lines: Vec<String>)
    ensures
        views(lines@) == seq![
            "tell application \"Terminal\""@,
            "activate"@,
            "do script \""@ + applescript_spec(attach_shell_line_spec(tmux@, name@)) + seq!['"'],
            "end tell"@,
        ],
{
    let line = applescript_str(attach_shell_line(tmux, name).as_str());
    let mut v: Vec<String> = Vec::new();
    v.push(owned("tell application \"Terminal\""));
    v.push(owned("activate"));
    v.push(quoted_line("do script \"", line.as_str()));
    v.push(owned("end tell"));
    assert(views(v@) =~= seq![
        "tell application \"Terminal\""@,
        "activate"@,
        "do script \""@ + applescript_spec(attach_shell_line_spec(tmux@, name@)) + seq!['"'],
        "end tell"@,
    ]);
    v
}

/// The AppleScript lines that open an iTerm2 window attached to the session `name`.
pub fn mac_iterm(tmux: &str, name: &str) -> (lines: Vec<String>)
    ensures
        views(lines@) == seq![
            "tell application \"iTerm\""@,
            "activate"@,
            "set w to (create window with default profile)"@,
            "tell current session of w to write text \""@ + applescript_spec(
                attach_shell_line_spec(tmux@, name@),
            ) + seq!['"'],
            "end tell"@,
        ],
{
    let line = applescript_str(attach_shell_line(tmux, name).as_str());
    let mut v: Vec<String> = Vec::new();
    v.push(owned("tell application \"iTerm\""));
    v.push(owned("activate"));
    v.push(owned("set w to (create window with default profile)"));
    v.push(quoted_line("tell current session of w to write text \"", line.as_str()));
    v.push(owned("end tell"));
    assert(views(v@) =~= seq![
        "tell application \"iTerm\""@,
        "activate"@,
        "set w to (create window with default profile)"@,
        "tell current session of w to write text \""@ + applescript_spec(
            attach_shell_line_spec(tmux@, name@),
        ) + seq!['"'],
        "end tell"@,
    ]);
    v
}

/// How an `osascript` run turns out: nothing on success, else its trimmed error output.
pub fn osascript_outcome(success: bool, stderr: &str) -> (r: Result<(), String>)
    ensures
        match r {
            Ok(_) => success,
            Err(m) => !success && m@ == trim(stderr@),
        },
{
    if success {
        Ok(())
    } else {
        Err(trim_str(stderr))
    }
}

/// Which kind of terminal the lowercased choice `lowered` names.
pub fn mac_terminal_kind_of(lowered: &str) -> (k: MacTerminal)
    ensures
        k == mac_terminal_kind(lowered@),
{
    let s = owned(lowered);
    if s == owned("terminal") || s == owned("terminal.app") {
        MacTerminal::TerminalApp
    } else if s == owned("iterm") || s == owned("iterm2") || s == owned("iterm.app") {
        MacTerminal::ITerm
    } else {
        MacTerminal::Other
    }
}

/// The terminal to drive on macOS, given the preferred one and whether
/// iTerm is installed: the choice is compared in lowercase.
pub fn mac_terminal_choice(preferred: Option<&str>, iterm_installed: bool) -> (k: MacTerminal)
    ensures
        k == mac_terminal_kind(
            crate::text::lowercase(
                mac_choice(
                    match preferred {
                        Some(p) => Some(p@),
                        None => None,
                    },
                    iterm_installed,
                ),
            ),
        ),
        match preferred {
            Some(p) => trim(p@).len() == 0,
            None => true,
        } ==> k == if iterm_installed {
            MacTerminal::ITerm
        } else {
            MacTerminal::TerminalApp
        },
{
    let choice = match preferred {
        Some(p) => {
            let t = trim_str(p);
            if t.as_str().is_empty() {
                if iterm_installed {
                    owned("iTerm")
                } else {
                    owned("Terminal")
                }
            } else {
                t
            }
        },
        None => if iterm_installed {
            owned("iTerm")
        } else {
            owned("Terminal")
        },
    };
    let lowered = crate::text::to_lowercase(choice.as_str());
    proof {
        reveal_strlit("iTerm");
        reveal_strlit("Terminal");
        reveal_strlit("iterm");
        reveal_strlit("terminal");
        reveal_strlit("terminal.app");
        let it = "iTerm"@;
        let te = "Terminal"@;
        if choice@ == it {
            assert(crate::text::all_ascii(it));
            assert(it.map_values(|c: char| crate::text::ascii_lower(c)) =~= "iterm"@);
            assert("iterm"@.len() != "terminal"@.len() && "iterm"@.len() != "terminal.app"@.len());
            assert(mac_terminal_kind("iterm"@) == MacTerminal::ITerm);
        }
        if choice@ == te {
            assert(crate::text::all_ascii(te));
            assert(te.map_values(|c: char| crate::text::ascii_lower(c)) =~= "terminal"@);
            assert(mac_terminal_kind("terminal"@) == MacTerminal::TerminalApp);
        }
    }
    mac_terminal_kind_of(lowered.as_str())
}

// ---------------------------------------------------------------------------
// Reading back what tmux prints
// ---------------------------------------------------------------------------

/// A `list-sessions` line as the format prints it for a session with
/// `clients` attached clients.
pub open spec fn printed_session_line(
    name: Seq<char>,
    windows: u32,
    clients: u32,
    created: Seq<char>,
    path: Seq<char>,
) -> Seq<char> {
    name + seq!['\t'] + crate::text::decimal(windows as nat) + seq!['\t'] + crate::text::decimal(
        clients as nat,
    ) + seq!['\t'] + created + seq!['\t'] + path
}

/// A `list-windows` line as the format prints it.
pub open spec fn printed_window_line(
    session: Seq<char>,
    index: u32,
    name: Seq<char>,
    active: bool,
    command: Seq<char>,
) -> Seq<char> {
    session + seq!['\t'] + crate::text::decimal(index as nat) + seq!['\t'] + name + seq!['\t']
        + (if active {
        "1"@
    } else {
        "0"@
    }) + seq!['\t'] + command
}

/// A session line printed with the `list-sessions` format reads back as the
/// session it describes, for texts without tabs.
pub proof fn lemma_session_line_round_trip(
    name: Seq<char>,
    windows: u32,
    clients: u32,
    created: Seq<char>,
    path: Seq<char>,
)
    requires
        !name.contains('\t'),
        !created.contains('\t'),
        !path.contains('\t'),
    ensures
        session_line(printed_session_line(name, windows, clients, created, path)) == Some(
            SessionView { name, windows, attached: clients > 0, created, path },
        ),
{
    let d1 = crate::text::decimal(windows as nat);
    let d2 = crate::text::decimal(clients as nat);
    crate::text::lemma_parse_decimal(windows);
    crate::text::lemma_parse_decimal(clients);
    let a1 = name;
    let a2 = a1 + seq!['\t'] + d1;
    let a3 = a2 + seq!['\t'] + d2;
    let a4 = a3 + seq!['\t'] + created;
    let a5 = a4 + seq!['\t'] + path;
    crate::text::lemma_split_on_single(name, '\t');
    crate::text::lemma_split_on_single(d1, '\t');
    crate::text::lemma_split_on_single(d2, '\t');
    crate::text::lemma_split_on_single(created, '\t');
    crate::text::lemma_split_on_single(path, '\t');
    crate::text::lemma_split_on_join(a1, d1, '\t');
    crate::text::lemma_split_on_join(a2, d2, '\t');
    crate::text::lemma_split_on_join(a3, created, '\t');
    crate::text::lemma_split_on_join(a4, path, '\t');
    let f = split_on(a5, '\t');
    assert(f =~= seq![name, d1, d2, created, path]);
}

/// A window line printed with the `list-windows` format reads back as the
/// window it describes, for texts without tabs.
pub proof fn lemma_window_line_round_trip(
    session: Seq<char>,
    index: u32,
    name: Seq<char>,
    active: bool,
    command: Seq<char>,
)
    requires
        !session.contains('\t'),
        !name.contains('\t'),
        !command.contains('\t'),
    ensures
        window_line(printed_window_line(session, index, name, active, command)) == Some(
            (session, WindowView { index, name, active, command }),
        ),
{
    reveal_strlit("1");
    reveal_strlit("0");
    let d = crate::text::decimal(index as nat);
    let flag = if active {
        "1"@
    } else {
        "0"@
    };
    crate::text::lemma_parse_decimal(index);
    assert(!flag.contains('\t')) by {
        if flag.contains('\t') {
            let k = choose|k: int| 0 <= k < flag.len() && #[trigger] flag[k] == '\t';
        }
    }
    assert((flag == "1"@) == active) by {
        if !active {
            assert(flag[0] != "1"@[0]);
        }
    }
    let a1 = session;
    let a2 = a1 + seq!['\t'] + d;
    let a3 = a2 + seq!['\t'] + name;
    let a4 = a3 + seq!['\t'] + flag;
    let a5 = a4 + seq!['\t'] + command;
    crate::text::lemma_split_on_single(session, '\t');
    crate::text::lemma_split_on_single(d, '\t');
    crate::text::lemma_split_on_single(name, '\t');
    crate::text::lemma_split_on_single(flag, '\t');
    crate::text::lemma_split_on_single(command, '\t');
    crate::text::lemma_split_on_join(a1, d, '\t');
    crate::text::lemma_split_on_join(a2, name, '\t');
    crate::text::lemma_split_on_join(a3, flag, '\t');
    crate::text::lemma_split_on_join(a4, command, '\t');
    let f = split_on(a5, '\t');
    assert(f =~= seq![session, d, name, flag, command]);
}


/// The line `list-sessions` prints for `s`, with one attached client when
/// it is attached and none otherwise.
pub open spec fn session_row(s: SessionView) -> Seq<char> {
    printed_session_line(
        s.name,
        s.windows,
        if s.attached {
            1u32
        } else {
            0u32
        },
        s.created,
        s.path,
    )
}

/// The line `list-windows -a` prints for window `w` of session `p.0`.
pub open spec fn window_row(p: (Seq<char>, WindowView)) -> Seq<char> {
    printed_window_line(p.0, p.1.index, p.1.name, p.1.active, p.1.command)
}

/// A text that can stand in a field of a printed line: no tab, no line feed.
pub open spec fn plain_field(t: Seq<char>) -> bool {
    !t.contains('\t') && !t.contains('\n')
}

/// A session whose texts can be printed as a line and read back.
pub open spec fn listable_session(s: SessionView) -> bool {
    plain_field(s.name) && plain_field(s.created) && plain_field(s.path) && crate::text::strip_cr(
        s.path,
    ) == s.path
}

/// A window whose texts can be printed as a line and read back.
pub open spec fn listable_window(p: (Seq<char>, WindowView)) -> bool {
    plain_field(p.0) && plain_field(p.1.name) && plain_field(p.1.command) && crate::text::strip_cr(
        p.1.command,
    ) == p.1.command
}

proof fn lemma_join_lacks(a: Seq<char>, b: Seq<char>, c: char)
    requires
        !a.contains(c),
        !b.contains(c),
    ensures
        !(a + b).contains(c),
{
    if (a + b).contains(c) {
        let k = choose|k: int| 0 <= k < (a + b).len() && #[trigger] (a + b)[k] == c;
        if k < a.len() {
            assert(a[k] == c);
        } else {
            assert(b[k - a.len()] == c);
        }
    }
}

proof fn lemma_tab_lacks_feed()
    ensures
        !seq!['\t'].contains('\n'),
{
    if seq!['\t'].contains('\n') {
        let k = choose|k: int| 0 <= k < 1 && #[trigger] seq!['\t'][k] == '\n';
    }
}

proof fn lemma_printable_session_row(s: SessionView)
    requires
        listable_session(s),
    ensures
        crate::text::printable_line(session_row(s)),
{
    let clients: u32 = if s.attached {
        1
    } else {
        0
    };
    let d1 = crate::text::decimal(s.windows as nat);
    let d2 = crate::text::decimal(clients as nat);
    crate::text::lemma_parse_decimal(s.windows);
    crate::text::lemma_parse_decimal(clients);
    lemma_tab_lacks_feed();
    let t = seq!['\t'];
    let a1 = s.name + t;
    lemma_join_lacks(s.name, t, '\n');
    let a2 = a1 + d1;
    lemma_join_lacks(a1, d1, '\n');
    let a3 = a2 + t;
    lemma_join_lacks(a2, t, '\n');
    let a4 = a3 + d2;
    lemma_join_lacks(a3, d2, '\n');
    let a5 = a4 + t;
    lemma_join_lacks(a4, t, '\n');
    let a6 = a5 + s.created;
    lemma_join_lacks(a5, s.created, '\n');
    let a7 = a6 + t;
    lemma_join_lacks(a6, t, '\n');
    let a8 = a7 + s.path;
    lemma_join_lacks(a7, s.path, '\n');
    assert(a8 == session_row(s));
    if s.path.len() > 0 {
        assert(a8.last() == s.path.last());
    } else {
        assert(a8 =~= a7);
        assert(a8.last() == '\t');
    }
}

proof fn lemma_printable_window_row(p: (Seq<char>, WindowView))
    requires
        listable_window(p),
    ensures
        crate::text::printable_line(window_row(p)),
{
    reveal_strlit("1");
    reveal_strlit("0");
    let d = crate::text::decimal(p.1.index as nat);
    crate::text::lemma_parse_decimal(p.1.index);
    let flag = if p.1.active {
        "1"@
    } else {
        "0"@
    };
    assert(!flag.contains('\n')) by {
        if flag.contains('\n') {
            let k = choose|k: int| 0 <= k < flag.len() && #[trigger] flag[k] == '\n';
        }
    }
    lemma_tab_lacks_feed();
    let t = seq!['\t'];
    let a1 = p.0 + t;
    lemma_join_lacks(p.0, t, '\n');
    let a2 = a1 + d;
    lemma_join_lacks(a1, d, '\n');
    let a3 = a2 + t;
    lemma_join_lacks(a2, t, '\n');
    let a4 = a3 + p.1.name;
    lemma_join_lacks(a3, p.1.name, '\n');
    let a5 = a4 + t;
    lemma_join_lacks(a4, t, '\n');
    let a6 = a5 + flag;
    lemma_join_lacks(a5, flag, '\n');
    let a7 = a6 + t;
    lemma_join_lacks(a6, t, '\n');
    let a8 = a7 + p.1.command;
    lemma_join_lacks(a7, p.1.command, '\n');
    assert(a8 == window_row(p));
    if p.1.command.len() > 0 {
        assert(a8.last() == p.1.command.last());
    } else {
        assert(a8 =~= a7);
        assert(a8.last() == '\t');
    }
}

proof fn lemma_sessions_from_rows(ss: Seq<SessionView>)
    requires
        forall|i: int| 0 <= i < ss.len() ==> listable_session(#[trigger] ss[i]),
    ensures
        sessions_from(ss.map_values(|s: SessionView| session_row(s))) == ss,
    decreases ss.len(),
{
    if ss.len() > 0 {
        let init = ss.drop_last();
        assert forall|i: int| 0 <= i < init.len() implies listable_session(#[trigger] init[i]) by {
            assert(init[i] == ss[i]);
        }
        lemma_sessions_from_rows(init);
        let ls = ss.map_values(|s: SessionView| session_row(s));
        assert(ls.drop_last() =~= init.map_values(|s: SessionView| session_row(s)));
        let s = ss.last();
        assert(listable_session(ss[ss.len() - 1]));
        assert(ls.last() == session_row(s));
        lemma_session_line_round_trip(
            s.name,
            s.windows,
            if s.attached {
                1u32
            } else {
                0u32
            },
            s.created,
            s.path,
        );
        assert(init.push(s) =~= ss);
    } else {
        assert(ss.map_values(|s: SessionView| session_row(s)) =~= Seq::<Seq<char>>::empty());
    }
}

proof fn lemma_windows_from_rows(ws: Seq<(Seq<char>, WindowView)>)
    requires
        forall|i: int| 0 <= i < ws.len() ==> listable_window(#[trigger] ws[i]),
    ensures
        windows_from(ws.map_values(|p: (Seq<char>, WindowView)| window_row(p))) == ws,
    decreases ws.len(),
{
    if ws.len() > 0 {
        let init = ws.drop_last();
        assert forall|i: int| 0 <= i < init.len() implies listable_window(#[trigger] init[i]) by {
            assert(init[i] == ws[i]);
        }
        lemma_windows_from_rows(init);
        let ls = ws.map_values(|p: (Seq<char>, WindowView)| window_row(p));
        assert(ls.drop_last() =~= init.map_values(|p: (Seq<char>, WindowView)| window_row(p)));
        let p = ws.last();
        assert(listable_window(ws[ws.len() - 1]));
        assert(ls.last() == window_row(p));
        lemma_window_line_round_trip(p.0, p.1.index, p.1.name, p.1.active, p.1.command);
        assert(init.push(p) =~= ws);
    } else {
        assert(ws.map_values(|p: (Seq<char>, WindowView)| window_row(p)) =~= Seq::<Seq<char>>::empty());
    }
}

/// What `list-sessions` prints for some sessions, one line each, is read
/// back as exactly those sessions, in order, for texts without tabs or line
/// feeds and folders that do not end in a carriage return.
pub proof fn lemma_session_listing_round_trip(ss: Seq<SessionView>)
    requires
        forall|i: int| 0 <= i < ss.len() ==> listable_session(#[trigger] ss[i]),
    ensures
        sessions_from(
            lines(crate::text::terminated_lines(ss.map_values(|s: SessionView| session_row(s)))),
        ) == ss,
{
    let ls = ss.map_values(|s: SessionView| session_row(s));
    assert forall|i: int| 0 <= i < ls.len() implies crate::text::printable_line(#[trigger] ls[i]) by {
        assert(listable_session(ss[i]));
        lemma_printable_session_row(ss[i]);
    }
    crate::text::lemma_lines_of_terminated(ls);
    lemma_sessions_from_rows(ss);
}

/// What `list-windows -a` prints for some windows, one line each, is read
/// back as exactly those windows with their sessions, in order, for texts
/// without tabs or line feeds and commands that do not end in a carriage
/// return.
pub proof fn lemma_window_listing_round_trip(ws: Seq<(Seq<char>, WindowView)>)
    requires
        forall|i: int| 0 <= i < ws.len() ==> listable_window(#[trigger] ws[i]),
    ensures
        windows_from(
            lines(
                crate::text::terminated_lines(
                    ws.map_values(|p: (Seq<char>, WindowView)| window_row(p)),
                ),
            ),
        ) == ws,
{
    let ls = ws.map_values(|p: (Seq<char>, WindowView)| window_row(p));
    assert forall|i: int| 0 <= i < ls.len() implies crate::text::printable_line(#[trigger] ls[i]) by {
        assert(listable_window(ws[i]));
        lemma_printable_window_row(ws[i]);
    }
    crate::text::lemma_lines_of_terminated(ls);
    lemma_windows_from_rows(ws);
}

} // verus!
