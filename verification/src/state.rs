//! What the window shows and remembers, and how each user action and each
//! refresh changes it. The caller performs the tmux runs and folder look-ups
//! that a decision asks for and hands back what came of them.
//!
//! A project is identified by its *key*: the canonical form of its folder,
//! which only the caller can compute (it reads the file system). Functions
//! that need the keys of the registered projects take them as a list that
//! runs parallel to `projects`.
use crate::projects::Project;
use crate::text::{owned, views};
use crate::tmux::{Session, SessionView, Window, WindowView};
use vstd::prelude::*;

verus! {

broadcast use vstd::string::group_string_axioms;

/// How often the window is refreshed from tmux, in milliseconds.
pub const REFRESH_EVERY_MS: u64 = 1000;

/// Whether a refresh is due, given the milliseconds since the last one:
/// always when there has been none, else once the interval has passed.
pub fn refresh_due(since_last_ms: Option<u64>) -> (due: bool)
    ensures
        due == match since_last_ms {
            None => true,
            Some(ms) => ms >= REFRESH_EVERY_MS,
        },
{
    match since_last_ms {
        None => true,
        Some(ms) => ms >= REFRESH_EVERY_MS,
    }
}

/// How the project list is ordered.
#[derive(Debug, Clone, Copy, PartialEq, Eq, Structural)]
pub enum SortMode {
    /// As stored; rows can be dragged to reorder.
    Manual,
    /// By name, ignoring case.
    Alphabetical,
    /// Terminal open first, then running, then idle.
    Status,
}

/// The user's settings.
#[derive(Debug, Clone)]
pub struct Settings {
    /// Typed into a new session when a project is started; blank for a plain shell.
    pub start_command: String,
    /// The terminal program to open sessions in; blank to pick one.
    pub terminal: String,
    pub sort: SortMode,
}

impl Default for Settings {
    /// The settings before the user changes any: no start command (a plain
    /// shell), a terminal picked automatically, projects in stored order.
    fn default() -> (s: Settings)
        ensures
            s.start_command@.len() == 0,
            s.terminal@.len() == 0,
            s.sort == SortMode::Manual,
    {
        Settings { start_command: String::new(), terminal: String::new(), sort: SortMode::Manual }
    }
}

/// The state behind the window.
pub struct Dock {
    pub projects: Vec<Project>,
    pub settings: Settings,
    /// The sessions of the last refresh.
    pub sessions: Vec<Session>,
    /// The windows of the last refresh, each with its session's name, in tmux's order.
    pub windows: Vec<(String, Window)>,
    /// Project key and the session started in that folder, for projects that have one.
    pub matched: Vec<(String, String)>,
    /// The key of the selected project.
    pub selected_project: Option<String>,
    /// The selected session.
    pub selected: Option<String>,
    /// The selected window of the selected session.
    pub selected_window: Option<u32>,
    /// Sessions whose windows are hidden in the list.
    pub collapsed: Vec<String>,
    /// The last message, and whether it reports a failure.
    pub status: Option<(String, bool)>,
    /// The text of the selected pane.
    pub preview: String,
}

/// What is selected: a project (by key), a session and a window.
pub struct Selection {
    pub project: Option<Seq<char>>,
    pub session: Option<Seq<char>>,
    pub window: Option<u32>,
}

// ---------------------------------------------------------------------------
// Lookups
// ---------------------------------------------------------------------------

pub open spec fn session_views(v: Seq<Session>) -> Seq<SessionView> {
    v.map_values(|s: Session| s@)
}

pub open spec fn window_views(v: Seq<(String, Window)>) -> Seq<(Seq<char>, WindowView)> {
    v.map_values(|p: (String, Window)| (p.0@, p.1@))
}

pub open spec fn pair_views(v: Seq<(String, String)>) -> Seq<(Seq<char>, Seq<char>)> {
    v.map_values(|p: (String, String)| (p.0@, p.1@))
}

/// The value stored for `key`: the first pair with that key.
pub open spec fn lookup(m: Seq<(Seq<char>, Seq<char>)>, key: Seq<char>) -> Option<Seq<char>>
    decreases m.len(),
{
    if m.len() == 0 {
        None
    } else if m[0].0 == key {
        Some(m[0].1)
    } else {
        lookup(m.drop_first(), key)
    }
}

/// Whether a session is called `name`.
pub open spec fn has_session(ss: Seq<SessionView>, name: Seq<char>) -> bool {
    exists|i: int| 0 <= i < ss.len() && #[trigger] ss[i].name == name
}

/// Whether the session `name` has a window with number `index`.
pub open spec fn has_window(ws: Seq<(Seq<char>, WindowView)>, name: Seq<char>, index: u32) -> bool {
    exists|i: int| 0 <= i < ws.len() && #[trigger] ws[i].0 == name && ws[i].1.index == index
}

/// The session whose start folder has the key `key`; when several have it,
/// the last one listed.
pub open spec fn session_at(keys: Seq<Seq<char>>, ss: Seq<SessionView>, key: Seq<char>) -> Option<Seq<char>>
    decreases keys.len(),
{
    if keys.len() == 0 || ss.len() == 0 {
        None
    } else if keys.last() == key && keys.len() <= ss.len() {
        Some(ss[keys.len() - 1].name)
    } else {
        session_at(keys.drop_last(), ss, key)
    }
}

/// The first session's name.
pub open spec fn first_session(ss: Seq<SessionView>) -> Option<Seq<char>> {
    if ss.len() > 0 {
        Some(ss[0].name)
    } else {
        None
    }
}

// ---------------------------------------------------------------------------
// Keeping the selection consistent with what exists
// ---------------------------------------------------------------------------

/// A selected project that is gone takes the selection with it; a project
/// that stays follows its session; a selected session that is gone is
/// dropped, with its window.
pub open spec fn keep_existing(
    sel: Selection,
    pkeys: Seq<Seq<char>>,
    m: Seq<(Seq<char>, Seq<char>)>,
    ss: Seq<SessionView>,
) -> Selection {
    match sel.project {
        Some(pp) => if pkeys.contains(pp) {
            let now = lookup(m, pp);
            Selection {
                project: Some(pp),
                session: now,
                window: if now != sel.session {
                    None
                } else {
                    sel.window
                },
            }
        } else {
            Selection { project: None, session: None, window: None }
        },
        None => match sel.session {
            Some(s) => if has_session(ss, s) {
                sel
            } else {
                Selection { project: None, session: None, window: None }
            },
            None => sel,
        },
    }
}

/// With nothing selected, the first project is selected, or, with no
/// projects, the first session.
pub open spec fn select_default(
    sel: Selection,
    pkeys: Seq<Seq<char>>,
    m: Seq<(Seq<char>, Seq<char>)>,
    ss: Seq<SessionView>,
) -> Selection {
    if sel.project is None && sel.session is None {
        if pkeys.len() > 0 {
            Selection { project: Some(pkeys[0]), session: lookup(m, pkeys[0]), window: sel.window }
        } else {
            Selection { project: None, session: first_session(ss), window: sel.window }
        }
    } else {
        sel
    }
}

/// A selected window that its session no longer has is dropped.
pub open spec fn drop_missing_window(sel: Selection, ws: Seq<(Seq<char>, WindowView)>) -> Selection {
    match (sel.session, sel.window) {
        (Some(s), Some(w)) => if has_window(ws, s, w) {
            sel
        } else {
            Selection { project: sel.project, session: sel.session, window: None }
        },
        _ => sel,
    }
}

/// The selection after a refresh.
pub open spec fn refreshed_selection(
    sel: Selection,
    pkeys: Seq<Seq<char>>,
    m: Seq<(Seq<char>, Seq<char>)>,
    ss: Seq<SessionView>,
    ws: Seq<(Seq<char>, WindowView)>,
) -> Selection {
    drop_missing_window(select_default(keep_existing(sel, pkeys, m, ss), pkeys, m, ss), ws)
}

/// What the preview shows: the selected window, or the active window of the
/// selected session; nothing without a selected session.
pub open spec fn preview_target_of(session: Option<Seq<char>>, window: Option<u32>) -> Option<Seq<char>> {
    match (session, window) {
        (Some(s), Some(w)) => Some(s + seq![':'] + crate::text::decimal(w as nat)),
        (Some(s), None) => Some(s),
        (None, _) => None,
    }
}

impl Dock {
    /// Everything but the reported message is as in `other`.
    pub open spec fn same_but_status(&self, other: &Dock) -> bool {
        &&& self.projects == other.projects
        &&& self.settings == other.settings
        &&& self.sessions == other.sessions
        &&& self.windows == other.windows
        &&& self.matched == other.matched
        &&& self.selected_project == other.selected_project
        &&& self.selected == other.selected
        &&& self.selected_window == other.selected_window
        &&& self.collapsed == other.collapsed
        &&& self.preview == other.preview
    }

    /// The settings, what tmux reported, the hidden sessions, the message
    /// and the preview are as in `other`.
    pub open spec fn same_lists(&self, other: &Dock) -> bool {
        &&& self.settings == other.settings
        &&& self.sessions == other.sessions
        &&& self.windows == other.windows
        &&& self.matched == other.matched
        &&& self.collapsed == other.collapsed
        &&& self.status == other.status
        &&& self.preview == other.preview
    }

    /// Everything but the hidden sessions is as in `other`.
    pub open spec fn same_but_collapsed(&self, other: &Dock) -> bool {
        &&& self.projects == other.projects
        &&& self.settings == other.settings
        &&& self.sessions == other.sessions
        &&& self.windows == other.windows
        &&& self.matched == other.matched
        &&& self.selected_project == other.selected_project
        &&& self.selected == other.selected
        &&& self.selected_window == other.selected_window
        &&& self.status == other.status
        &&& self.preview == other.preview
    }

    /// The current selection.
    pub open spec fn selection(&self) -> Selection {
        Selection {
            project: opt_str(self.selected_project),
            session: opt_str(self.selected),
            window: self.selected_window,
        }
    }
}

pub open spec fn opt_str(o: Option<String>) -> Option<Seq<char>> {
    crate::text::opt_view(o)
}

// ---------------------------------------------------------------------------
// Executable lookups
// ---------------------------------------------------------------------------

fn lookup_exec(m: &Vec<(String, String)>, key: &String) -> (r: Option<String>)
    ensures
        opt_str(r) == lookup(pair_views(m@), key@),
{
    let ghost mv = pair_views(m@);
    assert(mv.skip(0) =~= mv);
    let mut i: usize = 0;
    while i < m.len()
        invariant
            i <= m.len(),
            mv == pair_views(m@),
            lookup(mv, key@) == lookup(mv.skip(i as int), key@),
        decreases m.len() - i,
    {
        proof {
            assert(mv.skip(i as int)[0] == mv[i as int]);
            assert(mv.skip(i as int).drop_first() =~= mv.skip(i + 1));
        }
        if m[i].0 == *key {
            return Some(m[i].1.clone());
        }
        i += 1;
    }
    assert(mv.skip(i as int).len() == 0);
    None
}

fn contains_string(v: &Vec<String>, s: &String) -> (b: bool)
    ensures
        b == views(v@).contains(s@),
{
    let mut i: usize = 0;
    while i < v.len()
        invariant
            i <= v.len(),
            forall|j: int| 0 <= j < i ==> views(v@)[j] != s@,
        decreases v.len() - i,
    {
        if v[i] == *s {
            assert(views(v@)[i as int] == s@);
            return true;
        }
        i += 1;
    }
    false
}

fn has_session_exec(ss: &Vec<Session>, name: &String) -> (b: bool)
    ensures
        b == has_session(session_views(ss@), name@),
{
    let mut i: usize = 0;
    while i < ss.len()
        invariant
            i <= ss.len(),
            forall|j: int| 0 <= j < i ==> session_views(ss@)[j].name != name@,
        decreases ss.len() - i,
    {
        if ss[i].name == *name {
            assert(session_views(ss@)[i as int].name == name@);
            return true;
        }
        i += 1;
    }
    false
}

fn has_window_exec(ws: &Vec<(String, Window)>, name: &String, index: u32) -> (b: bool)
    ensures
        b == has_window(window_views(ws@), name@, index),
{
    let mut i: usize = 0;
    while i < ws.len()
        invariant
            i <= ws.len(),
            forall|j: int|
                0 <= j < i ==> !(window_views(ws@)[j].0 == name@ && window_views(ws@)[j].1.index
                    == index),
        decreases ws.len() - i,
    {
        if ws[i].0 == *name && ws[i].1.index == index {
            assert(window_views(ws@)[i as int].0 == name@);
            return true;
        }
        i += 1;
    }
    false
}

fn session_at_exec(keys: &Vec<String>, ss: &Vec<Session>, key: &String) -> (r: Option<String>)
    requires
        keys.len() == ss.len(),
    ensures
        opt_str(r) == session_at(views(keys@), session_views(ss@), key@),
{
    let ghost kv = views(keys@);
    let ghost sv = session_views(ss@);
    let mut i = keys.len();
    assert(kv.take(kv.len() as int) =~= kv);
    while i > 0
        invariant
            i <= keys.len() == ss.len(),
            kv == views(keys@),
            sv == session_views(ss@),
            session_at(kv, sv, key@) == session_at(kv.take(i as int), sv, key@),
        decreases i,
    {
        proof {
            assert(kv.take(i as int).last() == kv[i - 1]);
            assert(kv.take(i as int).drop_last() =~= kv.take(i - 1));
        }
        if keys[i - 1] == *key {
            return Some(ss[i - 1].name.clone());
        }
        i -= 1;
    }
    None
}

proof fn lemma_lookup_push(m: Seq<(Seq<char>, Seq<char>)>, x: (Seq<char>, Seq<char>), k: Seq<char>)
    ensures
        lookup(m.push(x), k) == match lookup(m, k) {
            Some(v) => Some(v),
            None => if x.0 == k {
                Some(x.1)
            } else {
                None
            },
        },
    decreases m.len(),
{
    if m.len() > 0 {
        assert(m.push(x)[0] == m[0]);
        assert(m.push(x).drop_first() =~= m.drop_first().push(x));
        lemma_lookup_push(m.drop_first(), x, k);
    } else {
        assert(m.push(x)[0] == x);
        assert(m.push(x).drop_first() =~= Seq::<(Seq<char>, Seq<char>)>::empty());
        assert(lookup(m.push(x).drop_first(), k) is None);
        assert(lookup(m, k) is None);
    }
}

proof fn lemma_session_at_none(keys: Seq<Seq<char>>, ss: Seq<SessionView>, k: Seq<char>)
    requires
        ss.len() == 0,
    ensures
        session_at(keys, ss, k) is None,
{
}

/// Which session each project folder has, for the project keys `pkeys[..n]`.
pub open spec fn matches_upto(
    m: Seq<(Seq<char>, Seq<char>)>,
    pkeys: Seq<Seq<char>>,
    skeys: Seq<Seq<char>>,
    ss: Seq<SessionView>,
) -> bool {
    forall|k: Seq<char>|
        #[trigger] lookup(m, k) == if pkeys.contains(k) {
            session_at(skeys, ss, k)
        } else {
            None
        }
}

/// The sessions started in the project folders: for each project key that
/// some session's folder has, that session.
fn match_sessions(project_keys: &Vec<String>, session_keys: &Vec<String>, sessions: &Vec<Session>) -> (m: Vec<(String, String)>)
    ensures
        matches_upto(
            pair_views(m@),
            views(project_keys@),
            views(session_keys@),
            session_views(sessions@),
        ) || (session_keys.len() != sessions.len() && sessions.len() != 0),
        sessions.len() == 0 ==> matches_upto(
            pair_views(m@),
            views(project_keys@),
            views(session_keys@),
            session_views(sessions@),
        ),
{
    let mut m: Vec<(String, String)> = Vec::new();
    if session_keys.len() != sessions.len() {
        proof {
            if sessions.len() == 0 {
                assert forall|k: Seq<char>| #[trigger]
                    lookup(pair_views(m@), k) == if views(project_keys@).contains(k) {
                        session_at(views(session_keys@), session_views(sessions@), k)
                    } else {
                        None
                    } by {
                    lemma_session_at_none(views(session_keys@), session_views(sessions@), k);
                }
            }
        }
        return m;
    }
    let ghost pk = views(project_keys@);
    let ghost sk = views(session_keys@);
    let ghost sv = session_views(sessions@);
    let mut i: usize = 0;
    while i < project_keys.len()
        invariant
            i <= project_keys.len(),
            session_keys.len() == sessions.len(),
            pk == views(project_keys@),
            sk == views(session_keys@),
            sv == session_views(sessions@),
            matches_upto(pair_views(m@), pk.take(i as int), sk, sv),
        decreases project_keys.len() - i,
    {
        let key = &project_keys[i];
        let ghost before = pair_views(m@);
        proof {
            assert(pk.take(i + 1) =~= pk.take(i as int).push(key@));
        }
        match session_at_exec(session_keys, sessions, key) {
            Some(name) => {
                match lookup_exec(&m, key) {
                    Some(_) => {
                        assert forall|k: Seq<char>| #[trigger]
                            lookup(pair_views(m@), k) == if pk.take(i + 1).contains(k) {
                                session_at(sk, sv, k)
                            } else {
                                None
                            } by {
                            if k == key@ {
                                assert(pk.take(i as int).contains(k)) by {
                                    if !pk.take(i as int).contains(k) {
                                        assert(lookup(before, k) is None);
                                    }
                                }
                            } else if pk.take(i + 1).contains(k) {
                                let j = choose|j: int| 0 <= j < pk.take(i + 1).len() && #[trigger] pk.take(i + 1)[j] == k;
                                assert(pk.take(i as int)[j] == k);
                            }
                        }
                    },
                    None => {
                        let ghost x = (key@, name@);
                        m.push((key.clone(), name));
                        assert(pair_views(m@) =~= before.push(x));
                        assert forall|k: Seq<char>| #[trigger]
                            lookup(pair_views(m@), k) == if pk.take(i + 1).contains(k) {
                                session_at(sk, sv, k)
                            } else {
                                None
                            } by {
                            lemma_lookup_push(before, x, k);
                            if k == key@ {
                                assert(pk.take(i + 1)[i as int] == k);
                                if pk.take(i as int).contains(k) {
                                    assert(lookup(before, k) == session_at(sk, sv, k));
                                }
                            } else if pk.take(i + 1).contains(k) {
                                let j = choose|j: int| 0 <= j < pk.take(i + 1).len() && #[trigger] pk.take(i + 1)[j] == k;
                                assert(pk.take(i as int)[j] == k);
                            } else {
                                if pk.take(i as int).contains(k) {
                                    let j = choose|j: int| 0 <= j < pk.take(i as int).len() && #[trigger] pk.take(i as int)[j] == k;
                                    assert(pk.take(i + 1)[j] == k);
                                }
                            }
                        }
                    },
                }
            },
            None => {
                assert forall|k: Seq<char>| #[trigger]
                    lookup(pair_views(m@), k) == if pk.take(i + 1).contains(k) {
                        session_at(sk, sv, k)
                    } else {
                        None
                    } by {
                    if k == key@ {
                        assert(pk.take(i + 1)[i as int] == k);
                        if pk.take(i as int).contains(k) {
                        }
                    } else if pk.take(i + 1).contains(k) {
                        let j = choose|j: int| 0 <= j < pk.take(i + 1).len() && #[trigger] pk.take(i + 1)[j] == k;
                        assert(pk.take(i as int)[j] == k);
                    } else if pk.take(i as int).contains(k) {
                        let j = choose|j: int| 0 <= j < pk.take(i as int).len() && #[trigger] pk.take(i as int)[j] == k;
                        assert(pk.take(i + 1)[j] == k);
                    }
                }
            },
        }
        i += 1;
    }
    assert(pk.take(project_keys.len() as int) =~= pk);
    m
}

impl Dock {
    /// Takes in a refresh. `sessions` and `windows` are what listing them
    /// gave; `project_keys` are the keys of the projects, in order, and
    /// `session_keys` the canonical start folders of the listed sessions.
    /// Sessions are matched to projects by folder, the selection is brought
    /// in line with what exists, and the preview target is returned: the
    /// caller captures that pane and hands the text to [`Dock::set_preview`].
    /// A failure to list the sessions empties the list and is reported.
    pub fn refresh(
        &mut self,
        sessions: Result<Vec<Session>, String>,
        windows: Result<Vec<(String, Window)>, String>,
        project_keys: &Vec<String>,
        session_keys: &Vec<String>,
    ) -> (target: Option<String>)
        requires
            project_keys.len() == old(self).projects.len(),
            sessions matches Ok(v) ==> session_keys.len() == v.len(),
        ensures
            final(self).projects == old(self).projects,
            final(self).collapsed == old(self).collapsed,
            final(self).settings == old(self).settings,
            final(self).preview == old(self).preview,
            match sessions {
                Ok(v) => session_views(final(self).sessions@) == session_views(v@)
                    && final(self).status == old(self).status,
                Err(e) => final(self).sessions@.len() == 0 && (final(self).status matches Some(
                    (m, true),
                ) && m@ == e@),
            },
            window_views(final(self).windows@) == match windows {
                Ok(w) => window_views(w@),
                Err(_) => Seq::<(Seq<char>, WindowView)>::empty(),
            },
            matches_upto(
                pair_views(final(self).matched@),
                views(project_keys@),
                views(session_keys@),
                session_views(final(self).sessions@),
            ),
            final(self).selection() == refreshed_selection(
                old(self).selection(),
                views(project_keys@),
                pair_views(final(self).matched@),
                session_views(final(self).sessions@),
                window_views(final(self).windows@),
            ),
            opt_str(target) == preview_target_of(
                final(self).selection().session,
                final(self).selection().window,
            ),
    {
        match sessions {
            Ok(v) => {
                self.sessions = v;
            },
            Err(e) => {
                self.sessions = Vec::new();
                self.status = Some((e, true));
            },
        }
        self.windows = match windows {
            Ok(w) => w,
            Err(_) => Vec::new(),
        };
        self.matched = match_sessions(project_keys, session_keys, &self.sessions);
        let ghost pk = views(project_keys@);
        let ghost m = pair_views(self.matched@);
        let ghost ss = session_views(self.sessions@);
        let ghost ws = window_views(self.windows@);
        let ghost sel0 = self.selection();

        // A project or session that is gone takes the selection with it.
        let current = self.selected_project.clone();
        match current {
            Some(pp) => {
                if contains_string(project_keys, &pp) {
                    let now = lookup_exec(&self.matched, &pp);
                    let same = match (&now, &self.selected) {
                        (Some(a), Some(b)) => *a == *b,
                        (None, None) => true,
                        _ => false,
                    };
                    if !same {
                        self.selected_window = None;
                    }
                    self.selected = now;
                    self.selected_project = Some(pp);
                } else {
                    self.selected_project = None;
                    self.selected = None;
                    self.selected_window = None;
                }
            },
            None => {
                let gone = match &self.selected {
                    Some(sel) => !has_session_exec(&self.sessions, sel),
                    None => false,
                };
                if gone {
                    self.selected = None;
                    self.selected_window = None;
                }
            },
        }
        let ghost sel1 = self.selection();
        assert(sel1 == keep_existing(sel0, pk, m, ss));

        // Nothing selected: the first project, or else the first session.
        if self.selected_project.is_none() && self.selected.is_none() {
            if project_keys.len() > 0 {
                let key = project_keys[0].clone();
                self.selected = lookup_exec(&self.matched, &key);
                self.selected_project = Some(key);
            } else if self.sessions.len() > 0 {
                self.selected = Some(self.sessions[0].name.clone());
            }
        }
        let ghost sel2 = self.selection();
        assert(sel2 == select_default(sel1, pk, m, ss));

        // A window the session no longer has is dropped.
        let missing = match (&self.selected, self.selected_window) {
            (Some(s), Some(w)) => !has_window_exec(&self.windows, s, w),
            _ => false,
        };
        if missing {
            self.selected_window = None;
        }
        assert(self.selection() == drop_missing_window(sel2, ws));

        match &self.selected {
            Some(s) => match self.selected_window {
                Some(w) => Some(crate::tmux::window_target(s.as_str(), w)),
                None => Some(s.clone()),
            },
            None => None,
        }
    }

    /// Takes in the captured text of the preview pane: empty when capturing failed.
    pub fn set_preview(&mut self, captured: Result<String, String>)
        ensures
            final(self).preview@ == match captured {
                Ok(t) => t@,
                Err(_) => Seq::<char>::empty(),
            },
            final(self).projects == old(self).projects,
            final(self).sessions == old(self).sessions,
            final(self).windows == old(self).windows,
            final(self).matched == old(self).matched,
            final(self).selection() == old(self).selection(),
    {
        self.preview = match captured {
            Ok(t) => t,
            Err(_) => String::new(),
        };
    }
}

// ---------------------------------------------------------------------------
// Laws of a refresh
// ---------------------------------------------------------------------------

/// After a refresh the selection only names what exists: a selected window
/// belongs to the selected session; a selected project is registered and
/// shows the session matched to it; a session selected on its own exists;
/// and nothing is selected only when there are neither projects nor sessions.
pub proof fn lemma_refreshed_selection_consistent(
    sel: Selection,
    pkeys: Seq<Seq<char>>,
    m: Seq<(Seq<char>, Seq<char>)>,
    ss: Seq<SessionView>,
    ws: Seq<(Seq<char>, WindowView)>,
)
    ensures
        ({
            let r = refreshed_selection(sel, pkeys, m, ss, ws);
            &&& r.session matches Some(s) ==> (r.window matches Some(w) ==> has_window(ws, s, w))
            &&& r.project matches Some(k) ==> pkeys.contains(k) && r.session == lookup(m, k)
            &&& r.project is None ==> (r.session matches Some(s) ==> has_session(ss, s))
            &&& (r.project is None && r.session is None) ==> pkeys.len() == 0 && ss.len() == 0
        }),
{
    let a = keep_existing(sel, pkeys, m, ss);
    let b = select_default(a, pkeys, m, ss);
    if a.project is None && a.session is None {
        if pkeys.len() > 0 {
            assert(pkeys.contains(pkeys[0]));
        } else if ss.len() > 0 {
            assert(ss[0].name == ss[0].name);
        }
    }
}

/// A refresh that finds everything the selection names still there leaves
/// the selection as it was: a registered project whose folder still has the
/// same session, or a session still running, and a selected window that
/// session still has. The preview then shows that very window.
pub proof fn lemma_refresh_keeps_what_exists(
    sel: Selection,
    pkeys: Seq<Seq<char>>,
    m: Seq<(Seq<char>, Seq<char>)>,
    ss: Seq<SessionView>,
    ws: Seq<(Seq<char>, WindowView)>,
)
    requires
        sel.project matches Some(pp) ==> pkeys.contains(pp) && lookup(m, pp) == sel.session,
        sel.project is None ==> (sel.session matches Some(s) && has_session(ss, s)),
        (sel.session matches Some(s) && sel.window matches Some(w)) ==> has_window(
            ws,
            sel.session->0,
            sel.window->0,
        ),
    ensures
        refreshed_selection(sel, pkeys, m, ss, ws) == sel,
        (sel.session matches Some(s) && sel.window matches Some(w)) ==> preview_target_of(
            refreshed_selection(sel, pkeys, m, ss, ws).session,
            refreshed_selection(sel, pkeys, m, ss, ws).window,
        ) == Some(sel.session->0 + seq![':'] + crate::text::decimal(sel.window->0 as nat)),
{
}

// ---------------------------------------------------------------------------
// Display order
// ---------------------------------------------------------------------------

/// `a` comes before `b` in code point order, character by character, a
/// proper prefix first: the order of `String`s.
pub open spec fn lex_less(a: Seq<char>, b: Seq<char>) -> bool
    decreases a.len(),
{
    if a.len() == 0 {
        b.len() > 0
    } else if b.len() == 0 {
        false
    } else if a[0] != b[0] {
        (a[0] as int) < (b[0] as int)
    } else {
        lex_less(a.drop_first(), b.drop_first())
    }
}

/// No text comes before itself.
pub proof fn lemma_lex_less_irreflexive(a: Seq<char>)
    ensures
        !lex_less(a, a),
    decreases a.len(),
{
    if a.len() > 0 {
        lemma_lex_less_irreflexive(a.drop_first());
    }
}

/// A text comes before every longer text that it begins, and never after it:
/// `app` before `app-server`, and the empty text before any other.
pub proof fn lemma_lex_less_prefix_first(a: Seq<char>, t: Seq<char>)
    requires
        t.len() > 0,
    ensures
        lex_less(a, a + t),
        !lex_less(a + t, a),
    decreases a.len(),
{
    if a.len() > 0 {
        lemma_lex_less_prefix_first(a.drop_first(), t);
        assert((a + t).drop_first() =~= a.drop_first() + t);
        assert((a + t)[0] == a[0]);
    }
}

/// After a common beginning `p`, the first differing character decides:
/// the text with the smaller code point comes first, whatever follows.
pub proof fn lemma_lex_less_first_difference(p: Seq<char>, x: char, y: char, s: Seq<char>, u: Seq<char>)
    requires
        x != y,
    ensures
        lex_less(p + seq![x] + s, p + seq![y] + u) == ((x as int) < (y as int)),
    decreases p.len(),
{
    let a = p + seq![x] + s;
    let b = p + seq![y] + u;
    if p.len() == 0 {
        assert(a[0] == x && b[0] == y);
    } else {
        lemma_lex_less_first_difference(p.drop_first(), x, y, s, u);
        assert(a.drop_first() =~= p.drop_first() + seq![x] + s);
        assert(b.drop_first() =~= p.drop_first() + seq![y] + u);
        assert(a[0] == p[0] && b[0] == p[0]);
    }
}

/// The first session called `name`.
pub open spec fn find_session(ss: Seq<SessionView>, name: Seq<char>) -> Option<SessionView>
    decreases ss.len(),
{
    if ss.len() == 0 {
        None
    } else if ss[0].name == name {
        Some(ss[0])
    } else {
        find_session(ss.drop_first(), name)
    }
}

/// Where a project stands by status: 0 with a terminal open on its
/// session, 1 running without one, 2 not running.
pub open spec fn status_rank(m: Seq<(Seq<char>, Seq<char>)>, ss: Seq<SessionView>, key: Seq<char>) -> int {
    match lookup(m, key) {
        Some(n) => match find_session(ss, n) {
            Some(s) => if s.attached {
                0
            } else {
                1
            },
            None => 2,
        },
        None => 2,
    }
}

/// What a project is ordered by: a rank, then a text.
pub open spec fn sort_key(
    mode: SortMode,
    name: Seq<char>,
    key: Seq<char>,
    m: Seq<(Seq<char>, Seq<char>)>,
    ss: Seq<SessionView>,
) -> (int, Seq<char>) {
    match mode {
        SortMode::Manual => (0, Seq::<char>::empty()),
        SortMode::Alphabetical => (0, crate::text::lowercase(name)),
        SortMode::Status => (status_rank(m, ss, key), Seq::<char>::empty()),
    }
}

/// Project `a` is shown before project `b`: a smaller key, or an equal key
/// and a smaller position in the stored list (the sort is stable).
pub open spec fn shown_before(keys: Seq<(int, Seq<char>)>, a: int, b: int) -> bool {
    ||| keys[a].0 < keys[b].0
    ||| keys[a].0 == keys[b].0 && lex_less(keys[a].1, keys[b].1)
    ||| keys[a].0 == keys[b].0 && keys[a].1 == keys[b].1 && a < b
}

proof fn lemma_lex_irreflexive(a: Seq<char>)
    ensures
        !lex_less(a, a),
    decreases a.len(),
{
    if a.len() > 0 {
        lemma_lex_irreflexive(a.drop_first());
    }
}

proof fn lemma_lex_asymmetric(a: Seq<char>, b: Seq<char>)
    ensures
        !(lex_less(a, b) && lex_less(b, a)),
    decreases a.len(),
{
    if a.len() > 0 && b.len() > 0 && a[0] == b[0] {
        lemma_lex_asymmetric(a.drop_first(), b.drop_first());
    }
}

proof fn lemma_lex_total(a: Seq<char>, b: Seq<char>)
    requires
        a != b,
    ensures
        lex_less(a, b) || lex_less(b, a),
    decreases a.len(),
{
    if a.len() > 0 && b.len() > 0 {
        if a[0] == b[0] {
            if a.drop_first() == b.drop_first() {
                assert(a =~= seq![a[0]] + a.drop_first());
                assert(b =~= seq![b[0]] + b.drop_first());
            }
            lemma_lex_total(a.drop_first(), b.drop_first());
        } else {
            assert((a[0] as int) != (b[0] as int));
        }
    } else if a.len() == 0 && b.len() == 0 {
        assert(a =~= b);
    }
}

proof fn lemma_lex_transitive(a: Seq<char>, b: Seq<char>, c: Seq<char>)
    requires
        lex_less(a, b),
        lex_less(b, c),
    ensures
        lex_less(a, c),
    decreases a.len(),
{
    if a.len() > 0 && b.len() > 0 && c.len() > 0 {
        if a[0] == b[0] && b[0] == c[0] {
            lemma_lex_transitive(a.drop_first(), b.drop_first(), c.drop_first());
        }
    }
}

proof fn lemma_shown_before_order(keys: Seq<(int, Seq<char>)>, a: int, b: int, c: int)
    ensures
        !shown_before(keys, a, a),
        !(shown_before(keys, a, b) && shown_before(keys, b, a)),
        a != b ==> shown_before(keys, a, b) || shown_before(keys, b, a),
        shown_before(keys, a, b) && shown_before(keys, b, c) ==> shown_before(keys, a, c),
{
    lemma_lex_irreflexive(keys[a].1);
    lemma_lex_asymmetric(keys[a].1, keys[b].1);
    if keys[a].1 != keys[b].1 {
        lemma_lex_total(keys[a].1, keys[b].1);
    }
    if lex_less(keys[a].1, keys[b].1) && lex_less(keys[b].1, keys[c].1) {
        lemma_lex_transitive(keys[a].1, keys[b].1, keys[c].1);
    }
    if keys[a].1 == keys[b].1 {
        lemma_lex_irreflexive(keys[a].1);
    }
}

/// The stored positions in a list of projects with positions.
pub open spec fn positions(r: Seq<(usize, Project)>) -> Seq<int> {
    r.map_values(|p: (usize, Project)| p.0 as int)
}

/// The display order: every project's position in the stored list, each
/// once, in `shown_before` order.
pub open spec fn is_display_order(order: Seq<int>, keys: Seq<(int, Seq<char>)>) -> bool {
    &&& order.len() == keys.len()
    &&& forall|k: int| 0 <= k < order.len() ==> 0 <= #[trigger] order[k] < keys.len()
    &&& forall|k: int, l: int| 0 <= k < l < order.len() ==> shown_before(keys, order[k], order[l])
}

fn lex_less_exec(a: &Vec<char>, b: &Vec<char>) -> (r: bool)
    ensures
        r == lex_less(a@, b@),
{
    let mut i: usize = 0;
    assert(a@.skip(0) =~= a@);
    assert(b@.skip(0) =~= b@);
    while i < a.len() && i < b.len()
        invariant
            i <= a.len(),
            i <= b.len(),
            lex_less(a@, b@) == lex_less(a@.skip(i as int), b@.skip(i as int)),
        decreases a.len() - i,
    {
        let x = a[i];
        let y = b[i];
        assert(a@.skip(i as int)[0] == x);
        assert(b@.skip(i as int)[0] == y);
        if x != y {
            return x < y;
        }
        assert(a@.skip(i as int).drop_first() =~= a@.skip(i + 1));
        assert(b@.skip(i as int).drop_first() =~= b@.skip(i + 1));
        i += 1;
    }
    i < b.len()
}

fn find_session_exec(ss: &Vec<Session>, name: &String) -> (r: Option<bool>)
    ensures
        match r {
            Some(att) => find_session(session_views(ss@), name@) matches Some(s) && s.attached == att,
            None => find_session(session_views(ss@), name@) is None,
        },
{
    let ghost sv = session_views(ss@);
    assert(sv.skip(0) =~= sv);
    let mut i: usize = 0;
    while i < ss.len()
        invariant
            i <= ss.len(),
            sv == session_views(ss@),
            find_session(sv, name@) == find_session(sv.skip(i as int), name@),
        decreases ss.len() - i,
    {
        assert(sv.skip(i as int)[0] == sv[i as int]);
        assert(sv.skip(i as int).drop_first() =~= sv.skip(i + 1));
        if ss[i].name == *name {
            return Some(ss[i].attached);
        }
        i += 1;
    }
    None
}

/// Whether the key of project `a` is smaller than that of project `b`.
fn key_less(ranks: &Vec<u32>, texts: &Vec<Vec<char>>, a: usize, b: usize) -> (r: bool)
    requires
        a < ranks.len(),
        b < ranks.len(),
        ranks.len() == texts.len(),
    ensures
        r == (ranks@[a as int] < ranks@[b as int] || (ranks@[a as int] == ranks@[b as int]
            && lex_less(texts@[a as int]@, texts@[b as int]@))),
{
    ranks[a] < ranks[b] || (ranks[a] == ranks[b] && lex_less_exec(&texts[a], &texts[b]))
}

/// The positions in `v`, as integers.
pub open spec fn as_ints(v: Seq<usize>) -> Seq<int> {
    v.map_values(|o: usize| o as int)
}

/// The keys made of `ranks` and `texts`, position by position.
pub open spec fn ranked_keys(ranks: Seq<u32>, texts: Seq<Vec<char>>) -> Seq<(int, Seq<char>)> {
    Seq::new(ranks.len(), |i: int| (ranks[i] as int, texts[i]@))
}

/// The order in which to show items whose keys are `(ranks[i], texts[i])`:
/// by rank, then by text in code point order, then by position, so that
/// items with equal keys keep their order.
pub fn display_order(ranks: &Vec<u32>, texts: &Vec<Vec<char>>) -> (order: Vec<usize>)
    requires
        ranks.len() == texts.len(),
    ensures
        is_display_order(as_ints(order@), ranked_keys(ranks@, texts@)),
{
        let n = ranks.len();
        let ghost keys = ranked_keys(ranks@, texts@);
        let mut order: Vec<usize> = Vec::new();
        let mut i: usize = 0;
        while i < n
            invariant
                i <= n == keys.len() == ranks.len() == texts.len(),
                forall|j: int| 0 <= j < keys.len() ==> keys[j] == (ranks@[j] as int, texts@[j]@),
                order.len() == i,
                forall|k: int| 0 <= k < order.len() ==> #[trigger] order@[k] < i,
                forall|k: int, l: int|
                    0 <= k < l < order.len() ==> shown_before(
                        keys,
                        order@[k] as int,
                        order@[l] as int,
                    ),
            decreases n - i,
        {
            // The first place whose project comes after project i.
            let mut p: usize = 0;
            while p < order.len() && !key_less(&ranks, &texts, i, order[p])
                invariant
                    p <= order.len() == i < n,
                    n == keys.len() == ranks.len() == texts.len(),
                    forall|j: int| 0 <= j < keys.len() ==> keys[j] == (ranks@[j] as int, texts@[j]@),
                    forall|k: int| 0 <= k < order.len() ==> #[trigger] order@[k] < i,
                    forall|k: int| 0 <= k < p ==> !shown_before(keys, i as int, #[trigger] order@[k] as int),
                decreases order.len() - p,
            {
                proof {
                    let o = order@[p as int] as int;
                    assert(keys[o] == (ranks@[o] as int, texts@[o]@));
                    assert(keys[i as int] == (ranks@[i as int] as int, texts@[i as int]@));
                }
                p += 1;
            }
            proof {
                if p < order.len() {
                    let o = order@[p as int] as int;
                    assert(keys[o] == (ranks@[o] as int, texts@[o]@));
                    assert(keys[i as int] == (ranks@[i as int] as int, texts@[i as int]@));
                    assert(shown_before(keys, i as int, o));
                }
            }
            let ghost before = order@;
            order.insert(p, i);
            proof {
                assert forall|k: int| 0 <= k < order.len() implies #[trigger] order@[k] < i + 1 by {
                    if k < p {
                        assert(order@[k] == before[k]);
                    } else if k > p {
                        assert(order@[k] == before[k - 1]);
                    }
                }
                assert forall|k: int, l: int|
                    0 <= k < l < order.len() implies shown_before(
                    keys,
                    order@[k] as int,
                    order@[l] as int,
                ) by {
                    let x = order@[k] as int;
                    let y = order@[l] as int;
                    if l < p {
                        assert(x == before[k] && y == before[l]);
                    } else if l == p {
                        assert(x == before[k]);
                        assert(y == i);
                        lemma_shown_before_order(keys, i as int, x, x);
                        assert(!shown_before(keys, i as int, before[k] as int));
                    } else if k == p {
                        assert(y == before[l - 1]);
                        assert(x == i);
                        let o = before[p as int] as int;
                        if l - 1 > p {
                            lemma_shown_before_order(keys, i as int, o, y);
                        }
                    } else if k < p {
                        assert(x == before[k] && y == before[l - 1]);
                    } else {
                        assert(x == before[k - 1] && y == before[l - 1]);
                    }
                }
            }
            i += 1;
        }
        assert forall|k: int| 0 <= k < order.len() implies 0 <= #[trigger] as_ints(order@)[k] < keys.len() by {
            assert(order@[k] < n);
        }
        order
}

impl Dock {
    /// The sort key of each project, for the current settings.
    fn sort_keys(&self, project_keys: &Vec<String>) -> (r: (Vec<u32>, Vec<Vec<char>>))
        requires
            project_keys.len() == self.projects.len(),
        ensures
            r.0.len() == self.projects.len(),
            r.1.len() == self.projects.len(),
            forall|i: int|
                0 <= i < self.projects.len() ==> sort_key(
                    self.settings.sort,
                    #[trigger] self.projects@[i].name@,
                    project_keys@[i]@,
                    pair_views(self.matched@),
                    session_views(self.sessions@),
                ) == (r.0@[i] as int, r.1@[i]@),
    {
        let mut ranks: Vec<u32> = Vec::new();
        let mut texts: Vec<Vec<char>> = Vec::new();
        let mut i: usize = 0;
        while i < self.projects.len()
            invariant
                i <= self.projects.len() == project_keys.len(),
                ranks.len() == i,
                texts.len() == i,
                forall|j: int|
                    0 <= j < i ==> sort_key(
                        self.settings.sort,
                        #[trigger] self.projects@[j].name@,
                        project_keys@[j]@,
                        pair_views(self.matched@),
                        session_views(self.sessions@),
                    ) == (ranks@[j] as int, texts@[j]@),
            decreases self.projects.len() - i,
        {
            let (rank, text): (u32, Vec<char>) = match self.settings.sort {
                SortMode::Manual => (0, Vec::new()),
                SortMode::Alphabetical => {
                    let lower = crate::text::to_lowercase(self.projects[i].name.as_str());
                    (0, crate::text::chars_of(lower.as_str()))
                },
                SortMode::Status => {
                    let rank: u32 = match lookup_exec(&self.matched, &project_keys[i]) {
                        Some(n) => match find_session_exec(&self.sessions, &n) {
                            Some(true) => 0,
                            Some(false) => 1,
                            None => 2,
                        },
                        None => 2,
                    };
                    (rank, Vec::new())
                },
            };
            ranks.push(rank);
            texts.push(text);
            proof {
                assert(texts@[i as int]@ == text@);
            }
            i += 1;
        }
        (ranks, texts)
    }

    /// The projects in display order, each with its position in the stored
    /// list. Manual order keeps the stored order; the others sort by name
    /// (ignoring case) or by status, keeping the stored order among equals.
    pub fn ordered_projects(&self, project_keys: &Vec<String>) -> (r: Vec<(usize, Project)>)
        requires
            project_keys.len() == self.projects.len(),
        ensures
            r.len() == self.projects.len(),
            forall|k: int|
                0 <= k < r.len() ==> #[trigger] r@[k].0 < self.projects.len() && r@[k].1@
                    == self.projects@[r@[k].0 as int]@,
            is_display_order(
                positions(r@),
                Seq::new(
                    self.projects.len() as nat,
                    |i: int|
                        sort_key(
                            self.settings.sort,
                            self.projects@[i].name@,
                            project_keys@[i]@,
                            pair_views(self.matched@),
                            session_views(self.sessions@),
                        ),
                ),
            ),
            forall|i: int|
                0 <= i < self.projects.len() ==> #[trigger] positions(r@).contains(i),
            self.settings.sort == SortMode::Manual ==> forall|k: int|
                0 <= k < r.len() ==> #[trigger] r@[k].0 == k,
    {
        let (ranks, texts) = self.sort_keys(project_keys);
        let ghost keys = Seq::new(
            self.projects.len() as nat,
            |i: int|
                sort_key(
                    self.settings.sort,
                    self.projects@[i].name@,
                    project_keys@[i]@,
                    pair_views(self.matched@),
                    session_views(self.sessions@),
                ),
        );
        assert forall|i: int| 0 <= i < keys.len() implies keys[i] == (
        ranks@[i] as int,
        texts@[i]@,
        ) by {
            assert(keys[i] == sort_key(
                self.settings.sort,
                self.projects@[i].name@,
                project_keys@[i]@,
                pair_views(self.matched@),
                session_views(self.sessions@),
            ));
        }
        let order = display_order(&ranks, &texts);
        let n = self.projects.len();
        assert(keys =~= ranked_keys(ranks@, texts@));
        assert(order@.len() == n);
        assert forall|j: int| 0 <= j < order.len() implies #[trigger] order@[j] < n by {
            assert(as_ints(order@)[j] == order@[j] as int);
        }
        let mut r: Vec<(usize, Project)> = Vec::new();
        let mut k: usize = 0;
        while k < n
            invariant
                k <= n == order.len() == self.projects.len(),
                forall|j: int| 0 <= j < order.len() ==> #[trigger] order@[j] < n,
                r.len() == k,
                forall|j: int|
                    0 <= j < k ==> #[trigger] r@[j].0 == order@[j] && r@[j].1@
                        == self.projects@[order@[j] as int]@,
            decreases n - k,
        {
            let idx = order[k];
            r.push((idx, self.projects[idx].duplicate()));
            k += 1;
        }
        assert(positions(r@) =~= as_ints(order@));
        proof {
            let ov = positions(r@);
            lemma_display_order_is_permutation(ov, keys);
            if self.settings.sort == SortMode::Manual {
                assert forall|a: int, b: int| 0 <= a < keys.len() && 0 <= b < keys.len() implies keys[a]
                    == keys[b] by {
                    assert(keys[a] == (0int, Seq::<char>::empty()));
                    assert(keys[b] == (0int, Seq::<char>::empty()));
                }
                lemma_equal_keys_keep_stored_order(ov, keys);
                assert forall|k: int| 0 <= k < r.len() implies #[trigger] r@[k].0 == k by {
                    assert(ov[k] == k);
                }
            }
        }
        r
    }
}

/// In manual order, where no project's key differs from another's, the
/// display order is the stored order.
pub proof fn lemma_equal_keys_keep_stored_order(order: Seq<int>, keys: Seq<(int, Seq<char>)>)
    requires
        is_display_order(order, keys),
        forall|i: int, j: int| 0 <= i < keys.len() && 0 <= j < keys.len() ==> keys[i] == keys[j],
    ensures
        forall|k: int| 0 <= k < order.len() ==> #[trigger] order[k] == k,
{
    let n = order.len();
    assert forall|k: int, l: int| 0 <= k < l < n implies order[k] < order[l] by {
        assert(keys[order[k]] == keys[order[l]]);
        lemma_lex_irreflexive(keys[order[k]].1);
        assert(shown_before(keys, order[k], order[l]));
    }
    assert forall|k: int| 0 <= k < n implies #[trigger] order[k] == k by {
        lemma_increasing_lower(order, k);
        lemma_increasing_upper(order, k);
    }
}

proof fn lemma_increasing_lower(order: Seq<int>, k: int)
    requires
        0 <= k < order.len(),
        forall|i: int| 0 <= i < order.len() ==> 0 <= #[trigger] order[i],
        forall|i: int, j: int| 0 <= i < j < order.len() ==> order[i] < order[j],
    ensures
        order[k] >= k,
    decreases k,
{
    if k > 0 {
        lemma_increasing_lower(order, k - 1);
    }
}

proof fn lemma_increasing_upper(order: Seq<int>, k: int)
    requires
        0 <= k < order.len(),
        forall|i: int| 0 <= i < order.len() ==> #[trigger] order[i] < order.len(),
        forall|i: int, j: int| 0 <= i < j < order.len() ==> order[i] < order[j],
    ensures
        order[k] <= k,
    decreases order.len() - k,
{
    if k < order.len() - 1 {
        lemma_increasing_upper(order, k + 1);
        lemma_increasing_upper_step(order, k);
    }
}

proof fn lemma_increasing_upper_step(order: Seq<int>, k: int)
    requires
        0 <= k < order.len() - 1,
        forall|i: int, j: int| 0 <= i < j < order.len() ==> order[i] < order[j],
        order[k + 1] <= k + 1,
    ensures
        order[k] <= k,
{
    assert(order[k] < order[k + 1]);
}

/// A display order holds every stored position exactly once.
pub proof fn lemma_display_order_is_permutation(order: Seq<int>, keys: Seq<(int, Seq<char>)>)
    requires
        is_display_order(order, keys),
    ensures
        forall|k: int, l: int| 0 <= k < l < order.len() ==> order[k] != order[l],
        forall|i: int| 0 <= i < keys.len() ==> #[trigger] order.contains(i),
{
    let n = order.len() as int;
    assert forall|k: int, l: int| 0 <= k < l < order.len() implies order[k] != order[l] by {
        lemma_shown_before_order(keys, order[k], order[l], order[l]);
    }
    let x = vstd::set_lib::set_int_range(0, n);
    vstd::set_lib::lemma_int_range(0, n);
    let f = |k: int| order[k];
    assert forall|a: int, b: int| x.contains(a) && x.contains(b) && #[trigger] f(a) == #[trigger] f(b) implies a == b by {
        if a < b {
            lemma_shown_before_order(keys, order[a], order[b], order[b]);
        } else if b < a {
            lemma_shown_before_order(keys, order[b], order[a], order[a]);
        }
    }
    let y = x.map(f);
    vstd::set_lib::lemma_map_size(x, y, f);
    assert(y.subset_of(x)) by {
        assert forall|v: int| y.contains(v) implies x.contains(v) by {
            let k = choose|k: int| x.contains(k) && #[trigger] f(k) == v;
            assert(0 <= order[k] < keys.len());
        }
    }
    vstd::set_lib::lemma_subset_equality(y, x);
    assert forall|i: int| 0 <= i < keys.len() implies #[trigger] order.contains(i) by {
        assert(x.contains(i));
        assert(y.contains(i));
        let k = choose|k: int| x.contains(k) && #[trigger] f(k) == i;
        assert(order[k] == i);
    }
}

// ---------------------------------------------------------------------------
// Selection, order and list edits
// ---------------------------------------------------------------------------

/// Whether some project is matched to the session `name`.
pub open spec fn is_taken(m: Seq<(Seq<char>, Seq<char>)>, name: Seq<char>) -> bool {
    exists|i: int| 0 <= i < m.len() && #[trigger] m[i].1 == name
}

/// The position a project moved from `from` towards display position `to`
/// takes in the list once it has been taken out.
pub open spec fn landing(from: int, to: int, remaining: int) -> int {
    let t = if from < to {
        to - 1
    } else {
        to
    };
    if t < remaining {
        t
    } else {
        remaining
    }
}

/// Whether `s` is one of the texts of `v`.
pub open spec fn listed(v: Seq<String>, s: Seq<char>) -> bool {
    views(v).contains(s)
}

impl Dock {
    /// Reports a success.
    pub fn note(&mut self, msg: String)
        ensures
            final(self).status matches Some((m, false)) && m@ == msg@,
            final(self).same_but_status(old(self)),
    {
        self.status = Some((msg, false));
    }

    /// Reports a failure.
    pub fn fail(&mut self, msg: String)
        ensures
            final(self).status matches Some((m, true)) && m@ == msg@,
            final(self).same_but_status(old(self)),
    {
        self.status = Some((msg, true));
    }

    /// Reports how an action went: `ok_msg` when it succeeded, else its error.
    /// The caller refreshes afterwards.
    pub fn apply(&mut self, res: Result<(), String>, ok_msg: String)
        ensures
            match res {
                Ok(_) => final(self).status matches Some((m, false)) && m@ == ok_msg@,
                Err(e) => final(self).status matches Some((m, true)) && m@ == e@,
            },
            final(self).same_but_status(old(self)),
    {
        match res {
            Ok(()) => self.note(ok_msg),
            Err(e) => self.fail(e),
        }
    }

    /// Moves the project at stored position `from` so that it lands at display
    /// position `to` (in manual order, where the two agree). Returns whether
    /// the list changed, in which case the caller saves it.
    pub fn move_project(&mut self, from: usize, to: usize) -> (moved: bool)
        ensures
            moved == (from < old(self).projects.len()),
            moved ==> final(self).projects@ == old(self).projects@.remove(from as int).insert(
                landing(from as int, to as int, old(self).projects.len() - 1),
                old(self).projects@[from as int],
            ),
            !moved ==> final(self).projects@ == old(self).projects@,
            final(self).selection() == old(self).selection(),
            final(self).same_lists(old(self)),
    {
        if from >= self.projects.len() {
            return false;
        }
        let p = self.projects.remove(from);
        let mut t = to;
        if from < t {
            t -= 1;
        }
        if t > self.projects.len() {
            t = self.projects.len();
        }
        self.projects.insert(t, p);
        true
    }

    /// The sessions that belong to no project.
    pub fn other_sessions(&self) -> (r: Vec<Session>)
        ensures
            session_views(r@) == session_views(self.sessions@).filter(
                |s: SessionView| !is_taken(pair_views(self.matched@), s.name),
            ),
    {
        let ghost m = pair_views(self.matched@);
        let ghost f = |s: SessionView| !is_taken(m, s.name);
        let ghost sv = session_views(self.sessions@);
        let mut r: Vec<Session> = Vec::new();
        let mut i: usize = 0;
        while i < self.sessions.len()
            invariant
                i <= self.sessions.len(),
                m == pair_views(self.matched@),
                sv == session_views(self.sessions@),
                f == (|s: SessionView| !is_taken(m, s.name)),
                session_views(r@) == sv.take(i as int).filter(f),
            decreases self.sessions.len() - i,
        {
            let s = &self.sessions[i];
            let mut taken = false;
            let mut j: usize = 0;
            while j < self.matched.len()
                invariant
                    j <= self.matched.len(),
                    m == pair_views(self.matched@),
                    taken == exists|k: int| 0 <= k < j && #[trigger] m[k].1 == s.name@,
                decreases self.matched.len() - j,
            {
                if self.matched[j].1 == s.name {
                    assert(m[j as int].1 == s.name@);
                    taken = true;
                }
                j += 1;
            }
            proof {
                reveal_with_fuel(Seq::filter, 1);
                assert(sv.take(i + 1).drop_last() =~= sv.take(i as int));
                assert(sv.take(i + 1).last() == s@);
                assert(taken == is_taken(m, s.name@));
            }
            if !taken {
                r.push(s.duplicate());
                assert(session_views(r@) =~= sv.take(i as int).filter(f).push(s@));
            }
            i += 1;
        }
        assert(sv.take(self.sessions.len() as int) =~= sv);
        r
    }

    /// Selects the project with key `key`, and `window` of its session.
    /// Returns whether the selection changed, in which case the caller refreshes.
    pub fn select_project(&mut self, key: String, window: Option<u32>) -> (changed: bool)
        ensures
            final(self).selection() == (Selection {
                project: Some(key@),
                session: lookup(pair_views(old(self).matched@), key@),
                window,
            }),
            changed == (old(self).selection().project != Some(key@) || old(self).selection().session
                != lookup(pair_views(old(self).matched@), key@) || old(self).selected_window
                != window),
            final(self).projects == old(self).projects,
            final(self).same_lists(old(self)),
    {
        let session = lookup_exec(&self.matched, &key);
        let same_project = match &self.selected_project {
            Some(p) => *p == key,
            None => false,
        };
        let same_session = match (&self.selected, &session) {
            (Some(a), Some(b)) => *a == *b,
            (None, None) => true,
            _ => false,
        };
        let same_window = match (self.selected_window, window) {
            (Some(a), Some(b)) => a == b,
            (None, None) => true,
            _ => false,
        };
        let changed = !same_project || !same_session || !same_window;
        self.selected_project = Some(key);
        self.selected = session;
        self.selected_window = window;
        changed
    }

    /// Selects the session `name`, which belongs to no project, and `window` of it.
    /// Returns whether the selection changed, in which case the caller refreshes.
    pub fn select_session(&mut self, name: &str, window: Option<u32>) -> (changed: bool)
        ensures
            final(self).selection() == (Selection {
                project: None,
                session: Some(name@),
                window,
            }),
            changed == (old(self).selection().project is Some || old(self).selection().session
                != Some(name@) || old(self).selected_window != window),
            final(self).projects == old(self).projects,
            final(self).same_lists(old(self)),
    {
        let n = owned(name);
        let same_session = match &self.selected {
            Some(a) => *a == n,
            None => false,
        };
        let same_window = match (self.selected_window, window) {
            (Some(a), Some(b)) => a == b,
            (None, None) => true,
            _ => false,
        };
        let changed = self.selected_project.is_some() || !same_session || !same_window;
        self.selected_project = None;
        self.selected = Some(n);
        self.selected_window = window;
        changed
    }

    /// Whether the windows of the session `name` are hidden.
    pub fn is_collapsed(&self, name: &String) -> (b: bool)
        ensures
            b == listed(self.collapsed@, name@),
    {
        contains_string(&self.collapsed, name)
    }

    /// Hides the windows of the session `name`.
    pub fn collapse(&mut self, name: String)
        ensures
            forall|s: Seq<char>|
                #[trigger] listed(final(self).collapsed@, s) == (listed(old(self).collapsed@, s)
                    || s == name@),
            final(self).same_but_collapsed(old(self)),
    {
        if !contains_string(&self.collapsed, &name) {
            let ghost before = self.collapsed@;
            let ghost nv = name@;
            self.collapsed.push(name);
            proof {
                assert(views(self.collapsed@) =~= views(before).push(nv));
                assert forall|s: Seq<char>|
                    #[trigger] listed(self.collapsed@, s) == (listed(before, s) || s == nv) by {
                    if s == nv {
                        assert(views(self.collapsed@)[before.len() as int] == nv);
                    }
                    if listed(before, s) {
                        let k = choose|k: int| 0 <= k < views(before).len() && #[trigger] views(before)[k] == s;
                        assert(views(self.collapsed@)[k] == s);
                    }
                    if listed(self.collapsed@, s) && s != nv {
                        let k = choose|k: int|
                            0 <= k < views(self.collapsed@).len() && #[trigger] views(self.collapsed@)[k] == s;
                        assert(views(before)[k] == s);
                    }
                }
            }
        }
    }

    /// Shows the windows of the session `name` again. Returns whether they were hidden.
    pub fn expand(&mut self, name: &String) -> (was: bool)
        ensures
            was == listed(old(self).collapsed@, name@),
            forall|s: Seq<char>|
                #[trigger] listed(final(self).collapsed@, s) == (listed(old(self).collapsed@, s)
                    && s != name@),
            final(self).same_but_collapsed(old(self)),
    {
        let ghost before = self.collapsed@;
        let mut kept: Vec<String> = Vec::new();
        let mut was = false;
        let mut i: usize = 0;
        while i < self.collapsed.len()
            invariant
                i <= self.collapsed.len(),
                before == self.collapsed@,
                was == views(before.take(i as int)).contains(name@),
                views(kept@) == views(before.take(i as int)).filter(|s: Seq<char>| s != name@),
            decreases self.collapsed.len() - i,
        {
            proof {
                reveal_with_fuel(Seq::filter, 1);
                assert(views(before.take(i + 1)) =~= views(before.take(i as int)).push(
                    before[i as int]@,
                ));
                assert(views(before.take(i + 1)).drop_last() =~= views(before.take(i as int)));
            }
            if self.collapsed[i] == *name {
                was = true;
                proof {
                    assert(views(before.take(i + 1))[i as int] == name@);
                }
            } else {
                kept.push(self.collapsed[i].clone());
                assert(views(kept@) =~= views(before.take(i as int)).filter(
                    |s: Seq<char>| s != name@,
                ).push(before[i as int]@));
                proof {
                    if views(before.take(i + 1)).contains(name@) {
                        let k = choose|k: int|
                            0 <= k < views(before.take(i + 1)).len() && #[trigger] views(
                                before.take(i + 1),
                            )[k] == name@;
                        assert(views(before.take(i as int))[k] == name@);
                    }
                }
            }
            i += 1;
        }
        assert(before.take(before.len() as int) =~= before);
        self.collapsed = kept;
        proof {
            let f = |s: Seq<char>| s != name@;
            assert forall|s: Seq<char>|
                #[trigger] listed(self.collapsed@, s) == (listed(before, s) && s != name@) by {
                let t = views(before);
                if listed(self.collapsed@, s) {
                    t.lemma_filter_contains_rev(f, s);
                    let j = choose|j: int| 0 <= j < t.filter(f).len() && #[trigger] t.filter(f)[j] == s;
                    t.lemma_filter_pred(f, j);
                }
                if listed(before, s) && s != name@ {
                    let k = choose|k: int| 0 <= k < t.len() && #[trigger] t[k] == s;
                    t.lemma_filter_contains(f, k);
                }
            }
        }
        was
    }

    /// The command to type into a new session for `p`: its own start
    /// command, or the default one of the settings where it has none.
    pub fn command_for(&self, p: &Project) -> (c: String)
        ensures
            c@ == start_command_of(p.command@, self.settings.start_command@),
    {
        let own = crate::text::trim_str(p.command.as_str());
        if own.as_str().is_empty() {
            crate::text::trim_str(self.settings.start_command.as_str())
        } else {
            own
        }
    }
}

// ---------------------------------------------------------------------------
// Starting a project
// ---------------------------------------------------------------------------

/// The `k`-th name tried for a new session: `base` first, then `base-2`,
/// `base-3`, and so on.
pub open spec fn name_candidate(base: Seq<char>, k: int) -> Seq<char> {
    if k <= 1 {
        base
    } else {
        base + seq!['-'] + crate::text::decimal(k as nat)
    }
}

/// `name` is the first of the names tried that no session has.
pub open spec fn first_unused(base: Seq<char>, ss: Seq<SessionView>, name: Seq<char>) -> bool {
    exists|k: int|
        1 <= k && #[trigger] name_candidate(base, k) == name && !has_session(ss, name) && forall|
            j: int,
        |
            1 <= j < k ==> has_session(ss, #[trigger] name_candidate(base, j))
}

proof fn lemma_candidates_distinct(base: Seq<char>, a: int, b: int)
    requires
        1 <= a,
        1 <= b,
        a != b,
    ensures
        name_candidate(base, a) != name_candidate(base, b),
{
    let x = name_candidate(base, a);
    let y = name_candidate(base, b);
    if a > 1 && b > 1 {
        if x == y {
            let off = base.len() + 1int;
            assert(x.subrange(off, x.len() as int) =~= crate::text::decimal(a as nat));
            assert(y.subrange(off, y.len() as int) =~= crate::text::decimal(b as nat));
            crate::text::lemma_decimal_injective(a as nat, b as nat);
        }
    } else if a > 1 {
        crate::text::lemma_decimal_value(a as nat);
        assert(x.len() > y.len());
    } else {
        crate::text::lemma_decimal_value(b as nat);
        assert(y.len() > x.len());
    }
}

/// However many names are tried, each one taken by a session, there are
/// at least as many sessions: the search for a free name ends.
proof fn lemma_taken_candidates_bound(base: Seq<char>, ss: Seq<SessionView>, n: int)
    requires
        n >= 1,
        forall|k: int| 1 <= k < n ==> has_session(ss, #[trigger] name_candidate(base, k)),
    ensures
        n - 1 <= ss.len(),
{
    let x = vstd::set_lib::set_int_range(1, n);
    vstd::set_lib::lemma_int_range(1, n);
    let f = |k: int| name_candidate(base, k);
    let names = ss.map_values(|s: SessionView| s.name);
    assert forall|a: int, b: int| x.contains(a) && x.contains(b) && #[trigger] f(a) == #[trigger] f(b) implies a == b by {
        if a != b {
            lemma_candidates_distinct(base, a, b);
        }
    }
    let y = x.map(f);
    vstd::set_lib::lemma_map_size(x, y, f);
    assert forall|v: Seq<char>| y.contains(v) implies #[trigger] names.to_set().contains(v) by {
        let k = choose|k: int| x.contains(k) && #[trigger] f(k) == v;
        assert(has_session(ss, name_candidate(base, k)));
        let i = choose|i: int| 0 <= i < ss.len() && #[trigger] ss[i].name == v;
        assert(names[i] == v);
    }
    names.lemma_cardinality_of_set();
    vstd::seq_lib::seq_to_set_is_finite(names);
    vstd::set_lib::lemma_len_subset(y, names.to_set());
}

/// The start command for a project with its own command `own`, trimmed: the
/// default `default`, trimmed, where `own` is blank.
pub open spec fn start_command_of(own: Seq<char>, default: Seq<char>) -> Seq<char> {
    let c = crate::text::trim(own);
    if c.len() == 0 {
        crate::text::trim(default)
    } else {
        c
    }
}

/// What starting a project takes: a new session called `session` in
/// `folder`, `command` typed into it when there is one, and a terminal
/// (`terminal`, blank to pick one) opened on it.
pub struct StartPlan {
    pub session: String,
    pub folder: String,
    pub command: Option<String>,
    pub terminal: String,
    pub project_name: String,
}

/// The position of the first `key` in `keys`.
pub open spec fn first_index(keys: Seq<Seq<char>>, key: Seq<char>) -> Option<int>
    decreases keys.len(),
{
    if keys.len() == 0 {
        None
    } else if keys[0] == key {
        Some(0)
    } else {
        match first_index(keys.drop_first(), key) {
            Some(i) => Some(i + 1),
            None => None,
        }
    }
}

proof fn lemma_first_index(keys: Seq<Seq<char>>, key: Seq<char>)
    ensures
        match first_index(keys, key) {
            Some(i) => 0 <= i < keys.len() && keys[i] == key && forall|j: int|
                0 <= j < i ==> keys[j] != key,
            None => !keys.contains(key),
        },
    decreases keys.len(),
{
    if keys.len() > 0 {
        lemma_first_index(keys.drop_first(), key);
        if keys[0] != key {
            match first_index(keys.drop_first(), key) {
                Some(i) => {
                    assert forall|j: int| 0 <= j < i + 1 implies keys[j] != key by {
                        if j > 0 {
                            assert(keys[j] == keys.drop_first()[j - 1]);
                        }
                    }
                },
                None => {
                    if keys.contains(key) {
                        let j = choose|j: int| 0 <= j < keys.len() && #[trigger] keys[j] == key;
                        assert(keys.drop_first()[j - 1] == key);
                    }
                },
            }
        }
    }
}

fn first_index_exec(keys: &Vec<String>, key: &String) -> (r: Option<usize>)
    ensures
        match r {
            Some(i) => first_index(views(keys@), key@) == Some(i as int) && i < keys.len(),
            None => first_index(views(keys@), key@) is None,
        },
{
    proof {
        lemma_first_index(views(keys@), key@);
    }
    let mut i: usize = 0;
    while i < keys.len()
        invariant
            i <= keys.len(),
            forall|j: int| 0 <= j < i ==> views(keys@)[j] != key@,
        decreases keys.len() - i,
    {
        if keys[i] == *key {
            proof {
                lemma_first_index(views(keys@), key@);
                match first_index(views(keys@), key@) {
                    Some(f) => {
                        if f < i {
                        } else if f > i {
                            assert(views(keys@)[i as int] == key@);
                        }
                    },
                    None => {
                        assert(views(keys@)[i as int] == key@);
                    },
                }
            }
            return Some(i);
        }
        i += 1;
    }
    proof {
        match first_index(views(keys@), key@) {
            Some(f) => {
                assert(views(keys@)[f] == key@);
            },
            None => {},
        }
    }
    None
}

impl Dock {
    /// The name for a new session on `base`: `base` itself when no session
    /// has it, else the first of `base-2`, `base-3`, ... that none has.
    pub fn unused_session_name(&self, base: &String) -> (r: String)
        ensures
            first_unused(base@, session_views(self.sessions@), r@),
    {
        let ghost ss = session_views(self.sessions@);
        let mut name = base.clone();
        let mut n: u128 = 2;
        assert(name_candidate(base@, 1) == name@);
        while has_session_exec(&self.sessions, &name)
            invariant
                2 <= n <= self.sessions.len() + 2,
                ss == session_views(self.sessions@),
                name@ == name_candidate(base@, n - 1),
                forall|j: int| 1 <= j < n - 1 ==> has_session(ss, #[trigger] name_candidate(base@, j)),
            decreases self.sessions.len() + 2 - n,
        {
            proof {
                assert forall|j: int| 1 <= j < n implies has_session(
                    ss,
                    #[trigger] name_candidate(base@, j),
                ) by {
                    if j == n - 1 {
                    }
                }
                lemma_taken_candidates_bound(base@, ss, n as int);
                assert(ss.len() == self.sessions.len());
            }
            let mut next = base.clone();
            crate::text::push_char(&mut next, '-');
            let digits = crate::text::decimal_string(n);
            next.append(digits.as_str());
            name = next;
            n += 1;
        }
        assert(name_candidate(base@, n - 1) == name@);
        name
    }

    /// How to start the project with key `key`: its session name made
    /// unique, its folder, the start command and the terminal. Nothing when
    /// no project has that key.
    pub fn start_plan(&self, key: &String, project_keys: &Vec<String>) -> (r: Option<StartPlan>)
        requires
            project_keys.len() == self.projects.len(),
        ensures
            match r {
                None => first_index(views(project_keys@), key@) is None,
                Some(plan) => first_index(views(project_keys@), key@) matches Some(i) && {
                    let p = self.projects@[i];
                    &&& first_unused(
                        crate::projects::session_name_of(p.name@),
                        session_views(self.sessions@),
                        plan.session@,
                    )
                    &&& plan.folder@ == p.path@
                    &&& plan.project_name@ == p.name@
                    &&& plan.terminal@ == self.settings.terminal@
                    &&& opt_str(plan.command) == {
                        let c = start_command_of(p.command@, self.settings.start_command@);
                        if c.len() == 0 {
                            None
                        } else {
                            Some(c)
                        }
                    }
                },
            },
    {
        let i = match first_index_exec(project_keys, key) {
            Some(i) => i,
            None => {
                return None;
            },
        };
        let p = &self.projects[i];
        let base = p.session_name();
        let session = self.unused_session_name(&base);
        let command = self.command_for(p);
        let command = if command.as_str().is_empty() {
            None
        } else {
            Some(command)
        };
        Some(
            StartPlan {
                session,
                folder: p.path.clone(),
                command,
                terminal: self.settings.terminal.clone(),
                project_name: p.name.clone(),
            },
        )
    }

    /// Takes in how starting the project `key` went. On success its new
    /// session is selected. The caller refreshes afterwards.
    pub fn started(&mut self, key: String, plan: &StartPlan, res: Result<(), String>)
        ensures
            res is Ok ==> final(self).selection() == (Selection {
                project: Some(key@),
                session: Some(plan.session@),
                window: None,
            }),
            res is Err ==> final(self).selection() == old(self).selection(),
            match res {
                Ok(_) => final(self).status matches Some((m, false)) && m@ == "Started “"@
                    + plan.project_name@ + "”"@,
                Err(e) => final(self).status matches Some((m, true)) && m@ == e@,
            },
            final(self).projects == old(self).projects,
            final(self).settings == old(self).settings,
            final(self).sessions == old(self).sessions,
            final(self).windows == old(self).windows,
            final(self).matched == old(self).matched,
            final(self).collapsed == old(self).collapsed,
            final(self).preview == old(self).preview,
    {
        if res.is_ok() {
            self.selected_project = Some(key);
            self.selected = Some(plan.session.clone());
            self.selected_window = None;
        }
        let mut msg = crate::text::join_str("Started “", plan.project_name.as_str());
        msg.append("”");
        self.apply(res, msg);
    }

    /// Registers the folder `folder`, whose key is `folder_key`, as a project
    /// named after the folder, or `name` when that is given and not blank.
    /// A folder that is registered already is refused. Returns whether the
    /// project was added, in which case the caller saves the list and refreshes.
    pub fn add_project(
        &mut self,
        folder: String,
        folder_key: String,
        project_keys: &Vec<String>,
        name: Option<String>,
    ) -> (added: bool)
        requires
            project_keys.len() == old(self).projects.len(),
        ensures
            final(self).settings == old(self).settings,
            final(self).sessions == old(self).sessions,
            final(self).windows == old(self).windows,
            final(self).matched == old(self).matched,
            final(self).collapsed == old(self).collapsed,
            final(self).preview == old(self).preview,
            added == !views(project_keys@).contains(folder_key@),
            !added ==> final(self).projects@ == old(self).projects@ && final(self).selection()
                == old(self).selection() && (final(self).status matches Some((m, true)) && m@
                == "That folder is already registered"@),
            added ==> {
                let p = final(self).projects@.last();
                let given = match name {
                    Some(n) => crate::text::trim(n@),
                    None => Seq::<char>::empty(),
                };
                &&& final(self).projects@.drop_last() == old(self).projects@
                &&& final(self).projects@.len() == old(self).projects@.len() + 1
                &&& p.path@ == folder@
                &&& p.name@ == if given.len() > 0 {
                    given
                } else {
                    crate::projects::default_name(folder@)
                }
                &&& final(self).selection() == (Selection {
                    project: Some(folder_key@),
                    session: None,
                    window: None,
                })
                &&& final(self).status matches Some((m, false)) && m@ == "Added project “"@
                    + p.name@ + "”"@
            },
    {
        if contains_string(project_keys, &folder_key) {
            self.fail(owned("That folder is already registered"));
            return false;
        }
        let mut p = Project::from_path(folder);
        match name {
            Some(n) => {
                let t = crate::text::trim_str(n.as_str());
                if !t.as_str().is_empty() {
                    p.name = t;
                }
            },
            None => {},
        }
        let mut msg = crate::text::join_str("Added project “", p.name.as_str());
        msg.append("”");
        self.projects.push(p);
        self.selected_project = Some(folder_key);
        self.selected = None;
        self.selected_window = None;
        self.note(msg);
        assert(self.projects@.drop_last() =~= old(self).projects@);
        true
    }
}

// ---------------------------------------------------------------------------
// Opening terminals
// ---------------------------------------------------------------------------

/// The first thing to run to show a session in a terminal.
pub enum OpenStep {
    /// Make this window (`session:index`) the active one first.
    SelectWindow(String),
    /// Open a terminal on the session.
    Attach,
}

/// `prefix`, then `middle`, then `suffix`.
fn message(prefix: &str, middle: &str, suffix: &str) -> (m: String)
    ensures
        m@ == prefix@ + middle@ + suffix@,
{
    let mut m = crate::text::join_str(prefix, middle);
    m.append(suffix);
    m
}

/// Whether a terminal is open on the session `name`.
pub open spec fn is_attached(ss: Seq<SessionView>, name: Seq<char>) -> bool {
    match find_session(ss, name) {
        Some(s) => s.attached,
        None => false,
    }
}

impl Dock {
    /// How to show `session`, or one of its windows, in a terminal: a named
    /// window is made active first.
    pub fn open_terminal(&self, session: &str, window: Option<u32>) -> (step: OpenStep)
        ensures
            match window {
                Some(w) => step matches OpenStep::SelectWindow(t) && t@ == session@ + seq![':']
                    + crate::text::decimal(w as nat),
                None => step is Attach,
            },
    {
        match window {
            Some(w) => OpenStep::SelectWindow(crate::tmux::window_target(session, w)),
            None => OpenStep::Attach,
        }
    }

    /// Takes in how making window `index` of `session` active went. A
    /// terminal open on the session now shows it, and that is reported;
    /// otherwise a failure is reported. Returns whether a terminal is to be
    /// opened next.
    pub fn window_selected(&mut self, session: &str, index: u32, res: Result<(), String>) -> (attach_next: bool)
        ensures
            attach_next == (!is_attached(session_views(old(self).sessions@), session@) && res is Ok),
            is_attached(session_views(old(self).sessions@), session@) ==> match res {
                Ok(_) => final(self).status matches Some((m, false)) && m@
                    == "Switched the open terminal to window "@ + crate::text::decimal(
                    index as nat,
                ),
                Err(e) => final(self).status matches Some((m, true)) && m@ == e@,
            },
            !is_attached(session_views(old(self).sessions@), session@) ==> match res {
                Ok(_) => final(self).status == old(self).status,
                Err(e) => final(self).status matches Some((m, true)) && m@ == e@,
            },
            final(self).same_but_status(old(self)),
    {
        let name = owned(session);
        let attached = match find_session_exec(&self.sessions, &name) {
            Some(a) => a,
            None => false,
        };
        if attached {
            let digits = crate::text::decimal_string(index as u128);
            let msg = crate::text::join_str("Switched the open terminal to window ", digits.as_str());
            self.apply(res, msg);
            return false;
        }
        match res {
            Ok(()) => true,
            Err(e) => {
                self.fail(e);
                false
            },
        }
    }

    /// Takes in how opening a terminal went.
    pub fn terminal_opened(&mut self, res: Result<(), String>)
        ensures
            match res {
                Ok(_) => final(self).status matches Some((m, false)) && m@ == "Opened a terminal"@,
                Err(e) => final(self).status matches Some((m, true)) && m@ == e@,
            },
            final(self).same_but_status(old(self)),
    {
        self.apply(res, owned("Opened a terminal"));
    }

    /// Takes in how making window `index` the active one went.
    pub fn made_active(&mut self, index: u32, res: Result<(), String>)
        ensures
            match res {
                Ok(_) => final(self).status matches Some((m, false)) && m@ == "Window "@
                    + crate::text::decimal(index as nat) + " is now active"@,
                Err(e) => final(self).status matches Some((m, true)) && m@ == e@,
            },
            final(self).same_but_status(old(self)),
    {
        let digits = crate::text::decimal_string(index as u128);
        self.apply(res, message("Window ", digits.as_str(), " is now active"));
    }
}

// ---------------------------------------------------------------------------
// Dialogs
// ---------------------------------------------------------------------------

/// A confirmed dialog.
pub enum Dialog {
    /// Rename the project with key `path`, move it to `folder` and give it
    /// the start command `command` (blank for the default).
    EditProject { path: String, name: String, folder: String, command: String },
    Settings(Settings),
    /// Take the project with key `path` off the list.
    RemoveProject { path: String },
    RenameSession { current: String, text: String },
    RenameWindow { session: String, index: u32, text: String },
    NewWindow { session: String, name: String },
    KillSession(String),
    KillWindow { session: String, index: u32 },
}

/// What a confirmed dialog leaves to be done outside.
pub enum Action {
    /// Nothing to run and nothing to report.
    Nothing,
    /// Save the project list; then, when given, rename the session `.0` to `.1`.
    SaveList(Option<(String, String)>),
    SaveSettings,
    RenameSession { current: String, new: String },
    RenameWindow { target: String, new: String },
    NewWindow { session: String, name: Option<String> },
    KillSession(String),
    KillWindow(String),
}

/// The action a dialog leads to, and what to report when it succeeds.
pub struct Plan {
    pub action: Action,
    pub ok_message: String,
}

/// The projects whose keys differ from `key`, in order.
pub open spec fn without_key(ps: Seq<Project>, keys: Seq<Seq<char>>, key: Seq<char>) -> Seq<crate::projects::ProjectView>
    decreases ps.len(),
{
    if ps.len() == 0 {
        Seq::<crate::projects::ProjectView>::empty()
    } else {
        let r = without_key(ps.drop_last(), keys, key);
        if keys[ps.len() - 1] == key {
            r
        } else {
            r.push(ps.last()@)
        }
    }
}

pub open spec fn project_views(ps: Seq<Project>) -> Seq<crate::projects::ProjectView> {
    ps.map_values(|p: Project| p@)
}

/// The session renaming that keeps a project's running session named
/// after the project: none unless the project keeps its folder and has a
/// session whose name differs from the wanted one.
pub open spec fn follow_up_rename(
    session: Option<Seq<char>>,
    same_folder: bool,
    wanted: Seq<char>,
) -> Option<(Seq<char>, Seq<char>)> {
    match session {
        Some(old) => if same_folder && old != wanted {
            Some((old, wanted))
        } else {
            None
        },
        None => None,
    }
}

impl Dock {
    /// Carries out the part of a confirmed dialog that is decided here and
    /// says what is left to run. `project_keys` are the keys of the projects;
    /// for [`Dialog::EditProject`], `folder_key` is the key of the new folder
    /// (trimmed).
    pub fn run_dialog(&mut self, d: Dialog, project_keys: &Vec<String>, folder_key: &String) -> (plan: Plan)
        requires
            project_keys.len() == old(self).projects.len(),
        ensures
            final(self).sessions == old(self).sessions,
            final(self).windows == old(self).windows,
            final(self).matched == old(self).matched,
            final(self).collapsed == old(self).collapsed,
            final(self).preview == old(self).preview,
            !(d is Settings) ==> final(self).settings == old(self).settings,
            final(self).status == old(self).status || (d is EditProject && plan.action is Nothing),
            match d {
                Dialog::EditProject { path, name, folder, command } => {
                    let new_name = crate::text::trim(name@);
                    let new_folder = crate::text::trim(folder@);
                    let keys = views(project_keys@);
                    if new_name.len() == 0 || new_folder.len() == 0 {
                        &&& plan.action is Nothing
                        &&& final(self).projects == old(self).projects
                        &&& final(self).selection() == old(self).selection()
                        &&& (final(self).status matches Some((m, true)) && m@
                            == "Name and folder are required"@)
                    } else if folder_key@ != path@ && keys.contains(folder_key@) {
                        &&& plan.action is Nothing
                        &&& final(self).projects == old(self).projects
                        &&& final(self).selection() == old(self).selection()
                        &&& (final(self).status matches Some((m, true)) && m@
                            == "Another project already uses that folder"@)
                    } else {
                        let edited = first_index(keys, path@);
                        let wanted = match edited {
                            Some(i) => if folder_key@ == path@ {
                                crate::projects::session_name_of(new_name)
                            } else {
                                Seq::<char>::empty()
                            },
                            None => Seq::<char>::empty(),
                        };
                        &&& project_views(final(self).projects@) == match edited {
                            Some(i) => project_views(old(self).projects@).update(
                                i,
                                crate::projects::ProjectView {
                                    name: new_name,
                                    path: new_folder,
                                    command: crate::text::trim(command@),
                                },
                            ),
                            None => project_views(old(self).projects@),
                        }
                        &&& final(self).selected_project matches Some(k) && k@ == folder_key@
                        &&& final(self).selected == old(self).selected
                        &&& final(self).selected_window == old(self).selected_window
                        &&& plan.action matches Action::SaveList(r) && match r {
                            Some((o, n)) => follow_up_rename(
                                lookup(pair_views(old(self).matched@), path@),
                                folder_key@ == path@,
                                wanted,
                            ) == Some((o@, n@)),
                            None => follow_up_rename(
                                lookup(pair_views(old(self).matched@), path@),
                                folder_key@ == path@,
                                wanted,
                            ) is None,
                        }
                        &&& plan.ok_message@ == "Project saved"@
                    }
                },
                Dialog::Settings(st) => {
                    &&& final(self).settings == st
                    &&& plan.action is SaveSettings
                    &&& plan.ok_message@ == "Settings saved"@
                    &&& final(self).projects == old(self).projects
                    &&& final(self).selection() == old(self).selection()
                },
                Dialog::RemoveProject { path } => {
                    let keys = views(project_keys@);
                    let name = match first_index(keys, path@) {
                        Some(i) => old(self).projects@[i].name@,
                        None => Seq::<char>::empty(),
                    };
                    &&& project_views(final(self).projects@) == without_key(
                        old(self).projects@,
                        keys,
                        path@,
                    )
                    &&& final(self).selection() == (Selection {
                        project: None,
                        session: None,
                        window: None,
                    })
                    &&& plan.action matches Action::SaveList(r) && r is None
                    &&& plan.ok_message@ == "Removed “"@ + name + "” from the list"@
                },
                Dialog::RenameSession { current, text } => {
                    let new = crate::text::trim(text@);
                    &&& final(self).projects == old(self).projects
                    &&& final(self).selection() == old(self).selection()
                    &&& if new.len() == 0 || new == current@ {
                        plan.action is Nothing
                    } else {
                        &&& plan.action matches Action::RenameSession { current: o, new: n } && o@
                            == current@ && n@ == new
                        &&& plan.ok_message@ == "Renamed to “"@ + new + "”"@
                    }
                },
                Dialog::RenameWindow { session, index, text } => {
                    let new = crate::text::trim(text@);
                    &&& final(self).projects == old(self).projects
                    &&& final(self).selection() == old(self).selection()
                    &&& if new.len() == 0 {
                        plan.action is Nothing
                    } else {
                        &&& plan.action matches Action::RenameWindow { target, new: n } && target@
                            == session@ + seq![':'] + crate::text::decimal(index as nat) && n@
                            == new
                        &&& plan.ok_message@ == "Window renamed to “"@ + new + "”"@
                    }
                },
                Dialog::NewWindow { session, name } => {
                    let n = crate::text::trim(name@);
                    &&& final(self).projects == old(self).projects
                    &&& final(self).selection() == old(self).selection()
                    &&& plan.action matches Action::NewWindow { session: s, name: wn } && s@
                        == session@ && opt_str(wn) == if n.len() == 0 {
                        None
                    } else {
                        Some(n)
                    }
                    &&& plan.ok_message@ == "Window created"@
                },
                Dialog::KillSession(name) => {
                    &&& final(self).projects == old(self).projects
                    &&& final(self).selection() == old(self).selection()
                    &&& plan.action matches Action::KillSession(n) && n@ == name@
                    &&& plan.ok_message@ == "Killed “"@ + name@ + "”"@
                },
                Dialog::KillWindow { session, index } => {
                    &&& final(self).projects == old(self).projects
                    &&& final(self).selection() == (Selection {
                        project: old(self).selection().project,
                        session: old(self).selection().session,
                        window: None,
                    })
                    &&& plan.action matches Action::KillWindow(t) && t@ == session@ + seq![':']
                        + crate::text::decimal(index as nat)
                    &&& plan.ok_message@ == "Closed window "@ + crate::text::decimal(
                        index as nat,
                    )
                },
            },
    {
        match d {
            Dialog::EditProject { path, name, folder, command } => {
                let new_name = crate::text::trim_str(name.as_str());
                let new_folder = crate::text::trim_str(folder.as_str());
                if new_name.as_str().is_empty() || new_folder.as_str().is_empty() {
                    self.fail(owned("Name and folder are required"));
                    return Plan { action: Action::Nothing, ok_message: String::new() };
                }
                let session = lookup_exec(&self.matched, &path);
                let same_folder = *folder_key == path;
                if !same_folder && contains_string(project_keys, folder_key) {
                    self.fail(owned("Another project already uses that folder"));
                    return Plan { action: Action::Nothing, ok_message: String::new() };
                }
                let edited = first_index_exec(project_keys, &path);
                let mut wanted = String::new();
                match edited {
                    Some(i) => {
                        let p = Project {
                            name: new_name,
                            path: new_folder,
                            command: crate::text::trim_str(command.as_str()),
                        };
                        if same_folder {
                            wanted = p.session_name();
                        }
                        let ghost before = self.projects@;
                        self.projects.set(i, p);
                        assert(project_views(self.projects@) =~= project_views(before).update(
                            i as int,
                            crate::projects::ProjectView {
                                name: crate::text::trim(name@),
                                path: crate::text::trim(folder@),
                                command: crate::text::trim(command@),
                            },
                        ));
                    },
                    None => {},
                }
                self.selected_project = Some(folder_key.clone());
                let rename = match session {
                    Some(running) => {
                        if same_folder && running != wanted {
                            Some((running, wanted))
                        } else {
                            None
                        }
                    },
                    None => None,
                };
                Plan { action: Action::SaveList(rename), ok_message: owned("Project saved") }
            },
            Dialog::Settings(st) => {
                self.settings = st;
                Plan { action: Action::SaveSettings, ok_message: owned("Settings saved") }
            },
            Dialog::RemoveProject { path } => {
                let name = match first_index_exec(project_keys, &path) {
                    Some(i) => self.projects[i].name.clone(),
                    None => String::new(),
                };
                let mut kept: Vec<Project> = Vec::new();
                let mut i: usize = 0;
                while i < self.projects.len()
                    invariant
                        i <= self.projects.len() == project_keys.len(),
                        project_views(kept@) == without_key(
                            self.projects@.take(i as int),
                            views(project_keys@),
                            path@,
                        ),
                    decreases self.projects.len() - i,
                {
                    proof {
                        let t = self.projects@.take(i + 1);
                        assert(t.drop_last() =~= self.projects@.take(i as int));
                        assert(t.last() == self.projects@[i as int]);
                        assert(views(project_keys@)[i as int] == project_keys@[i as int]@);
                    }
                    if project_keys[i] != path {
                        kept.push(self.projects[i].duplicate());
                        assert(project_views(kept@) =~= without_key(
                            self.projects@.take(i as int),
                            views(project_keys@),
                            path@,
                        ).push(self.projects@[i as int]@));
                    }
                    i += 1;
                }
                assert(self.projects@.take(self.projects.len() as int) =~= self.projects@);
                self.projects = kept;
                self.selected_project = None;
                self.selected = None;
                self.selected_window = None;
                Plan {
                    action: Action::SaveList(None),
                    ok_message: message("Removed “", name.as_str(), "” from the list"),
                }
            },
            Dialog::RenameSession { current, text } => {
                let new = crate::text::trim_str(text.as_str());
                if new.as_str().is_empty() || new == current {
                    return Plan { action: Action::Nothing, ok_message: String::new() };
                }
                let msg = message("Renamed to “", new.as_str(), "”");
                Plan { action: Action::RenameSession { current, new }, ok_message: msg }
            },
            Dialog::RenameWindow { session, index, text } => {
                let new = crate::text::trim_str(text.as_str());
                if new.as_str().is_empty() {
                    return Plan { action: Action::Nothing, ok_message: String::new() };
                }
                let msg = message("Window renamed to “", new.as_str(), "”");
                let target = crate::tmux::window_target(session.as_str(), index);
                Plan { action: Action::RenameWindow { target, new }, ok_message: msg }
            },
            Dialog::NewWindow { session, name } => {
                let n = crate::text::trim_str(name.as_str());
                let wn = if n.as_str().is_empty() {
                    None
                } else {
                    Some(n)
                };
                Plan {
                    action: Action::NewWindow { session, name: wn },
                    ok_message: owned("Window created"),
                }
            },
            Dialog::KillSession(name) => {
                let msg = message("Killed “", name.as_str(), "”");
                Plan { action: Action::KillSession(name), ok_message: msg }
            },
            Dialog::KillWindow { session, index } => {
                self.selected_window = None;
                let target = crate::tmux::window_target(session.as_str(), index);
                let digits = crate::text::decimal_string(index as u128);
                let msg = crate::text::join_str("Closed window ", digits.as_str());
                Plan { action: Action::KillWindow(target), ok_message: msg }
            },
        }
    }
}

/// The hidden sessions after `from` is renamed `to`: the name moves along.
pub open spec fn renamed_in(collapsed: Seq<String>, from: Seq<char>, to: Seq<char>, s: Seq<char>) -> bool {
    if listed(collapsed, from) {
        (listed(collapsed, s) && s != from) || s == to
    } else {
        listed(collapsed, s)
    }
}

/// The report for how an action went: its message on success, else the error.
pub open spec fn reported(status: Option<(String, bool)>, res: Result<(), String>, ok: Seq<char>) -> bool {
    match res {
        Ok(_) => status matches Some((m, false)) && m@ == ok,
        Err(e) => status matches Some((m, true)) && m@ == e@,
    }
}

impl Dock {
    /// A renamed session keeps its windows hidden if they were.
    fn rename_collapsed(&mut self, from: &String, to: String)
        ensures
            forall|s: Seq<char>|
                #[trigger] listed(final(self).collapsed@, s) == renamed_in(
                    old(self).collapsed@,
                    from@,
                    to@,
                    s,
                ),
            final(self).same_but_collapsed(old(self)),
    {
        let ghost before = self.collapsed@;
        let ghost tv = to@;
        if self.expand(from) {
            let ghost mid = self.collapsed@;
            self.collapse(to);
            assert forall|s: Seq<char>| #[trigger]
                listed(self.collapsed@, s) == renamed_in(before, from@, tv, s) by {
                assert(listed(self.collapsed@, s) == (listed(mid, s) || s == tv));
                assert(listed(mid, s) == (listed(before, s) && s != from@));
            }
        } else {
            assert forall|s: Seq<char>| #[trigger]
                listed(self.collapsed@, s) == renamed_in(before, from@, tv, s) by {
                assert(listed(self.collapsed@, s) == (listed(before, s) && s != from@));
                if s == from@ {
                }
            }
        }
    }

    /// Takes in how the action of a dialog went: the session renamed or the
    /// window created (when it succeeded) shows up accordingly, and the
    /// outcome is reported. The caller refreshes afterwards.
    pub fn finish(&mut self, plan: &Plan, res: Result<(), String>)
        ensures
            final(self).projects == old(self).projects,
            final(self).settings == old(self).settings,
            final(self).sessions == old(self).sessions,
            final(self).windows == old(self).windows,
            final(self).matched == old(self).matched,
            final(self).preview == old(self).preview,
            final(self).selected_project == old(self).selected_project,
            final(self).selected_window == old(self).selected_window,
            match plan.action {
                Action::Nothing => final(self).status == old(self).status && final(self).collapsed
                    == old(self).collapsed && final(self).selected == old(self).selected,
                Action::SaveList(Some((from, to))) => {
                    &&& reported(final(self).status, res, plan.ok_message@)
                    &&& final(self).selected == old(self).selected
                    &&& res is Ok ==> forall|s: Seq<char>|
                        #[trigger] listed(final(self).collapsed@, s) == renamed_in(
                            old(self).collapsed@,
                            from@,
                            to@,
                            s,
                        )
                    &&& res is Err ==> final(self).collapsed == old(self).collapsed
                },
                Action::RenameSession { current, new } => {
                    &&& reported(final(self).status, res, plan.ok_message@)
                    &&& res is Ok ==> opt_str(final(self).selected) == Some(new@)
                    &&& res is Ok ==> forall|s: Seq<char>|
                        #[trigger] listed(final(self).collapsed@, s) == renamed_in(
                            old(self).collapsed@,
                            current@,
                            new@,
                            s,
                        )
                    &&& res is Err ==> final(self).collapsed == old(self).collapsed
                        && final(self).selected == old(self).selected
                },
                Action::NewWindow { session, name } => {
                    &&& reported(final(self).status, res, plan.ok_message@)
                    &&& final(self).selected == old(self).selected
                    &&& res is Ok ==> forall|s: Seq<char>|
                        #[trigger] listed(final(self).collapsed@, s) == (listed(
                            old(self).collapsed@,
                            s,
                        ) && s != session@)
                    &&& res is Err ==> final(self).collapsed == old(self).collapsed
                },
                _ => {
                    &&& reported(final(self).status, res, plan.ok_message@)
                    &&& final(self).selected == old(self).selected
                    &&& final(self).collapsed == old(self).collapsed
                },
            },
    {
        match &plan.action {
            Action::Nothing => {
                return;
            },
            Action::SaveList(Some((from, to))) => {
                if res.is_ok() {
                    self.rename_collapsed(from, to.clone());
                }
            },
            Action::RenameSession { current, new } => {
                if res.is_ok() {
                    self.selected = Some(new.clone());
                    self.rename_collapsed(current, new.clone());
                }
            },
            Action::NewWindow { session, name: _ } => {
                if res.is_ok() {
                    self.expand(session);
                }
            },
            _ => {},
        }
        self.apply(res, plan.ok_message.clone());
    }
}

// ---------------------------------------------------------------------------
// Looking things up
// ---------------------------------------------------------------------------

/// The windows of the session `name`, in order.
pub open spec fn windows_of_spec(ws: Seq<(Seq<char>, WindowView)>, name: Seq<char>) -> Seq<WindowView>
    decreases ws.len(),
{
    if ws.len() == 0 {
        Seq::<WindowView>::empty()
    } else {
        let r = windows_of_spec(ws.drop_last(), name);
        if ws.last().0 == name {
            r.push(ws.last().1)
        } else {
            r
        }
    }
}

/// Moving one project leaves the same projects in the list.
pub proof fn lemma_move_keeps_projects(s: Seq<Project>, from: int, to: int)
    requires
        0 <= from < s.len(),
        0 <= to <= s.len() - 1,
    ensures
        s.remove(from).insert(to, s[from]).to_multiset() == s.to_multiset(),
{
    broadcast use vstd::multiset::group_multiset_axioms;

    vstd::seq_lib::to_multiset_remove(s, from);
    vstd::seq_lib::to_multiset_insert(s.remove(from), to, s[from]);
    vstd::seq_lib::to_multiset_contains(s, s[from]);
    assert(s.to_multiset().remove(s[from]).insert(s[from]) =~= s.to_multiset());
}

/// A moved project lands where it is dropped: moving it up (or leaving it),
/// at display position `to`; moving it down, just before the row it was
/// dropped on, which is position `to - 1` once it has left its place. The
/// other projects keep their order.
pub proof fn lemma_move_lands_where_dropped(s: Seq<Project>, from: int, to: int)
    requires
        0 <= from < s.len(),
        0 <= to <= s.len(),
    ensures
        ({
            let at = landing(from, to, s.len() - 1);
            let r = s.remove(from).insert(at, s[from]);
            &&& r.len() == s.len()
            &&& to <= from ==> at == to && r[to] == s[from]
            &&& from < to ==> at == to - 1 && r[to - 1] == s[from]
            &&& r.remove(at) == s.remove(from)
        }),
{
    let at = landing(from, to, s.len() - 1);
    let r = s.remove(from).insert(at, s[from]);
    assert(0 <= at <= s.len() - 1);
    assert(r.remove(at) =~= s.remove(from));
}

impl Dock {
    /// The windows of the session `name`, in tmux's order.
    pub fn windows_of(&self, name: &String) -> (r: Vec<Window>)
        ensures
            r@.map_values(|w: Window| w@) == windows_of_spec(window_views(self.windows@), name@),
    {
        let ghost wv = window_views(self.windows@);
        let mut r: Vec<Window> = Vec::new();
        let mut i: usize = 0;
        while i < self.windows.len()
            invariant
                i <= self.windows.len(),
                wv == window_views(self.windows@),
                r@.map_values(|w: Window| w@) == windows_of_spec(wv.take(i as int), name@),
            decreases self.windows.len() - i,
        {
            proof {
                assert(wv.take(i + 1).drop_last() =~= wv.take(i as int));
                assert(wv.take(i + 1).last() == wv[i as int]);
            }
            if self.windows[i].0 == *name {
                r.push(self.windows[i].1.duplicate());
                assert(r@.map_values(|w: Window| w@) =~= windows_of_spec(wv.take(i as int), name@).push(
                    wv[i as int].1,
                ));
            }
            i += 1;
        }
        assert(wv.take(self.windows.len() as int) =~= wv);
        r
    }

    /// The session running in the project folder with key `key`, if any.
    pub fn matched_session(&self, key: &String) -> (r: Option<String>)
        ensures
            opt_str(r) == lookup(pair_views(self.matched@), key@),
    {
        lookup_exec(&self.matched, key)
    }

    /// The first session called `name`.
    pub fn session(&self, name: &String) -> (r: Option<Session>)
        ensures
            match r {
                Some(s) => find_session(session_views(self.sessions@), name@) == Some(s@),
                None => find_session(session_views(self.sessions@), name@) is None,
            },
    {
        let ghost sv = session_views(self.sessions@);
        assert(sv.skip(0) =~= sv);
        let mut i: usize = 0;
        while i < self.sessions.len()
            invariant
                i <= self.sessions.len(),
                sv == session_views(self.sessions@),
                find_session(sv, name@) == find_session(sv.skip(i as int), name@),
            decreases self.sessions.len() - i,
        {
            assert(sv.skip(i as int)[0] == sv[i as int]);
            assert(sv.skip(i as int).drop_first() =~= sv.skip(i + 1));
            if self.sessions[i].name == *name {
                return Some(self.sessions[i].duplicate());
            }
            i += 1;
        }
        None
    }

    /// The first project with key `key`.
    pub fn project_at(&self, key: &String, project_keys: &Vec<String>) -> (r: Option<Project>)
        requires
            project_keys.len() == self.projects.len(),
        ensures
            match r {
                Some(p) => first_index(views(project_keys@), key@) matches Some(i) && p@
                    == self.projects@[i]@,
                None => first_index(views(project_keys@), key@) is None,
            },
    {
        match first_index_exec(project_keys, key) {
            Some(i) => Some(self.projects[i].duplicate()),
            None => None,
        }
    }

    /// Sets how projects are ordered. Returns whether that changed, in
    /// which case the caller saves the settings.
    pub fn set_sort(&mut self, mode: SortMode) -> (changed: bool)
        ensures
            changed == (old(self).settings.sort != mode),
            final(self).settings.sort == mode,
            final(self).settings.start_command == old(self).settings.start_command,
            final(self).settings.terminal == old(self).settings.terminal,
            final(self).projects == old(self).projects,
            final(self).selection() == old(self).selection(),
            final(self).sessions == old(self).sessions,
            final(self).windows == old(self).windows,
            final(self).matched == old(self).matched,
            final(self).collapsed == old(self).collapsed,
            final(self).status == old(self).status,
            final(self).preview == old(self).preview,
    {
        if self.settings.sort != mode {
            self.settings.sort = mode;
            true
        } else {
            false
        }
    }
}

} // verus!
