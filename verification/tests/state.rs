use tmux_gui::projects::Project;
use tmux_gui::state::{refresh_due, Action, Dialog, Dock, OpenStep, Settings, SortMode, REFRESH_EVERY_MS};
use tmux_gui::tmux::{Session, Window};

fn project(name: &str, path: &str) -> Project {
    Project { name: name.to_string(), path: path.to_string(), command: String::new() }
}

fn session(name: &str, attached: bool, path: &str) -> Session {
    Session { name: name.to_string(), windows: 1, attached, created: "now".to_string(), path: path.to_string() }
}

fn window(index: u32, name: &str) -> Window {
    Window { index, name: name.to_string(), active: index == 0, command: "zsh".to_string() }
}

fn dock(projects: Vec<Project>, sort: SortMode) -> Dock {
    Dock {
        projects,
        settings: Settings { start_command: " htop ".to_string(), terminal: String::new(), sort },
        sessions: vec![],
        windows: vec![],
        matched: vec![],
        selected_project: None,
        selected: None,
        selected_window: None,
        collapsed: vec![],
        status: None,
        preview: String::new(),
    }
}

fn keys(d: &Dock) -> Vec<String> {
    d.projects.iter().map(|p| p.path.clone()).collect()
}

fn refreshed(d: &mut Dock, sessions: Vec<Session>, windows: Vec<(String, Window)>) -> Option<String> {
    let pk = keys(d);
    let sk: Vec<String> = sessions.iter().map(|s| s.path.clone()).collect();
    d.refresh(Ok(sessions), Ok(windows), &pk, &sk)
}

#[test]
fn refresh_matches_sessions_to_project_folders() {
    let mut d = dock(vec![project("web", "/src/web"), project("api", "/src/api")], SortMode::Manual);
    let target = refreshed(
        &mut d,
        vec![session("web", true, "/src/web"), session("misc", false, "/tmp"), session("web-2", false, "/src/web")],
        vec![("web-2".to_string(), window(0, "zsh"))],
    );
    // The last session started in a folder is the one matched to it.
    assert_eq!(d.matched, vec![("/src/web".to_string(), "web-2".to_string())]);
    // Nothing was selected: the first project is.
    assert_eq!(d.selected_project.as_deref(), Some("/src/web"));
    assert_eq!(d.selected.as_deref(), Some("web-2"));
    assert_eq!(target.as_deref(), Some("web-2"));
    let others: Vec<String> = d.other_sessions().into_iter().map(|s| s.name).collect();
    assert_eq!(others, vec!["web".to_string(), "misc".to_string()]);
}

#[test]
fn refresh_drops_what_is_gone() {
    let mut d = dock(vec![], SortMode::Manual);
    d.selected = Some("gone".to_string());
    d.selected_window = Some(2);
    let target = refreshed(&mut d, vec![session("a", false, "/a")], vec![]);
    assert_eq!(d.selected.as_deref(), Some("a"));
    assert_eq!(d.selected_window, Some(2).filter(|_| false));
    assert_eq!(target.as_deref(), Some("a"));

    d.selected_window = Some(1);
    let target = refreshed(&mut d, vec![session("a", false, "/a")], vec![("a".to_string(), window(1, "w"))]);
    assert_eq!(d.selected_window, Some(1));
    assert_eq!(target.as_deref(), Some("a:1"));
}

#[test]
fn failing_to_list_sessions_is_reported() {
    let mut d = dock(vec![], SortMode::Manual);
    d.sessions = vec![session("a", false, "/a")];
    let target = d.refresh(Err("tmux: bad".to_string()), Err("x".to_string()), &vec![], &vec![]);
    assert!(d.sessions.is_empty());
    assert_eq!(d.status, Some(("tmux: bad".to_string(), true)));
    assert_eq!(target, None);
    d.set_preview(Err("nothing".to_string()));
    assert_eq!(d.preview, "");
    d.set_preview(Ok("$ ".to_string()));
    assert_eq!(d.preview, "$ ");
}

#[test]
fn display_order_by_name_status_or_manual() {
    let mut d = dock(vec![project("beta", "/b"), project("Alpha", "/a"), project("gamma", "/g"), project("alpha", "/a2")], SortMode::Alphabetical);
    refreshed(&mut d, vec![session("g", true, "/g"), session("b", false, "/b")], vec![]);
    let pk = keys(&d);
    let order: Vec<usize> = d.ordered_projects(&pk).iter().map(|(i, _)| *i).collect();
    assert_eq!(order, vec![1, 3, 0, 2]);
    d.set_sort(SortMode::Status);
    let order: Vec<usize> = d.ordered_projects(&pk).iter().map(|(i, _)| *i).collect();
    assert_eq!(order, vec![2, 0, 1, 3]);
    assert!(d.set_sort(SortMode::Manual));
    assert!(!d.set_sort(SortMode::Manual));
    let ordered = d.ordered_projects(&pk);
    let order: Vec<usize> = ordered.iter().map(|(i, _)| *i).collect();
    assert_eq!(order, vec![0, 1, 2, 3]);
    assert_eq!(ordered[2].1, project("gamma", "/g"));
}

#[test]
fn refreshing_every_second() {
    assert!(refresh_due(None));
    assert!(!refresh_due(Some(999)));
    assert!(refresh_due(Some(1000)));
    assert_eq!(REFRESH_EVERY_MS, 1000);
}

#[test]
fn the_session_of_a_project_folder() {
    let mut d = dock(vec![project("a", "/a"), project("b", "/b")], SortMode::Manual);
    refreshed(&mut d, vec![session("a", false, "/a")], vec![]);
    assert_eq!(d.matched_session(&"/a".to_string()), Some("a".to_string()));
    assert_eq!(d.matched_session(&"/b".to_string()), None);
}

#[test]
fn names_are_ordered_ignoring_case() {
    let d = dock(vec![project("Zed", "/z"), project("apple", "/a"), project("Ärger", "/e"), project("äb", "/b")], SortMode::Alphabetical);
    let pk = keys(&d);
    let order: Vec<usize> = d.ordered_projects(&pk).iter().map(|(i, _)| *i).collect();
    assert_eq!(order, vec![1, 0, 3, 2]);
}

#[test]
fn moving_a_project() {
    let names = |d: &Dock| d.projects.iter().map(|p| p.name.clone()).collect::<Vec<_>>();
    let mut d = dock(vec![project("a", "/a"), project("b", "/b"), project("c", "/c")], SortMode::Manual);
    assert!(d.move_project(0, 2));
    assert_eq!(names(&d), vec!["b", "a", "c"]);
    assert!(d.move_project(2, 0));
    assert_eq!(names(&d), vec!["c", "b", "a"]);
    assert!(d.move_project(0, 3));
    assert_eq!(names(&d), vec!["b", "a", "c"]);
    assert!(d.move_project(1, 99));
    assert_eq!(names(&d), vec!["b", "c", "a"]);
    assert!(!d.move_project(3, 0));
    assert_eq!(names(&d), vec!["b", "c", "a"]);
}

#[test]
fn a_new_session_gets_a_free_name() {
    let mut d = dock(vec![project("my.app", "/m")], SortMode::Manual);
    refreshed(&mut d, vec![session("my_app", false, "/x"), session("my_app-2", false, "/y")], vec![]);
    assert_eq!(d.unused_session_name(&"my_app".to_string()), "my_app-3");
    assert_eq!(d.unused_session_name(&"free".to_string()), "free");
    let plan = d.start_plan(&"/m".to_string(), &keys(&d)).unwrap();
    assert_eq!(plan.session, "my_app-3");
    assert_eq!(plan.folder, "/m");
    assert_eq!(plan.command.as_deref(), Some("htop"));
    assert!(d.start_plan(&"/nope".to_string(), &keys(&d)).is_none());
    d.started("/m".to_string(), &plan, Ok(()));
    assert_eq!(d.selected.as_deref(), Some("my_app-3"));
    assert_eq!(d.status, Some(("Started “my.app”".to_string(), false)));
}

#[test]
fn adding_projects() {
    let mut d = dock(vec![project("a", "/a")], SortMode::Manual);
    let pk = keys(&d);
    assert!(!d.add_project("/a/".to_string(), "/a".to_string(), &pk, None));
    assert_eq!(d.status, Some(("That folder is already registered".to_string(), true)));
    assert_eq!(d.projects.len(), 1);
    assert!(d.add_project("/src/tool".to_string(), "/src/tool".to_string(), &pk, Some("  ".to_string())));
    assert_eq!(d.projects[1], project("tool", "/src/tool"));
    assert_eq!(d.selected_project.as_deref(), Some("/src/tool"));
    let pk = keys(&d);
    assert!(d.add_project("/x".to_string(), "/x".to_string(), &pk, Some(" Named ".to_string())));
    assert_eq!(d.projects[2].name, "Named");
    assert_eq!(d.status, Some(("Added project “Named”".to_string(), false)));
}

#[test]
fn opening_terminals() {
    let mut d = dock(vec![], SortMode::Manual);
    refreshed(&mut d, vec![session("a", true, "/a"), session("b", false, "/b")], vec![]);
    match d.open_terminal("a", Some(2)) {
        OpenStep::SelectWindow(t) => assert_eq!(t, "a:2"),
        OpenStep::Attach => panic!("a window is selected first"),
    }
    assert!(matches!(d.open_terminal("a", None), OpenStep::Attach));
    assert!(!d.window_selected("a", 2, Ok(())));
    assert_eq!(d.status, Some(("Switched the open terminal to window 2".to_string(), false)));
    assert!(d.window_selected("b", 1, Ok(())));
    assert!(!d.window_selected("b", 1, Err("no window".to_string())));
    assert_eq!(d.status, Some(("no window".to_string(), true)));
    d.terminal_opened(Ok(()));
    assert_eq!(d.status, Some(("Opened a terminal".to_string(), false)));
    d.made_active(4, Ok(()));
    assert_eq!(d.status, Some(("Window 4 is now active".to_string(), false)));
}

#[test]
fn editing_a_project_renames_its_session() {
    let mut d = dock(vec![project("web", "/w"), project("api", "/api")], SortMode::Manual);
    refreshed(&mut d, vec![session("web", false, "/w")], vec![]);
    d.collapse("web".to_string());
    let pk = keys(&d);
    let plan = d.run_dialog(
        Dialog::EditProject {
            path: "/w".to_string(),
            name: " site.v2 ".to_string(),
            folder: "/w".to_string(),
            command: " vim ".to_string(),
        },
        &pk,
        &"/w".to_string(),
    );
    assert_eq!(d.projects[0].name, "site.v2");
    assert_eq!(d.projects[0].path, "/w");
    assert_eq!(d.projects[0].command, "vim");
    match &plan.action {
        Action::SaveList(Some((from, to))) => {
            assert_eq!(from, "web");
            assert_eq!(to, "site_v2");
        },
        _ => panic!("the session follows the project name"),
    }
    d.finish(&plan, Ok(()));
    assert!(d.is_collapsed(&"site_v2".to_string()));
    assert!(!d.is_collapsed(&"web".to_string()));
    assert_eq!(d.status, Some(("Project saved".to_string(), false)));

    let pk = keys(&d);
    let edit = |name: &str, folder: &str| Dialog::EditProject {
        path: "/w".to_string(),
        name: name.to_string(),
        folder: folder.to_string(),
        command: String::new(),
    };
    let plan = d.run_dialog(edit("x", "/api"), &pk, &"/api".to_string());
    assert!(matches!(plan.action, Action::Nothing));
    assert_eq!(d.status, Some(("Another project already uses that folder".to_string(), true)));
    let plan = d.run_dialog(edit(" ", "/q"), &pk, &"/q".to_string());
    assert!(matches!(plan.action, Action::Nothing));
    assert_eq!(d.status, Some(("Name and folder are required".to_string(), true)));
}

#[test]
fn removing_a_project_only_edits_the_list() {
    let mut d = dock(vec![project("a", "/a"), project("b", "/b")], SortMode::Manual);
    d.selected_project = Some("/a".to_string());
    let pk = keys(&d);
    let plan = d.run_dialog(Dialog::RemoveProject { path: "/a".to_string() }, &pk, &String::new());
    assert_eq!(d.projects, vec![project("b", "/b")]);
    assert!(matches!(plan.action, Action::SaveList(None)));
    assert_eq!(plan.ok_message, "Removed “a” from the list");
    assert_eq!(d.selected_project, None);
}

#[test]
fn session_and_window_dialogs() {
    let mut d = dock(vec![], SortMode::Manual);
    d.collapsed = vec!["old".to_string(), "s".to_string()];
    let plan = d.run_dialog(Dialog::RenameSession { current: "old".to_string(), text: " new ".to_string() }, &vec![], &String::new());
    match &plan.action {
        Action::RenameSession { current, new } => assert_eq!((current.as_str(), new.as_str()), ("old", "new")),
        _ => panic!("a rename"),
    }
    d.finish(&plan, Ok(()));
    assert_eq!(d.selected.as_deref(), Some("new"));
    assert!(d.is_collapsed(&"new".to_string()) && !d.is_collapsed(&"old".to_string()));
    let same = d.run_dialog(Dialog::RenameSession { current: "new".to_string(), text: "new".to_string() }, &vec![], &String::new());
    assert!(matches!(same.action, Action::Nothing));

    let plan = d.run_dialog(Dialog::RenameWindow { session: "s".to_string(), index: 2, text: "logs".to_string() }, &vec![], &String::new());
    assert!(matches!(&plan.action, Action::RenameWindow { target, new } if target == "s:2" && new == "logs"));
    assert_eq!(plan.ok_message, "Window renamed to “logs”");

    let plan = d.run_dialog(Dialog::NewWindow { session: "s".to_string(), name: "  ".to_string() }, &vec![], &String::new());
    assert!(matches!(&plan.action, Action::NewWindow { session, name: None } if session == "s"));
    d.finish(&plan, Ok(()));
    assert!(!d.is_collapsed(&"s".to_string()));

    d.selected_window = Some(3);
    let plan = d.run_dialog(Dialog::KillWindow { session: "s".to_string(), index: 3 }, &vec![], &String::new());
    assert_eq!(d.selected_window, None);
    assert!(matches!(&plan.action, Action::KillWindow(t) if t == "s:3"));
    d.finish(&plan, Err("can't find window".to_string()));
    assert_eq!(d.status, Some(("can't find window".to_string(), true)));

    let plan = d.run_dialog(Dialog::KillSession("s".to_string()), &vec![], &String::new());
    assert_eq!(plan.ok_message, "Killed “s”");
}

#[test]
fn selecting_rows() {
    let mut d = dock(vec![project("a", "/a")], SortMode::Manual);
    refreshed(&mut d, vec![session("a", false, "/a")], vec![("a".to_string(), window(0, "zsh"))]);
    assert!(!d.select_project("/a".to_string(), None));
    assert!(d.select_project("/a".to_string(), Some(0)));
    assert_eq!(d.selected.as_deref(), Some("a"));
    assert!(d.select_session("a", Some(0)));
    assert_eq!(d.selected_project, None);
    assert!(!d.select_session("a", Some(0)));
    assert_eq!(d.windows_of(&"a".to_string()).len(), 1);
    assert!(d.session(&"a".to_string()).is_some());
    assert_eq!(d.project_at(&"/a".to_string(), &keys(&d)), Some(project("a", "/a")));
    assert_eq!(d.command_for(&project("a", "/a")), "htop");
    let own = Project { name: "a".to_string(), path: "/a".to_string(), command: " vim -R ".to_string() };
    assert_eq!(d.command_for(&own), "vim -R");
    let blank = Project { name: "a".to_string(), path: "/a".to_string(), command: "   ".to_string() };
    assert_eq!(d.command_for(&blank), "htop");
}

#[test]
fn a_project_command_overrides_the_default() {
    let mut d = dock(vec![Project { name: "a".to_string(), path: "/a".to_string(), command: " make run ".to_string() }], SortMode::Manual);
    refreshed(&mut d, vec![], vec![]);
    let plan = d.start_plan(&"/a".to_string(), &keys(&d)).unwrap();
    assert_eq!(plan.command.as_deref(), Some("make run"));
    d.settings.start_command = String::new();
    d.projects[0].command = String::new();
    let plan = d.start_plan(&"/a".to_string(), &keys(&d)).unwrap();
    assert_eq!(plan.command, None);
}

#[test]
fn settings_before_any_change() {
    let s = Settings::default();
    assert_eq!(s.start_command, "");
    assert_eq!(s.terminal, "");
    assert_eq!(s.sort, SortMode::Manual);
}
