use tmux_gui::tmux::{
    applescript_str, attach_in_terminal, attach_shell_line, capture_pane, detach_clients, finished,
    kill_session, kill_window, launch_failure, list_all_windows, list_sessions, list_sessions_args,
    list_windows_args, mac_iterm, mac_terminal_app, mac_terminal_choice, new_session, new_window,
    osascript_outcome, pane_text, rename_session, rename_window, run_outcome, select_window,
    send_line, spawn_failure, tmux_bin, tmux_locations, window_target, MacTerminal, Session,
    Window, PREVIEW_HISTORY_LINES, CommandChain, known_terminals,
};

fn s(v: &[&str]) -> Vec<String> {
    v.iter().map(|x| x.to_string()).collect()
}

#[test]
fn sessions_are_read_from_list_sessions_output() {
    let out = "main\t2\t1\tMon Jan  1 10:00:00 2024\t/home/u/main\nbad line\nidle\t1\t0\tTue\t/tmp\r\nshort\t3\t0\n";
    let got = list_sessions(Ok(out.to_string())).unwrap();
    assert_eq!(
        got,
        vec![
            Session { name: "main".into(), windows: 2, attached: true, created: "Mon Jan  1 10:00:00 2024".into(), path: "/home/u/main".into() },
            Session { name: "idle".into(), windows: 1, attached: false, created: "Tue".into(), path: "/tmp".into() },
            Session { name: "short".into(), windows: 3, attached: false, created: "".into(), path: "".into() },
        ]
    );
}

#[test]
fn a_printed_listing_reads_back() {
    let sessions = vec![
        Session { name: "web app".into(), windows: 3, attached: true, created: "Mon".into(), path: "/srv/web".into() },
        Session { name: "x".into(), windows: 0, attached: false, created: "".into(), path: "".into() },
    ];
    let out: String = sessions
        .iter()
        .map(|s| format!("{}\t{}\t{}\t{}\t{}\n", s.name, s.windows, if s.attached { 1 } else { 0 }, s.created, s.path))
        .collect();
    assert_eq!(list_sessions(Ok(out)), Ok(sessions));
    let windows = vec![
        ("a".to_string(), Window { index: 10, name: "build".into(), active: false, command: "make".into() }),
        ("b".to_string(), Window { index: 0, name: "".into(), active: true, command: "".into() }),
    ];
    let out: String = windows
        .iter()
        .map(|(s, w)| format!("{}\t{}\t{}\t{}\t{}\n", s, w.index, w.name, if w.active { 1 } else { 0 }, w.command))
        .collect();
    assert_eq!(list_all_windows(Ok(out)), Ok(windows));
}

#[test]
fn no_server_means_no_sessions() {
    assert_eq!(list_sessions(Err("no server running on /tmp/tmux-1000/default".into())), Ok(vec![]));
    assert_eq!(list_sessions(Err("error connecting to /tmp/x (No such file or directory)".into())), Ok(vec![]));
    assert_eq!(list_sessions(Err("boom".into())), Err("boom".to_string()));
    assert_eq!(list_all_windows(Err("no server running".into())), Ok(vec![]));
    assert_eq!(list_all_windows(Err("other".into())), Err("other".to_string()));
}

#[test]
fn windows_are_read_from_list_windows_output() {
    let out = "main\t0\tzsh\t1\tzsh\nmain\t1\tvim\t0\tvim\nmain\tx\tbad\t0\tvim\nother\t4\tw\t1\n";
    let got = list_all_windows(Ok(out.to_string())).unwrap();
    assert_eq!(
        got,
        vec![
            ("main".to_string(), Window { index: 0, name: "zsh".into(), active: true, command: "zsh".into() }),
            ("main".to_string(), Window { index: 1, name: "vim".into(), active: false, command: "vim".into() }),
            ("other".to_string(), Window { index: 4, name: "w".into(), active: true, command: "".into() }),
        ]
    );
}

#[test]
fn command_arguments() {
    assert_eq!(list_sessions_args()[..2], s(&["list-sessions", "-F"])[..]);
    assert_eq!(
        list_sessions_args()[2],
        "#{session_name}\t#{session_windows}\t#{session_attached}\t#{t:session_created}\t#{session_path}"
    );
    assert_eq!(list_windows_args()[..3], s(&["list-windows", "-a", "-F"])[..]);
    assert_eq!(capture_pane("s:1"), s(&["capture-pane", "-p", "-S", "-5000", "-t", "s:1"]));
    assert_eq!(PREVIEW_HISTORY_LINES, "-5000");
    assert_eq!(rename_session("a", "b"), s(&["rename-session", "-t", "a", "b"]));
    assert_eq!(kill_session("a"), s(&["kill-session", "-t", "a"]));
    assert_eq!(detach_clients("a"), s(&["detach-client", "-s", "a"]));
    assert_eq!(rename_window("a:1", "w"), s(&["rename-window", "-t", "a:1", "w"]));
    assert_eq!(kill_window("a:1"), s(&["kill-window", "-t", "a:1"]));
    assert_eq!(select_window("a:1"), s(&["select-window", "-t", "a:1"]));
}

#[test]
fn optional_folder_and_window_name() {
    assert_eq!(new_session("p", Some("/src/p")), s(&["new-session", "-d", "-s", "p", "-c", "/src/p"]));
    assert_eq!(new_session("p", Some("  ")), s(&["new-session", "-d", "-s", "p"]));
    assert_eq!(new_session("p", None), s(&["new-session", "-d", "-s", "p"]));
    assert_eq!(new_window("p", Some("logs")), s(&["new-window", "-t", "p", "-n", "logs"]));
    assert_eq!(new_window("p", Some("")), s(&["new-window", "-t", "p"]));
    assert_eq!(new_window("p", None), s(&["new-window", "-t", "p"]));
}

#[test]
fn a_line_is_sent_literally_then_enter() {
    let cmds = send_line("p:0", "ls -la");
    assert_eq!(cmds, vec![s(&["send-keys", "-t", "p:0", "-l", "ls -la"]), s(&["send-keys", "-t", "p:0", "Enter"])]);
}

#[test]
fn window_targets() {
    assert_eq!(window_target("main", 3), "main:3");
    assert_eq!(window_target("a", 0), "a:0");
}

#[test]
fn pane_text_loses_surrounding_line_feeds() {
    assert_eq!(pane_text(Ok("\n$ ls\nfile\n\n\n".into())), Ok("$ ls\nfile".to_string()));
    assert_eq!(pane_text(Err("gone".into())), Err("gone".to_string()));
    assert_eq!(finished(Ok("out".into())), Ok(()));
    assert_eq!(finished(Err("e".into())), Err("e".to_string()));
}

#[test]
fn choosing_the_tmux_program() {
    assert_eq!(tmux_bin(true, &vec![true, true, true, true]), "tmux");
    assert_eq!(tmux_bin(false, &vec![false, true, true, false]), "/usr/local/bin/tmux");
    assert_eq!(tmux_bin(false, &vec![false, false, false, true]), "/usr/bin/tmux");
    assert_eq!(tmux_bin(false, &vec![false; 4]), "tmux");
    assert_eq!(tmux_bin(false, &vec![]), "tmux");
    assert_eq!(tmux_locations().len(), 4);
}

#[test]
fn outcome_of_a_run() {
    assert_eq!(run_outcome(true, "out".into(), "warn", "exit status: 0"), Ok("out".to_string()));
    assert_eq!(run_outcome(false, "".into(), "  can't find session: x\n", "exit status: 1"), Err("can't find session: x".to_string()));
    assert_eq!(run_outcome(false, "".into(), " \n", "exit status: 1"), Err("tmux exited with exit status: 1".to_string()));
    assert_eq!(spawn_failure("not found"), "could not run tmux: not found");
    assert_eq!(launch_failure("kitty", "denied"), "could not start kitty: denied");
}

#[test]
fn terminal_choice() {
    let found = vec![false, true, false, false, false, false, false, false, true];
    let r = attach_in_terminal("p", Some(" /usr/bin/alacritty "), None, &found, "tmux").unwrap();
    assert_eq!(r, ("/usr/bin/alacritty".to_string(), s(&["-e", "tmux", "attach-session", "-t", "p"])));
    let r = attach_in_terminal("p", Some("wezterm"), None, &found, "/usr/bin/tmux").unwrap();
    assert_eq!(r, ("wezterm".to_string(), s(&["start", "--", "/usr/bin/tmux", "attach-session", "-t", "p"])));
    let r = attach_in_terminal("p", Some(" "), Some("myterm".to_string()), &found, "tmux").unwrap();
    assert_eq!(r, ("myterm".to_string(), s(&["-e", "tmux", "attach-session", "-t", "p"])));
    let r = attach_in_terminal("p", None, Some("  ".to_string()), &found, "tmux").unwrap();
    assert_eq!(r, ("kitty".to_string(), s(&["tmux", "attach-session", "-t", "p"])));
    let r = attach_in_terminal("p", None, None, &vec![true; 9], "tmux").unwrap();
    assert_eq!(r, ("gnome-terminal".to_string(), s(&["--", "tmux", "attach-session", "-t", "p"])));
    assert_eq!(
        attach_in_terminal("p", None, None, &vec![false; 9], "tmux"),
        Err("no terminal emulator found (set one in Settings or $TERMINAL)".to_string())
    );
    let only_xterm = vec![false, false, false, false, false, false, false, false, true];
    let r = attach_in_terminal("p", None, None, &only_xterm, "tmux").unwrap();
    assert_eq!(r, ("xterm".to_string(), s(&["-e", "tmux", "attach-session", "-t", "p"])));
}

#[test]
fn terminals_are_tried_in_the_documented_order() {
    assert_eq!(
        known_terminals(),
        s(&["gnome-terminal", "kitty", "alacritty", "wezterm", "konsole", "xfce4-terminal", "tilix", "foot", "xterm"])
    );
}

#[test]
fn a_chain_stops_at_the_first_failure() {
    let cmds = send_line("w:1", "ls");
    let mut chain = CommandChain::new(cmds.clone());
    assert_eq!(chain.next(), Some(cmds[0].clone()));
    chain.record(Err("no such window".to_string()));
    assert_eq!(chain.next(), None);
    assert_eq!(chain.outcome(), Err("no such window".to_string()));

    let mut chain = CommandChain::new(cmds.clone());
    chain.record(Ok(String::new()));
    assert_eq!(chain.next(), Some(cmds[1].clone()));
    chain.record(Ok(String::new()));
    assert_eq!(chain.next(), None);
    assert_eq!(chain.outcome(), Ok(()));
}

#[test]
fn applescript_for_mac_terminals() {
    assert_eq!(attach_shell_line("tmux", "it's"), "tmux attach-session -t 'it'\\''s'");
    assert_eq!(applescript_str("a\"b\\c"), "a\\\"b\\\\c");
    let lines = mac_terminal_app("tmux", "p");
    assert_eq!(lines, s(&["tell application \"Terminal\"", "activate", "do script \"tmux attach-session -t 'p'\"", "end tell"]));
    let lines = mac_iterm("tmux", "p");
    assert_eq!(lines[3], "tell current session of w to write text \"tmux attach-session -t 'p'\"");
    assert_eq!(lines.len(), 5);
    assert_eq!(osascript_outcome(true, "x"), Ok(()));
    assert_eq!(osascript_outcome(false, " bad \n"), Err("bad".to_string()));
}

#[test]
fn mac_terminal_kinds() {
    assert_eq!(mac_terminal_choice(None, false), MacTerminal::TerminalApp);
    assert_eq!(mac_terminal_choice(None, true), MacTerminal::ITerm);
    assert_eq!(mac_terminal_choice(Some("  "), true), MacTerminal::ITerm);
    assert_eq!(mac_terminal_choice(Some("Terminal.app"), true), MacTerminal::TerminalApp);
    assert_eq!(mac_terminal_choice(Some("ITERM2"), false), MacTerminal::ITerm);
    assert_eq!(mac_terminal_choice(Some("kitty"), false), MacTerminal::Other);
}
