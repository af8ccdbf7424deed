use tmux_gui::projects::{config_path, config_path_in, join, path_file_name, Project};

#[test]
fn project_named_after_its_folder() {
    let p = Project::from_path("/home/u/code/proj".to_string());
    assert_eq!(p.name, "proj");
    assert_eq!(p.path, "/home/u/code/proj");
    assert_eq!(p.command, "");
    assert_eq!(Project::from_path("/home/u/proj/".to_string()).name, "proj");
    assert_eq!(Project::from_path("/".to_string()).name, "/");
    assert_eq!(Project::from_path("a/..".to_string()).name, "a/..");
}

#[test]
fn file_name_matches_std_path() {
    for p in ["/usr/bin/", "tmp/foo.txt", "foo.txt/.", "foo.txt/.//", "foo.txt/..", "/", "", ".", "./", "a//b", "..", "./x/."] {
        let expected = std::path::Path::new(p).file_name().map(|s| s.to_string_lossy().into_owned());
        assert_eq!(path_file_name(p), expected, "file name of {p:?}");
    }
}

#[test]
fn session_names_avoid_colons_and_dots() {
    let p = |name: &str| Project { name: name.to_string(), path: "/x".to_string(), command: String::new() };
    assert_eq!(p("my.proj:x").session_name(), "my_proj_x");
    assert_eq!(p("  a.b  ").session_name(), "a_b");
    assert_eq!(p("   ").session_name(), "project");
    assert_eq!(p("").session_name(), "project");
    assert_eq!(p("web app").session_name(), "web app");
}

#[test]
fn session_name_of_a_session_name_is_itself() {
    for name in ["a.b", " x:y ", "", "plain"] {
        let once = Project { name: name.to_string(), path: String::new(), command: String::new() }.session_name();
        let twice = Project { name: once.clone(), path: String::new(), command: String::new() }.session_name();
        assert_eq!(once, twice);
    }
}

#[test]
fn config_file_location() {
    let d = |s: &str| Some(s.as_bytes().to_vec());
    assert_eq!(config_path_in(d("/home/u/.config")), b"/home/u/.config/tmux-gui/projects.json".to_vec());
    assert_eq!(config_path_in(d("/home/u/.config/")), b"/home/u/.config/tmux-gui/projects.json".to_vec());
    assert_eq!(config_path_in(None), b"./tmux-gui/projects.json".to_vec());
    assert!(config_path().ends_with(b"tmux-gui/projects.json"));
}

#[test]
fn a_config_folder_that_is_not_utf8_is_kept() {
    let dir = vec![b'/', b'h', 0xff, b'x'];
    let mut expected = dir.clone();
    expected.extend_from_slice(b"/tmux-gui/projects.json");
    assert_eq!(config_path_in(Some(dir)), expected);
}

#[test]
fn joining_paths() {
    assert_eq!(join(b"", b"a"), b"a".to_vec());
    assert_eq!(join(b"/", b"a"), b"/a".to_vec());
    assert_eq!(join(b"x", b"a"), b"x/a".to_vec());
    let std_join = std::path::PathBuf::from("x/y").join("z");
    assert_eq!(join(b"x/y", b"z"), std_join.to_string_lossy().as_bytes().to_vec());
}
