use uninstall::session::{path_has_file_name, Action, Arguments, Event, Run, Stage};

fn start(name: &str) -> Run {
    Run::new(Arguments { program_name: name.to_string() })
}

fn search(name: &str) -> Run {
    let run = start(name);
    let event = Event::DisplayNameSearched { display_name: name.to_string(), desktop_file_path: String::new() };
    assert!(run.can_take(&event));
    let (run, action) = run.step(event);
    assert!(matches!(run.stage, Stage::SearchingApplications));
    match action {
        Action::SearchApplications { search_input } => assert_eq!(search_input, name.replace(' ', "-")),
        _ => panic!("expected a search"),
    }
    run
}

#[test]
fn display_name_found() {
    let run = start("firefox");
    assert!(matches!(run.stage, Stage::SearchingDisplayName));
    let (run, action) = run.step(Event::DisplayNameSearched {
        display_name: "Firefox".to_string(),
        desktop_file_path: "/usr/share/applications/firefox.desktop".to_string(),
    });
    assert!(matches!(run.stage, Stage::Finished));
    assert_eq!(run.display_name, "Firefox");
    match action {
        Action::ProcessDesktopFile { desktop_file_path, display_name } => {
            assert_eq!(desktop_file_path, "/usr/share/applications/firefox.desktop");
            assert_eq!(display_name, "Firefox");
        }
        _ => panic!("expected to process the desktop file"),
    }
}

#[test]
fn search_input_replaces_spaces() {
    let _ = search("visual studio code");
}

#[test]
fn no_match() {
    let run = search("nothing");
    let (run, action) = run.step(Event::ApplicationsFound { matches: vec![] });
    assert!(matches!(run.stage, Stage::Finished));
    assert!(matches!(action, Action::ReportNoMatches));
}

#[test]
fn one_match_confirmed_or_refused() {
    let path = "/usr/share/applications/gimp.desktop".to_string();
    let (run, action) = search("gimp").step(Event::ApplicationsFound { matches: vec![path.clone()] });
    match action {
        Action::AskConfirmation { candidate } => assert_eq!(candidate, path),
        _ => panic!("expected a question"),
    }
    let (done, action) = run.step(Event::Confirmed { yes: true });
    assert!(matches!(done.stage, Stage::Finished));
    match action {
        Action::ProcessDesktopFile { desktop_file_path, display_name } => {
            assert_eq!(desktop_file_path, path);
            assert_eq!(display_name, "gimp");
        }
        _ => panic!("expected to process the desktop file"),
    }
    let (run, _) = search("gimp").step(Event::ApplicationsFound { matches: vec![path.clone()] });
    let (_, action) = run.step(Event::Confirmed { yes: false });
    assert!(matches!(action, Action::Exit));
}

#[test]
fn several_matches_sorted_by_similarity() {
    let matches = vec![
        "/usr/share/applications/firefox-esr.desktop".to_string(),
        "/usr/share/applications/firefox.desktop".to_string(),
    ];
    let (run, action) = search("firefox").step(Event::ApplicationsFound { matches: matches.clone() });
    let expected = vec![
        "/usr/share/applications/firefox.desktop".to_string(),
        "/usr/share/applications/firefox-esr.desktop".to_string(),
    ];
    match action {
        Action::AskSelection { choices } => assert_eq!(choices, expected),
        _ => panic!("expected a menu"),
    }
    assert!(!run.can_take(&Event::Selected { selection: 2 }));
    assert!(run.can_take(&Event::Selected { selection: 1 }));
    let (_, action) = run.step(Event::Selected { selection: 1 });
    match action {
        Action::ProcessDesktopFile { desktop_file_path, .. } => {
            assert_eq!(desktop_file_path, expected[0]);
            assert!(matches.contains(&desktop_file_path));
        }
        _ => panic!("expected to process the desktop file"),
    }
    let (run, _) = search("firefox").step(Event::ApplicationsFound { matches });
    let (_, action) = run.step(Event::Selected { selection: 0 });
    assert!(matches!(action, Action::Exit));
}

#[test]
fn events_out_of_turn_are_refused() {
    let run = start("x");
    assert!(!run.can_take(&Event::Confirmed { yes: true }));
    let run = search("x");
    assert!(!run.can_take(&Event::ApplicationsFound { matches: vec!["/".to_string(), "/a".to_string()] }));
    assert!(run.can_take(&Event::ApplicationsFound { matches: vec!["/".to_string()] }));
    assert!(run.can_take(&Event::ApplicationsFound { matches: vec!["/a".to_string(), "/b".to_string()] }));
}

#[test]
fn file_names() {
    assert!(path_has_file_name("/usr/share/applications/a.desktop"));
    assert!(path_has_file_name("a/."));
    assert!(path_has_file_name("a//"));
    assert!(!path_has_file_name("/"));
    assert!(!path_has_file_name(""));
    assert!(!path_has_file_name("a/.."));
    assert!(!path_has_file_name("."));
    for p in ["/usr/a.desktop", "a/.", "a//", "/", "", "a/..", ".", "./.", "..", "b/../c"] {
        assert_eq!(path_has_file_name(p), std::path::Path::new(p).file_name().is_some(), "path {:?}", p);
    }
}
