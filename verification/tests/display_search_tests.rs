use uninstall::helper::{desktop_file_path, DisplayNameSearch, Lookup, LookupAction, LookupEvent};

const ENTRY: &str = "[Desktop Entry]\nName=Mozilla Firefox\nExec=firefox %u\n";

fn listed(search: DisplayNameSearch, dir: &str, name: &str) -> (DisplayNameSearch, LookupAction) {
    let event = LookupEvent::FileListed { app_dir: dir.to_string(), file_name: name.to_string() };
    assert!(search.can_take(&event));
    search.step(event)
}

#[test]
fn joins_directory_and_file_name() {
    assert_eq!(desktop_file_path("/usr/share/applications/", "a.desktop"), "/usr/share/applications/a.desktop");
    assert_eq!(desktop_file_path("", "b"), "b");
}

#[test]
fn only_desktop_files_are_read() {
    let search = DisplayNameSearch::new("mozilla firefox");
    let (search, action) = listed(search, "/usr/share/applications/", "mimeinfo.cache");
    assert!(matches!(action, LookupAction::NextFile));
    assert!(matches!(search.lookup, Lookup::Listing));
    let (search, action) = listed(search, "/usr/share/applications/", "firefox.desktop");
    match action {
        LookupAction::ReadFile { desktop_file_path } => {
            assert_eq!(desktop_file_path, "/usr/share/applications/firefox.desktop")
        }
        _ => panic!("expected a read"),
    }
    assert!(search.can_take(&LookupEvent::FileRead { file_contents: String::new() }));
    assert!(!search.can_take(&LookupEvent::DirectoriesExhausted));
}

#[test]
fn yes_ends_the_search_with_the_entry() {
    let (search, _) = listed(DisplayNameSearch::new("MOZILLA FIREFOX"), "/d/", "firefox.desktop");
    let (search, action) = search.step(LookupEvent::FileRead { file_contents: ENTRY.to_string() });
    match action {
        LookupAction::Ask { actual_display_name, desktop_file_path } => {
            assert_eq!(actual_display_name, "Mozilla Firefox");
            assert_eq!(desktop_file_path, "/d/firefox.desktop");
        }
        _ => panic!("expected a question"),
    }
    let (search, action) = search.step(LookupEvent::Answered { yes: true });
    assert!(matches!(search.lookup, Lookup::Done));
    match action {
        LookupAction::Found { display_name, desktop_file_path } => {
            assert_eq!(display_name, "Mozilla Firefox");
            assert_eq!(desktop_file_path, "/d/firefox.desktop");
        }
        _ => panic!("expected the end of the search"),
    }
}

#[test]
fn no_goes_on_and_nothing_found_keeps_the_name() {
    let (search, _) = listed(DisplayNameSearch::new("Mozilla Firefox"), "/d/", "firefox.desktop");
    let (search, _) = search.step(LookupEvent::FileRead { file_contents: ENTRY.to_string() });
    let (search, action) = search.step(LookupEvent::Answered { yes: false });
    assert!(matches!(action, LookupAction::NextFile));
    let (search, _) = listed(search, "/d/", "gimp.desktop");
    let (search, action) = search.step(LookupEvent::FileRead { file_contents: "Name=GIMP\n".to_string() });
    assert!(matches!(action, LookupAction::NextFile));
    let (search, action) = search.step(LookupEvent::DirectoriesExhausted);
    assert!(matches!(search.lookup, Lookup::Done));
    match action {
        LookupAction::Found { display_name, desktop_file_path } => {
            assert_eq!(display_name, "Mozilla Firefox");
            assert_eq!(desktop_file_path, "");
        }
        _ => panic!("expected the end of the search"),
    }
}
