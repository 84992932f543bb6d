use uninstall::handle_files::{
    executable_location, first_word_of, handle_config_files, plan_removal, read_desktop_file,
    scan_desktop_entry, select_config_directory, DesktopFileError,
};

const FIREFOX: &str = "[Desktop Entry]\nName=Firefox\nExec=firefox %u\nIcon=firefox\n\n[Desktop Action new-window]\nName=New Window\nExec=firefox --new-window %u\n";

#[test]
fn scan_keeps_last_value_of_each_key() {
    let entry = scan_desktop_entry(FIREFOX);
    assert_eq!(entry.exec_command, "firefox --new-window %u");
    assert_eq!(entry.icon, "firefox");
    assert_eq!(entry.display_name, "New Window");
    let empty = scan_desktop_entry("[Desktop Entry]\nTerminal=false\n");
    assert_eq!(empty.exec_command, "");
    assert_eq!(empty.icon, "");
    assert_eq!(empty.display_name, "");
}

#[test]
fn first_word_is_first_piece_of_split() {
    for v in ["firefox %u", "", " x", "gimp", "a  b"] {
        assert_eq!(first_word_of(v), v.split(' ').next().unwrap());
        assert!(!first_word_of(v).contains(' '));
    }
}

#[test]
fn plan_from_a_full_entry() {
    let plan = match plan_removal(&scan_desktop_entry(FIREFOX), "firefox") {
        Ok(p) => p,
        Err(_) => panic!("expected a plan"),
    };
    assert_eq!(plan.executable, "firefox");
    assert_eq!(plan.application_name, "New Window");
    assert_eq!(plan.program_name, "firefox");
    assert_eq!(plan.icon, Some("firefox".to_string()));
}

#[test]
fn plan_without_name_or_icon() {
    let plan = match plan_removal(&scan_desktop_entry("Exec=/opt/app/run --flag\n"), "app") {
        Ok(p) => p,
        Err(_) => panic!("expected a plan"),
    };
    assert_eq!(plan.executable, "/opt/app/run");
    assert_eq!(plan.application_name, "app");
    assert_eq!(plan.icon, None);
    assert_eq!(DesktopFileError::MissingIcon.message(), "Failed to find icon!");
}

#[test]
fn plan_without_executable() {
    for contents in ["Name=x\nIcon=y\n", "Exec= starts-with-space\n", ""] {
        match plan_removal(&scan_desktop_entry(contents), "x") {
            Ok(_) => panic!("expected an error"),
            Err(e) => assert!(matches!(e, DesktopFileError::MissingExecutable)),
        }
    }
}

#[test]
fn reading_a_desktop_file() {
    let plan = match read_desktop_file("Exec=foo --bar\nIcon=i\n", "foo") {
        Ok(p) => p,
        Err(_) => panic!("expected a plan"),
    };
    assert_eq!(plan.executable, "foo");
    assert_eq!(plan.application_name, "foo");
    assert_eq!(plan.program_name, "foo");
    assert_eq!(plan.icon, Some("i".to_string()));
    let plan = match read_desktop_file(FIREFOX, "Firefox") {
        Ok(p) => p,
        Err(_) => panic!("expected a plan"),
    };
    assert_eq!(plan.executable, "firefox");
    assert_eq!(plan.application_name, "New Window");
    let no_icon = match read_desktop_file("Name=App\nExec=app\n", "x") {
        Ok(p) => p,
        Err(_) => panic!("expected a plan"),
    };
    assert_eq!(no_icon.application_name, "App");
    assert_eq!(no_icon.icon, None);
    for contents in ["Name=x\nIcon=y\n", "Exec= leading-space\n", ""] {
        match read_desktop_file(contents, "x") {
            Ok(_) => panic!("expected an error"),
            Err(e) => {
                assert!(matches!(e, DesktopFileError::MissingExecutable));
                assert_eq!(e.message(), "Failed to find executable file!");
            }
        }
    }
}

#[test]
fn which_output_decoded_and_trimmed() {
    assert_eq!(executable_location(b"/usr/bin/firefox\n"), "/usr/bin/firefox");
    assert_eq!(executable_location(b""), "");
    assert_eq!(executable_location(&[0x2f, 0x61, 0xff, 0x0a]), "/a\u{fffd}");
}

#[test]
fn config_report() {
    let found = vec!["/home/u/.config/firefox".to_string(), "/home/u/.config/firefox2".to_string()];
    let none: Vec<String> = vec![];
    let report = handle_config_files(&found, &none, &found);
    assert!(report.report_by_application);
    assert!(!report.report_by_program);
    assert_eq!(report.candidate, Some("/home/u/.config/firefox".to_string()));
    let report = handle_config_files(&found, &found, &none);
    assert!(report.report_by_program);
    assert_eq!(report.candidate, None);
}

#[test]
fn config_directory_is_first_found() {
    let a = vec![];
    let b = vec!["/c/b1".to_string(), "/c/b2".to_string()];
    let c = vec!["/c/c1".to_string()];
    assert_eq!(select_config_directory(&vec![a.clone(), b.clone(), c.clone()]), Some("/c/b1".to_string()));
    assert_eq!(select_config_directory(&vec![a.clone(), b.clone()]), Some("/c/b1".to_string()));
    assert_eq!(select_config_directory(&vec![c.clone(), b.clone()]), Some("/c/c1".to_string()));
    assert_eq!(select_config_directory(&vec![a.clone(), a.clone(), a.clone()]), None);
    assert_eq!(select_config_directory(&vec![]), None);
}
