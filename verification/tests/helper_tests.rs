use uninstall::helper::{
    application_directories, find_display_name, get_search_directories, handle_binary_input,
    handle_selection_input, is_desktop_file_name,
};

#[test]
fn binary_answers() {
    assert_eq!(handle_binary_input("y\n"), Some(true));
    assert_eq!(handle_binary_input("yes"), Some(true));
    assert_eq!(handle_binary_input("  no \n"), Some(false));
    assert_eq!(handle_binary_input("n"), Some(false));
    assert_eq!(handle_binary_input("nein\r\n"), Some(false));
    assert_eq!(handle_binary_input("Yes"), None);
    assert_eq!(handle_binary_input(""), None);
    assert_eq!(handle_binary_input("y e s"), None);
}

#[test]
fn selection_answers() {
    assert_eq!(handle_selection_input("2\n", 3), Some(2));
    assert_eq!(handle_selection_input("0\n", 3), Some(0));
    assert_eq!(handle_selection_input("3\n", 3), None);
    assert_eq!(handle_selection_input("x\n", 3), None);
    assert_eq!(handle_selection_input(" +1 ", 3), Some(1));
    assert_eq!(handle_selection_input("-1", 3), None);
    assert_eq!(handle_selection_input("1", 0), None);
}

#[test]
fn base_directories_that_exist() {
    let dirs = get_search_directories(vec![""], vec!["/a", "/b", "/c"], "/x:/y", vec![true, false, true]);
    assert_eq!(dirs, vec!["/a".to_string(), "/c".to_string()]);
    let none = get_search_directories(vec![], vec!["/a"], "", vec![false]);
    assert!(none.is_empty());
}

#[test]
fn path_directories_last_first_without_excluded() {
    let dirs = get_search_directories(vec!["/usr/bin"], vec![""], "/bin:/usr/bin:/sbin", vec![]);
    assert_eq!(dirs, vec!["/sbin".to_string(), "/bin".to_string()]);
    let all = get_search_directories(vec![""], vec![""], "/bin:/usr/bin", vec![]);
    assert_eq!(all, vec!["/usr/bin".to_string(), "/bin".to_string()]);
    let two = get_search_directories(vec!["/a", "/b"], vec![""], "/a:/b:/c:/a", vec![]);
    assert_eq!(two, vec!["/c".to_string()]);
    let empty = get_search_directories(vec![""], vec![""], "", vec![]);
    assert_eq!(empty, vec!["".to_string()]);
}

#[test]
fn desktop_entry_directories() {
    let dirs = application_directories("/home/u");
    assert_eq!(dirs, vec!["/usr/share/applications/".to_string(), "/home/u/.local/share/applications/".to_string()]);
}

#[test]
fn desktop_file_names() {
    assert!(is_desktop_file_name("firefox.desktop"));
    assert!(is_desktop_file_name(".desktop"));
    assert!(!is_desktop_file_name("firefox.desktop~"));
    assert!(!is_desktop_file_name("mimeinfo.cache"));
}

#[test]
fn display_name_lookup() {
    let contents = "[Desktop Entry]\nName[de]=Feuerfuchs\nName=Mozilla Firefox\nName=firefox\n";
    assert_eq!(find_display_name(contents, "MOZILLA firefox"), Some("Mozilla Firefox".to_string()));
    assert_eq!(find_display_name(contents, "FIREFOX"), Some("firefox".to_string()));
    assert_eq!(find_display_name(contents, "Feuerfuchs"), None);
    assert_eq!(find_display_name("", "x"), None);
    assert_eq!(find_display_name("Name=\r\n", ""), Some("".to_string()));
}

#[test]
fn more_exclusions_fewer_directories() {
    let path = "/a:/b:/c:/b:/d";
    let fewer = get_search_directories(vec!["/b"], vec![""], path, vec![]);
    let more = get_search_directories(vec!["/b", "/d"], vec![""], path, vec![]);
    assert_eq!(fewer, vec!["/d".to_string(), "/c".to_string(), "/a".to_string()]);
    assert_eq!(more, vec!["/c".to_string(), "/a".to_string()]);
    let mut rest = fewer.iter();
    for d in &more {
        assert!(rest.any(|f| f == d));
    }
}
