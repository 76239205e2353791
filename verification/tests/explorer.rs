use hive::explorer::{drive_is_watched, indexed_prefix, is_hidden_entry, is_watched_folder, parent_directory};

#[test]
fn hidden_and_system_entries_are_left_out() {
    assert!(is_hidden_entry(".git"));
    assert!(is_hidden_entry("$RECYCLE.BIN"));
    assert!(!is_hidden_entry("Photos"));
    assert!(!is_hidden_entry(""));
}

#[test]
fn a_watched_folder_is_found_in_any_ascii_case() {
    let watched = vec!["C:\\Users\\Ana\\Pictures".to_string()];
    assert!(is_watched_folder(&watched, "c:\\users\\ana\\pictures"));
    assert!(!is_watched_folder(&watched, "C:\\Users\\Ana"));
}

#[test]
fn a_drive_is_watched_when_a_folder_on_it_is() {
    let watched = vec!["D:\\Photos".to_string()];
    assert!(drive_is_watched(&watched, "d:\\"));
    assert!(!drive_is_watched(&watched, "C:\\"));
}

#[test]
fn up_from_a_root_leads_nowhere() {
    assert_eq!(parent_directory("/home/ana/photos"), Some("/home/ana".to_string()));
    assert_eq!(parent_directory("/"), None);
    assert_eq!(parent_directory("photos"), None);
}

#[test]
fn indexed_photos_are_found_under_the_folder() {
    assert_eq!(indexed_prefix("C:\\Photos"), "C:\\Photos\\");
}

#[test]
fn folders_are_listed_by_name_in_any_case() {
    let names = vec!["beta".to_string(), "Alpha".to_string(), "alpha".to_string(), "Ärger".to_string()];
    // "alpha" twice (as read), then "beta", then "ärger" after every ASCII letter.
    assert_eq!(hive::explorer::directory_order(&names), vec![1, 2, 0, 3]);
    assert!(hive::explorer::directory_order(&vec![]).is_empty());
}
