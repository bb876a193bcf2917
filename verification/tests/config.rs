use porthole::config::Config;

#[test]
fn add_folder_deduplicates() {
    let mut config = Config::default();
    config.add_folder("/home/user/Music".to_string());
    config.add_folder("/home/user/Music".to_string());
    assert_eq!(config.folders, vec!["/home/user/Music".to_string()]);
}

#[test]
fn remove_folder_removes_only_matching_entry() {
    let mut config = Config::default();
    config.add_folder("/a".to_string());
    config.add_folder("/b".to_string());
    config.remove_folder("/a");
    assert_eq!(config.folders, vec!["/b".to_string()]);
}

#[test]
fn add_folder_compares_paths_by_components() {
    let mut config = Config::default();
    config.add_folder("/home/user/Music".to_string());
    config.add_folder("/home/user/Music/".to_string());
    config.add_folder("/home//user/Music".to_string());
    assert_eq!(config.folders, vec!["/home/user/Music".to_string()]);
    config.remove_folder("/home/user/./Music");
    assert!(config.folders.is_empty());
}

#[test]
fn remove_after_add_restores_list() {
    let mut config = Config::default();
    config.add_folder("/x".to_string());
    config.add_folder("/y".to_string());
    config.add_folder("/z".to_string());
    config.remove_folder("/z");
    assert_eq!(config.folders, vec!["/x".to_string(), "/y".to_string()]);
    config.remove_folder("/nowhere");
    assert_eq!(config.folders, vec!["/x".to_string(), "/y".to_string()]);
}

#[test]
fn different_paths_are_both_kept() {
    let mut config = Config::default();
    config.add_folder("/a".to_string());
    config.add_folder("/b".to_string());
    assert_eq!(config.folders, vec!["/a".to_string(), "/b".to_string()]);
}
