use fivemenu::catalog::{
    collect_names, is_executable, label_precedes, load, sort_labels, FileEntry,
};

fn file(name: &str, mode: u32) -> FileEntry {
    FileEntry { name: Some(name.to_string()), regular: Some(true), mode: Some(mode) }
}

fn names(list: &[&str]) -> Vec<String> {
    list.iter().map(|s| s.to_string()).collect()
}

#[test]
fn load_sorts_across_directories() {
    let listings = vec![
        Some(vec![file("vim", 0o755), file("bash", 0o755)]),
        Some(vec![file("cat", 0o755), file("awk", 0o700)]),
    ];
    assert_eq!(load(&listings), names(&["awk", "bash", "cat", "vim"]));
}

#[test]
fn load_skips_unreadable_directories() {
    let listings = vec![None, Some(vec![file("ls", 0o755)]), None];
    assert_eq!(load(&listings), names(&["ls"]));
    assert_eq!(load(&vec![None]), Vec::<String>::new());
    assert_eq!(load(&Vec::new()), Vec::<String>::new());
}

#[test]
fn load_keeps_files_with_any_execute_bit() {
    let listings = vec![Some(vec![
        file("owner", 0o100),
        file("group", 0o010),
        file("other", 0o001),
        file("none", 0o644),
        file("all", 0o100777),
        file("plain", 0o100666),
    ])];
    assert_eq!(load(&listings), names(&["all", "group", "other", "owner"]));
}

#[test]
fn load_skips_what_is_no_regular_file() {
    let listings = vec![Some(vec![
        FileEntry { name: Some("dir".to_string()), regular: Some(false), mode: Some(0o755) },
        FileEntry { name: Some("unknown".to_string()), regular: None, mode: Some(0o755) },
        FileEntry { name: Some("nometa".to_string()), regular: Some(true), mode: None },
        FileEntry { name: None, regular: Some(true), mode: Some(0o755) },
        file("sh", 0o755),
    ])];
    assert_eq!(load(&listings), names(&["sh"]));
}

#[test]
fn load_keeps_duplicates() {
    let listings = vec![
        Some(vec![file("python", 0o755), file("ls", 0o755)]),
        Some(vec![file("python", 0o755)]),
    ];
    assert_eq!(load(&listings), names(&["ls", "python", "python"]));
}

#[test]
fn collect_names_keeps_the_order_read() {
    let listings = vec![
        Some(vec![file("vim", 0o755), file("notes", 0o644), file("bash", 0o755)]),
        None,
        Some(vec![file("cat", 0o755)]),
    ];
    assert_eq!(collect_names(&listings), names(&["vim", "bash", "cat"]));
}

#[test]
fn sort_labels_agrees_with_the_standard_order() {
    let labels = names(&[
        "zsh", "Zed", "a", "", "ab", "a", "[", "é", "e", "10", "9", "x-y", "x_y", "xy", "日本",
        "~",
    ]);
    let mut expected = labels.clone();
    expected.sort();
    assert_eq!(sort_labels(&labels), expected);
    assert_eq!(sort_labels(&Vec::new()), Vec::<String>::new());
}

#[test]
fn label_order() {
    assert!(label_precedes("", ""));
    assert!(label_precedes("", "a"));
    assert!(!label_precedes("a", ""));
    assert!(label_precedes("a", "ab"));
    assert!(!label_precedes("ab", "a"));
    assert!(label_precedes("ab", "ab"));
    assert!(label_precedes("B", "a"));
    assert!(!label_precedes("a", "B"));
    assert!(label_precedes("z", "é"));
    assert!(label_precedes("abc", "abd"));
    assert!(!label_precedes("abd", "abc"));
}

#[test]
fn execute_bits() {
    assert!(is_executable(0o755));
    assert!(is_executable(0o001));
    assert!(!is_executable(0o666));
    assert!(!is_executable(0));
    assert!(!is_executable(0o100644));
}
