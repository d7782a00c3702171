use casper::classify::IconClass;
use casper::listing::{build_listing, list, truncate_display_name, EntryKind, ListError, RawChild};
use casper::text::{contains_str, str_before};

fn child(name: &str, is_dir: bool) -> RawChild {
    RawChild { name: name.to_string(), is_dir }
}

#[test]
fn directories_precede_files_each_group_sorted() {
    let children = vec![
        child("zeta", true),
        child("notes.txt", false),
        child("Alpha", true),
        child("10", false),
        child("beta", true),
        child("1", false),
        child(".hidden", false),
    ];
    let listing = build_listing("/home/u", children);
    let names: Vec<&str> = listing.iter().map(|e| e.display_name.as_str()).collect();
    assert_eq!(names, vec!["Alpha", "beta", "zeta", ".hidden", "1", "10", "notes.txt"]);
    for e in listing.iter().take(3) {
        assert_eq!(e.kind, EntryKind::Directory);
        assert_eq!(e.icon_class, IconClass::Folder);
    }
    for e in listing.iter().skip(3) {
        assert_eq!(e.kind, EntryKind::File);
    }
}

#[test]
fn an_empty_directory_lists_nothing() {
    assert!(build_listing("/d", vec![]).is_empty());
}

#[test]
fn a_directory_and_a_file_with_the_same_name_keep_the_kind_order() {
    let listing = build_listing("/d", vec![child("x", false), child("x", true)]);
    assert_eq!(listing.len(), 2);
    assert_eq!(listing[0].kind, EntryKind::Directory);
    assert_eq!(listing[1].kind, EntryKind::File);
}

#[test]
fn byte_wise_order_is_case_sensitive() {
    let listing = build_listing("/d", vec![child("apple", false), child("Zebra", false)]);
    let names: Vec<&str> = listing.iter().map(|e| e.display_name.as_str()).collect();
    assert_eq!(names, vec!["Zebra", "apple"]);
}

#[test]
fn absolute_paths_parent_to_the_listed_directory() {
    let listing = build_listing(
        "/home/u",
        vec![child("Projects", true), child("notes.txt", false)],
    );
    assert_eq!(listing[0].absolute_path, "/home/u/Projects");
    assert_eq!(listing[1].absolute_path, "/home/u/notes.txt");
    for e in &listing {
        let parent = &e.absolute_path[..e.absolute_path.rfind('/').unwrap()];
        assert_eq!(parent, "/home/u");
    }
}

#[test]
fn listing_at_the_root_joins_cleanly() {
    let listing = build_listing("/", vec![child("etc", true)]);
    assert_eq!(listing[0].absolute_path, "/etc");
}

#[test]
fn hidden_flags_and_classification_at_listing_time() {
    let listing = build_listing(
        "/d",
        vec![child(".bashrc", false), child("movie.mp4", false), child(".git", true)],
    );
    let by_name = |n: &str| listing.iter().find(|e| e.display_name == n).unwrap().clone();
    assert!(by_name(".bashrc").hidden);
    assert_eq!(by_name(".bashrc").icon_class, IconClass::Generic);
    assert!(!by_name("movie.mp4").hidden);
    assert_eq!(by_name("movie.mp4").icon_class, IconClass::Video);
    assert!(by_name(".git").hidden);
    assert_eq!(by_name(".git").icon_class, IconClass::Folder);
    assert_eq!(by_name(".git").kind, EntryKind::Directory);
}

#[test]
fn listing_keeps_untruncated_names() {
    let long = "a_very_long_file_name_that_keeps_going.txt";
    let listing = build_listing("/d", vec![child(long, false)]);
    assert_eq!(listing[0].display_name, long);
}

#[test]
fn truncation_shortens_only_long_names() {
    let long = "abcdefghijklmnopqrstuvwxyz";
    assert_eq!(long.len(), 26);
    assert_eq!(truncate_display_name(long), "abcdefghijklmnopqrstuv...");
    let exact = "abcdefghijklmnopqrstuvwxy";
    assert_eq!(exact.len(), 25);
    assert_eq!(truncate_display_name(exact), exact);
    assert_eq!(truncate_display_name("short.txt"), "short.txt");
}

#[test]
fn truncation_counts_characters_not_bytes() {
    let long: String = "é".repeat(26);
    let cut = truncate_display_name(&long);
    let expected: String = "é".repeat(22) + "...";
    assert_eq!(cut, expected);
}

#[test]
fn list_orders_a_successful_read_and_surfaces_a_failed_one() {
    let ok = list("/d", Ok(vec![child("b.txt", false), child("a", true)]));
    let entries = ok.unwrap();
    assert_eq!(entries[0].display_name, "a");
    assert_eq!(entries[0].kind, EntryKind::Directory);
    assert_eq!(entries[1].display_name, "b.txt");

    let err = list("/d", Err(ListError::Unreadable("permission denied".to_string())));
    assert_eq!(err, Err(ListError::Unreadable("permission denied".to_string())));
}

#[test]
fn name_comparison_is_lexicographic_by_scalar_value() {
    assert!(str_before("A", "a"));
    assert!(str_before("Z", "a"));
    assert!(str_before("1", "10"));
    assert!(!str_before("10", "1"));
    assert!(!str_before("same", "same"));
    assert!(str_before("", "x"));
}

#[test]
fn substring_search() {
    assert!(contains_str("usb-Kingston", "usb"));
    assert!(!contains_str("wwn-0x5000", "usb"));
    assert!(contains_str("anything", ""));
    assert!(contains_str("part", "part"));
    assert!(!contains_str("par", "part"));
}
