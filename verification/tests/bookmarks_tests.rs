use casper::bookmarks::{
    resolve_bookmark,
    resolve_with,
    sidebar_entries,
    BookmarkRule,
    WellKnownDirs,
};
use casper::drives::{DriveDescriptor, DriveKind};

fn dirs() -> WellKnownDirs {
    WellKnownDirs {
        home: Some("/home/u".to_string()),
        downloads: Some("/home/u/Downloads".to_string()),
        documents: Some("/home/u/Documents".to_string()),
        pictures: Some("/home/u/Pictures".to_string()),
        music: Some("/home/u/Music".to_string()),
        videos: Some("/home/u/Videos".to_string()),
    }
}

fn drive(name: &str, path: &str) -> DriveDescriptor {
    DriveDescriptor {
        name: name.to_string(),
        mount_path: path.to_string(),
        icon_hint: "drive-removable-media".to_string(),
        kind: DriveKind::Removable,
    }
}

#[test]
fn fixed_rows_resolve_to_their_well_known_directories() {
    let no_drives: Vec<DriveDescriptor> = vec![];
    assert_eq!(resolve_with(0, &dirs(), &no_drives), Some("/home/u".to_string()));
    assert_eq!(resolve_with(2, &dirs(), &no_drives), Some("/home/u/Downloads".to_string()));
    assert_eq!(resolve_with(3, &dirs(), &no_drives), Some("/home/u/Documents".to_string()));
    assert_eq!(resolve_with(4, &dirs(), &no_drives), Some("/home/u/Pictures".to_string()));
    assert_eq!(resolve_with(5, &dirs(), &no_drives), Some("/home/u/Music".to_string()));
    assert_eq!(resolve_with(6, &dirs(), &no_drives), Some("/home/u/Videos".to_string()));
}

#[test]
fn separators_never_resolve() {
    let no_drives: Vec<DriveDescriptor> = vec![];
    assert_eq!(resolve_with(1, &dirs(), &no_drives), None);
    assert_eq!(resolve_with(7, &dirs(), &no_drives), None);
}

#[test]
fn trash_is_under_the_home_directory() {
    let no_drives: Vec<DriveDescriptor> = vec![];
    assert_eq!(
        resolve_with(8, &dirs(), &no_drives),
        Some("/home/u/.local/share/Trash/files".to_string())
    );
}

#[test]
fn undiscoverable_directories_resolve_to_nothing() {
    let empty = WellKnownDirs {
        home: None,
        downloads: None,
        documents: None,
        pictures: None,
        music: None,
        videos: None,
    };
    let no_drives: Vec<DriveDescriptor> = vec![];
    assert_eq!(resolve_with(0, &empty, &no_drives), None);
    assert_eq!(resolve_with(2, &empty, &no_drives), None);
    assert_eq!(resolve_with(8, &empty, &no_drives), None);
}

#[test]
fn drive_rows_resolve_past_the_header() {
    let two = vec![drive("SD", "/media/SD"), drive("USB", "/media/USB")];
    assert_eq!(resolve_with(9, &dirs(), &two), None);
    assert_eq!(resolve_with(10, &dirs(), &two), None);
    assert_eq!(resolve_with(11, &dirs(), &two), Some("/media/SD".to_string()));
    assert_eq!(resolve_with(12, &dirs(), &two), Some("/media/USB".to_string()));
    assert_eq!(resolve_with(13, &dirs(), &two), None);
}

#[test]
fn without_drives_nothing_resolves_past_the_fixed_rows() {
    let no_drives: Vec<DriveDescriptor> = vec![];
    assert_eq!(resolve_with(9, &dirs(), &no_drives), None);
    assert_eq!(resolve_with(10, &dirs(), &no_drives), None);
    assert_eq!(resolve_with(11, &dirs(), &no_drives), None);
}

#[test]
fn platform_resolution_honours_the_fixed_geometry() {
    // These hold whatever the host platform reports for its directories.
    let no_drives: Vec<DriveDescriptor> = vec![];
    assert_eq!(resolve_bookmark(1, &no_drives), None);
    assert_eq!(resolve_bookmark(7, &no_drives), None);
    assert_eq!(resolve_bookmark(9, &no_drives), None);
    if let Some(home) = resolve_bookmark(0, &no_drives) {
        assert!(!home.is_empty());
    }
    let one = vec![drive("SD", "/media/SD")];
    assert_eq!(resolve_bookmark(9, &one), None);
    assert_eq!(resolve_bookmark(10, &one), None);
    assert_eq!(resolve_bookmark(11, &one), Some("/media/SD".to_string()));
    assert_eq!(resolve_bookmark(12, &one), None);
}

#[test]
fn sidebar_has_nine_fixed_rows() {
    let no_drives: Vec<DriveDescriptor> = vec![];
    let rows = sidebar_entries(&no_drives);
    assert_eq!(rows.len(), 9);
    assert_eq!(rows[0].label, "Home");
    assert_eq!(rows[0].icon_hint, "go-home");
    assert_eq!(rows[0].rule, BookmarkRule::WellKnown);
    assert_eq!(rows[1].rule, BookmarkRule::Separator);
    assert_eq!(rows[2].label, "Downloads");
    assert_eq!(rows[7].rule, BookmarkRule::Separator);
    assert_eq!(rows[8].label, "Trash");
    assert_eq!(rows[8].icon_hint, "user-trash");
}

#[test]
fn sidebar_appends_discovered_drives_after_a_header() {
    let two = vec![drive("SD", "/media/SD"), drive("USB", "/media/USB")];
    let rows = sidebar_entries(&two);
    assert_eq!(rows.len(), 13);
    assert_eq!(rows[9].rule, BookmarkRule::Separator);
    assert_eq!(rows[10].label, "DRIVES");
    assert_eq!(rows[10].rule, BookmarkRule::Header);
    assert_eq!(rows[11].label, "SD");
    assert_eq!(rows[11].rule, BookmarkRule::Drive(0));
    assert_eq!(rows[12].label, "USB");
    assert_eq!(rows[12].rule, BookmarkRule::Drive(1));
}
