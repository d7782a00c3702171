use casper::classify::{classify, extension, is_hidden, IconClass};

#[test]
fn uppercase_pdf_is_a_document() {
    assert_eq!(classify("/a/b/report.PDF", false), IconClass::Document);
}

#[test]
fn dotfile_is_hidden() {
    assert!(is_hidden("/a/b/.bashrc"));
    assert_eq!(classify("/a/b/.bashrc", false), IconClass::Generic);
}

#[test]
fn directory_is_folder_regardless_of_suffix() {
    assert_eq!(classify("/a/b/archive.zip", true), IconClass::Folder);
    assert_eq!(classify("/a/b/archive.zip/", true), IconClass::Folder);
}

#[test]
fn ordinary_names_are_not_hidden() {
    assert!(!is_hidden("/a/b/report.pdf"));
    assert!(!is_hidden("/"));
    assert!(!is_hidden("/a/b/"));
}

#[test]
fn dot_aliases_name_no_component() {
    assert!(!is_hidden(".."));
    assert!(!is_hidden("/a/.."));
    assert!(!is_hidden("/a/."));
    assert_eq!(extension("/a/.."), None);
    assert_eq!(classify("/a/..", false), IconClass::Generic);
}

#[test]
fn trailing_separators_are_ignored() {
    assert!(is_hidden("/a/.hidden/"));
    assert_eq!(extension("/a/b/archive.zip/"), Some("zip".to_string()));
    assert_eq!(classify("/a/b/archive.zip/", false), IconClass::Archive);
}

#[test]
fn every_category_has_a_representative() {
    assert_eq!(classify("/d/notes.txt", false), IconClass::Document);
    assert_eq!(classify("/d/a.doc", false), IconClass::Document);
    assert_eq!(classify("/d/a.odt", false), IconClass::Document);
    assert_eq!(classify("/d/sheet.xlsx", false), IconClass::Spreadsheet);
    assert_eq!(classify("/d/deck.ppt", false), IconClass::Presentation);
    assert_eq!(classify("/d/pic.png", false), IconClass::Image);
    assert_eq!(classify("/d/pic.webp", false), IconClass::Image);
    assert_eq!(classify("/d/song.mp3", false), IconClass::Audio);
    assert_eq!(classify("/d/song.flac", false), IconClass::Audio);
    assert_eq!(classify("/d/clip.mkv", false), IconClass::Video);
    assert_eq!(classify("/d/pack.7z", false), IconClass::Archive);
    assert_eq!(classify("/d/x.tar.gz", false), IconClass::Archive);
    assert_eq!(classify("/d/main.rs", false), IconClass::SourceCode);
    assert_eq!(classify("/d/index.html", false), IconClass::SourceCode);
    assert_eq!(classify("/d/run.sh", false), IconClass::Executable);
    assert_eq!(classify("/d/tool.AppImage", false), IconClass::Executable);
}

#[test]
fn unknown_or_missing_extension_is_generic() {
    assert_eq!(classify("/d/data.xyz", false), IconClass::Generic);
    assert_eq!(classify("/d/Makefile", false), IconClass::Generic);
    assert_eq!(classify("/d/trailing.", false), IconClass::Generic);
}

#[test]
fn case_insensitive_lookup() {
    assert_eq!(classify("/d/photo.JPeG", false), IconClass::Image);
    assert_eq!(classify("/d/x.TaR", false), IconClass::Archive);
}

#[test]
fn extension_extraction() {
    assert_eq!(extension("/a/b/report.PDF"), Some("PDF".to_string()));
    assert_eq!(extension("/a/b/.bashrc"), None);
    assert_eq!(extension("/a/b/Makefile"), None);
    assert_eq!(extension("/a/b/x.tar.gz"), Some("gz".to_string()));
    assert_eq!(extension("/a/b/trailing."), Some("".to_string()));
    assert_eq!(extension("/a/b/.config.bak"), Some("bak".to_string()));
}

#[test]
fn icon_names_for_categories() {
    assert_eq!(IconClass::Folder.icon_name(), "folder");
    assert_eq!(IconClass::Document.icon_name(), "x-office-document");
    assert_eq!(IconClass::Generic.icon_name(), "text-x-generic");
    assert_eq!(IconClass::Executable.icon_name(), "application-x-executable");
}
