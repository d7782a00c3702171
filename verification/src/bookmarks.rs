//! The bookmark resolver and the sidebar row model.
//!
//! The sidebar is a fixed section of nine rows (home, a separator, five
//! well-known folders, a separator, trash) followed, when any drives were
//! discovered, by a separator, a non-activatable header, and one row per
//! drive. `resolve_spec` maps a row index to the absolute path its
//! activation should navigate to; separator and header rows, and any
//! undiscoverable well-known directory, resolve to nothing, which callers
//! treat as "ignore this activation".
//!
//! The well-known lookups go through dirs-next. Its user-directory lookups
//! parse the host's `user-dirs.dirs` file inside the dependency, and that
//! parser aborts on a line whose key is exactly `XDG_DIR`; nothing here can
//! exclude that malformed host file.

use vstd::prelude::*;
use crate::drives::{drive_views, DriveDescriptor, DriveDescriptorView};
use crate::paths::{is_abs, join_path, opt_view, path_join};

verus! {

/// The well-known directories as the platform reports them; any one of
/// them may be undiscoverable on a given system.
pub struct WellKnownDirs {
    pub home: Option<String>,
    pub downloads: Option<String>,
    pub documents: Option<String>,
    pub pictures: Option<String>,
    pub music: Option<String>,
    pub videos: Option<String>,
}

pub struct WellKnownDirsView {
    pub home: Option<Seq<char>>,
    pub downloads: Option<Seq<char>>,
    pub documents: Option<Seq<char>>,
    pub pictures: Option<Seq<char>>,
    pub music: Option<Seq<char>>,
    pub videos: Option<Seq<char>>,
}

impl View for WellKnownDirs {
    type V = WellKnownDirsView;

    open spec fn view(&self) -> WellKnownDirsView {
        WellKnownDirsView {
            home: opt_view(self.home),
            downloads: opt_view(self.downloads),
            documents: opt_view(self.documents),
            pictures: opt_view(self.pictures),
            music: opt_view(self.music),
            videos: opt_view(self.videos),
        }
    }
}

/// All given well-known directories are absolute.
pub open spec fn all_abs(dirs: WellKnownDirsView) -> bool {
    &&& (dirs.home matches Some(h) ==> is_abs(h))
    &&& (dirs.downloads matches Some(d) ==> is_abs(d))
    &&& (dirs.documents matches Some(d) ==> is_abs(d))
    &&& (dirs.pictures matches Some(d) ==> is_abs(d))
    &&& (dirs.music matches Some(d) ==> is_abs(d))
    &&& (dirs.videos matches Some(d) ==> is_abs(d))
}

/// All given drives mount at absolute paths.
pub open spec fn drives_abs(ds: Seq<DriveDescriptorView>) -> bool {
    forall|i: int| 0 <= i < ds.len() ==> is_abs(#[trigger] ds[i].mount_path)
}

/// Absolute inputs resolve absolutely: with every given directory and
/// mount path absolute, whatever a row resolves to is absolute too.
pub proof fn lemma_resolve_abs(
    index: int,
    dirs: WellKnownDirsView,
    drives: Seq<DriveDescriptorView>,
)
    requires
        all_abs(dirs),
        drives_abs(drives),
    ensures
        resolve_spec(index, dirs, drives) matches Some(p) ==> is_abs(p),
{
    if index == 8 {
        match dirs.home {
            Some(h) => {
                assert(join_path(h, ".local/share/Trash/files"@)[0] == h[0]);
            },
            None => {},
        }
    }
}

/// Where a sidebar row index resolves to, against the given well-known
/// directories and the currently discovered drive list.
pub open spec fn resolve_spec(
    index: int,
    dirs: WellKnownDirsView,
    drives: Seq<DriveDescriptorView>,
) -> Option<Seq<char>> {
    if index == 0 {
        dirs.home
    } else if index == 1 {
        None
    } else if index == 2 {
        dirs.downloads
    } else if index == 3 {
        dirs.documents
    } else if index == 4 {
        dirs.pictures
    } else if index == 5 {
        dirs.music
    } else if index == 6 {
        dirs.videos
    } else if index == 7 {
        None
    } else if index == 8 {
        match dirs.home {
            Some(h) => Some(join_path(h, ".local/share/Trash/files"@)),
            None => None,
        }
    } else if drives.len() > 0 && 11 <= index < 11 + drives.len() {
        Some(drives[index - 11].mount_path)
    } else {
        None
    }
}

/// Executable [`resolve_spec`], for a caller that already gathered the
/// well-known directories.
pub fn resolve_with(index: usize, dirs: &WellKnownDirs, drives: &Vec<DriveDescriptor>) -> (r:
    Option<String>)
    ensures
        opt_view(r) == resolve_spec(index as int, dirs@, drive_views(drives@)),
        all_abs(dirs@) && drives_abs(drive_views(drives@)) ==> (r matches Some(p) ==> is_abs(
            p@,
        )),
{
    proof {
        if all_abs(dirs@) && drives_abs(drive_views(drives@)) {
            lemma_resolve_abs(index as int, dirs@, drive_views(drives@));
        }
    }
    if index == 0 {
        clone_opt(&dirs.home)
    } else if index == 1 {
        None
    } else if index == 2 {
        clone_opt(&dirs.downloads)
    } else if index == 3 {
        clone_opt(&dirs.documents)
    } else if index == 4 {
        clone_opt(&dirs.pictures)
    } else if index == 5 {
        clone_opt(&dirs.music)
    } else if index == 6 {
        clone_opt(&dirs.videos)
    } else if index == 7 {
        None
    } else if index == 8 {
        match &dirs.home {
            Some(h) => Some(path_join(h.as_str(), ".local/share/Trash/files")),
            None => None,
        }
    } else if index >= 11 && index - 11 < drives.len() {
        proof {
            assert(drive_views(drives@)[index - 11].mount_path == drives@[index - 11].mount_path@);
        }
        Some(drives[index - 11].mount_path.clone())
    } else {
        None
    }
}

fn clone_opt(o: &Option<String>) -> (r: Option<String>)
    ensures
        opt_view(r) == opt_view(*o),
{
    match o {
        Some(s) => Some(s.clone()),
        None => None,
    }
}

/// Relies on dirs_next::home_dir: the platform home directory, absent when
/// undiscoverable; its source filters out an empty result.
#[verifier::external_body]
fn home_dir_lookup() -> (r: Option<String>)
    ensures
        r matches Some(p) ==> p@.len() > 0,
{
    dirs_next::home_dir().and_then(|p| p.into_os_string().into_string().ok())
}

/// Relies on dirs_next::download_dir: the user's download directory,
/// absent when undiscoverable; its source never yields an empty path.
#[verifier::external_body]
fn download_dir_lookup() -> (r: Option<String>)
    ensures
        r matches Some(p) ==> p@.len() > 0,
{
    dirs_next::download_dir().and_then(|p| p.into_os_string().into_string().ok())
}

/// Relies on dirs_next::document_dir: the user's document directory,
/// absent when undiscoverable; its source never yields an empty path.
#[verifier::external_body]
fn document_dir_lookup() -> (r: Option<String>)
    ensures
        r matches Some(p) ==> p@.len() > 0,
{
    dirs_next::document_dir().and_then(|p| p.into_os_string().into_string().ok())
}

/// Relies on dirs_next::picture_dir: the user's picture directory,
/// absent when undiscoverable; its source never yields an empty path.
#[verifier::external_body]
fn picture_dir_lookup() -> (r: Option<String>)
    ensures
        r matches Some(p) ==> p@.len() > 0,
{
    dirs_next::picture_dir().and_then(|p| p.into_os_string().into_string().ok())
}

/// Relies on dirs_next::audio_dir: the user's music directory, absent
/// when undiscoverable; its source never yields an empty path.
#[verifier::external_body]
fn audio_dir_lookup() -> (r: Option<String>)
    ensures
        r matches Some(p) ==> p@.len() > 0,
{
    dirs_next::audio_dir().and_then(|p| p.into_os_string().into_string().ok())
}

/// Relies on dirs_next::video_dir: the user's video directory, absent
/// when undiscoverable; its source never yields an empty path.
#[verifier::external_body]
fn video_dir_lookup() -> (r: Option<String>)
    ensures
        r matches Some(p) ==> p@.len() > 0,
{
    dirs_next::video_dir().and_then(|p| p.into_os_string().into_string().ok())
}

/// Gathers the six well-known directories from the platform.
pub fn well_known_dirs() -> (r: WellKnownDirs)
    ensures
        r@.home matches Some(h) ==> h.len() > 0,
        r@.downloads matches Some(p) ==> p.len() > 0,
        r@.documents matches Some(p) ==> p.len() > 0,
        r@.pictures matches Some(p) ==> p.len() > 0,
        r@.music matches Some(p) ==> p.len() > 0,
        r@.videos matches Some(p) ==> p.len() > 0,
{
    WellKnownDirs {
        home: home_dir_lookup(),
        downloads: download_dir_lookup(),
        documents: document_dir_lookup(),
        pictures: picture_dir_lookup(),
        music: audio_dir_lookup(),
        videos: video_dir_lookup(),
    }
}

/// Resolves a sidebar row against the platform's well-known directories
/// and the given drive list. Whatever the platform reports, separator and
/// header rows never resolve, and drive rows resolve exactly to their
/// drive's mount path.
pub fn resolve_bookmark(index: usize, drives: &Vec<DriveDescriptor>) -> (r: Option<String>)
    ensures
        index == 1 || index == 7 ==> r is None,
        drive_views(drives@).len() > 0 && (index == 9 || index == 10) ==> r is None,
        11 <= index && index - 11 < drive_views(drives@).len() ==> opt_view(r) == Some(
            drive_views(drives@)[index - 11].mount_path,
        ),
        index as int >= 11 + drive_views(drives@).len() ==> r is None,
        drive_views(drives@).len() == 0 && index >= 9 ==> r is None,
{
    let dirs = well_known_dirs();
    resolve_with(index, &dirs, drives)
}

/// How one sidebar row resolves.
#[derive(Clone, Copy, Debug, PartialEq, Eq, Structural)]
pub enum BookmarkRule {
    /// A fixed well-known place, resolved by the row's position.
    WellKnown,
    /// A non-activatable separator row.
    Separator,
    /// A non-activatable header row.
    Header,
    /// The drive at this index in the discovered drive list.
    Drive(usize),
}

/// One symbolic sidebar row.
#[derive(Clone, Debug, PartialEq, Eq)]
pub struct BookmarkEntry {
    pub label: String,
    pub icon_hint: String,
    pub rule: BookmarkRule,
}

pub struct BookmarkEntryView {
    pub label: Seq<char>,
    pub icon_hint: Seq<char>,
    pub rule: BookmarkRule,
}

impl View for BookmarkEntry {
    type V = BookmarkEntryView;

    open spec fn view(&self) -> BookmarkEntryView {
        BookmarkEntryView { label: self.label@, icon_hint: self.icon_hint@, rule: self.rule }
    }
}

pub open spec fn bookmark_views(bs: Seq<BookmarkEntry>) -> Seq<BookmarkEntryView> {
    bs.map_values(|b: BookmarkEntry| b@)
}

pub open spec fn separator_row() -> BookmarkEntryView {
    BookmarkEntryView {
        label: Seq::empty(),
        icon_hint: Seq::empty(),
        rule: BookmarkRule::Separator,
    }
}

/// The nine rows of the fixed sidebar section.
pub open spec fn fixed_rows() -> Seq<BookmarkEntryView> {
    seq![
        BookmarkEntryView { label: "Home"@, icon_hint: "go-home"@, rule: BookmarkRule::WellKnown },
        separator_row(),
        BookmarkEntryView {
            label: "Downloads"@,
            icon_hint: "folder-download"@,
            rule: BookmarkRule::WellKnown,
        },
        BookmarkEntryView {
            label: "Documents"@,
            icon_hint: "folder-documents"@,
            rule: BookmarkRule::WellKnown,
        },
        BookmarkEntryView {
            label: "Pictures"@,
            icon_hint: "folder-pictures"@,
            rule: BookmarkRule::WellKnown,
        },
        BookmarkEntryView {
            label: "Music"@,
            icon_hint: "folder-music"@,
            rule: BookmarkRule::WellKnown,
        },
        BookmarkEntryView {
            label: "Videos"@,
            icon_hint: "folder-videos"@,
            rule: BookmarkRule::WellKnown,
        },
        separator_row(),
        BookmarkEntryView {
            label: "Trash"@,
            icon_hint: "user-trash"@,
            rule: BookmarkRule::WellKnown,
        },
    ]
}

/// One row per discovered drive, in drive-list order.
pub open spec fn drive_rows(drives: Seq<DriveDescriptorView>) -> Seq<BookmarkEntryView> {
    Seq::new(
        drives.len(),
        |k: int|
            BookmarkEntryView {
                label: drives[k].name,
                icon_hint: drives[k].icon_hint,
                rule: BookmarkRule::Drive(k as usize),
            },
    )
}

/// The whole sidebar: the fixed section, then (only when drives were
/// discovered) a separator, the drives header, and the drive rows.
pub open spec fn sidebar_spec(drives: Seq<DriveDescriptorView>) -> Seq<BookmarkEntryView> {
    if drives.len() > 0 {
        fixed_rows() + seq![
            separator_row(),
            BookmarkEntryView {
                label: "DRIVES"@,
                icon_hint: Seq::empty(),
                rule: BookmarkRule::Header,
            },
        ] + drive_rows(drives)
    } else {
        fixed_rows()
    }
}

fn separator_entry() -> (r: BookmarkEntry)
    ensures
        r@ == separator_row(),
{
    BookmarkEntry { label: String::new(), icon_hint: String::new(), rule: BookmarkRule::Separator }
}

fn named_entry(label: &str, icon_hint: &str, rule: BookmarkRule) -> (r: BookmarkEntry)
    ensures
        r@ == (BookmarkEntryView { label: label@, icon_hint: icon_hint@, rule }),
{
    BookmarkEntry {
        label: String::from_str(label),
        icon_hint: String::from_str(icon_hint),
        rule,
    }
}

/// Builds the sidebar rows for the given drive list. Recomputed on every
/// sidebar construction or refresh; never cached across navigations.
pub fn sidebar_entries(drives: &Vec<DriveDescriptor>) -> (r: Vec<BookmarkEntry>)
    ensures
        bookmark_views(r@) == sidebar_spec(drive_views(drives@)),
{
    let mut out: Vec<BookmarkEntry> = Vec::new();
    out.push(named_entry("Home", "go-home", BookmarkRule::WellKnown));
    out.push(separator_entry());
    out.push(named_entry("Downloads", "folder-download", BookmarkRule::WellKnown));
    out.push(named_entry("Documents", "folder-documents", BookmarkRule::WellKnown));
    out.push(named_entry("Pictures", "folder-pictures", BookmarkRule::WellKnown));
    out.push(named_entry("Music", "folder-music", BookmarkRule::WellKnown));
    out.push(named_entry("Videos", "folder-videos", BookmarkRule::WellKnown));
    out.push(separator_entry());
    out.push(named_entry("Trash", "user-trash", BookmarkRule::WellKnown));
    proof {
        assert(bookmark_views(out@) =~= fixed_rows());
    }
    if drives.len() > 0 {
        out.push(separator_entry());
        out.push(
            BookmarkEntry {
                label: String::from_str("DRIVES"),
                icon_hint: String::new(),
                rule: BookmarkRule::Header,
            },
        );
        let ghost dv = drive_views(drives@);
        let ghost header = seq![
            separator_row(),
            BookmarkEntryView {
                label: "DRIVES"@,
                icon_hint: Seq::empty(),
                rule: BookmarkRule::Header,
            },
        ];
        proof {
            assert(bookmark_views(out@) =~= fixed_rows() + header);
        }
        let mut k: usize = 0;
        while k < drives.len()
            invariant
                k <= drives@.len(),
                dv == drive_views(drives@),
                header == seq![
                    separator_row(),
                    BookmarkEntryView {
                        label: "DRIVES"@,
                        icon_hint: Seq::empty(),
                        rule: BookmarkRule::Header,
                    },
                ],
                bookmark_views(out@) == fixed_rows() + header + drive_rows(dv).take(k as int),
            decreases drives@.len() - k,
        {
            let row = BookmarkEntry {
                label: drives[k].name.clone(),
                icon_hint: drives[k].icon_hint.clone(),
                rule: BookmarkRule::Drive(k),
            };
            proof {
                assert(row@ == drive_rows(dv)[k as int]);
            }
            let ghost prev = bookmark_views(out@);
            out.push(row);
            proof {
                assert(bookmark_views(out@) =~= prev.push(drive_rows(dv)[k as int]));
                assert(drive_rows(dv).take(k as int + 1) =~= drive_rows(dv).take(k as int).push(
                    drive_rows(dv)[k as int],
                ));
                assert(bookmark_views(out@) =~= fixed_rows() + header + drive_rows(dv).take(
                    k as int + 1,
                ));
            }
            k = k + 1;
        }
        proof {
            assert(drive_rows(dv).take(k as int) =~= drive_rows(dv));
            assert(bookmark_views(out@) =~= sidebar_spec(dv));
        }
    }
    out
}

/// The fixed sidebar geometry: the separator rows never resolve, the
/// drives header never resolves, nothing past the drive rows resolves, and
/// row 0 resolves exactly to the platform home directory when that is
/// discoverable.
pub proof fn lemma_bookmark_fixed_rows(dirs: WellKnownDirsView, drives: Seq<DriveDescriptorView>)
    ensures
        resolve_spec(0, dirs, drives) == dirs.home,
        resolve_spec(1, dirs, drives) is None,
        resolve_spec(7, dirs, drives) is None,
        drives.len() > 0 ==> resolve_spec(9, dirs, drives) is None,
        drives.len() > 0 ==> resolve_spec(10, dirs, drives) is None,
        forall|i: int| i >= 11 + drives.len() ==> #[trigger] resolve_spec(i, dirs, drives) is None,
        drives.len() == 0 ==> forall|i: int|
            i >= 9 ==> #[trigger] resolve_spec(i, dirs, drives) is None,
{
}

/// The sidebar rows and the resolver agree: a separator or header row
/// never resolves, and a drive row resolves to its own drive's mount path.
pub proof fn lemma_sidebar_resolution(
    dirs: WellKnownDirsView,
    drives: Seq<DriveDescriptorView>,
    i: int,
)
    requires
        0 <= i < sidebar_spec(drives).len(),
    ensures
        (sidebar_spec(drives)[i].rule is Separator || sidebar_spec(drives)[i].rule is Header)
            ==> resolve_spec(i, dirs, drives) is None,
        sidebar_spec(drives)[i].rule matches BookmarkRule::Drive(_) ==> resolve_spec(
            i,
            dirs,
            drives,
        ) == Some(drives[i - 11].mount_path),
{
    if i < 9 {
        assert(sidebar_spec(drives)[i] == fixed_rows()[i]);
    } else if drives.len() > 0 && i < 11 {
        assert(sidebar_spec(drives)[i] == (if i == 9 {
            separator_row()
        } else {
            BookmarkEntryView {
                label: "DRIVES"@,
                icon_hint: Seq::empty(),
                rule: BookmarkRule::Header,
            }
        }));
    } else {
        assert(drives.len() > 0 && 11 <= i);
        assert(sidebar_spec(drives)[i] == drive_rows(drives)[i - 11]);
    }
}

} // verus!
