//! Drive discovery: removable-drive descriptors from conventional mount
//! roots and device identifiers.
//!
//! The caller scans the fixed roots (`/media`, `/mnt`, `/run/media` one
//! level deeper per user, and `/dev/disk/by-id` with symbolic links
//! resolved) and hands the engine what it found; unreadable roots are
//! simply absent. The engine builds one descriptor per mount or whole-disk
//! identifier, labels it with a kind marker ahead of its name (floppy disk
//! for fixed mount roots, mobile phone for per-user mounts, eject for
//! whole disks), and orders them all ascending by that label. Nothing is
//! cached: every sidebar refresh starts from a fresh scan.

use vstd::prelude::*;
use crate::order::{insert_by_key, lemma_insert_by_key_at, sort_by_key, HasKey};
use crate::paths::{join_path, path_join};
use crate::text::{
    after_last,
    contains_seq,
    contains_str,
    str_before,
    suffix_after_last,
    text_lt,
};

verus! {

/// The kind of discovered storage.
#[derive(Clone, Copy, Debug, PartialEq, Eq, Structural)]
pub enum DriveKind {
    System,
    Removable,
    Network,
}

/// One discovered drive: a human label, the path activation navigates to,
/// an icon hint, and the kind.
#[derive(Clone, Debug, PartialEq, Eq)]
pub struct DriveDescriptor {
    pub name: String,
    pub mount_path: String,
    pub icon_hint: String,
    pub kind: DriveKind,
}

pub struct DriveDescriptorView {
    pub name: Seq<char>,
    pub mount_path: Seq<char>,
    pub icon_hint: Seq<char>,
    pub kind: DriveKind,
}

impl View for DriveDescriptor {
    type V = DriveDescriptorView;

    open spec fn view(&self) -> DriveDescriptorView {
        DriveDescriptorView {
            name: self.name@,
            mount_path: self.mount_path@,
            icon_hint: self.icon_hint@,
            kind: self.kind,
        }
    }
}

impl HasKey for DriveDescriptorView {
    open spec fn key(&self) -> Seq<char> {
        self.name
    }
}

/// One per-user branch under the user-mount root: the user directory's
/// name and the names of the mounts inside it.
#[derive(Clone, Debug, PartialEq, Eq)]
pub struct UserMounts {
    pub user: String,
    pub mounts: Vec<String>,
}

pub struct UserMountsView {
    pub user: Seq<char>,
    pub mounts: Seq<Seq<char>>,
}

impl View for UserMounts {
    type V = UserMountsView;

    open spec fn view(&self) -> UserMountsView {
        UserMountsView { user: self.user@, mounts: names_view(self.mounts@) }
    }
}

/// One entry of the device-identifier directory, with the final component
/// of its resolved link target where resolution succeeded.
#[derive(Clone, Debug, PartialEq, Eq)]
pub struct DeviceLink {
    pub id_name: String,
    pub target_name: Option<String>,
}

pub struct DeviceLinkView {
    pub id_name: Seq<char>,
    pub target_name: Option<Seq<char>>,
}

impl View for DeviceLink {
    type V = DeviceLinkView;

    open spec fn view(&self) -> DeviceLinkView {
        DeviceLinkView {
            id_name: self.id_name@,
            target_name: crate::paths::opt_view(self.target_name),
        }
    }
}

/// What one scan of the fixed roots found.
pub struct MountScan {
    /// Names of the directories directly under `/media`.
    pub media: Vec<String>,
    /// Names of the directories directly under `/mnt`.
    pub mnt: Vec<String>,
    /// The per-user branches under `/run/media`.
    pub run_media: Vec<UserMounts>,
    /// The entries of `/dev/disk/by-id`.
    pub device_ids: Vec<DeviceLink>,
}

pub struct MountScanView {
    pub media: Seq<Seq<char>>,
    pub mnt: Seq<Seq<char>>,
    pub run_media: Seq<UserMountsView>,
    pub device_ids: Seq<DeviceLinkView>,
}

impl View for MountScan {
    type V = MountScanView;

    open spec fn view(&self) -> MountScanView {
        MountScanView {
            media: names_view(self.media@),
            mnt: names_view(self.mnt@),
            run_media: users_view(self.run_media@),
            device_ids: devices_view(self.device_ids@),
        }
    }
}

pub open spec fn names_view(ns: Seq<String>) -> Seq<Seq<char>> {
    ns.map_values(|n: String| n@)
}

pub open spec fn users_view(us: Seq<UserMounts>) -> Seq<UserMountsView> {
    us.map_values(|u: UserMounts| u@)
}

pub open spec fn devices_view(ds: Seq<DeviceLink>) -> Seq<DeviceLinkView> {
    ds.map_values(|d: DeviceLink| d@)
}

pub open spec fn drive_views(ds: Seq<DriveDescriptor>) -> Seq<DriveDescriptorView> {
    ds.map_values(|d: DriveDescriptor| d@)
}

/// The descriptor for one mount directly under `root`. Its label carries a
/// leading kind marker (and a space) ahead of the mount's own name; the
/// marker takes part in the byte-wise ordering like any other text.
pub open spec fn mount_row(marker: Seq<char>, root: Seq<char>, name: Seq<char>) -> DriveDescriptorView {
    DriveDescriptorView {
        name: marker + name,
        mount_path: join_path(root, name),
        icon_hint: "drive-removable-media"@,
        kind: DriveKind::Removable,
    }
}

pub open spec fn mount_rows(marker: Seq<char>, root: Seq<char>, names: Seq<Seq<char>>) -> Seq<
    DriveDescriptorView,
> {
    names.map_values(|n: Seq<char>| mount_row(marker, root, n))
}

/// The descriptors for one user's branch under `/run/media`, labelled with
/// the mobile-phone marker.
pub open spec fn user_rows(u: UserMountsView) -> Seq<DriveDescriptorView> {
    mount_rows("\u{1F4F1} "@, join_path("/run/media"@, u.user), u.mounts)
}

pub open spec fn run_media_rows(us: Seq<UserMountsView>) -> Seq<DriveDescriptorView>
    decreases us.len(),
{
    if us.len() == 0 {
        Seq::empty()
    } else {
        run_media_rows(us.drop_last()) + user_rows(us.last())
    }
}

/// Whether a device identifier names a whole USB- or ATA-attached disk:
/// not a partition identifier, and attached by usb or ata.
pub open spec fn is_disk_id(id: Seq<char>) -> bool {
    !contains_seq(id, "part"@) && (contains_seq(id, "usb"@) || contains_seq(id, "ata"@))
}

/// The descriptor for one whole-disk identifier whose link resolved to the
/// device `target` under `/dev`: labelled with the eject marker and the
/// identifier's last dash-part.
pub open spec fn device_row(id: Seq<char>, target: Seq<char>) -> DriveDescriptorView {
    DriveDescriptorView {
        name: "\u{23CF}\u{FE0F} "@ + after_last(id, '-'),
        mount_path: join_path("/dev"@, target),
        icon_hint: "drive-harddisk"@,
        kind: DriveKind::Removable,
    }
}

pub open spec fn device_rows(ds: Seq<DeviceLinkView>) -> Seq<DriveDescriptorView>
    decreases ds.len(),
{
    if ds.len() == 0 {
        Seq::empty()
    } else {
        let rest = device_rows(ds.drop_last());
        let d = ds.last();
        if is_disk_id(d.id_name) && d.target_name is Some {
            rest.push(device_row(d.id_name, d.target_name->0))
        } else {
            rest
        }
    }
}

/// Everything one scan discovers, sorted ascending by label: fixed-root
/// mounts carry the floppy-disk marker, per-user mounts the mobile-phone
/// marker, whole disks the eject marker.
pub open spec fn discover_spec(scan: MountScanView) -> Seq<DriveDescriptorView> {
    sort_by_key(
        mount_rows("\u{1F4BE} "@, "/media"@, scan.media) + mount_rows(
            "\u{1F4BE} "@,
            "/mnt"@,
            scan.mnt,
        ) + run_media_rows(scan.run_media) + device_rows(scan.device_ids),
    )
}

/// Inserts `d` at its sorted position by name.
fn insert_drive(out: &mut Vec<DriveDescriptor>, d: DriveDescriptor)
    ensures
        drive_views(final(out)@) == insert_by_key(d@, drive_views(old(out)@)),
{
    let ghost s = drive_views(out@);
    let mut idx: usize = 0;
    while idx < out.len() && !str_before(d.name.as_str(), out[idx].name.as_str())
        invariant
            out@ == old(out)@,
            s == drive_views(out@),
            idx <= out@.len(),
            forall|k: int| 0 <= k < idx ==> !text_lt(d@.name, #[trigger] s[k].key()),
        decreases out@.len() - idx,
    {
        proof {
            assert(s[idx as int].key() == out@[idx as int].name@);
        }
        idx = idx + 1;
    }
    proof {
        if idx < out@.len() {
            assert(s[idx as int].key() == out@[idx as int].name@);
        }
        lemma_insert_by_key_at(d@, s, idx as int);
    }
    out.insert(idx, d);
    proof {
        assert(drive_views(out@) =~= s.subrange(0, idx as int) + seq![d@] + s.subrange(
            idx as int,
            s.len() as int,
        ));
    }
}

/// Appends one descriptor per name in `names`, each mounted under `root`
/// and labelled with `marker` ahead of its name.
fn push_mount_rows(out: &mut Vec<DriveDescriptor>, marker: &str, root: &str, names: Vec<String>)
    ensures
        drive_views(final(out)@) == drive_views(old(out)@) + mount_rows(
            marker@,
            root@,
            names_view(names@),
        ),
{
    let ghost ns = names_view(names@);
    let ghost base = drive_views(out@);
    let mut src = names;
    let ghost mut i: int = 0;
    while src.len() > 0
        invariant
            0 <= i <= ns.len(),
            names_view(src@) == ns.skip(i),
            drive_views(out@) == base + mount_rows(marker@, root@, ns.take(i)),
        decreases src@.len(),
    {
        proof {
            assert(names_view(src@).len() == src@.len());
            assert(i < ns.len());
        }
        let ghost pre = src@;
        let n = src.remove(0);
        proof {
            assert(names_view(pre)[0] == n@);
            assert(n@ == ns[i]);
            assert forall|k: int| 0 <= k < src@.len() implies #[trigger] names_view(src@)[k]
                == ns.skip(i + 1)[k] by {
                assert(src@[k] == pre[k + 1]);
                assert(names_view(pre)[k + 1] == ns.skip(i)[k + 1]);
            }
            assert(names_view(src@) =~= ns.skip(i + 1));
        }
        let path = path_join(root, n.as_str());
        let mut label = String::from_str(marker);
        label.append(n.as_str());
        let d = DriveDescriptor {
            name: label,
            mount_path: path,
            icon_hint: String::from_str("drive-removable-media"),
            kind: DriveKind::Removable,
        };
        proof {
            assert(d@ == mount_row(marker@, root@, ns[i]));
        }
        let ghost prev = drive_views(out@);
        out.push(d);
        proof {
            assert(drive_views(out@) =~= prev.push(mount_row(marker@, root@, ns[i])));
            assert(mount_rows(marker@, root@, ns.take(i + 1)) =~= mount_rows(
                marker@,
                root@,
                ns.take(i),
            ).push(mount_row(marker@, root@, ns[i])));
            assert(drive_views(out@) =~= base + mount_rows(marker@, root@, ns.take(i + 1)));
            i = i + 1;
        }
    }
    proof {
        assert(ns.take(i) =~= ns);
    }
}

/// Appends the rows for every user branch under `/run/media`.
fn push_run_media_rows(out: &mut Vec<DriveDescriptor>, users: Vec<UserMounts>)
    ensures
        drive_views(final(out)@) == drive_views(old(out)@) + run_media_rows(
            users_view(users@),
        ),
{
    let ghost us = users_view(users@);
    let ghost base = drive_views(out@);
    let mut src = users;
    let ghost mut i: int = 0;
    while src.len() > 0
        invariant
            0 <= i <= us.len(),
            users_view(src@) == us.skip(i),
            drive_views(out@) == base + run_media_rows(us.take(i)),
        decreases src@.len(),
    {
        proof {
            assert(users_view(src@).len() == src@.len());
            assert(i < us.len());
        }
        let ghost pre = src@;
        let u = src.remove(0);
        proof {
            assert(users_view(pre)[0] == u@);
            assert(u@ == us[i]);
            assert forall|k: int| 0 <= k < src@.len() implies #[trigger] users_view(src@)[k]
                == us.skip(i + 1)[k] by {
                assert(src@[k] == pre[k + 1]);
                assert(users_view(pre)[k + 1] == us.skip(i)[k + 1]);
            }
            assert(users_view(src@) =~= us.skip(i + 1));
        }
        let root = path_join("/run/media", u.user.as_str());
        push_mount_rows(out, "\u{1F4F1} ", root.as_str(), u.mounts);
        proof {
            assert(us.take(i + 1).drop_last() =~= us.take(i));
            assert(us.take(i + 1).last() == us[i]);
            assert(mount_rows("\u{1F4F1} "@, root@, names_view(u.mounts@)) =~= user_rows(us[i]));
            assert(drive_views(out@) =~= base + run_media_rows(us.take(i + 1)));
            i = i + 1;
        }
    }
    proof {
        assert(us.take(i) =~= us);
    }
}

/// Appends one row per whole-disk device identifier whose link resolved.
fn push_device_rows(out: &mut Vec<DriveDescriptor>, devices: Vec<DeviceLink>)
    ensures
        drive_views(final(out)@) == drive_views(old(out)@) + device_rows(
            devices_view(devices@),
        ),
{
    let ghost ds = devices_view(devices@);
    let ghost base = drive_views(out@);
    let mut src = devices;
    let ghost mut i: int = 0;
    while src.len() > 0
        invariant
            0 <= i <= ds.len(),
            devices_view(src@) == ds.skip(i),
            drive_views(out@) == base + device_rows(ds.take(i)),
        decreases src@.len(),
    {
        proof {
            assert(devices_view(src@).len() == src@.len());
            assert(i < ds.len());
        }
        let ghost pre = src@;
        let d = src.remove(0);
        let ghost dv = d@;
        proof {
            assert(devices_view(pre)[0] == dv);
            assert(dv == ds[i]);
            assert forall|k: int| 0 <= k < src@.len() implies #[trigger] devices_view(src@)[k]
                == ds.skip(i + 1)[k] by {
                assert(src@[k] == pre[k + 1]);
                assert(devices_view(pre)[k + 1] == ds.skip(i)[k + 1]);
            }
            assert(devices_view(src@) =~= ds.skip(i + 1));
        }
        let ghost prev = drive_views(out@);
        let id = d.id_name;
        let keep = !contains_str(id.as_str(), "part") && (contains_str(id.as_str(), "usb")
            || contains_str(id.as_str(), "ata"));
        if keep {
            match d.target_name {
                Some(t) => {
                    let tail = suffix_after_last(id.as_str(), '-');
                    let mut label = String::from_str("\u{23CF}\u{FE0F} ");
                    label.append(tail.as_str());
                    let path = path_join("/dev", t.as_str());
                    let row = DriveDescriptor {
                        name: label,
                        mount_path: path,
                        icon_hint: String::from_str("drive-harddisk"),
                        kind: DriveKind::Removable,
                    };
                    proof {
                        assert(row@ == device_row(dv.id_name, dv.target_name->0));
                    }
                    out.push(row);
                    proof {
                        assert(drive_views(out@) =~= prev.push(
                            device_row(dv.id_name, dv.target_name->0),
                        ));
                    }
                },
                None => {},
            }
        }
        proof {
            assert(ds.take(i + 1).drop_last() =~= ds.take(i));
            assert(ds.take(i + 1).last() == ds[i]);
            if is_disk_id(dv.id_name) && dv.target_name is Some {
                assert(device_rows(ds.take(i + 1)) == device_rows(ds.take(i)).push(
                    device_row(dv.id_name, dv.target_name->0),
                ));
            } else {
                assert(device_rows(ds.take(i + 1)) == device_rows(ds.take(i)));
            }
            assert(drive_views(out@) =~= base + device_rows(ds.take(i + 1)));
            i = i + 1;
        }
    }
    proof {
        assert(ds.take(i) =~= ds);
    }
}

/// Sorts descriptors ascending by name; the result is exactly the
/// specification-level sort.
fn sort_drives(v: Vec<DriveDescriptor>) -> (r: Vec<DriveDescriptor>)
    ensures
        drive_views(r@) == sort_by_key(drive_views(v@)),
{
    let ghost orig = drive_views(v@);
    let mut src = v;
    let mut out: Vec<DriveDescriptor> = Vec::new();
    let ghost mut i: int = 0;
    while src.len() > 0
        invariant
            0 <= i <= orig.len(),
            drive_views(src@) == orig.skip(i),
            drive_views(out@) == sort_by_key(orig.take(i)),
        decreases src@.len(),
    {
        proof {
            assert(drive_views(src@).len() == src@.len());
            assert(i < orig.len());
        }
        let ghost pre = src@;
        let d = src.remove(0);
        proof {
            assert(drive_views(pre)[0] == d@);
            assert(d@ == orig[i]);
            assert forall|k: int| 0 <= k < src@.len() implies #[trigger] drive_views(src@)[k]
                == orig.skip(i + 1)[k] by {
                assert(src@[k] == pre[k + 1]);
                assert(drive_views(pre)[k + 1] == orig.skip(i)[k + 1]);
            }
            assert(drive_views(src@) =~= orig.skip(i + 1));
        }
        insert_drive(&mut out, d);
        proof {
            assert(orig.take(i + 1).drop_last() =~= orig.take(i));
            assert(orig.take(i + 1).last() == orig[i]);
            i = i + 1;
        }
    }
    proof {
        assert(orig.take(i) =~= orig);
    }
    out
}

/// The discovered drive list is totally ordered by name, ascending.
pub proof fn lemma_discover_sorted(scan: MountScanView)
    ensures
        crate::order::key_sorted(discover_spec(scan)),
{
    crate::order::lemma_sort_by_key_sorted(
        mount_rows("\u{1F4BE} "@, "/media"@, scan.media) + mount_rows(
            "\u{1F4BE} "@,
            "/mnt"@,
            scan.mnt,
        ) + run_media_rows(scan.run_media) + device_rows(scan.device_ids),
    );
}

/// Builds the ordered drive list from one scan of the fixed roots.
pub fn discover_from_scan(scan: MountScan) -> (r: Vec<DriveDescriptor>)
    ensures
        drive_views(r@) == discover_spec(scan@),
{
    let mut rows: Vec<DriveDescriptor> = Vec::new();
    push_mount_rows(&mut rows, "\u{1F4BE} ", "/media", scan.media);
    push_mount_rows(&mut rows, "\u{1F4BE} ", "/mnt", scan.mnt);
    push_run_media_rows(&mut rows, scan.run_media);
    push_device_rows(&mut rows, scan.device_ids);
    sort_drives(rows)
}

} // verus!
