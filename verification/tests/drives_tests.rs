use casper::drives::{
    discover_from_scan,
    DeviceLink,
    DriveKind,
    MountScan,
    UserMounts,
};

fn empty_scan() -> MountScan {
    MountScan { media: vec![], mnt: vec![], run_media: vec![], device_ids: vec![] }
}

#[test]
fn an_empty_scan_discovers_nothing() {
    assert!(discover_from_scan(empty_scan()).is_empty());
}

#[test]
fn mounts_and_whole_disks_are_discovered_and_sorted_by_name() {
    let scan = MountScan {
        media: vec!["USB1".to_string()],
        mnt: vec![],
        run_media: vec![UserMounts { user: "u".to_string(), mounts: vec!["SD".to_string()] }],
        device_ids: vec![
            DeviceLink {
                id_name: "usb-Kingston_DataTraveler-0:0".to_string(),
                target_name: Some("sdb".to_string()),
            },
            DeviceLink {
                id_name: "usb-Kingston_DataTraveler-0:0-part1".to_string(),
                target_name: Some("sdb1".to_string()),
            },
            DeviceLink { id_name: "ata-WDC_WD10EZEX-1".to_string(), target_name: None },
            DeviceLink { id_name: "wwn-0x5000c500".to_string(), target_name: Some("sda".to_string()) },
        ],
    };
    let drives = discover_from_scan(scan);
    let names: Vec<&str> = drives.iter().map(|d| d.name.as_str()).collect();
    // The eject marker (U+23CF) sorts before the floppy-disk marker
    // (U+1F4BE), which sorts before the mobile-phone marker (U+1F4F1).
    assert_eq!(names, vec!["\u{23CF}\u{FE0F} 0:0", "\u{1F4BE} USB1", "\u{1F4F1} SD"]);

    assert_eq!(drives[0].mount_path, "/dev/sdb");
    assert_eq!(drives[0].icon_hint, "drive-harddisk");
    assert_eq!(drives[0].kind, DriveKind::Removable);

    assert_eq!(drives[1].mount_path, "/media/USB1");
    assert_eq!(drives[1].icon_hint, "drive-removable-media");

    assert_eq!(drives[2].mount_path, "/run/media/u/SD");
    assert_eq!(drives[2].icon_hint, "drive-removable-media");
}

#[test]
fn partition_identifiers_and_unresolved_links_are_skipped() {
    let scan = MountScan {
        media: vec![],
        mnt: vec![],
        run_media: vec![],
        device_ids: vec![
            DeviceLink { id_name: "usb-Stick-part2".to_string(), target_name: Some("sdc2".to_string()) },
            DeviceLink { id_name: "ata-Disk-3".to_string(), target_name: None },
        ],
    };
    assert!(discover_from_scan(scan).is_empty());
}

#[test]
fn device_names_take_the_last_dash_part() {
    let scan = MountScan {
        media: vec![],
        mnt: vec![],
        run_media: vec![],
        device_ids: vec![
            DeviceLink { id_name: "usbdisk".to_string(), target_name: Some("sdd".to_string()) },
        ],
    };
    let drives = discover_from_scan(scan);
    assert_eq!(drives.len(), 1);
    assert_eq!(drives[0].name, "\u{23CF}\u{FE0F} usbdisk");
    assert_eq!(drives[0].mount_path, "/dev/sdd");
}

#[test]
fn mnt_children_are_descriptors_too() {
    let scan = MountScan {
        media: vec![],
        mnt: vec!["backup".to_string()],
        run_media: vec![],
        device_ids: vec![],
    };
    let drives = discover_from_scan(scan);
    assert_eq!(drives.len(), 1);
    assert_eq!(drives[0].name, "\u{1F4BE} backup");
    assert_eq!(drives[0].mount_path, "/mnt/backup");
}
