use blktopo::devfs::{scan_action, DevFs, ScanAction};
use blktopo::device::Devno;
use blktopo::mountinfo::parse_mountinfo_lines;

fn devfs() -> DevFs {
    let lines = vec!["22 4 0:5 / /dev rw - devtmpfs dev rw".to_string()];
    let entries = parse_mountinfo_lines(&lines).unwrap();
    DevFs::new(&entries).unwrap()
}

#[test]
fn locate_devfs_and_build_paths() {
    let fs = devfs();
    assert_eq!(fs.path(), "/dev");
    let d = Devno::from((8u32, 0u32));
    assert_eq!(fs.blocks_alias(&d), "/dev/blocks/8:0");
    assert_eq!(fs.mapper_path("cryptroot"), "/dev/mapper/cryptroot");
}

#[test]
fn cached_pair_is_served_without_rescan() {
    let mut fs = devfs();
    let d = Devno::from((8u32, 0u32));
    assert!(fs.cache_get(&d).is_none());
    fs.cache_insert(d, "/dev/sda".to_string());
    // The node still exists, is a block device, and carries the same
    // number: the association is served, with no need to rescan.
    let meta = Some((true, d.raw()));
    assert_eq!(fs.find_in_cache(&d, meta).as_deref(), Some("/dev/sda"));
    // And it stays cached afterwards.
    assert_eq!(fs.cache_get(&d).as_deref(), Some("/dev/sda"));
}

#[test]
fn stale_pair_is_evicted() {
    let mut fs = devfs();
    let d = Devno::from((8u32, 0u32));
    fs.cache_insert(d, "/dev/sda".to_string());
    // The node was removed and recreated with another number: the
    // entry is dropped, so the next lookup rescans.
    let other = Devno::from((8u32, 16u32));
    assert!(fs.find_in_cache(&d, Some((true, other.raw()))).is_none());
    assert!(fs.cache_get(&d).is_none());
    // A vanished node is just as stale.
    fs.cache_insert(d, "/dev/sda".to_string());
    assert!(fs.find_in_cache(&d, None).is_none());
    // A node that is no longer a block device too.
    fs.cache_insert(d, "/dev/sda".to_string());
    assert!(fs.find_in_cache(&d, Some((false, d.raw()))).is_none());
}

#[test]
fn eviction_keeps_other_entries() {
    let mut fs = devfs();
    let a = Devno::from((8u32, 0u32));
    let b = Devno::from((8u32, 1u32));
    fs.cache_insert(a, "/dev/sda".to_string());
    fs.cache_insert(b, "/dev/sda1".to_string());
    assert!(fs.find_in_cache(&a, None).is_none());
    assert_eq!(fs.cache_get(&b).as_deref(), Some("/dev/sda1"));
}

#[test]
fn alias_taken_only_for_block_devices() {
    let d = Devno::from((8u32, 0u32));
    // Present and a block device: the alias answers the lookup.
    assert!(DevFs::alias_usable(Some((true, d.raw()))));
    // Absent, or present but not a block device: fall through.
    assert!(!DevFs::alias_usable(None));
    assert!(!DevFs::alias_usable(Some((false, d.raw()))));
}

#[test]
fn scan_classification() {
    assert_eq!(scan_action("sda", true, false, true), ScanAction::Skip);
    assert_eq!(scan_action(".udev", false, true, false), ScanAction::Skip);
    assert_eq!(scan_action("shm", false, true, false), ScanAction::Skip);
    assert_eq!(scan_action("disk", false, true, false), ScanAction::Recurse);
    assert_eq!(scan_action("sda", false, false, true), ScanAction::Yield);
    assert_eq!(scan_action("null", false, false, false), ScanAction::Skip);
}
