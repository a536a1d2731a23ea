use blktopo::device::Devno;
use blktopo::mountinfo::parse_mountinfo_lines;
use blktopo::sysfs::{dm_type, is_partition, is_wholedisk, partition_number, SysFs};

#[test]
fn dm_type_strips_leading_part_segment() {
    assert_eq!(dm_type("part1-CRYPT-LUKS2-abcd1234").unwrap(), "CRYPT-LUKS2");
}

#[test]
fn dm_type_plain() {
    assert_eq!(dm_type("CRYPT-LUKS2-abcd1234").unwrap(), "CRYPT-LUKS2");
    assert_eq!(dm_type("LVM-xyz").unwrap(), "LVM-xyz");
}

#[test]
fn dm_type_requires_second_segment() {
    assert!(dm_type("nodash").is_err());
    assert!(dm_type("part1").is_err());
    assert!(dm_type("part1-LVM").is_err());
}

#[test]
fn partition_number_prefers_attribute_file() {
    assert_eq!(partition_number(Some(" 7\n"), None).unwrap(), Some(7));
    assert_eq!(
        partition_number(Some("2"), Some("part9-LVM-x")).unwrap(),
        Some(2)
    );
}

#[test]
fn partition_number_from_dm_uuid() {
    assert_eq!(partition_number(None, Some("part3-LVM-xyz")).unwrap(), Some(3));
    assert_eq!(partition_number(None, Some("part12-CRYPT-LUKS2-ab")).unwrap(), Some(12));
}

#[test]
fn partition_number_absent() {
    assert_eq!(partition_number(None, None).unwrap(), None);
    assert_eq!(partition_number(None, Some("LVM-xyz")).unwrap(), None);
}

#[test]
fn partition_number_malformed() {
    assert!(partition_number(Some("abc"), None).is_err());
    assert!(partition_number(None, Some("partx-LVM")).is_err());
    assert!(partition_number(None, Some("part-LVM")).is_err());
}

#[test]
fn partition_classification() {
    assert!(is_partition(None, Some("part3-LVM-xyz")).unwrap());
    assert!(!is_partition(None, None).unwrap());
    assert!(is_wholedisk(None, None).unwrap());
    assert!(!is_wholedisk(Some("1"), None).unwrap());
}

#[test]
fn locate_sysfs_and_build_paths() {
    let lines = vec![
        "1 1 0:2 / / rw - rootfs none rw".to_string(),
        "21 4 0:19 / /sys rw - sysfs sys rw".to_string(),
    ];
    let entries = parse_mountinfo_lines(&lines).unwrap();
    let fs = SysFs::new(&entries).unwrap();
    assert_eq!(fs.path(), "/sys");
    let d = Devno::from((8u32, 0u32));
    assert_eq!(fs.devno_link(&d), "/sys/dev/block/8:0");
    assert_eq!(fs.block_dir(), "/sys/block");
    assert_eq!(fs.dev_block_dir(), "/sys/dev/block");
}

#[test]
fn locate_sysfs_needs_matching_source() {
    let lines = vec!["21 4 0:19 / /sys rw - sysfs somethingelse rw".to_string()];
    let entries = parse_mountinfo_lines(&lines).unwrap();
    assert!(SysFs::new(&entries).is_err());
}
