use blktopo::device::Devno;
use blktopo::mountinfo::{
    find_mount, find_mount_of_path, parse_mountinfo_lines, MountInfo, MountInfos,
};

fn canonical_line() -> &'static str {
    "36 20 8:1 / /mnt rw,relatime shared:7 - ext4 /dev/sda1 rw"
}

#[test]
fn parse_canonical_line() {
    let m = MountInfo::from_str(canonical_line()).unwrap();
    assert_eq!(m.id, 36);
    assert_eq!(m.parent_id, 20);
    assert_eq!(m.dev.major(), 8);
    assert_eq!(m.dev.minor(), 1);
    assert_eq!(m.root, "/");
    assert_eq!(m.mount_point, "/mnt");
    assert_eq!(m.mount_options, "rw,relatime");
    assert_eq!(m.fields, vec!["shared:7".to_string()]);
    assert_eq!(m.file_system, "ext4");
    assert_eq!(m.source.as_deref(), Some("/dev/sda1"));
    assert_eq!(m.super_options, "rw");
}

#[test]
fn parse_then_format_preserves_line() {
    let m = MountInfo::from_str(canonical_line()).unwrap();
    assert_eq!(m.format_line(), canonical_line());
}

#[test]
fn parse_then_format_without_fields() {
    let line = "21 4 0:19 / /sys rw - sysfs sys rw";
    let m = MountInfo::from_str(line).unwrap();
    assert_eq!(m.fields, Vec::<String>::new());
    assert_eq!(m.format_line(), line);
}

#[test]
fn parse_then_format_with_several_fields() {
    let line = "543 61 0:61 / /opt ro shared:245 master:1 propagate_from:9 - overlay overlay rw,lowerdir=/a";
    let m = MountInfo::from_str(line).unwrap();
    assert_eq!(
        m.fields,
        vec![
            "shared:245".to_string(),
            "master:1".to_string(),
            "propagate_from:9".to_string()
        ]
    );
    assert_eq!(m.format_line(), line);
}

#[test]
fn extra_trailing_tokens_are_ignored() {
    let m = MountInfo::from_str("36 20 8:1 / /mnt rw - ext4 sda1 rw trailing junk").unwrap();
    assert_eq!(m.super_options, "rw");
}

#[test]
fn source_none_is_absent() {
    let line = "1 1 0:2 / / rw - rootfs none rw";
    let m = MountInfo::from_str(line).unwrap();
    assert!(m.source.is_none());
    assert_eq!(m.format_line(), line);
}

#[test]
fn reject_malformed_lines() {
    // No separator token at all.
    assert!(MountInfo::from_str("36 20 8:1 / /mnt rw ext4 sda1 rw").is_err());
    // Too few tokens after the separator.
    assert!(MountInfo::from_str("36 20 8:1 / /mnt rw - ext4 sda1").is_err());
    // Malformed id and device number.
    assert!(MountInfo::from_str("x 20 8:1 / /mnt rw - ext4 sda1 rw").is_err());
    assert!(MountInfo::from_str("36 20 units / /mnt rw - ext4 sda1 rw").is_err());
    // Whitespace-only input is rejected, never a panic.
    assert!(MountInfo::from_str("   ").is_err());
    assert!(MountInfo::from_str("").is_err());
}

fn sample_table() -> Vec<MountInfo> {
    let lines = vec![
        "1 1 0:2 / / rw - rootfs none rw".to_string(),
        "21 4 0:19 / /sys rw - sysfs sys rw".to_string(),
        "22 4 0:5 / /dev rw - devtmpfs dev rw".to_string(),
        "36 20 8:1 / /mnt rw shared:7 - ext4 /dev/sda1 rw".to_string(),
    ];
    parse_mountinfo_lines(&lines).unwrap()
}

#[test]
fn find_mount_by_type_and_source() {
    let entries = sample_table();
    let i = find_mount(&entries, "sysfs", "sys").unwrap();
    assert_eq!(entries[i].mount_point, "/sys");
    let j = find_mount(&entries, "devtmpfs", "dev").unwrap();
    assert_eq!(entries[j].mount_point, "/dev");
    assert!(find_mount(&entries, "proc", "proc").is_none());
    // An absent source never matches.
    assert!(find_mount(&entries, "rootfs", "none").is_none());
}

#[test]
fn find_mount_of_path_prefers_mount_id() {
    let entries = sample_table();
    let dev = Devno::from((8u32, 1u32));
    // With a resolved mount id, the id decides.
    let i = find_mount_of_path(&entries, Some(21), dev).unwrap();
    assert_eq!(entries[i].mount_point, "/sys");
    // Without one, the device number decides.
    let j = find_mount_of_path(&entries, None, dev).unwrap();
    assert_eq!(entries[j].mount_point, "/mnt");
    assert!(find_mount_of_path(&entries, None, Devno::from((99u32, 9u32))).is_none());
}

#[test]
fn mount_id_is_authoritative_over_device_number() {
    // Two mounts of the same device: a bind mount first, the queried
    // mount after it. The device number cannot tell them apart; the
    // resolved mount id picks the right one even though the
    // dev-matching bind mount comes first in file order.
    let lines = vec![
        "40 20 8:1 /srv /bind rw - ext4 /dev/sda1 rw".to_string(),
        "41 20 8:1 / /real rw - ext4 /dev/sda1 rw".to_string(),
    ];
    let entries = parse_mountinfo_lines(&lines).unwrap();
    let dev = Devno::from((8u32, 1u32));
    let i = find_mount_of_path(&entries, Some(41), dev).unwrap();
    assert_eq!(entries[i].mount_point, "/real");
    // An id that matches nothing is a miss, never a dev fallback.
    assert!(find_mount_of_path(&entries, Some(99), dev).is_none());
}

#[test]
fn parse_lines_rejects_any_malformed_line() {
    let lines = vec![
        "21 4 0:19 / /sys rw - sysfs sys rw".to_string(),
        "broken".to_string(),
    ];
    assert!(parse_mountinfo_lines(&lines).is_err());
}

#[test]
fn mountinfos_paths() {
    let t = MountInfos::new("/tmp/somewhere");
    assert_eq!(t.path(), "/tmp/somewhere");
    let t = MountInfos::from_procfs("/proc");
    assert_eq!(t.path(), "/proc/self/mountinfo");
}
