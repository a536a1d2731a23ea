use blktopo::blocks::{
    devno_from_metadata, is_device_mapper_driver, is_dm_type, is_dm_types, is_luks, is_luks2,
    parent_from_slaves, parent_plan, parse_dev_attr, partition_scan, partitions_from_children,
    resolve_plan, reverse_scan_members, slaves_from_entries, slaves_scan, Blocks, ParentPlan,
    PartitionScan, SlavesScan,
};
use blktopo::devfs::DevFs;
use blktopo::device::Devno;
use blktopo::error::TopoError;
use blktopo::mountinfo::parse_mountinfo_lines;
use blktopo::procfs::ProcFs;
use blktopo::sysfs::SysFs;

fn some(t: &str) -> Option<String> {
    Some(t.to_string())
}

#[test]
fn driver_name_rule() {
    assert!(is_device_mapper_driver("device-mapper"));
    assert!(!is_device_mapper_driver("sd"));
}

#[test]
fn membership_is_exact_not_prefix() {
    let candidates = vec!["CRYPT-LUKS".to_string(), "LVM-x".to_string()];
    assert!(!is_dm_types(true, &some("CRYPT-LUKS2"), &candidates).unwrap());
    assert!(is_dm_types(true, &some("CRYPT-LUKS"), &candidates).unwrap());
    assert!(!is_dm_types(false, &some("CRYPT-LUKS"), &candidates).unwrap());
    assert_eq!(
        is_dm_types(true, &None, &candidates).unwrap_err(),
        TopoError::InvalidData
    );
    assert!(!is_dm_type(true, &some("CRYPT-LUKS2"), "CRYPT-LUKS").unwrap());
}

#[test]
fn luks_classification() {
    assert!(is_luks(&some("CRYPT-LUKS1")));
    assert!(is_luks(&some("CRYPT-LUKS2")));
    assert!(!is_luks(&some("CRYPT-PLAIN")));
    assert!(!is_luks(&None));
    assert!(is_luks2(true, &some("CRYPT-LUKS2")).unwrap());
    assert!(!is_luks2(true, &some("CRYPT-LUKS2x")).unwrap());
    assert!(!is_luks2(true, &some("CRYPT-LUKS1")).unwrap());
    assert!(!is_luks2(false, &some("CRYPT-LUKS2")).unwrap());
}

#[test]
fn partition_scan_selection() {
    assert_eq!(partition_scan(false, false, false), PartitionScan::Empty);
    assert_eq!(partition_scan(true, false, false), PartitionScan::Children);
    assert_eq!(partition_scan(true, true, false), PartitionScan::Empty);
    assert_eq!(partition_scan(true, true, true), PartitionScan::ReverseScan);
}

#[test]
fn slaves_scan_selection() {
    assert_eq!(slaves_scan(true), SlavesScan::Empty);
    assert_eq!(slaves_scan(false), SlavesScan::ReadSlavesDir);
}

#[test]
fn parent_plan_selection() {
    assert_eq!(parent_plan(true, true), ParentPlan::FirstSlave);
    assert_eq!(parent_plan(false, true), ParentPlan::FirstSlave);
    assert_eq!(parent_plan(true, false), ParentPlan::NoParent);
    assert_eq!(parent_plan(false, false), ParentPlan::ParentDirDev);
}

#[test]
fn luks_parent_needs_one_slave() {
    let d = Devno::from((8u32, 1u32));
    assert_eq!(parent_from_slaves(Some(d)).unwrap(), Some(d));
    assert_eq!(parent_from_slaves(None).unwrap_err(), TopoError::NotFound);
}

#[test]
fn dev_attribute_parsing() {
    assert_eq!(parse_dev_attr("8:1\n").unwrap(), Devno::from((8u32, 1u32)));
    assert_eq!(parse_dev_attr(" 253:0 ").unwrap(), Devno::from((253u32, 0u32)));
    assert_eq!(parse_dev_attr("junk").unwrap_err(), TopoError::InvalidData);
}

#[test]
fn stat_of_caller_path() {
    let d = devno_from_metadata(true, 2048).unwrap();
    assert_eq!(d.raw(), 2048);
    assert_eq!(devno_from_metadata(false, 2048).unwrap_err(), TopoError::InvalidInput);
}

#[test]
fn partitions_come_from_marked_children_only() {
    let children = vec![
        (true, "8:1\n".to_string()),
        (false, "".to_string()),
        (true, " 8:2 ".to_string()),
        (false, "not even read".to_string()),
    ];
    let out = partitions_from_children(&children).unwrap();
    assert_eq!(out, vec![Devno::from((8u32, 1u32)), Devno::from((8u32, 2u32))]);
    assert_eq!(partitions_from_children(&Vec::new()).unwrap(), Vec::<Devno>::new());
    let bad = vec![(true, "nonsense".to_string())];
    assert_eq!(partitions_from_children(&bad).unwrap_err(), TopoError::InvalidData);
}

#[test]
fn slaves_map_each_entry() {
    let entries = vec!["8:1\n".to_string(), "253:0".to_string()];
    let out = slaves_from_entries(&entries).unwrap();
    assert_eq!(out, vec![Devno::from((8u32, 1u32)), Devno::from((253u32, 0u32))]);
    assert!(slaves_from_entries(&vec!["bad".to_string()]).is_err());
}

#[test]
fn reverse_scan_selects_by_parent() {
    let sda = Devno::from((8u32, 0u32));
    let sda1 = Devno::from((8u32, 1u32));
    let dm0 = Devno::from((253u32, 0u32));
    let dm1 = Devno::from((253u32, 1u32));
    let devices = vec![
        (sda, None),
        (sda1, Some(sda)),
        (dm0, Some(sda1)),
        (dm1, Some(dm0)),
    ];
    assert_eq!(reverse_scan_members(&devices, dm0), vec![dm1]);
    assert_eq!(reverse_scan_members(&devices, sda), vec![sda1]);
    assert_eq!(reverse_scan_members(&devices, dm1), Vec::<Devno>::new());
}

fn fixture_fs() -> (ProcFs, SysFs, DevFs) {
    let lines = vec![
        "1 1 0:2 / / rw - rootfs none rw".to_string(),
        "21 4 0:19 / /sys rw - sysfs sys rw".to_string(),
        "22 4 0:5 / /dev rw - devtmpfs dev rw".to_string(),
    ];
    let entries = parse_mountinfo_lines(&lines).unwrap();
    let procfs = ProcFs::remap(Some("/proc".to_string())).unwrap();
    let sysfs = SysFs::new(&entries).unwrap();
    let devfs = DevFs::new(&entries).unwrap();
    (procfs, sysfs, devfs)
}

#[test]
fn mapper_alias_resolution() {
    let (_, _, devfs) = fixture_fs();
    assert_eq!(
        resolve_plan(&devfs, true, &some("cryptroot")).unwrap(),
        Some("/dev/mapper/cryptroot".to_string())
    );
    assert_eq!(resolve_plan(&devfs, false, &None).unwrap(), None);
    assert_eq!(
        resolve_plan(&devfs, true, &None).unwrap_err(),
        TopoError::InvalidData
    );
}

// A fixture of whole disk sda (8:0), its partition sda1 (8:1), and a
// LUKS device-mapper device dm-0 (253:0) whose single slave is sda1,
// driven through the resolution rules as the live system would be.
#[test]
fn end_to_end_fixture() {
    let (mut procfs, sysfs, devfs) = fixture_fs();
    procfs
        .refresh_devices(&vec![
            "Block devices:".to_string(),
            "  8 sd".to_string(),
            "253 device-mapper".to_string(),
        ])
        .unwrap();
    let mut blocks = Blocks::new(procfs, sysfs, devfs);

    let sda = Devno::from((8u32, 0u32));
    let sda1 = Devno::from((8u32, 1u32));
    let dm0 = Devno::from((253u32, 0u32));
    let dm0_uuid = "CRYPT-LUKS2-abcd1234-cryptroot";

    // Classification from the registry and the sysfs attributes.
    let sda_driver = blocks.procfs().get_driver(sda.major());
    assert!(!ProcFs::is_type(&sda_driver, "device-mapper"));
    let dm0_driver = blocks.procfs().get_driver(dm0.major());
    assert!(ProcFs::is_type(&dm0_driver, "device-mapper"));
    let dm0_type = blktopo::sysfs::dm_type(dm0_uuid).unwrap();
    assert!(is_luks(&Some(dm0_type.clone())));

    // resolve_path(sda): not device-mapper, so straight to the devfs
    // cache; a scan discovered /dev/sda, and the cached pair is served.
    assert_eq!(resolve_plan(blocks.devfs(), false, &None).unwrap(), None);
    blocks.cache_insert(sda, "/dev/sda".to_string());
    let got = blocks.find_in_cache(&sda, Some((true, sda.raw())));
    assert_eq!(got.as_deref(), Some("/dev/sda"));

    // partitions_of(sda): an ordinary whole disk enumerates its sysfs
    // children carrying a partition marker; the child yields its own
    // dev attribute.
    assert_eq!(partition_scan(true, false, false), PartitionScan::Children);
    assert_eq!(parse_dev_attr("8:1\n").unwrap(), sda1);

    // is_luks(dm-0) is true; slaves_of(dm-0) is empty by rule;
    // parent_of(dm-0) is its single slave sda1.
    assert_eq!(slaves_scan(true), SlavesScan::Empty);
    assert_eq!(parent_plan(true, true), ParentPlan::FirstSlave);
    assert_eq!(parent_from_slaves(Some(sda1)).unwrap(), Some(sda1));

    // partitions_of(dm-0): the reverse scan walks every block device
    // and keeps those whose parent is dm-0. In the fixture only dm-0
    // itself has a parent (sda1), so nothing names dm-0 as parent.
    assert_eq!(partition_scan(true, true, true), PartitionScan::ReverseScan);
    let devices = vec![(sda, None), (sda1, None), (dm0, Some(sda1))];
    assert!(reverse_scan_members(&devices, dm0).is_empty());

    // parent_of(sda1): a plain partition reads the dev attribute of
    // the sysfs directory one level up, which is sda's.
    assert_eq!(parent_plan(false, false), ParentPlan::ParentDirDev);
    assert_eq!(parse_dev_attr("8:0\n").unwrap(), sda);
}
