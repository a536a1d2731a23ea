use blktopo::devices::{skip_proc_devices_header, DeviceIterator, Devices};

fn device_list() -> Vec<String> {
    vec![
        "Character devices:".to_string(),
        "  1 mem".to_string(),
        "".to_string(),
        "Block devices:".to_string(),
        "  8 SD".to_string(),
        "253 device-mapper".to_string(),
        " 65 sd".to_string(),
    ]
}

#[test]
fn header_predicate() {
    assert!(skip_proc_devices_header("Character devices:"));
    assert!(skip_proc_devices_header("  8 sd"));
    assert!(!skip_proc_devices_header("Block devices:"));
}

#[test]
fn remap_lower_cases_names() {
    let (id, name) = DeviceIterator::remap("  8 SD ").unwrap();
    assert_eq!(id, 8);
    assert_eq!(name, "sd");
}

#[test]
fn remap_rejects_malformed() {
    assert!(DeviceIterator::remap("8").is_err());
    assert!(DeviceIterator::remap("8 sd extra").is_err());
    assert!(DeviceIterator::remap("x sd").is_err());
    assert!(DeviceIterator::remap("").is_err());
}

#[test]
fn iterator_starts_after_header() {
    let mut it = DeviceIterator::new(device_list());
    assert_eq!(it.next().unwrap().unwrap(), (8, "sd".to_string()));
    assert_eq!(it.next().unwrap().unwrap(), (253, "device-mapper".to_string()));
    assert_eq!(it.next().unwrap().unwrap(), (65, "sd".to_string()));
    assert!(it.next().is_none());
}

#[test]
fn iterator_without_header_is_empty() {
    let mut it = DeviceIterator::new(vec!["Character devices:".to_string(), "1 mem".to_string()]);
    assert!(it.next().is_none());
}

#[test]
fn refresh_and_lookup_by_id() {
    let mut d = Devices::new("/proc");
    assert_eq!(d.path(), "/proc");
    assert!(d.get_by_id(8).is_none());
    d.refresh(&device_list()).unwrap();
    assert_eq!(d.get_by_id(8).as_deref(), Some("sd"));
    assert_eq!(d.get_by_id(253).as_deref(), Some("device-mapper"));
    assert!(d.get_by_id(7).is_none());
}

#[test]
fn lookup_by_name_collects_majors_ascending() {
    let mut d = Devices::new("/proc");
    d.refresh(&device_list()).unwrap();
    assert_eq!(d.get_by_name("sd").unwrap(), vec![8, 65]);
    assert_eq!(d.get_by_name("device-mapper").unwrap(), vec![253]);
    assert!(d.get_by_name("SD").is_none());
    assert!(d.get_by_name("loop").is_none());
}

#[test]
fn later_line_overrides_earlier() {
    let mut d = Devices::new("/proc");
    let lines = vec![
        "Block devices:".to_string(),
        "8 sd".to_string(),
        "8 md".to_string(),
    ];
    d.refresh(&lines).unwrap();
    assert_eq!(d.get_by_id(8).as_deref(), Some("md"));
}

#[test]
fn malformed_line_keeps_old_snapshot() {
    let mut d = Devices::new("/proc");
    d.refresh(&device_list()).unwrap();
    let bad = vec!["Block devices:".to_string(), "not a line at all".to_string()];
    assert!(d.refresh(&bad).is_err());
    assert_eq!(d.get_by_id(8).as_deref(), Some("sd"));
}
