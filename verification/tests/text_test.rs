use blktopo::num::{format_decimal, parse_decimal};
use blktopo::procfs::{mount_id_from_syscall, mtab_procfs_candidate, rfind_char};
use blktopo::tokens::{split_tokens, str_eq, str_starts_with, trim};

#[test]
fn decimal_parse_and_format() {
    assert_eq!(parse_decimal("0", u64::MAX), Some(0));
    assert_eq!(parse_decimal("4096", u64::MAX), Some(4096));
    assert_eq!(parse_decimal("255", 255), Some(255));
    assert_eq!(parse_decimal("256", 255), None);
    assert_eq!(parse_decimal("", u64::MAX), None);
    assert_eq!(parse_decimal("12a", u64::MAX), None);
    assert_eq!(parse_decimal("18446744073709551615", u64::MAX), Some(u64::MAX));
    assert_eq!(parse_decimal("18446744073709551616", u64::MAX), None);
    assert_eq!(format_decimal(0), "0");
    assert_eq!(format_decimal(907), "907");
    assert_eq!(format_decimal(u64::MAX), "18446744073709551615");
}

#[test]
fn tokenization() {
    let toks = split_tokens("  a  bb\tccc \n");
    assert_eq!(toks, vec!["a", "bb", "ccc"]);
    assert_eq!(split_tokens(""), Vec::<String>::new());
    assert_eq!(split_tokens("   "), Vec::<String>::new());
}

#[test]
fn string_helpers() {
    assert!(str_eq("abc", "abc"));
    assert!(!str_eq("abc", "abd"));
    assert!(!str_eq("abc", "ab"));
    assert!(str_starts_with("CRYPT-LUKS2", "CRYPT-LUKS"));
    assert!(!str_starts_with("CRYPT", "CRYPT-LUKS"));
    assert_eq!(trim("  x y\n"), "x y");
    assert_eq!(trim("\t\n "), "");
    assert_eq!(trim("plain"), "plain");
}

#[test]
fn mount_id_syscall_outcomes() {
    // Success: the filled-in id is used.
    assert_eq!(mount_id_from_syscall(false, false, 7), Some(7));
    // Size-overflow failure: the id is still filled in and used.
    assert_eq!(mount_id_from_syscall(true, true, 7), Some(7));
    // Any other failure: no id; the query degrades to device-number
    // matching.
    assert_eq!(mount_id_from_syscall(true, false, 7), None);
}

#[test]
fn rfind_and_mtab_candidate() {
    assert_eq!(rfind_char("/proc/self/mtab", '/'), Some(10));
    assert_eq!(rfind_char("nope", '/'), None);
    assert_eq!(
        mtab_procfs_candidate("/proc/self/mtab").as_deref(),
        Some("/proc")
    );
    assert_eq!(
        mtab_procfs_candidate("/run/proc/self/mtab").as_deref(),
        Some("/run/proc")
    );
    assert!(mtab_procfs_candidate("/self/mtab").is_none());
    assert!(mtab_procfs_candidate("/proc/other/mtab").is_none());
    assert!(mtab_procfs_candidate("/etc/mtab.bak").is_none());
    assert!(mtab_procfs_candidate("mtab").is_none());
}
