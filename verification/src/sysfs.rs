//! Sysfs topology: locating the sysfs mount, building the per-device
//! node path, and the device-mapper uuid grammar.

use crate::device::{find_char, find_char_at, spec_format_devno, Devno};
use crate::error::TopoError;
use crate::mountinfo::{find_mount, mount_matches, MountInfo};
use crate::num::{decimal_value, is_decimal_string, parse_decimal};
use crate::tokens::{spec_starts_with, spec_trim, str_starts_with, trim};
use vstd::prelude::*;

verus! {

/// The sysfs pseudo-filesystem, by its mount point.
pub struct SysFs {
    path: String,
}

impl SysFs {
    /// The mount point of this sysfs.
    pub closed spec fn spec_path(&self) -> Seq<char> {
        self.path@
    }

    /// Locate sysfs among the mount entries: the first mount of
    /// filesystem type `sysfs` with source `sys`.
    pub fn new(mounts: &Vec<MountInfo>) -> (r: Result<SysFs, TopoError>)
        ensures
            match r {
                Ok(fs) => exists|i: int|
                    {
                        &&& 0 <= i < mounts.len()
                        &&& mount_matches(#[trigger] mounts@[i]@, "sysfs"@, "sys"@)
                        &&& fs.spec_path() == mounts@[i]@.mount_point
                        &&& forall|k: int|
                            0 <= k < i ==> !mount_matches(#[trigger] mounts@[k]@, "sysfs"@, "sys"@)
                    },
                Err(e) => {
                    &&& e == TopoError::NotFound
                    &&& forall|k: int|
                        0 <= k < mounts.len() ==> !mount_matches(
                            #[trigger] mounts@[k]@,
                            "sysfs"@,
                            "sys"@,
                        )
                },
            },
    {
        match find_mount(mounts, "sysfs", "sys") {
            Some(i) => Ok(SysFs { path: mounts[i].mount_point.clone() }),
            None => Err(TopoError::NotFound),
        }
    }

    /// The mount point of this sysfs.
    pub fn path(&self) -> (r: &String)
        ensures
            r@ == self.spec_path(),
    {
        &self.path
    }

    /// The `dev/block/<major>:<minor>` lookup path of a device number,
    /// whose canonicalization (when it exists) is the device's sysfs node.
    pub fn devno_link(&self, devno: &Devno) -> (r: String)
        ensures
            r@ == self.spec_path() + "/dev/block/"@ + spec_format_devno(*devno),
    {
        let mut p = self.path.clone();
        p.append("/dev/block/");
        let d = devno.format();
        p.append(d.as_str());
        p
    }

    /// The `block` directory of this sysfs, whose entries are the
    /// whole-disk device nodes.
    pub fn block_dir(&self) -> (r: String)
        ensures
            r@ == self.spec_path() + "/block"@,
    {
        let mut p = self.path.clone();
        p.append("/block");
        p
    }

    /// The `dev/block` directory of this sysfs, whose entries cover
    /// every block device.
    pub fn dev_block_dir(&self) -> (r: String)
        ensures
            r@ == self.spec_path() + "/dev/block"@,
    {
        let mut p = self.path.clone();
        p.append("/dev/block");
        p
    }
}

/// The type segments of a uuid: its first two dash-delimited segments
/// joined with a dash, or nothing when there is no second segment.
pub open spec fn spec_type_of(s: Seq<char>) -> Option<Seq<char>> {
    let e1 = find_char(s, '-');
    if e1 == -1 {
        None
    } else {
        let t1 = s.subrange(0, e1);
        let rest = s.subrange(e1 + 1, s.len() as int);
        let e2 = find_char(rest, '-');
        let t2 = if e2 == -1 {
            rest
        } else {
            rest.subrange(0, e2)
        };
        Some(t1 + seq!['-'] + t2)
    }
}

/// What the device-mapper type of a uuid is: `TYPE-SUBTYPE` from the
/// grammar `[part<N>-]TYPE-SUBTYPE-...`, with a leading `part` segment
/// skipped; nothing when the required segment is missing.
pub open spec fn spec_dm_type(uuid: Seq<char>) -> Option<Seq<char>> {
    let e1 = find_char(uuid, '-');
    let first = if e1 == -1 {
        uuid
    } else {
        uuid.subrange(0, e1)
    };
    if spec_starts_with(first, "part"@) {
        if e1 == -1 {
            None
        } else {
            spec_type_of(uuid.subrange(e1 + 1, uuid.len() as int))
        }
    } else {
        spec_type_of(uuid)
    }
}

/// `TYPE-SUBTYPE` from the first two dash-delimited segments of `s`.
fn type_of(s: &str) -> (r: Result<String, TopoError>)
    ensures
        match r {
            Ok(t) => spec_type_of(s@) == Some(t@),
            Err(e) => spec_type_of(s@) is None && e == TopoError::InvalidData,
        },
{
    let n = s.unicode_len();
    let e1 = match find_char_at(s, '-') {
        Some(j) => j,
        None => {
            return Err(TopoError::InvalidData);
        },
    };
    proof {
        crate::device::lemma_find_char_props(s@, '-');
    }
    let t1 = s.substring_char(0, e1);
    let rest = s.substring_char(e1 + 1, n);
    let t2 = match find_char_at(rest, '-') {
        Some(j) => {
            proof {
                crate::device::lemma_find_char_props(rest@, '-');
            }
            rest.substring_char(0, j)
        },
        None => rest,
    };
    let mut out = String::from_str(t1);
    proof {
        reveal_strlit("-");
    }
    out.append("-");
    out.append(t2);
    proof {
        assert("-"@ =~= seq!['-']);
    }
    Ok(out)
}

/// The derived device-mapper type of a uuid: `TYPE-SUBTYPE` per the
/// uuid grammar, with a leading `part<N>` segment skipped first.
pub fn dm_type(uuid: &str) -> (r: Result<String, TopoError>)
    ensures
        match r {
            Ok(t) => spec_dm_type(uuid@) == Some(t@),
            Err(e) => spec_dm_type(uuid@) is None && e == TopoError::InvalidData,
        },
{
    let n = uuid.unicode_len();
    let e1 = find_char_at(uuid, '-');
    proof {
        crate::device::lemma_find_char_props(uuid@, '-');
    }
    let first: &str = match e1 {
        Some(j) => uuid.substring_char(0, j),
        None => uuid,
    };
    if str_starts_with(first, "part") {
        match e1 {
            Some(j) => type_of(uuid.substring_char(j + 1, n)),
            None => Err(TopoError::InvalidData),
        }
    } else {
        type_of(uuid)
    }
}

/// What the partition number of a device is, from its sysfs attributes:
/// the `partition` attribute's content when that file exists, else the
/// `<N>` of a dm uuid beginning `part<N>`, else no number at all.
/// The outer `None` is malformed data.
pub open spec fn spec_partition_number(
    partition_attr: Option<Seq<char>>,
    dm_uuid: Option<Seq<char>>,
) -> Option<Option<int>> {
    match partition_attr {
        Some(content) => {
            let t = spec_trim(content);
            if is_decimal_string(t) && decimal_value(t) <= usize::MAX {
                Some(Some(decimal_value(t)))
            } else {
                None
            }
        },
        None => match dm_uuid {
            None => Some(None),
            Some(u) => {
                if spec_starts_with(u, "part"@) {
                    let rest = u.subrange(4, u.len() as int);
                    let e = find_char(rest, '-');
                    let digits = if e == -1 {
                        rest
                    } else {
                        rest.subrange(0, e)
                    };
                    if is_decimal_string(digits) && decimal_value(digits) <= usize::MAX {
                        Some(Some(decimal_value(digits)))
                    } else {
                        None
                    }
                } else {
                    Some(None)
                }
            },
        },
    }
}

/// The partition number of a device, given the content of its sysfs
/// `partition` attribute (when that file exists) and its dm uuid (when
/// the device is device-mapper backed).
pub fn partition_number(partition_attr: Option<&str>, dm_uuid: Option<&str>) -> (r: Result<
    Option<usize>,
    TopoError,
>)
    ensures
        match r {
            Ok(v) => spec_partition_number(partition_attr.deep_view(), dm_uuid.deep_view())
                == Some(
                match v {
                    Some(x) => Some(x as int),
                    None => None,
                },
            ),
            Err(e) => {
                &&& spec_partition_number(partition_attr.deep_view(), dm_uuid.deep_view())
                    is None
                &&& e == TopoError::InvalidData
            },
        },
{
    match partition_attr {
        Some(content) => {
            let t = trim(content);
            match parse_decimal(t, usize::MAX as u64) {
                Some(v) => Ok(Some(v as usize)),
                None => Err(TopoError::InvalidData),
            }
        },
        None => match dm_uuid {
            None => Ok(None),
            Some(u) => {
                if str_starts_with(u, "part") {
                    let n = u.unicode_len();
                    proof {
                        reveal_strlit("part");
                    }
                    let rest = u.substring_char(4, n);
                    let digits = match find_char_at(rest, '-') {
                        Some(j) => {
                            proof {
                                crate::device::lemma_find_char_props(rest@, '-');
                            }
                            rest.substring_char(0, j)
                        },
                        None => rest,
                    };
                    match parse_decimal(digits, usize::MAX as u64) {
                        Some(v) => Ok(Some(v as usize)),
                        None => Err(TopoError::InvalidData),
                    }
                } else {
                    Ok(None)
                }
            },
        },
    }
}

/// Does the device register as a partition: it has a partition number.
pub fn is_partition(partition_attr: Option<&str>, dm_uuid: Option<&str>) -> (r: Result<
    bool,
    TopoError,
>)
    ensures
        match r {
            Ok(b) => {
                &&& spec_partition_number(partition_attr.deep_view(), dm_uuid.deep_view())
                    is Some
                &&& b == (spec_partition_number(
                    partition_attr.deep_view(),
                    dm_uuid.deep_view(),
                ).unwrap() is Some)
            },
            Err(e) => {
                &&& spec_partition_number(partition_attr.deep_view(), dm_uuid.deep_view())
                    is None
                &&& e == TopoError::InvalidData
            },
        },
{
    match partition_number(partition_attr, dm_uuid) {
        Ok(v) => Ok(v.is_some()),
        Err(e) => Err(e),
    }
}

/// Does the device register as a whole disk: it has no partition number.
pub fn is_wholedisk(partition_attr: Option<&str>, dm_uuid: Option<&str>) -> (r: Result<
    bool,
    TopoError,
>)
    ensures
        match r {
            Ok(b) => {
                &&& spec_partition_number(partition_attr.deep_view(), dm_uuid.deep_view())
                    is Some
                &&& b == (spec_partition_number(
                    partition_attr.deep_view(),
                    dm_uuid.deep_view(),
                ).unwrap() is None)
            },
            Err(e) => {
                &&& spec_partition_number(partition_attr.deep_view(), dm_uuid.deep_view())
                    is None
                &&& e == TopoError::InvalidData
            },
        },
{
    match is_partition(partition_attr, dm_uuid) {
        Ok(b) => Ok(!b),
        Err(e) => Err(e),
    }
}

} // verus!
