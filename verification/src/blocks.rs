//! The topology resolver: classification of devices and the selection
//! rules for partitions-of, slaves-of, parent-of and path resolution.

use crate::devfs::DevFs;
use crate::device::{spec_parse_devno, Devno};
use crate::error::TopoError;
use crate::procfs::ProcFs;
use crate::sysfs::SysFs;
use crate::tokens::{spec_starts_with, spec_trim, str_eq, str_starts_with, trim};
use vstd::prelude::*;

verus! {

/// The driver name under which the kernel registers device-mapper
/// majors in the device list.
pub fn is_device_mapper_driver(name: &str) -> (r: bool)
    ensures
        r == (name@ == "device-mapper"@),
{
    str_eq(name, "device-mapper")
}

/// Is the device's derived type exactly one of the candidates?
/// Only a device-mapper device has a type; one without a readable
/// type is malformed. A non-device-mapper device is never a member.
pub fn is_dm_types(is_device_mapper: bool, dm_type: &Option<String>, types: &Vec<String>) -> (r:
    Result<bool, TopoError>)
    ensures
        !is_device_mapper ==> r == Ok::<bool, TopoError>(false),
        is_device_mapper && dm_type.deep_view() is None ==> r == Err::<bool, TopoError>(
            TopoError::InvalidData,
        ),
        is_device_mapper ==> (dm_type.deep_view() matches Some(t) ==> (r matches Ok(b) && b
            == exists|i: int| 0 <= i < types.len() && #[trigger] types@[i]@ == t)),
{
    if !is_device_mapper {
        return Ok(false);
    }
    match dm_type {
        Some(t) => {
            let mut i: usize = 0;
            while i < types.len()
                invariant
                    0 <= i <= types.len(),
                    is_device_mapper,
                    dm_type.deep_view() == Some(t@),
                    forall|k: int| 0 <= k < i ==> #[trigger] types@[k]@ != t@,
                decreases types.len() - i,
            {
                if str_eq(types[i].as_str(), t.as_str()) {
                    return Ok(true);
                }
                i = i + 1;
            }
            Ok(false)
        },
        None => Err(TopoError::InvalidData),
    }
}

/// Is the device's derived type exactly `t`?
pub fn is_dm_type(is_device_mapper: bool, dm_type: &Option<String>, t: &str) -> (r: Result<
    bool,
    TopoError,
>)
    ensures
        !is_device_mapper ==> r == Ok::<bool, TopoError>(false),
        is_device_mapper && dm_type.deep_view() is None ==> r == Err::<bool, TopoError>(
            TopoError::InvalidData,
        ),
        is_device_mapper ==> (dm_type.deep_view() matches Some(dt) ==> (r matches Ok(b) && b
            == (dt == t@))),
{
    if !is_device_mapper {
        return Ok(false);
    }
    match dm_type {
        Some(dt) => Ok(str_eq(dt.as_str(), t)),
        None => Err(TopoError::InvalidData),
    }
}

/// Is the device LUKS-encrypted: its derived type, when it has one,
/// begins with `CRYPT-LUKS`.
pub fn is_luks(dm_type: &Option<String>) -> (r: bool)
    ensures
        r == (dm_type.deep_view() matches Some(t) && spec_starts_with(t, "CRYPT-LUKS"@)),
{
    match dm_type {
        Some(t) => str_starts_with(t.as_str(), "CRYPT-LUKS"),
        None => false,
    }
}

/// Is the device exactly a LUKS2 target: derived type `CRYPT-LUKS2`,
/// matched exactly, never by prefix.
pub fn is_luks2(is_device_mapper: bool, dm_type: &Option<String>) -> (r: Result<bool, TopoError>)
    ensures
        !is_device_mapper ==> r == Ok::<bool, TopoError>(false),
        is_device_mapper && dm_type.deep_view() is None ==> r == Err::<bool, TopoError>(
            TopoError::InvalidData,
        ),
        is_device_mapper ==> (dm_type.deep_view() matches Some(dt) ==> (r matches Ok(b) && b
            == (dt == "CRYPT-LUKS2"@))),
{
    is_dm_type(is_device_mapper, dm_type, "CRYPT-LUKS2")
}

/// How a partitions-of query is answered, chosen once per call from
/// the device's classification.
#[derive(Clone, Copy, PartialEq, Eq, Structural, Debug)]
pub enum PartitionScan {
    /// No partition model: a partition itself, or a non-LUKS
    /// device-mapper disk.
    Empty,
    /// An ordinary whole disk: its sysfs children carrying a
    /// `partition` marker.
    Children,
    /// A LUKS whole disk: every block device whose parent is this
    /// device, found by scanning the whole device tree — the kernel
    /// inverts the direction for decrypted LUKS content.
    ReverseScan,
}

/// The selection rule of a partitions-of query.
pub open spec fn spec_partition_scan(is_disk: bool, is_device_mapper: bool, is_luks: bool)
    -> PartitionScan {
    if !is_disk {
        PartitionScan::Empty
    } else if is_device_mapper {
        if is_luks {
            PartitionScan::ReverseScan
        } else {
            PartitionScan::Empty
        }
    } else {
        PartitionScan::Children
    }
}

/// Choose how partitions-of is answered for a device of the given
/// classification.
pub fn partition_scan(is_disk: bool, is_device_mapper: bool, is_luks: bool) -> (r: PartitionScan)
    ensures
        r == spec_partition_scan(is_disk, is_device_mapper, is_luks),
{
    if !is_disk {
        PartitionScan::Empty
    } else if is_device_mapper {
        if is_luks {
            PartitionScan::ReverseScan
        } else {
            PartitionScan::Empty
        }
    } else {
        PartitionScan::Children
    }
}

/// How a slaves-of query is answered.
#[derive(Clone, Copy, PartialEq, Eq, Structural, Debug)]
pub enum SlavesScan {
    /// A LUKS device exposes its relation through parent-of instead.
    Empty,
    /// Read the `slaves/` sysfs subdirectory; an absent directory is
    /// an empty answer.
    ReadSlavesDir,
}

/// Choose how slaves-of is answered: LUKS devices answer nothing.
pub fn slaves_scan(is_luks: bool) -> (r: SlavesScan)
    ensures
        r == if is_luks {
            SlavesScan::Empty
        } else {
            SlavesScan::ReadSlavesDir
        },
{
    if is_luks {
        SlavesScan::Empty
    } else {
        SlavesScan::ReadSlavesDir
    }
}

/// Where a parent-of query looks.
#[derive(Clone, Copy, PartialEq, Eq, Structural, Debug)]
pub enum ParentPlan {
    /// A LUKS device: its single slave is its parent.
    FirstSlave,
    /// A partition or other non-disk node: the `dev` attribute of the
    /// sysfs directory one level up.
    ParentDirDev,
    /// An ordinary whole disk has no parent.
    NoParent,
}

/// The selection rule of a parent-of query.
pub open spec fn spec_parent_plan(is_disk: bool, is_luks: bool) -> ParentPlan {
    if is_luks {
        ParentPlan::FirstSlave
    } else if is_disk {
        ParentPlan::NoParent
    } else {
        ParentPlan::ParentDirDev
    }
}

/// Choose where parent-of looks for a device of the given
/// classification.
pub fn parent_plan(is_disk: bool, is_luks: bool) -> (r: ParentPlan)
    ensures
        r == spec_parent_plan(is_disk, is_luks),
{
    if is_luks {
        ParentPlan::FirstSlave
    } else if is_disk {
        ParentPlan::NoParent
    } else {
        ParentPlan::ParentDirDev
    }
}

/// Conclude a parent-of query on a LUKS device from its `slaves/`
/// directory: the single entry is the parent, and an empty directory
/// is an error — a LUKS target must declare exactly one slave.
pub fn parent_from_slaves(first: Option<Devno>) -> (r: Result<Option<Devno>, TopoError>)
    ensures
        match first {
            Some(d) => r == Ok::<Option<Devno>, TopoError>(Some(d)),
            None => r == Err::<Option<Devno>, TopoError>(TopoError::NotFound),
        },
{
    match first {
        Some(d) => Ok(Some(d)),
        None => Err(TopoError::NotFound),
    }
}

/// Interpret the content of a sysfs `dev` attribute: a device number,
/// surrounding whitespace ignored.
pub fn parse_dev_attr(content: &str) -> (r: Result<Devno, TopoError>)
    ensures
        match r {
            Ok(d) => spec_parse_devno(spec_trim(content@)) == Some(d),
            Err(e) => spec_parse_devno(spec_trim(content@)) is None && e == TopoError::InvalidData,
        },
{
    let t = trim(content);
    match Devno::from_str(t) {
        Ok(d) => Ok(d),
        Err(_) => Err(TopoError::InvalidData),
    }
}

/// The per-child facts a partitions-of children scan reads: whether
/// the child is a directory carrying a `partition` marker, and its
/// `dev` attribute content.
pub open spec fn spec_children_view(children: Seq<(bool, String)>) -> Seq<(bool, Seq<char>)> {
    Seq::new(children.len(), |i: int| (children[i].0, children[i].1@))
}

/// What the children of a whole disk denote from position `i` on:
/// each child carrying a partition marker contributes its own `dev`
/// attribute as a device number; a malformed attribute denotes
/// nothing.
pub open spec fn spec_partitions_from(cs: Seq<(bool, Seq<char>)>, i: int) -> Option<Seq<Devno>>
    decreases cs.len() - i,
{
    if i < 0 || i >= cs.len() {
        Some(Seq::empty())
    } else {
        let rest = spec_partitions_from(cs, i + 1);
        if !cs[i].0 {
            rest
        } else {
            match spec_parse_devno(spec_trim(cs[i].1)) {
                Some(d) => match rest {
                    Some(t) => Some(seq![d] + t),
                    None => None,
                },
                None => None,
            }
        }
    }
}

/// The partitions of an ordinary whole disk: exactly the sysfs
/// children carrying a `partition` marker, each yielding the device
/// number of its own `dev` attribute, in scan order.
pub fn partitions_from_children(children: &Vec<(bool, String)>) -> (r: Result<
    Vec<Devno>,
    TopoError,
>)
    ensures
        match r {
            Ok(out) => spec_partitions_from(spec_children_view(children@), 0) == Some(out@),
            Err(e) => {
                &&& spec_partitions_from(spec_children_view(children@), 0) is None
                &&& e == TopoError::InvalidData
            },
        },
{
    let ghost cv = spec_children_view(children@);
    let mut out: Vec<Devno> = Vec::new();
    let mut i: usize = 0;
    proof {
        assert(out@ + spec_partitions_from(cv, 0).unwrap()
            =~= spec_partitions_from(cv, 0).unwrap());
    }
    while i < children.len()
        invariant
            0 <= i <= children.len(),
            cv == spec_children_view(children@),
            cv.len() == children.len(),
            (spec_partitions_from(cv, i as int) matches Some(t) ==> spec_partitions_from(cv, 0)
                == Some(out@ + t)),
            (spec_partitions_from(cv, i as int) is None ==> spec_partitions_from(cv, 0) is None),
        decreases children.len() - i,
    {
        let c = &children[i];
        proof {
            assert(cv[i as int] == (children@[i as int].0, children@[i as int].1@));
        }
        if c.0 {
            match parse_dev_attr(c.1.as_str()) {
                Ok(d) => {
                    let ghost oldout = out@;
                    out.push(d);
                    proof {
                        if spec_partitions_from(cv, i as int + 1) is Some {
                            let t = spec_partitions_from(cv, i as int + 1).unwrap();
                            assert(spec_partitions_from(cv, i as int) == Some(seq![d] + t));
                            assert(oldout + (seq![d] + t) =~= out@ + t);
                        }
                    }
                },
                Err(_) => {
                    proof {
                        assert(spec_partitions_from(cv, i as int) is None);
                    }
                    return Err(TopoError::InvalidData);
                },
            }
        }
        i = i + 1;
    }
    proof {
        assert(spec_partitions_from(cv, children.len() as int) == Some(Seq::<Devno>::empty()));
        assert(out@ + Seq::<Devno>::empty() =~= out@);
    }
    Ok(out)
}

/// The slaves a `slaves/` directory declares: every entry's `dev`
/// attribute, each a device number; a malformed attribute denotes
/// nothing.
pub fn slaves_from_entries(entries: &Vec<String>) -> (r: Result<Vec<Devno>, TopoError>)
    ensures
        match r {
            Ok(out) => {
                &&& out.len() == entries.len()
                &&& forall|k: int|
                    0 <= k < entries.len() ==> spec_parse_devno(
                        spec_trim(#[trigger] entries@[k]@),
                    ) == Some(out@[k])
            },
            Err(e) => {
                &&& e == TopoError::InvalidData
                &&& exists|k: int|
                    0 <= k < entries.len() && spec_parse_devno(spec_trim(#[trigger] entries@[k]@))
                        is None
            },
        },
{
    let mut out: Vec<Devno> = Vec::new();
    let mut i: usize = 0;
    while i < entries.len()
        invariant
            0 <= i <= entries.len(),
            out.len() == i,
            forall|k: int|
                0 <= k < i ==> spec_parse_devno(spec_trim(#[trigger] entries@[k]@)) == Some(
                    out@[k],
                ),
        decreases entries.len() - i,
    {
        match parse_dev_attr(entries[i].as_str()) {
            Ok(d) => {
                out.push(d);
            },
            Err(_) => {
                return Err(TopoError::InvalidData);
            },
        }
        i = i + 1;
    }
    Ok(out)
}

/// The members a reverse scan selects from position `i` on: every
/// device whose resolved parent is the target.
pub open spec fn spec_members_from(
    ds: Seq<(Devno, Option<Devno>)>,
    target: Devno,
    i: int,
) -> Seq<Devno>
    decreases ds.len() - i,
{
    if i < 0 || i >= ds.len() {
        Seq::empty()
    } else {
        let rest = spec_members_from(ds, target, i + 1);
        if ds[i].1 == Some(target) {
            seq![ds[i].0] + rest
        } else {
            rest
        }
    }
}

/// The partitions of a LUKS disk, by reverse scan: given every block
/// device with its resolved parent, exactly those whose parent is the
/// target, in scan order.
pub fn reverse_scan_members(devices: &Vec<(Devno, Option<Devno>)>, target: Devno) -> (r: Vec<
    Devno,
>)
    ensures
        r@ == spec_members_from(devices@, target, 0),
{
    let mut out: Vec<Devno> = Vec::new();
    let mut i: usize = 0;
    proof {
        assert(out@ + spec_members_from(devices@, target, 0) =~= spec_members_from(
            devices@,
            target,
            0,
        ));
    }
    while i < devices.len()
        invariant
            0 <= i <= devices.len(),
            spec_members_from(devices@, target, 0) == out@ + spec_members_from(
                devices@,
                target,
                i as int,
            ),
        decreases devices.len() - i,
    {
        let included = match &devices[i].1 {
            Some(p) => *p == target,
            None => false,
        };
        if included {
            let ghost oldout = out@;
            out.push(devices[i].0);
            proof {
                let rest = spec_members_from(devices@, target, i as int + 1);
                assert(spec_members_from(devices@, target, i as int) == seq![devices@[i as int].0]
                    + rest);
                assert(oldout + (seq![devices@[i as int].0] + rest) =~= out@ + rest);
            }
        }
        i = i + 1;
    }
    proof {
        assert(spec_members_from(devices@, target, devices.len() as int) =~= Seq::<Devno>::empty());
        assert(out@ + Seq::<Devno>::empty() =~= out@);
    }
    out
}

/// Where path resolution looks first: a device-mapper device prefers
/// its stable `mapper/<name>` alias; one without a name is malformed;
/// any other device goes straight to the devfs cache lookup.
pub fn resolve_plan(devfs: &DevFs, is_device_mapper: bool, dm_name: &Option<String>) -> (r: Result<
    Option<String>,
    TopoError,
>)
    ensures
        match r {
            Ok(alias) => match alias {
                Some(p) => {
                    &&& is_device_mapper
                    &&& dm_name.deep_view() matches Some(n) && p@ == devfs.spec_path()
                        + "/mapper/"@ + n
                },
                None => !is_device_mapper,
            },
            Err(e) => is_device_mapper && dm_name.deep_view() is None && e
                == TopoError::InvalidData,
        },
{
    if !is_device_mapper {
        return Ok(None);
    }
    match dm_name {
        Some(n) => Ok(Some(devfs.mapper_path(n.as_str()))),
        None => Err(TopoError::InvalidData),
    }
}

/// Interpret a stat of a caller-supplied path: only a block device
/// denotes a device number; anything else rejects the input.
pub fn devno_from_metadata(is_block_device: bool, rdev: u64) -> (r: Result<Devno, TopoError>)
    ensures
        match r {
            Ok(d) => is_block_device && d.spec_raw() == rdev,
            Err(e) => !is_block_device && e == TopoError::InvalidInput,
        },
{
    if is_block_device {
        Ok(Devno::from(rdev))
    } else {
        Err(TopoError::InvalidInput)
    }
}

/// The three pseudo-filesystem views composed into one resolver.
pub struct Blocks {
    procfs: ProcFs,
    sysfs: SysFs,
    devfs: DevFs,
}

impl Blocks {
    pub closed spec fn spec_procfs(self) -> ProcFs {
        self.procfs
    }

    pub closed spec fn spec_sysfs(self) -> SysFs {
        self.sysfs
    }

    pub closed spec fn spec_devfs(self) -> DevFs {
        self.devfs
    }

    pub open spec fn wf(self) -> bool {
        self.spec_procfs().wf() && self.spec_devfs().wf()
    }

    /// Compose located pseudo-filesystem views into a resolver.
    pub fn new(procfs: ProcFs, sysfs: SysFs, devfs: DevFs) -> (r: Self)
        requires
            procfs.wf(),
            devfs.wf(),
        ensures
            r.wf(),
            r.spec_procfs() == procfs,
            r.spec_sysfs() == sysfs,
            r.spec_devfs() == devfs,
    {
        Blocks { procfs, sysfs, devfs }
    }

    pub fn procfs(&self) -> (r: &ProcFs)
        ensures
            *r == self.spec_procfs(),
    {
        &self.procfs
    }

    pub fn sysfs(&self) -> (r: &SysFs)
        ensures
            *r == self.spec_sysfs(),
    {
        &self.sysfs
    }

    pub fn devfs(&self) -> (r: &DevFs)
        ensures
            *r == self.spec_devfs(),
    {
        &self.devfs
    }

    /// The devfs cache's read-check-invalidate step (see
    /// `DevFs::find_in_cache`).
    pub fn find_in_cache(&mut self, devno: &Devno, meta: Option<(bool, u64)>) -> (r: Option<
        String,
    >)
        requires
            old(self).wf(),
        ensures
            final(self).wf(),
            final(self).spec_procfs() == old(self).spec_procfs(),
            final(self).spec_sysfs() == old(self).spec_sysfs(),
            final(self).spec_devfs().spec_path() == old(self).spec_devfs().spec_path(),
            forall|q: Devno|
                q.spec_raw() != devno.spec_raw() ==> final(self).spec_devfs().spec_cached(q) == old(
                    self,
                ).spec_devfs().spec_cached(q),
            match r {
                Some(p) => {
                    &&& old(self).spec_devfs().spec_cached(*devno) == Some(p@)
                    &&& crate::devfs::entry_valid(*devno, meta)
                    &&& final(self).spec_devfs().spec_cached(*devno) == Some(p@)
                },
                None => {
                    &&& (old(self).spec_devfs().spec_cached(*devno) is None
                        || !crate::devfs::entry_valid(*devno, meta))
                    &&& final(self).spec_devfs().spec_cached(*devno) is None
                },
            },
    {
        self.devfs.find_in_cache(devno, meta)
    }

    /// Record a scan discovery in the devfs cache (see
    /// `DevFs::cache_insert`).
    pub fn cache_insert(&mut self, devno: Devno, path: String)
        requires
            old(self).wf(),
        ensures
            final(self).wf(),
            final(self).spec_procfs() == old(self).spec_procfs(),
            final(self).spec_sysfs() == old(self).spec_sysfs(),
            final(self).spec_devfs().spec_path() == old(self).spec_devfs().spec_path(),
            final(self).spec_devfs().spec_cached(devno) == Some(path@),
            forall|q: Devno|
                q.spec_raw() != devno.spec_raw() ==> final(self).spec_devfs().spec_cached(q) == old(
                    self,
                ).spec_devfs().spec_cached(q),
    {
        self.devfs.cache_insert(devno, path);
    }

    /// Replace the device-type registry's snapshot (see
    /// `ProcFs::refresh_devices`).
    pub fn refresh_devices(&mut self, lines: &Vec<String>) -> (r: Result<(), TopoError>)
        requires
            old(self).wf(),
        ensures
            final(self).wf(),
            final(self).spec_sysfs() == old(self).spec_sysfs(),
            final(self).spec_devfs() == old(self).spec_devfs(),
            match r {
                Ok(()) => {
                    let ldv = lines.deep_view();
                    let d = crate::devices::spec_data_start(ldv);
                    &&& forall|i: int|
                        d <= i < ldv.len() ==> crate::devices::spec_device_line(#[trigger] ldv[i])
                            is Some
                    &&& forall|id: u32|
                        final(self).spec_procfs().spec_driver_of(id)
                            == crate::devices::spec_table_get(ldv, d, ldv.len() as int, id)
                },
                Err(e) => {
                    &&& e == TopoError::InvalidInput
                    &&& forall|id: u32|
                        final(self).spec_procfs().spec_driver_of(id) == old(
                            self,
                        ).spec_procfs().spec_driver_of(id)
                },
            },
    {
        self.procfs.refresh_devices(lines)
    }
}

/// Law: a `dev` attribute holding a canonical `major:minor` rendering
/// names that very device; reading a device's own attribute back
/// yields the device.
pub proof fn lemma_dev_attr_round_trip(d: Devno)
    ensures
        spec_parse_devno(spec_trim(crate::device::spec_format_devno(d))) == Some(d),
{
    crate::device::lemma_devno_format_parse(d);
    let s = crate::device::spec_format_devno(d);
    crate::mountinfo::lemma_devno_format_wf_token(d);
    assert(spec_trim(s) == s) by {
        crate::tokens::lemma_trim_noop(s);
    }
}

} // verus!
