//! The procfs view: locating a genuine procfs, and the composite of
//! the device-type registry and the mountinfo table that lives under
//! one procfs root.

use crate::devices::Devices;
use crate::error::TopoError;
use crate::mountinfo::MountInfos;
use vstd::prelude::*;

verus! {

/// Index of the last occurrence of `c` in `s`, or -1 when absent.
pub open spec fn find_last_char(s: Seq<char>, c: char) -> int
    decreases s.len(),
{
    if s.len() == 0 {
        -1
    } else if s.last() == c {
        s.len() - 1
    } else {
        find_last_char(s.drop_last(), c)
    }
}

pub proof fn lemma_find_last_char_at(s: Seq<char>, c: char, j: int)
    requires
        0 <= j < s.len(),
        s[j] == c,
        forall|i: int| j < i < s.len() ==> s[i] != c,
    ensures
        find_last_char(s, c) == j,
    decreases s.len(),
{
    if j < s.len() - 1 {
        let t = s.drop_last();
        assert(forall|i: int| j < i < t.len() ==> t[i] == s[i] && t[i] != c);
        assert(t[j] == s[j]);
        lemma_find_last_char_at(t, c, j);
    }
}

pub proof fn lemma_find_last_char_none(s: Seq<char>, c: char)
    requires
        forall|i: int| 0 <= i < s.len() ==> s[i] != c,
    ensures
        find_last_char(s, c) == -1,
    decreases s.len(),
{
    if s.len() > 0 {
        let t = s.drop_last();
        assert(forall|i: int| 0 <= i < t.len() ==> t[i] == s[i] && t[i] != c);
        lemma_find_last_char_none(t, c);
    }
}

/// Find the last occurrence of `c` in `s`.
pub fn rfind_char(s: &str, c: char) -> (r: Option<usize>)
    ensures
        match r {
            Some(j) => j < s@.len() && find_last_char(s@, c) == j,
            None => find_last_char(s@, c) == -1,
        },
{
    let n = s.unicode_len();
    let mut j: usize = n;
    while j > 0 && s.get_char(j - 1) != c
        invariant
            0 <= j <= n,
            n == s@.len(),
            forall|i: int| j <= i < n ==> s@[i] != c,
        decreases j,
    {
        j = j - 1;
    }
    if j > 0 {
        proof {
            lemma_find_last_char_at(s@, c, j - 1);
        }
        Some(j - 1)
    } else {
        proof {
            lemma_find_last_char_none(s@, c);
        }
        None
    }
}

/// Where a resolved `/etc/mtab` target points at a procfs: the target
/// must be a file directly inside a `self` directory, and the
/// directory above `self` (the procfs candidate) must itself have a
/// non-empty name. The candidate still has to be validated live.
pub open spec fn spec_mtab_candidate(resolved: Seq<char>) -> Option<Seq<char>> {
    let r1 = find_last_char(resolved, '/');
    if r1 <= 0 {
        None
    } else {
        let parent = resolved.subrange(0, r1);
        let r2 = find_last_char(parent, '/');
        if r2 == -1 {
            None
        } else if parent.subrange(r2 + 1, parent.len() as int) != "self"@ {
            None
        } else {
            let gp = parent.subrange(0, r2);
            let r3 = find_last_char(gp, '/');
            if r3 >= 0 && r3 + 1 < gp.len() {
                Some(gp)
            } else {
                None
            }
        }
    }
}

/// The procfs candidate inside a resolved `/etc/mtab` target: the
/// directory two levels up, accepted only when the level between is
/// named `self`.
pub fn mtab_procfs_candidate(resolved: &str) -> (r: Option<String>)
    ensures
        match r {
            Some(p) => spec_mtab_candidate(resolved@) == Some(p@),
            None => spec_mtab_candidate(resolved@) is None,
        },
{
    let n = resolved.unicode_len();
    let r1 = match rfind_char(resolved, '/') {
        Some(j) => j,
        None => {
            return None;
        },
    };
    if r1 == 0 {
        return None;
    }
    proof {
        crate::device::lemma_find_char_props(resolved@, '/');
    }
    let parent = resolved.substring_char(0, r1);
    let r2 = match rfind_char(parent, '/') {
        Some(j) => j,
        None => {
            return None;
        },
    };
    proof {
        assert(find_last_char(parent@, '/') == r2);
    }
    let name = parent.substring_char(r2 + 1, r1);
    if !crate::tokens::str_eq(name, "self") {
        return None;
    }
    let gp = parent.substring_char(0, r2);
    let r3 = match rfind_char(gp, '/') {
        Some(j) => j,
        None => {
            return None;
        },
    };
    if r3 + 1 < gp.unicode_len() {
        Some(String::from_str(gp))
    } else {
        None
    }
}

/// Interpret the outcome of the owning-mount-id lookup call: the
/// filled-in id is usable on success, and also on a size-overflow
/// failure — the call is made with a zero-length handle buffer, so a
/// resolved id always comes back under that failure; any other
/// failure degrades the query to device-number matching.
pub fn mount_id_from_syscall(ret_negative: bool, errno_is_overflow: bool, mount_id: u32) -> (r:
    Option<u32>)
    ensures
        r == if ret_negative && !errno_is_overflow {
            None::<u32>
        } else {
            Some(mount_id)
        },
{
    if ret_negative && !errno_is_overflow {
        None
    } else {
        Some(mount_id)
    }
}

/// One procfs root: its path, its device-type registry, and its
/// mountinfo table.
pub struct ProcFs {
    path: String,
    devices: Devices,
    mounts: MountInfos,
}

impl ProcFs {
    pub closed spec fn wf(self) -> bool {
        self.devices.wf()
    }

    /// The procfs mount point.
    pub closed spec fn spec_path(self) -> Seq<char> {
        self.path@
    }

    /// The registry's snapshot, by major.
    pub closed spec fn spec_driver_of(self, id: u32) -> Option<Seq<char>> {
        self.devices.spec_driver_of(id)
    }

    /// The mountinfo file this procfs reads.
    pub closed spec fn spec_mounts_path(self) -> Seq<char> {
        self.mounts.spec_path()
    }

    /// Build the view of a located procfs root; an absent candidate is
    /// the locator's failure.
    pub fn remap(p: Option<String>) -> (r: Result<ProcFs, TopoError>)
        ensures
            match r {
                Ok(fs) => {
                    &&& p matches Some(path) && fs.spec_path() == path@
                    &&& fs.wf()
                    &&& fs.spec_mounts_path() == fs.spec_path() + "/self/mountinfo"@
                    &&& forall|id: u32| fs.spec_driver_of(id) is None
                },
                Err(e) => p is None && e == TopoError::NotFound,
            },
    {
        match p {
            Some(path) => {
                let devices = Devices::new(path.as_str());
                let mounts = MountInfos::from_procfs(path.as_str());
                Ok(ProcFs { path, devices, mounts })
            },
            None => Err(TopoError::NotFound),
        }
    }

    /// The procfs mount point.
    pub fn path(&self) -> (r: &String)
        ensures
            r@ == self.spec_path(),
    {
        &self.path
    }

    /// The mountinfo table of this procfs.
    pub fn mounts(&self) -> (r: &MountInfos)
        ensures
            r.spec_path() == self.spec_mounts_path(),
    {
        &self.mounts
    }

    /// The driver name the registry's snapshot holds for a major; a
    /// miss asks for one `refresh_devices` and one retry.
    pub fn get_driver(&self, major: u32) -> (r: Option<String>)
        requires
            self.wf(),
        ensures
            match r {
                Some(s) => self.spec_driver_of(major) == Some(s@),
                None => self.spec_driver_of(major) is None,
            },
    {
        self.devices.get_by_id(major)
    }

    /// Every major the registry's snapshot holds for a driver name.
    pub fn get_majors(&self, name: &str) -> (r: Option<Vec<u32>>)
        requires
            self.wf(),
        ensures
            match r {
                Some(ids) => {
                    &&& ids.len() > 0
                    &&& forall|k: int|
                        0 <= k < ids.len() ==> self.spec_driver_of(#[trigger] ids@[k]) == Some(
                            name@,
                        )
                    &&& forall|id: u32| self.spec_driver_of(id) == Some(name@) ==> ids@.contains(id)
                    &&& forall|k1: int, k2: int| 0 <= k1 < k2 < ids.len() ==> ids@[k1] < ids@[k2]
                },
                None => forall|id: u32| self.spec_driver_of(id) != Some(name@),
            },
    {
        self.devices.get_by_name(name)
    }

    /// Replace the registry's snapshot from the device-list text.
    pub fn refresh_devices(&mut self, lines: &Vec<String>) -> (r: Result<(), TopoError>)
        requires
            old(self).wf(),
        ensures
            final(self).wf(),
            final(self).spec_path() == old(self).spec_path(),
            final(self).spec_mounts_path() == old(self).spec_mounts_path(),
            match r {
                Ok(()) => {
                    let ldv = lines.deep_view();
                    let d = crate::devices::spec_data_start(ldv);
                    &&& forall|i: int|
                        d <= i < ldv.len() ==> crate::devices::spec_device_line(#[trigger] ldv[i])
                            is Some
                    &&& forall|id: u32|
                        final(self).spec_driver_of(id) == crate::devices::spec_table_get(
                            ldv,
                            d,
                            ldv.len() as int,
                            id,
                        )
                },
                Err(e) => {
                    &&& e == TopoError::InvalidInput
                    &&& forall|id: u32|
                        final(self).spec_driver_of(id) == old(self).spec_driver_of(id)
                    &&& exists|i: int|
                        crate::devices::spec_data_start(lines.deep_view()) <= i
                            < lines.deep_view().len() && crate::devices::spec_device_line(
                            #[trigger] lines.deep_view()[i],
                        ) is None
                },
            },
    {
        self.devices.refresh(lines)
    }

    /// Does the driver name of a device match the queried type? The
    /// caller hands in the registry's answer for the device's major.
    pub fn is_type(driver: &Option<String>, ty: &str) -> (r: bool)
        ensures
            r == (driver.deep_view() matches Some(d) && d == ty@),
    {
        match driver {
            Some(d) => crate::tokens::str_eq(d.as_str(), ty),
            None => false,
        }
    }

    /// The file the device list is read from: `<procfs>/devices`.
    pub fn devices_path(&self) -> (r: String)
        ensures
            r@ == self.spec_path() + "/devices"@,
    {
        let mut p = self.path.clone();
        p.append("/devices");
        p
    }
}

} // verus!
