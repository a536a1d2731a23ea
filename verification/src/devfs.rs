//! The devfs path cache: a validated device-number→node-path
//! association over the device-node tree, and the classification rules
//! of the tree scan that fills it.

use crate::assoc::AssocVec;
use crate::device::{spec_format_devno, Devno};
use crate::error::TopoError;
use crate::mountinfo::{find_mount, mount_matches, MountInfo};
use crate::tokens::str_eq;
use vstd::prelude::*;

verus! {

/// The devfs pseudo-filesystem: its mount point and the path cache.
pub struct DevFs {
    path: String,
    cache: AssocVec<String>,
}

/// Is a cached association still trustworthy, judged from the fresh
/// metadata of its path: the path exists, denotes a block device, and
/// that device's live number equals the cache key?
/// `meta` is `None` when the path no longer exists, else the pair of
/// is-a-block-device and the live device number.
pub open spec fn entry_valid(devno: Devno, meta: Option<(bool, u64)>) -> bool {
    meta matches Some(m) && m.0 && m.1 == devno.spec_raw()
}

impl DevFs {
    /// The mount point of this devfs.
    pub closed spec fn spec_path(&self) -> Seq<char> {
        self.path@
    }

    pub closed spec fn wf(self) -> bool {
        self.cache.wf()
    }

    /// The node path the cache associates with a device number.
    pub closed spec fn spec_cached(self, devno: Devno) -> Option<Seq<char>> {
        match self.cache.spec_get(devno.spec_raw()) {
            Some(p) => Some(p@),
            None => None,
        }
    }

    /// Locate devfs among the mount entries: the first mount of
    /// filesystem type `devtmpfs` with source `dev`. Its cache starts
    /// empty.
    pub fn new(mounts: &Vec<MountInfo>) -> (r: Result<DevFs, TopoError>)
        ensures
            match r {
                Ok(fs) => {
                    &&& fs.wf()
                    &&& forall|d: Devno| fs.spec_cached(d) is None
                    &&& exists|i: int|
                        {
                            &&& 0 <= i < mounts.len()
                            &&& mount_matches(#[trigger] mounts@[i]@, "devtmpfs"@, "dev"@)
                            &&& fs.spec_path() == mounts@[i]@.mount_point
                            &&& forall|k: int|
                                0 <= k < i ==> !mount_matches(
                                    #[trigger] mounts@[k]@,
                                    "devtmpfs"@,
                                    "dev"@,
                                )
                        }
                },
                Err(e) => {
                    &&& e == TopoError::NotFound
                    &&& forall|k: int|
                        0 <= k < mounts.len() ==> !mount_matches(
                            #[trigger] mounts@[k]@,
                            "devtmpfs"@,
                            "dev"@,
                        )
                },
            },
    {
        match find_mount(mounts, "devtmpfs", "dev") {
            Some(i) => Ok(DevFs { path: mounts[i].mount_point.clone(), cache: AssocVec::new() }),
            None => Err(TopoError::NotFound),
        }
    }

    /// The mount point of this devfs.
    pub fn path(&self) -> (r: &String)
        ensures
            r@ == self.spec_path(),
    {
        &self.path
    }

    /// The `blocks/<major>:<minor>` fast-path alias of a device number.
    pub fn blocks_alias(&self, devno: &Devno) -> (r: String)
        ensures
            r@ == self.spec_path() + "/blocks/"@ + spec_format_devno(*devno),
    {
        let mut p = self.path.clone();
        p.append("/blocks/");
        let d = devno.format();
        p.append(d.as_str());
        p
    }

    /// The conventional `mapper/<name>` alias path of a device-mapper
    /// device.
    pub fn mapper_path(&self, name: &str) -> (r: String)
        ensures
            r@ == self.spec_path() + "/mapper/"@ + name@,
    {
        let mut p = self.path.clone();
        p.append("/mapper/");
        p.append(name);
        p
    }

    /// Whether the fast-path alias answers a lookup, judged from its
    /// fresh metadata: only a path that currently denotes a block
    /// device is taken; an absent alias, or one denoting anything
    /// else, falls through to the cache and the scan.
    pub fn alias_usable(meta: Option<(bool, u64)>) -> (r: bool)
        ensures
            r == (meta matches Some(m) && m.0),
    {
        match meta {
            Some(m) => m.0,
            None => false,
        }
    }

    /// The cached node path of a device number, unvalidated.
    pub fn cache_get(&self, devno: &Devno) -> (r: Option<String>)
        requires
            self.wf(),
        ensures
            match r {
                Some(p) => self.spec_cached(*devno) == Some(p@),
                None => self.spec_cached(*devno) is None,
            },
    {
        match self.cache.get(devno.raw()) {
            Some(p) => Some(p.clone()),
            None => None,
        }
    }

    /// Record that `devno`'s node was discovered at `path`.
    pub fn cache_insert(&mut self, devno: Devno, path: String)
        requires
            old(self).wf(),
        ensures
            final(self).wf(),
            final(self).spec_path() == old(self).spec_path(),
            final(self).spec_cached(devno) == Some(path@),
            forall|q: Devno|
                q.spec_raw() != devno.spec_raw() ==> final(self).spec_cached(q) == old(
                    self,
                ).spec_cached(q),
    {
        self.cache.insert(devno.raw(), path);
    }

    /// The read-check-invalidate step of a lookup: serve the cached
    /// path only while it is still trustworthy per the fresh metadata
    /// of that path; otherwise evict the entry, so the caller rescans.
    /// An entry is never served stale, and never evicted while valid.
    pub fn find_in_cache(&mut self, devno: &Devno, meta: Option<(bool, u64)>) -> (r: Option<
        String,
    >)
        requires
            old(self).wf(),
        ensures
            final(self).wf(),
            final(self).spec_path() == old(self).spec_path(),
            forall|q: Devno|
                q.spec_raw() != devno.spec_raw() ==> final(self).spec_cached(q) == old(
                    self,
                ).spec_cached(q),
            match r {
                Some(p) => {
                    &&& old(self).spec_cached(*devno) == Some(p@)
                    &&& entry_valid(*devno, meta)
                    &&& final(self).spec_cached(*devno) == Some(p@)
                },
                None => {
                    &&& (old(self).spec_cached(*devno) is None || !entry_valid(*devno, meta))
                    &&& final(self).spec_cached(*devno) is None
                },
            },
    {
        let cached = self.cache_get(devno);
        match cached {
            Some(p) => {
                let ok = match meta {
                    Some(m) => m.0 && m.1 == devno.raw(),
                    None => false,
                };
                if ok {
                    return Some(p);
                }
                self.cache.remove_key(devno.raw());
                None
            },
            None => {
                self.cache.remove_key(devno.raw());
                None
            },
        }
    }
}

/// How the device-node tree scan treats one directory entry.
#[derive(Clone, Copy, PartialEq, Eq, Structural, Debug)]
pub enum ScanAction {
    /// Pass over: a symbolic link, a hidden entry, the shared-memory
    /// subtree, or an ordinary non-device file.
    Skip,
    /// Descend: a plain subdirectory.
    Recurse,
    /// A block-device node: a discovery to record.
    Yield,
}

/// The scan rule: skip symbolic links, hidden entries and the `shm`
/// subtree; descend into other directories; yield block-device nodes.
pub open spec fn spec_scan_action(
    name: Seq<char>,
    is_symlink: bool,
    is_dir: bool,
    is_block: bool,
) -> ScanAction {
    if is_symlink {
        ScanAction::Skip
    } else if name.len() > 0 && name[0] == '.' {
        ScanAction::Skip
    } else if name == "shm"@ {
        ScanAction::Skip
    } else if is_dir {
        ScanAction::Recurse
    } else if is_block {
        ScanAction::Yield
    } else {
        ScanAction::Skip
    }
}

/// Classify one directory entry of the device-node tree scan.
pub fn scan_action(name: &str, is_symlink: bool, is_dir: bool, is_block: bool) -> (r: ScanAction)
    ensures
        r == spec_scan_action(name@, is_symlink, is_dir, is_block),
{
    if is_symlink {
        return ScanAction::Skip;
    }
    let n = name.unicode_len();
    if n > 0 && name.get_char(0) == '.' {
        return ScanAction::Skip;
    }
    if str_eq(name, "shm") {
        return ScanAction::Skip;
    }
    if is_dir {
        return ScanAction::Recurse;
    }
    if is_block {
        return ScanAction::Yield;
    }
    ScanAction::Skip
}

} // verus!
