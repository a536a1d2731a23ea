//! The device-type registry: the major→driver-name table parsed from
//! the device list, with its bidirectional lookup cache.

use crate::assoc::AssocVec;
use crate::error::TopoError;
use crate::num::{decimal_value, is_decimal_string, parse_decimal};
use crate::tokens::{spec_starts_with, spec_tokens, split_tokens, str_starts_with};
use std::collections::hash_map::RandomState;
use vstd::prelude::*;

verus! {

/// Declares indexmap's `IndexSet` so its values can be held and passed.
#[verifier::external_type_specification]
#[verifier::external_body]
#[verifier::reject_recursive_types(T)]
#[verifier::reject_recursive_types(S)]
pub struct ExIndexSet<T, S>(indexmap::IndexSet<T, S>);

/// What an interning set holds, in insertion order.
pub uninterp spec fn names_seq(s: indexmap::IndexSet<String, RandomState>) -> Seq<Seq<char>>;

/// Relies on `IndexSet::new`: a fresh set holds nothing.
#[verifier::external_body]
fn iset_new() -> (r: indexmap::IndexSet<String>)
    ensures
        names_seq(r) == Seq::<Seq<char>>::empty(),
{
    indexmap::IndexSet::new()
}

/// Relies on `IndexSet::insert_full`: an element already held keeps its
/// index and leaves the set unchanged; a new element is appended at the
/// end and its index returned.
#[verifier::external_body]
fn iset_insert_full(s: &mut indexmap::IndexSet<String>, value: String) -> (r: (usize, bool))
    ensures
        names_seq(*old(s)).contains(value@) ==> {
            &&& names_seq(*final(s)) == names_seq(*old(s))
            &&& r.1 == false
            &&& 0 <= r.0 < names_seq(*old(s)).len()
            &&& names_seq(*old(s))[r.0 as int] == value@
        },
        !names_seq(*old(s)).contains(value@) ==> {
            &&& names_seq(*final(s)) == names_seq(*old(s)).push(value@)
            &&& r.1 == true
            &&& r.0 == names_seq(*old(s)).len()
        },
{
    s.insert_full(value)
}

/// Relies on `IndexSet::get_index`: elements answer to their
/// insertion-order index.
#[verifier::external_body]
fn iset_get_index<'a>(s: &'a indexmap::IndexSet<String>, i: usize) -> (r: Option<&'a String>)
    ensures
        match r {
            Some(v) => i < names_seq(*s).len() && v@ == names_seq(*s)[i as int],
            None => i >= names_seq(*s).len(),
        },
{
    s.get_index(i)
}

/// Relies on `IndexSet::get_index_of`: the index of an element equal to
/// the query, when the set holds one.
#[verifier::external_body]
fn iset_get_index_of(s: &indexmap::IndexSet<String>, value: &str) -> (r: Option<usize>)
    ensures
        match r {
            Some(i) => i < names_seq(*s).len() && names_seq(*s)[i as int] == value@,
            None => !names_seq(*s).contains(value@),
        },
{
    s.get_index_of(value)
}

/// What lowercasing a string yields.
pub uninterp spec fn lower_of(s: Seq<char>) -> Seq<char>;

/// Relies on `str::to_lowercase`: the result depends on the characters
/// alone.
#[verifier::external_body]
fn lowercase(s: &str) -> (r: String)
    ensures
        r@ == lower_of(s@),
{
    s.to_lowercase()
}

/// The major→driver-name snapshot: driver names interned once, each
/// major mapped to its name's index.
pub struct DevicesCache {
    names: indexmap::IndexSet<String>,
    by_id: AssocVec<usize>,
}

impl DevicesCache {
    /// Sound state: no name interned twice, every mapped index in
    /// range, and every key within a major number's range.
    pub closed spec fn wf(self) -> bool {
        &&& self.by_id.wf()
        &&& names_seq(self.names).no_duplicates()
        &&& forall|k: int|
            0 <= k < self.by_id.spec_entries().len() ==> (
            #[trigger] self.by_id.spec_entries()[k]).1 < names_seq(self.names).len()
        &&& forall|k: int|
            0 <= k < self.by_id.spec_entries().len() ==> (
            #[trigger] self.by_id.spec_entries()[k]).0 <= u32::MAX
    }

    /// The driver name a major is mapped to, if any.
    pub closed spec fn spec_get_by_id(self, id: u32) -> Option<Seq<char>> {
        match self.by_id.spec_get(id as u64) {
            Some(idx) => Some(names_seq(self.names)[idx as int]),
            None => None,
        }
    }

    /// An empty snapshot.
    pub fn new() -> (r: Self)
        ensures
            r.wf(),
            forall|id: u32| r.spec_get_by_id(id) is None,
    {
        DevicesCache { names: iset_new(), by_id: AssocVec::new() }
    }

    /// Map `id` to `name`, interning the name.
    pub fn insert(&mut self, id: u32, name: String)
        requires
            old(self).wf(),
        ensures
            final(self).wf(),
            final(self).spec_get_by_id(id) == Some(name@),
            forall|q: u32| q != id ==> final(self).spec_get_by_id(q) == old(self).spec_get_by_id(q),
    {
        let ghost oldnames = names_seq(self.names);
        let r = iset_insert_full(&mut self.names, name);
        let idx = r.0;
        proof {
            if !oldnames.contains(name@) {
                assert(names_seq(self.names) =~= oldnames.push(name@));
                assert forall|i: int, j: int|
                    0 <= i < j < names_seq(self.names).len() implies names_seq(self.names)[i]
                    != names_seq(self.names)[j] by {
                    if j < oldnames.len() {
                        assert(oldnames[i] != oldnames[j]);
                    } else {
                        assert(names_seq(self.names)[j] == name@);
                        assert(!oldnames.contains(name@));
                        assert(oldnames[i] == names_seq(self.names)[i]);
                    }
                }
            }
        }
        self.by_id.insert(id as u64, idx);
    }

    /// The driver name registered for a major, as an owned copy.
    pub fn get_by_id(&self, id: u32) -> (r: Option<String>)
        requires
            self.wf(),
        ensures
            match r {
                Some(s) => self.spec_get_by_id(id) == Some(s@),
                None => self.spec_get_by_id(id) is None,
            },
    {
        match self.by_id.get(id as u64) {
            Some(idx) => {
                let i: usize = *idx;
                proof {
                    let k = self.by_id.key_index(id as u64);
                    assert(self.by_id.spec_entries()[k].1 == i);
                }
                match iset_get_index(&self.names, i) {
                    Some(s) => Some(s.clone()),
                    None => None,
                }
            },
            None => None,
        }
    }

    /// Every major registered for a driver name, ascending; nothing
    /// when the name is unknown.
    pub fn get_by_name(&self, name: &str) -> (r: Option<Vec<u32>>)
        requires
            self.wf(),
        ensures
            match r {
                Some(ids) => {
                    &&& ids.len() > 0
                    &&& forall|k: int|
                        0 <= k < ids.len() ==> self.spec_get_by_id(#[trigger] ids@[k]) == Some(
                            name@,
                        )
                    &&& forall|id: u32|
                        self.spec_get_by_id(id) == Some(name@) ==> ids@.contains(id)
                    &&& forall|k1: int, k2: int|
                        0 <= k1 < k2 < ids.len() ==> ids@[k1] < ids@[k2]
                },
                None => forall|id: u32| self.spec_get_by_id(id) != Some(name@),
            },
    {
        let t: usize = match iset_get_index_of(&self.names, name) {
            Some(t) => t,
            None => {
                proof {
                    assert forall|id: u32| self.spec_get_by_id(id) != Some(name@) by {
                        if self.spec_get_by_id(id) == Some(name@) {
                            let k = self.by_id.key_index(id as u64);
                            let idx = self.by_id.spec_entries()[k].1;
                            assert(names_seq(self.names)[idx as int] == name@);
                            assert(names_seq(self.names).contains(name@));
                        }
                    }
                }
                return None;
            },
        };
        let mut ids: Vec<u32> = Vec::new();
        let ghost mut srcs: Seq<int> = Seq::empty();
        let n = self.by_id.len();
        let mut k: usize = 0;
        while k < n
            invariant
                0 <= k <= n,
                n == self.by_id.spec_entries().len(),
                self.wf(),
                t < names_seq(self.names).len(),
                names_seq(self.names)[t as int] == name@,
                srcs.len() == ids.len(),
                forall|j: int|
                    #![trigger srcs[j]]
                    0 <= j < ids.len() ==> {
                        &&& 0 <= srcs[j] < k
                        &&& (self.by_id.spec_entries()[srcs[j]]).0 == ids@[j]
                        &&& self.by_id.spec_entries()[srcs[j]].1 == t
                    },
                forall|e: int|
                    0 <= e < k ==> ((#[trigger] self.by_id.spec_entries()[e]).1 == t
                        ==> ids@.contains(self.by_id.spec_entries()[e].0 as u32)),
                forall|k1: int, k2: int| 0 <= k1 < k2 < ids.len() ==> ids@[k1] < ids@[k2],
            decreases n - k,
        {
            let e = self.by_id.entry_at(k);
            if e.1 == t {
                let ghost oldids = ids@;
                let key32: u32 = e.0 as u32;
                proof {
                    assert(self.by_id.spec_entries()[k as int].0 <= u32::MAX);
                    assert(key32 as u64 == self.by_id.spec_entries()[k as int].0);
                    assert forall|j: int| 0 <= j < oldids.len() implies oldids[j] < key32 by {
                        let e2 = srcs[j];
                        assert(self.by_id.spec_entries()[e2].0 < self.by_id.spec_entries()[
                        k as int].0);
                    }
                }
                ids.push(key32);
                proof {
                    let oldsrcs = srcs;
                    srcs = srcs.push(k as int);
                    assert(ids@ =~= oldids.push(key32));
                    assert forall|j: int|
                        #![trigger srcs[j]]
                        0 <= j < ids@.len() implies {
                            &&& 0 <= srcs[j] < k + 1
                            &&& (self.by_id.spec_entries()[srcs[j]]).0 == ids@[j]
                            &&& self.by_id.spec_entries()[srcs[j]].1 == t
                        } by {
                        if j < oldids.len() {
                            assert(srcs[j] == oldsrcs[j]);
                            assert(ids@[j] == oldids[j]);
                            assert(0 <= oldsrcs[j] < k);
                            assert((self.by_id.spec_entries()[oldsrcs[j]]).0 == oldids[j]);
                            assert(self.by_id.spec_entries()[oldsrcs[j]].1 == t);
                        } else {
                            assert(srcs[j] == k as int);
                            assert(ids@[j] == key32);
                        }
                    }
                    assert(ids@[ids@.len() - 1] == key32);
                    assert(ids@.contains(key32));
                    assert forall|e2: int|
                        0 <= e2 < k + 1 && (#[trigger] self.by_id.spec_entries()[e2]).1
                            == t implies ids@.contains(
                        self.by_id.spec_entries()[e2].0 as u32) by {
                        if e2 < k {
                            assert(oldids.contains(self.by_id.spec_entries()[e2].0 as u32));
                            let j = choose|j: int|
                                0 <= j < oldids.len() && oldids[j] == self.by_id.spec_entries()[
                                e2].0 as u32;
                            assert(ids@[j] == oldids[j]);
                        }
                    }
                }
            }
            k = k + 1;
        }
        if ids.len() == 0 {
            proof {
                assert forall|id: u32| self.spec_get_by_id(id) != Some(name@) by {
                    if self.spec_get_by_id(id) == Some(name@) {
                        let e = self.by_id.key_index(id as u64);
                        let idx = self.by_id.spec_entries()[e].1;
                        assert(names_seq(self.names)[idx as int] == name@);
                        assert(names_seq(self.names)[t as int] == name@);
                        assert(idx == t);
                        assert(ids@.contains(self.by_id.spec_entries()[e].0 as u32));
                    }
                }
            }
            None
        } else {
            proof {
                assert forall|j: int|
                    0 <= j < ids.len() implies self.spec_get_by_id(#[trigger] ids@[j]) == Some(
                    name@,
                ) by {
                    let e = srcs[j];
                    assert(self.by_id.spec_entries()[e].0 == ids@[j]);
                    self.by_id.lemma_key_index_is(ids@[j] as u64, e);
                }
                assert forall|id: u32|
                    self.spec_get_by_id(id) == Some(name@) implies ids@.contains(id) by {
                    let e = self.by_id.key_index(id as u64);
                    let idx = self.by_id.spec_entries()[e].1;
                    assert(names_seq(self.names)[idx as int] == name@);
                    assert(names_seq(self.names)[t as int] == name@);
                    assert(idx == t);
                    assert(ids@.contains(self.by_id.spec_entries()[e].0 as u32));
                    assert(self.by_id.spec_entries()[e].0 as u32 == id);
                }
            }
            Some(ids)
        }
    }
}

/// Does the scan of the device list stay before the block-device
/// section: the line is not yet its header?
pub fn skip_proc_devices_header(x: &str) -> (r: bool)
    ensures
        r == !spec_starts_with(x@, "Block devices:"@),
{
    !str_starts_with(x, "Block devices:")
}

/// Index of the first block-device section header at or after `i`, or
/// the number of lines when absent.
pub open spec fn spec_header_pos(lines: Seq<Seq<char>>, i: int) -> int
    decreases lines.len() - i,
{
    if i < 0 || i >= lines.len() {
        lines.len() as int
    } else if spec_starts_with(lines[i], "Block devices:"@) {
        i
    } else {
        spec_header_pos(lines, i + 1)
    }
}

/// Where the block-device data lines begin: right after the header, or
/// past the end when there is no header.
pub open spec fn spec_data_start(lines: Seq<Seq<char>>) -> int {
    let h = spec_header_pos(lines, 0);
    if h == lines.len() {
        h
    } else {
        h + 1
    }
}

proof fn lemma_header_pos_at(lines: Seq<Seq<char>>, from: int, j: int)
    requires
        0 <= from <= j <= lines.len(),
        forall|i: int| from <= i < j ==> !spec_starts_with(#[trigger] lines[i], "Block devices:"@),
        j < lines.len() ==> spec_starts_with(lines[j], "Block devices:"@),
    ensures
        spec_header_pos(lines, from) == if j < lines.len() {
            j
        } else {
            lines.len() as int
        },
    decreases j - from,
{
    if from < j {
        lemma_header_pos_at(lines, from + 1, j);
    }
}

/// What a block-device line denotes: exactly a major number and a
/// driver name, the name taken lower-cased.
pub open spec fn spec_device_line(s: Seq<char>) -> Option<(u32, Seq<char>)> {
    let ts = spec_tokens(s);
    if ts.len() == 2 && is_decimal_string(ts[0]) && decimal_value(ts[0]) <= u32::MAX {
        Some((decimal_value(ts[0]) as u32, lower_of(ts[1])))
    } else {
        None
    }
}

/// The iteration over the block-device section of the device list.
pub struct DeviceIterator {
    lines: Vec<String>,
    pos: usize,
}

impl DeviceIterator {
    /// Every line of the device-list text held.
    pub closed spec fn spec_lines(self) -> Seq<Seq<char>> {
        self.lines.deep_view()
    }

    /// The next line to be read.
    pub closed spec fn spec_pos(self) -> int {
        self.pos as int
    }

    pub open spec fn wf(self) -> bool {
        0 <= self.spec_pos() <= self.spec_lines().len()
    }

    /// Iteration over the given device-list lines, starting after the
    /// block-device section header.
    pub fn new(lines: Vec<String>) -> (r: Self)
        ensures
            r.wf(),
            r.spec_lines() == lines.deep_view(),
            r.spec_pos() == spec_data_start(lines.deep_view()),
    {
        let ghost ldv = lines.deep_view();
        proof {
            assert forall|k: int| 0 <= k < ldv.len() implies ldv[k] == lines@[k]@ by {}
        }
        let n = lines.len();
        let mut h: usize = 0;
        while h < n && skip_proc_devices_header(lines[h].as_str())
            invariant
                0 <= h <= n,
                n == lines.len(),
                ldv == lines.deep_view(),
                forall|k: int| 0 <= k < ldv.len() ==> #[trigger] ldv[k] == lines@[k]@,
                forall|k: int|
                    0 <= k < h ==> !spec_starts_with(#[trigger] ldv[k], "Block devices:"@),
            decreases n - h,
        {
            h = h + 1;
        }
        proof {
            lemma_header_pos_at(ldv, 0, h as int);
        }
        let pos: usize = if h < n {
            h + 1
        } else {
            h
        };
        DeviceIterator { lines, pos }
    }

    /// Decompose one block-device line into its major number and its
    /// lower-cased driver name; any other shape is malformed.
    pub fn remap(x: &str) -> (r: Result<(u32, String), TopoError>)
        ensures
            match r {
                Ok(p) => spec_device_line(x@) == Some((p.0, p.1@)),
                Err(e) => spec_device_line(x@) is None && e == TopoError::InvalidInput,
            },
    {
        let toks = split_tokens(x);
        let ghost ts = toks.deep_view();
        proof {
            assert forall|k: int| 0 <= k < ts.len() implies ts[k] == toks@[k]@ by {}
        }
        if toks.len() != 2 {
            return Err(TopoError::InvalidInput);
        }
        let id: u32 = match parse_decimal(toks[0].as_str(), 0xffff_ffff) {
            Some(v) => v as u32,
            None => {
                return Err(TopoError::InvalidInput);
            },
        };
        let nm = lowercase(toks[1].as_str());
        Ok((id, nm))
    }

    /// The next data line, decomposed; nothing once the lines are spent.
    pub fn next(&mut self) -> (r: Option<Result<(u32, String), TopoError>>)
        requires
            old(self).wf(),
        ensures
            final(self).wf(),
            final(self).spec_lines() == old(self).spec_lines(),
            old(self).spec_pos() >= old(self).spec_lines().len() ==> r is None
                && final(self).spec_pos() == old(self).spec_pos(),
            old(self).spec_pos() < old(self).spec_lines().len() ==> {
                &&& final(self).spec_pos() == old(self).spec_pos() + 1
                &&& match r {
                    Some(item) => match item {
                        Ok(p) => spec_device_line(old(self).spec_lines()[old(self).spec_pos()])
                            == Some((p.0, p.1@)),
                        Err(e) => spec_device_line(old(self).spec_lines()[old(self).spec_pos()])
                            is None && e == TopoError::InvalidInput,
                    },
                    None => false,
                }
            },
    {
        if self.pos >= self.lines.len() {
            None
        } else {
            let item = Self::remap(self.lines[self.pos].as_str());
            proof {
                assert(self.spec_lines()[self.pos as int] == self.lines@[self.pos as int]@);
            }
            self.pos = self.pos + 1;
            Some(item)
        }
    }
}

/// The last registration of a major among the data lines before `upto`
/// (a later line overrides an earlier one).
pub open spec fn spec_table_get(lines: Seq<Seq<char>>, d: int, upto: int, id: u32) -> Option<
    Seq<char>,
>
    decreases upto - d,
{
    if upto <= d || d < 0 {
        None
    } else {
        match spec_device_line(lines[upto - 1]) {
            Some(e) => {
                if e.0 == id {
                    Some(e.1)
                } else {
                    spec_table_get(lines, d, upto - 1, id)
                }
            },
            None => spec_table_get(lines, d, upto - 1, id),
        }
    }
}

/// The device-type registry: where the device list is read from, and
/// the snapshot parsed from it.
pub struct Devices {
    proc_path: String,
    cache: DevicesCache,
}

impl Devices {
    pub closed spec fn wf(self) -> bool {
        self.cache.wf()
    }

    /// The procfs directory the device list is read under.
    pub closed spec fn spec_path(self) -> Seq<char> {
        self.proc_path@
    }

    /// The driver name the snapshot registers for a major.
    pub closed spec fn spec_driver_of(self, id: u32) -> Option<Seq<char>> {
        self.cache.spec_get_by_id(id)
    }

    /// A registry over the given procfs directory, with an empty
    /// snapshot.
    pub fn new(p: &str) -> (r: Self)
        ensures
            r.wf(),
            r.spec_path() == p@,
            forall|id: u32| r.spec_driver_of(id) is None,
    {
        Devices { proc_path: String::from_str(p), cache: DevicesCache::new() }
    }

    /// The procfs directory the device list is read under.
    pub fn path(&self) -> (r: &String)
        ensures
            r@ == self.spec_path(),
    {
        &self.proc_path
    }

    /// The driver name registered for a major, from the snapshot alone.
    /// A miss asks for one `refresh` and one retry; a second miss is a
    /// definitive absence.
    pub fn get_by_id(&self, id: u32) -> (r: Option<String>)
        requires
            self.wf(),
        ensures
            match r {
                Some(s) => self.spec_driver_of(id) == Some(s@),
                None => self.spec_driver_of(id) is None,
            },
    {
        self.cache.get_by_id(id)
    }

    /// Every major registered for a driver name, ascending, from the
    /// snapshot alone; the same refresh-once discipline applies.
    pub fn get_by_name(&self, name: &str) -> (r: Option<Vec<u32>>)
        requires
            self.wf(),
        ensures
            match r {
                Some(ids) => {
                    &&& ids.len() > 0
                    &&& forall|k: int|
                        0 <= k < ids.len() ==> self.spec_driver_of(#[trigger] ids@[k]) == Some(
                            name@,
                        )
                    &&& forall|id: u32| self.spec_driver_of(id) == Some(name@) ==> ids@.contains(id)
                    &&& forall|k1: int, k2: int| 0 <= k1 < k2 < ids.len() ==> ids@[k1] < ids@[k2]
                },
                None => forall|id: u32| self.spec_driver_of(id) != Some(name@),
            },
    {
        self.cache.get_by_name(name)
    }

    /// Replace the snapshot wholesale from the device-list text: skip
    /// to the block-device section, register each `major name` line.
    /// A malformed line rejects the text and keeps the old snapshot.
    pub fn refresh(&mut self, lines: &Vec<String>) -> (r: Result<(), TopoError>)
        requires
            old(self).wf(),
        ensures
            final(self).wf(),
            final(self).spec_path() == old(self).spec_path(),
            match r {
                Ok(()) => {
                    let ldv = lines.deep_view();
                    let d = spec_data_start(ldv);
                    &&& forall|i: int|
                        d <= i < ldv.len() ==> spec_device_line(#[trigger] ldv[i]) is Some
                    &&& forall|id: u32|
                        final(self).spec_driver_of(id) == spec_table_get(
                            ldv,
                            d,
                            ldv.len() as int,
                            id,
                        )
                },
                Err(e) => {
                    &&& e == TopoError::InvalidInput
                    &&& forall|id: u32|
                        final(self).spec_driver_of(id) == old(self).spec_driver_of(id)
                    &&& exists|i: int|
                        spec_data_start(lines.deep_view()) <= i < lines.deep_view().len()
                            && spec_device_line(#[trigger] lines.deep_view()[i]) is None
                },
            },
    {
        let ghost ldv = lines.deep_view();
        proof {
            assert forall|k: int| 0 <= k < ldv.len() implies ldv[k] == lines@[k]@ by {}
        }
        let n = lines.len();
        let mut h: usize = 0;
        while h < n && skip_proc_devices_header(lines[h].as_str())
            invariant
                0 <= h <= n,
                n == lines.len(),
                ldv == lines.deep_view(),
                forall|k: int| 0 <= k < ldv.len() ==> #[trigger] ldv[k] == lines@[k]@,
                forall|k: int|
                    0 <= k < h ==> !spec_starts_with(#[trigger] ldv[k], "Block devices:"@),
            decreases n - h,
        {
            h = h + 1;
        }
        proof {
            lemma_header_pos_at(ldv, 0, h as int);
        }
        let d: usize = if h < n {
            h + 1
        } else {
            h
        };
        let mut cache = DevicesCache::new();
        let mut i: usize = d;
        while i < n
            invariant
                d <= i <= n,
                n == lines.len(),
                n == ldv.len(),
                ldv == lines.deep_view(),
                forall|k: int| 0 <= k < ldv.len() ==> #[trigger] ldv[k] == lines@[k]@,
                d as int == spec_data_start(ldv),
                *self == *old(self),
                old(self).wf(),
                cache.wf(),
                forall|k: int| d <= k < i ==> spec_device_line(#[trigger] ldv[k]) is Some,
                forall|id: u32|
                    cache.spec_get_by_id(id) == spec_table_get(ldv, d as int, i as int, id),
            decreases n - i,
    {
            let ghost oldcache = cache;
            match DeviceIterator::remap(lines[i].as_str()) {
                Ok(p) => {
                    let id32: u32 = p.0;
                    let nm: String = p.1;
                    let ghost nmv = nm@;
                    cache.insert(id32, nm);
                    proof {
                        assert(spec_device_line(ldv[i as int]) == Some((id32, nmv)));
                        assert forall|id: u32|
                            cache.spec_get_by_id(id) == spec_table_get(
                                ldv,
                                d as int,
                                i as int + 1,
                                id,
                            ) by {
                            if id == id32 {
                                assert(cache.spec_get_by_id(id) == Some(nmv));
                            } else {
                                assert(cache.spec_get_by_id(id) == oldcache.spec_get_by_id(id));
                            }
                        }
                    }
                },
                Err(e) => {
                    proof {
                        assert(spec_device_line(ldv[i as int]) is None);
                    }
                    return Err(e);
                },
            }
            i = i + 1;
        }
        self.cache = cache;
        Ok(())
    }
}

} // verus!
