//! The mountinfo table: parsing and formatting of mountinfo lines, and
//! the queries the pseudo-filesystem locator runs over them.

use crate::device::{spec_format_devno, spec_parse_devno, Devno, ParseDevnoError};
use crate::num::{decimal_repr, decimal_value, is_decimal_string, format_decimal, parse_decimal};
use crate::tokens::{
    join_spaces, join_tokens, lemma_tokens_of_join, spec_tokens, split_tokens, str_eq, wf_token,
};
use vstd::prelude::*;

verus! {

/// One line of the mountinfo table, decomposed.
pub struct MountInfo {
    pub id: u32,
    pub parent_id: u32,
    pub dev: Devno,
    pub root: String,
    pub mount_point: String,
    pub mount_options: String,
    pub fields: Vec<String>,
    pub file_system: String,
    pub source: Option<String>,
    pub super_options: String,
}

/// The mathematical content of a mountinfo line.
#[verifier::ext_equal]
pub struct MountInfoModel {
    pub id: u32,
    pub parent_id: u32,
    pub dev: Devno,
    pub root: Seq<char>,
    pub mount_point: Seq<char>,
    pub mount_options: Seq<char>,
    pub fields: Seq<Seq<char>>,
    pub file_system: Seq<char>,
    pub source: Option<Seq<char>>,
    pub super_options: Seq<char>,
}

impl View for MountInfo {
    type V = MountInfoModel;

    open spec fn view(&self) -> MountInfoModel {
        MountInfoModel {
            id: self.id,
            parent_id: self.parent_id,
            dev: self.dev,
            root: self.root@,
            mount_point: self.mount_point@,
            mount_options: self.mount_options@,
            fields: self.fields.deep_view(),
            file_system: self.file_system@,
            source: self.source.deep_view(),
            super_options: self.super_options@,
        }
    }
}

impl DeepView for MountInfo {
    type V = MountInfoModel;

    open spec fn deep_view(&self) -> MountInfoModel {
        self.view()
    }
}

/// Rejection witness for a malformed mountinfo line.
#[derive(Debug)]
pub struct ParseMountInfoError;

/// The separator token between the optional fields and the tail.
pub open spec fn dash_token() -> Seq<char> {
    seq!['-']
}

/// The token standing for an absent source.
pub open spec fn none_token() -> Seq<char> {
    seq!['n', 'o', 'n', 'e']
}

/// Index of the first `-` token at or after `i`, or -1 when absent.
pub open spec fn find_dash_from(ts: Seq<Seq<char>>, i: int) -> int
    decreases ts.len() - i,
{
    if i < 0 || i >= ts.len() {
        -1
    } else if ts[i] == dash_token() {
        i
    } else {
        find_dash_from(ts, i + 1)
    }
}

pub proof fn lemma_find_dash_at(ts: Seq<Seq<char>>, from: int, j: int)
    requires
        0 <= from <= j < ts.len(),
        ts[j] == dash_token(),
        forall|i: int| from <= i < j ==> ts[i] != dash_token(),
    ensures
        find_dash_from(ts, from) == j,
    decreases j - from,
{
    if from < j {
        lemma_find_dash_at(ts, from + 1, j);
    }
}

pub proof fn lemma_find_dash_none(ts: Seq<Seq<char>>, from: int)
    requires
        0 <= from,
        forall|i: int| from <= i < ts.len() ==> ts[i] != dash_token(),
    ensures
        find_dash_from(ts, from) == -1,
    decreases ts.len() - from,
{
    if from < ts.len() {
        lemma_find_dash_none(ts, from + 1);
    }
}

/// What a sequence of mountinfo tokens denotes:
/// `id parent_id dev root mount_point mount_options [field]* - fstype source super_options`,
/// with a `source` of `none` standing for an absent source, and any
/// missing or malformed mandatory token denoting nothing.
pub open spec fn spec_parse_mountinfo_tokens(ts: Seq<Seq<char>>) -> Option<MountInfoModel> {
    let sep = find_dash_from(ts, 6);
    if sep == -1 || ts.len() < sep + 4 {
        None
    } else if !(is_decimal_string(ts[0]) && decimal_value(ts[0]) <= u32::MAX) {
        None
    } else if !(is_decimal_string(ts[1]) && decimal_value(ts[1]) <= u32::MAX) {
        None
    } else if spec_parse_devno(ts[2]) is None {
        None
    } else {
        Some(
            MountInfoModel {
                id: decimal_value(ts[0]) as u32,
                parent_id: decimal_value(ts[1]) as u32,
                dev: spec_parse_devno(ts[2]).unwrap(),
                root: ts[3],
                mount_point: ts[4],
                mount_options: ts[5],
                fields: ts.subrange(6, sep),
                file_system: ts[sep + 1],
                source: if ts[sep + 2] == none_token() {
                    None
                } else {
                    Some(ts[sep + 2])
                },
                super_options: ts[sep + 3],
            },
        )
    }
}

/// What a mountinfo line denotes.
pub open spec fn spec_parse_mountinfo(s: Seq<char>) -> Option<MountInfoModel> {
    spec_parse_mountinfo_tokens(spec_tokens(s))
}

/// The tokens a mountinfo entry renders to.
pub open spec fn spec_mountinfo_tokens(m: MountInfoModel) -> Seq<Seq<char>> {
    seq![
        decimal_repr(m.id as int),
        decimal_repr(m.parent_id as int),
        spec_format_devno(m.dev),
        m.root,
        m.mount_point,
        m.mount_options,
    ] + m.fields + seq![
        dash_token(),
        m.file_system,
        match m.source {
            Some(src) => src,
            None => none_token(),
        },
        m.super_options,
    ]
}

/// The line a mountinfo entry renders to.
pub open spec fn spec_format_mountinfo(m: MountInfoModel) -> Seq<char> {
    join_spaces(spec_mountinfo_tokens(m))
}

impl MountInfo {
    /// Parse one mountinfo line.
    pub fn from_str(s: &str) -> (r: Result<MountInfo, ParseMountInfoError>)
        ensures
            match r {
                Ok(m) => spec_parse_mountinfo(s@) == Some(m@),
                Err(_) => spec_parse_mountinfo(s@) is None,
            },
    {
        let toks = split_tokens(s);
        let ghost ts = toks.deep_view();
        proof {
            assert forall|k: int| 0 <= k < ts.len() implies ts[k] == toks@[k]@ by {}
            reveal_strlit("-");
            assert("-"@ =~= dash_token());
            reveal_strlit("none");
            assert("none"@ =~= none_token());
        }
        let n = toks.len();
        if n < 6 {
            return Err(ParseMountInfoError);
        }
        // Scan for the `-` separator past the six mandatory tokens.
        let mut sep: usize = 6;
        while sep < n && !str_eq(toks[sep].as_str(), "-")
            invariant
                6 <= sep <= n,
                n == ts.len(),
                ts == toks.deep_view(),
                forall|i: int| 0 <= i < ts.len() ==> #[trigger] ts[i] == toks@[i]@,
                forall|i: int| 6 <= i < sep ==> ts[i] != dash_token(),
                "-"@ == dash_token(),
            decreases n - sep,
        {
            sep = sep + 1;
        }
        if sep >= n {
            proof {
                lemma_find_dash_none(ts, 6);
            }
            return Err(ParseMountInfoError);
        }
        proof {
            lemma_find_dash_at(ts, 6, sep as int);
        }
        if n - sep < 4 {
            return Err(ParseMountInfoError);
        }
        let id: u32 = match parse_decimal(toks[0].as_str(), 0xffff_ffff) {
            Some(v) => v as u32,
            None => {
                return Err(ParseMountInfoError);
            },
        };
        let parent_id: u32 = match parse_decimal(toks[1].as_str(), 0xffff_ffff) {
            Some(v) => v as u32,
            None => {
                return Err(ParseMountInfoError);
            },
        };
        let dev = match Devno::from_str(toks[2].as_str()) {
            Ok(d) => d,
            Err(ParseDevnoError) => {
                return Err(ParseMountInfoError);
            },
        };
        let mut fields: Vec<String> = Vec::new();
        let mut i: usize = 6;
        while i < sep
            invariant
                6 <= i <= sep <= n,
                n == ts.len(),
                n == toks.len(),
                fields.len() == i - 6,
                forall|k: int| 0 <= k < ts.len() ==> #[trigger] ts[k] == toks@[k]@,
                forall|k: int| 0 <= k < i - 6 ==> #[trigger] fields@[k]@ == ts[6 + k],
            decreases sep - i,
        {
            fields.push(toks[i].clone());
            i = i + 1;
        }
        proof {
            assert(fields.deep_view() =~= ts.subrange(6, sep as int));
        }
        let source: Option<String> = if str_eq(toks[sep + 2].as_str(), "none") {
            None
        } else {
            Some(toks[sep + 2].clone())
        };
        let m = MountInfo {
            id,
            parent_id,
            dev,
            root: toks[3].clone(),
            mount_point: toks[4].clone(),
            mount_options: toks[5].clone(),
            fields,
            file_system: toks[sep + 1].clone(),
            source,
            super_options: toks[sep + 3].clone(),
        };
        proof {
            assert(m@ =~= spec_parse_mountinfo(s@).unwrap());
        }
        Ok(m)
    }

    /// Render this entry as one mountinfo line.
    pub fn format_line(&self) -> (r: String)
        ensures
            r@ == spec_format_mountinfo(self@),
    {
        let ghost full = spec_mountinfo_tokens(self@);
        let mut toks: Vec<String> = Vec::new();
        toks.push(format_decimal(self.id as u64));
        toks.push(format_decimal(self.parent_id as u64));
        toks.push(self.dev.format());
        toks.push(self.root.clone());
        toks.push(self.mount_point.clone());
        toks.push(self.mount_options.clone());
        proof {
            assert(toks@[0]@ == full[0]);
            assert(toks@[1]@ == full[1]);
            assert(toks@[2]@ == full[2]);
            assert(toks@[3]@ == full[3]);
            assert(toks@[4]@ == full[4]);
            assert(toks@[5]@ == full[5]);
        }
        let mut i: usize = 0;
        while i < self.fields.len()
            invariant
                0 <= i <= self.fields.len(),
                toks.len() == 6 + i,
                full == spec_mountinfo_tokens(self@),
                full.len() == 10 + self.fields.len(),
                forall|k: int| 0 <= k < 6 + i ==> #[trigger] toks@[k]@ == full[k],
            decreases self.fields.len() - i,
        {
            toks.push(self.fields[i].clone());
            proof {
                assert(full[6 + i as int] == self.fields.deep_view()[i as int]);
                assert(self.fields.deep_view()[i as int] == self.fields@[i as int]@);
            }
            i = i + 1;
        }
        proof {
            reveal_strlit("-");
            reveal_strlit("none");
            assert("-"@ =~= dash_token());
            assert("none"@ =~= none_token());
        }
        let ghost flen = self.fields@.len() as int;
        toks.push(String::from_str("-"));
        toks.push(self.file_system.clone());
        let src: String = match &self.source {
            Some(s) => s.clone(),
            None => String::from_str("none"),
        };
        toks.push(src);
        toks.push(self.super_options.clone());
        proof {
            assert(toks@[6 + flen]@ == full[6 + flen]);
            assert(toks@[7 + flen]@ == full[7 + flen]);
            assert(toks@[8 + flen]@ == full[8 + flen]);
            assert(toks@[9 + flen]@ == full[9 + flen]);
            assert(toks.deep_view() =~= full);
        }
        join_tokens(&toks)
    }
}

/// A mountinfo entry whose text fields can all stand as tokens: each
/// non-empty, free of whitespace, no optional field equal to the `-`
/// separator, and no source spelled `none`.
pub open spec fn wf_mountinfo(m: MountInfoModel) -> bool {
    &&& wf_token(m.root)
    &&& wf_token(m.mount_point)
    &&& wf_token(m.mount_options)
    &&& forall|i: int|
        0 <= i < m.fields.len() ==> wf_token(#[trigger] m.fields[i]) && m.fields[i]
            != dash_token()
    &&& wf_token(m.file_system)
    &&& (m.source matches Some(src) ==> wf_token(src) && src != none_token())
    &&& wf_token(m.super_options)
}

/// Digit strings can stand as tokens.
proof fn lemma_decimal_repr_wf_token(n: int)
    requires
        n >= 0,
    ensures
        wf_token(decimal_repr(n)),
        decimal_repr(n) != dash_token(),
{
    crate::num::lemma_decimal_repr_value(n);
    let s = decimal_repr(n);
    assert forall|i: int| 0 <= i < s.len() implies !crate::tokens::is_ws(s[i]) by {
        assert(crate::num::is_digit_char(s[i]));
    }
    assert(crate::num::is_digit_char(s[0]));
    assert(s[0] != '-');
}

/// A formatted device number can stand as a token.
pub proof fn lemma_devno_format_wf_token(d: Devno)
    requires
        true,
    ensures
        wf_token(spec_format_devno(d)),
        spec_format_devno(d) != dash_token(),
{
    let s = spec_format_devno(d);
    let rm = decimal_repr(crate::device::spec_major(d.0) as int);
    let rn = decimal_repr(crate::device::spec_minor(d.0) as int);
    crate::num::lemma_decimal_repr_value(crate::device::spec_major(d.0) as int);
    crate::num::lemma_decimal_repr_value(crate::device::spec_minor(d.0) as int);
    assert forall|i: int| 0 <= i < s.len() implies !crate::tokens::is_ws(s[i]) by {
        if i < rm.len() {
            assert(s[i] == rm[i]);
            assert(crate::num::is_digit_char(rm[i]));
        } else if i == rm.len() {
            assert(s[i] == ':');
        } else {
            assert(s[i] == rn[i - rm.len() - 1]);
            assert(crate::num::is_digit_char(rn[i - rm.len() - 1]));
        }
    }
    assert(s[0] == rm[0]);
    assert(crate::num::is_digit_char(s[0]));
    assert(s.len() > 0);
}

/// Law: parsing a formatted mountinfo entry restores the entry exactly;
/// in particular id, parent id, device number, root and mount point are
/// preserved.
pub proof fn lemma_mountinfo_round_trip(m: MountInfoModel)
    requires
        wf_mountinfo(m),
    ensures
        spec_parse_mountinfo(spec_format_mountinfo(m)) == Some(m),
{
    let ts = spec_mountinfo_tokens(m);
    lemma_decimal_repr_wf_token(m.id as int);
    lemma_decimal_repr_wf_token(m.parent_id as int);
    lemma_devno_format_wf_token(m.dev);
    assert(wf_token(dash_token()));
    assert(wf_token(none_token()));
    assert forall|i: int| 0 <= i < ts.len() implies wf_token(#[trigger] ts[i]) by {
        if 6 <= i < 6 + m.fields.len() {
            assert(ts[i] == m.fields[i - 6]);
        }
    }
    lemma_tokens_of_join(ts);
    let sep = 6 + m.fields.len() as int;
    assert(ts[sep] == dash_token());
    assert forall|i: int| 6 <= i < sep implies ts[i] != dash_token() by {
        assert(ts[i] == m.fields[i - 6]);
    }
    lemma_find_dash_at(ts, 6, sep);
    assert(ts.len() == sep + 4);
    crate::num::lemma_decimal_repr_value(m.id as int);
    crate::num::lemma_decimal_repr_value(m.parent_id as int);
    crate::device::lemma_devno_format_parse(m.dev);
    let parsed = spec_parse_mountinfo_tokens(ts);
    assert(parsed is Some);
    assert(ts.subrange(6, sep) =~= m.fields);
    match m.source {
        Some(src) => {
            assert(ts[sep + 2] == src);
            assert(parsed.unwrap().source == Some(src));
        },
        None => {
            assert(ts[sep + 2] == none_token());
        },
    }
    assert(parsed.unwrap() =~= m);
}

/// The live mountinfo table: the path its text is read from.
pub struct MountInfos {
    path: String,
}

impl MountInfos {
    /// The file the table reads.
    pub closed spec fn spec_path(&self) -> Seq<char> {
        self.path@
    }

    /// A table reading the given file.
    pub fn new(path: &str) -> (r: Self)
        ensures
            r.spec_path() == path@,
    {
        MountInfos { path: String::from_str(path) }
    }

    /// The table of the given procfs: its `self/mountinfo` file.
    pub fn from_procfs(procfs: &str) -> (r: Self)
        ensures
            r.spec_path() == procfs@ + "/self/mountinfo"@,
    {
        let mut p = String::from_str(procfs);
        p.append("/self/mountinfo");
        MountInfos { path: p }
    }

    /// The file the table reads.
    pub fn path(&self) -> (r: &String)
        ensures
            r@ == self.spec_path(),
    {
        &self.path
    }
}

/// Parse a whole mountinfo text, line by line. Any malformed line
/// fails the parse, as the table treats kernel text as authoritative.
pub fn parse_mountinfo_lines(lines: &Vec<String>) -> (r: Result<
    Vec<MountInfo>,
    ParseMountInfoError,
>)
    ensures
        match r {
            Ok(ms) => {
                &&& ms.len() == lines.len()
                &&& forall|i: int|
                    0 <= i < lines.len() ==> spec_parse_mountinfo(#[trigger] lines@[i]@) == Some(
                        ms@[i]@,
                    )
            },
            Err(_) => exists|i: int|
                0 <= i < lines.len() && spec_parse_mountinfo(#[trigger] lines@[i]@) is None,
        },
{
    let mut ms: Vec<MountInfo> = Vec::new();
    let mut i: usize = 0;
    while i < lines.len()
        invariant
            0 <= i <= lines.len(),
            ms.len() == i,
            forall|k: int|
                0 <= k < i ==> spec_parse_mountinfo(#[trigger] lines@[k]@) == Some(ms@[k]@),
        decreases lines.len() - i,
    {
        match MountInfo::from_str(lines[i].as_str()) {
            Ok(m) => {
                ms.push(m);
            },
            Err(e) => {
                return Err(e);
            },
        }
        i = i + 1;
    }
    Ok(ms)
}

/// Does the entry belong to the wanted filesystem mount: its type and
/// its (present) source both match?
pub open spec fn mount_matches(m: MountInfoModel, file_system: Seq<char>, source: Seq<char>)
    -> bool {
    m.file_system == file_system && m.source == Some(source)
}

/// First entry of the wanted filesystem type and source, if any.
pub fn find_mount(entries: &Vec<MountInfo>, file_system: &str, source: &str) -> (r: Option<usize>)
    ensures
        match r {
            Some(i) => {
                &&& i < entries.len()
                &&& mount_matches(entries@[i as int]@, file_system@, source@)
                &&& forall|k: int|
                    0 <= k < i ==> !mount_matches(#[trigger] entries@[k]@, file_system@, source@)
            },
            None => forall|k: int|
                0 <= k < entries.len() ==> !mount_matches(
                    #[trigger] entries@[k]@,
                    file_system@,
                    source@,
                ),
        },
{
    let mut i: usize = 0;
    while i < entries.len()
        invariant
            0 <= i <= entries.len(),
            forall|k: int|
                0 <= k < i ==> !mount_matches(#[trigger] entries@[k]@, file_system@, source@),
        decreases entries.len() - i,
    {
        let e = &entries[i];
        let fs_ok = str_eq(e.file_system.as_str(), file_system);
        let src_ok = match &e.source {
            Some(s) => str_eq(s.as_str(), source),
            None => false,
        };
        if fs_ok && src_ok {
            return Some(i);
        }
        i = i + 1;
    }
    None
}

/// Does the entry answer a mount-of-path query? When a mount id was
/// resolved it is authoritative — a device number alone cannot
/// disambiguate bind mounts or multiple mounts of one device — so the
/// entry's id must equal it. Only when no mount id could be resolved
/// does the entry's device number decide.
pub open spec fn mount_of_path_matches(m: MountInfoModel, mount_id: Option<u32>, dev: Devno)
    -> bool {
    match mount_id {
        Some(id) => m.id == id,
        None => m.dev == dev,
    }
}

/// First entry owning the queried path: matched by resolved mount id
/// when one is available, else by device number.
pub fn find_mount_of_path(entries: &Vec<MountInfo>, mount_id: Option<u32>, dev: Devno) -> (r:
    Option<usize>)
    ensures
        match r {
            Some(i) => {
                &&& i < entries.len()
                &&& mount_of_path_matches(entries@[i as int]@, mount_id, dev)
                &&& forall|k: int|
                    0 <= k < i ==> !mount_of_path_matches(#[trigger] entries@[k]@, mount_id, dev)
            },
            None => forall|k: int|
                0 <= k < entries.len() ==> !mount_of_path_matches(
                    #[trigger] entries@[k]@,
                    mount_id,
                    dev,
                ),
        },
{
    let mut i: usize = 0;
    while i < entries.len()
        invariant
            0 <= i <= entries.len(),
            forall|k: int|
                0 <= k < i ==> !mount_of_path_matches(#[trigger] entries@[k]@, mount_id, dev),
        decreases entries.len() - i,
    {
        let e = &entries[i];
        let matched = match mount_id {
            Some(id) => e.id == id,
            None => e.dev == dev,
        };
        if matched {
            return Some(i);
        }
        i = i + 1;
    }
    None
}

} // verus!
