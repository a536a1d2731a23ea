//! Device numbers: the combined major/minor identity of a block device,
//! with parsing from and formatting to the `major:minor` notation.

use crate::num::{
    decimal_repr, decimal_value, is_canonical_decimal, is_decimal_string, format_decimal,
    lemma_canonical_decimal_unique, parse_decimal,
};
use vstd::prelude::*;

verus! {

/// Combined major/minor number identifying a Linux block device.
#[derive(Clone, Copy, PartialEq, Eq, Structural, Hash, Debug, PartialOrd, Ord)]
pub struct Devno(pub u64);

/// The glibc packing of a (major, minor) pair into a `dev_t`.
pub open spec fn spec_makedev(major: u32, minor: u32) -> u64 {
    (((major as u64) & 0xfff) << 8) | (((major as u64) & 0xfffff000) << 32) | ((minor as u64)
        & 0xff) | (((minor as u64) & 0xffffff00) << 12)
}

/// The major number packed inside a `dev_t`.
pub open spec fn spec_major(dev: u64) -> u32 {
    (((dev & 0x00000000000fff00) >> 8) | ((dev & 0xfffff00000000000) >> 32)) as u32
}

/// The minor number packed inside a `dev_t`.
pub open spec fn spec_minor(dev: u64) -> u32 {
    ((dev & 0x00000000000000ff) | ((dev & 0x00000ffffff00000) >> 12)) as u32
}

/// Packing a (major, minor) pair loses nothing: both halves
/// come back out unchanged.
pub proof fn lemma_makedev_parts(major: u32, minor: u32)
    ensures
        spec_major(spec_makedev(major, minor)) == major,
        spec_minor(spec_makedev(major, minor)) == minor,
{
    assert(((((((major as u64) & 0xfff) << 8) | (((major as u64) & 0xfffff000) << 32) | ((
    minor as u64) & 0xff) | (((minor as u64) & 0xffffff00) << 12)) & 0x00000000000fff00) >> 8 | ((((
    (major as u64) & 0xfff) << 8) | (((major as u64) & 0xfffff000) << 32) | ((minor as u64) & 0xff)
        | (((minor as u64) & 0xffffff00) << 12)) & 0xfffff00000000000) >> 32) as u32 == major)
        by (bit_vector);
    assert((((((major as u64) & 0xfff) << 8) | (((major as u64) & 0xfffff000) << 32) | ((
    minor as u64) & 0xff) | (((minor as u64) & 0xffffff00) << 12)) & 0x00000000000000ff | (((((
    major as u64) & 0xfff) << 8) | (((major as u64) & 0xfffff000) << 32) | ((minor as u64) & 0xff)
        | (((minor as u64) & 0xffffff00) << 12)) & 0x00000ffffff00000) >> 12) as u32 == minor)
        by (bit_vector);
}

/// The packing covers every bit of a `dev_t`: re-packing the extracted
/// halves restores the original value.
pub proof fn lemma_makedev_identity(dev: u64)
    ensures
        spec_makedev(spec_major(dev), spec_minor(dev)) == dev,
{
    assert(((((((dev & 0x00000000000fff00) >> 8) | ((dev & 0xfffff00000000000) >> 32)) as u32
        as u64) & 0xfff) << 8) | ((((((dev & 0x00000000000fff00) >> 8) | ((dev
        & 0xfffff00000000000) >> 32)) as u32 as u64) & 0xfffff000) << 32) | ((((dev
        & 0x00000000000000ff) | ((dev & 0x00000ffffff00000) >> 12)) as u32 as u64) & 0xff) | (((((
    dev & 0x00000000000000ff) | ((dev & 0x00000ffffff00000) >> 12)) as u32 as u64) & 0xffffff00)
        << 12) == dev) by (bit_vector);
}

/// Relies on `libc::makedev`: packs a (major, minor) pair into a `dev_t`
/// with the glibc bit layout.
#[verifier::external_body]
fn libc_makedev(major: u32, minor: u32) -> (r: u64)
    ensures
        r == spec_makedev(major, minor),
{
    libc::makedev(major, minor)
}

/// Relies on `libc::major`: extracts the major number of a `dev_t`
/// with the glibc bit layout.
#[verifier::external_body]
fn libc_major(dev: u64) -> (r: u32)
    ensures
        r == spec_major(dev),
{
    libc::major(dev)
}

/// Relies on `libc::minor`: extracts the minor number of a `dev_t`
/// with the glibc bit layout.
#[verifier::external_body]
fn libc_minor(dev: u64) -> (r: u32)
    ensures
        r == spec_minor(dev),
{
    libc::minor(dev)
}

/// Index of the first occurrence of `c` in `s`, or -1 when absent.
pub open spec fn find_char(s: Seq<char>, c: char) -> int
    decreases s.len(),
{
    if s.len() == 0 {
        -1
    } else if s[0] == c {
        0
    } else {
        let r = find_char(s.drop_first(), c);
        if r == -1 {
            -1
        } else {
            r + 1
        }
    }
}

/// A position that is an occurrence of `c` preceded by none is the
/// first occurrence.
pub proof fn lemma_find_char_at(s: Seq<char>, c: char, j: int)
    requires
        0 <= j < s.len(),
        s[j] == c,
        forall|i: int| 0 <= i < j ==> s[i] != c,
    ensures
        find_char(s, c) == j,
    decreases j,
{
    if j > 0 {
        let t = s.drop_first();
        assert(forall|i: int| 0 <= i < j - 1 ==> t[i] == s[i + 1] && t[i] != c);
        lemma_find_char_at(t, c, j - 1);
    }
}

/// When `c` occurs nowhere in `s`, there is no first occurrence.
pub proof fn lemma_find_char_none(s: Seq<char>, c: char)
    requires
        forall|i: int| 0 <= i < s.len() ==> s[i] != c,
    ensures
        find_char(s, c) == -1,
    decreases s.len(),
{
    if s.len() > 0 {
        let t = s.drop_first();
        assert(forall|i: int| 0 <= i < t.len() ==> t[i] == s[i + 1] && t[i] != c);
        lemma_find_char_none(t, c);
    }
}

/// What the first occurrence means: it holds `c` and nothing before it does.
pub proof fn lemma_find_char_props(s: Seq<char>, c: char)
    ensures
        -1 <= find_char(s, c) < s.len(),
        find_char(s, c) >= 0 ==> s[find_char(s, c)] == c,
        find_char(s, c) >= 0 ==> forall|i: int| 0 <= i < find_char(s, c) ==> s[i] != c,
        find_char(s, c) == -1 ==> forall|i: int| 0 <= i < s.len() ==> s[i] != c,
    decreases s.len(),
{
    if s.len() > 0 && s[0] != c {
        let t = s.drop_first();
        lemma_find_char_props(t, c);
        let r = find_char(t, c);
        if r >= 0 {
            assert(forall|i: int| 0 <= i < r ==> s[i + 1] == t[i]);
            assert(forall|i: int| 1 <= i < r + 1 ==> s[i] == t[i - 1] && s[i] != c);
        } else {
            assert forall|i: int| 1 <= i < s.len() implies s[i] != c by {
                assert(t[i - 1] == s[i]);
                assert(t[i - 1] != c);
            }
        }
    }
}

/// Find the first occurrence of `c` in `s`.
pub fn find_char_at(s: &str, c: char) -> (r: Option<usize>)
    ensures
        match r {
            Some(j) => find_char(s@, c) == j,
            None => find_char(s@, c) == -1,
        },
{
    let n = s.unicode_len();
    let mut j: usize = 0;
    while j < n && s.get_char(j) != c
        invariant
            0 <= j <= n,
            n == s@.len(),
            forall|i: int| 0 <= i < j ==> s@[i] != c,
        decreases n - j,
    {
        j = j + 1;
    }
    if j < n {
        proof {
            lemma_find_char_at(s@, c, j as int);
        }
        Some(j)
    } else {
        proof {
            lemma_find_char_none(s@, c);
        }
        None
    }
}

/// What a device-number string denotes: `major:minor` with both halves
/// decimal and fitting `u32`, or a bare decimal `dev_t`.
pub open spec fn spec_parse_devno(s: Seq<char>) -> Option<Devno> {
    let j = find_char(s, ':');
    if j >= 0 {
        let ma = s.subrange(0, j);
        let mi = s.subrange(j + 1, s.len() as int);
        if is_decimal_string(ma) && decimal_value(ma) <= u32::MAX && is_decimal_string(mi)
            && decimal_value(mi) <= u32::MAX {
            Some(Devno(spec_makedev(decimal_value(ma) as u32, decimal_value(mi) as u32)))
        } else {
            None
        }
    } else {
        if is_decimal_string(s) && decimal_value(s) <= u64::MAX {
            Some(Devno(decimal_value(s) as u64))
        } else {
            None
        }
    }
}

/// The `major:minor` rendering of a device number.
pub open spec fn spec_format_devno(d: Devno) -> Seq<char> {
    decimal_repr(spec_major(d.0) as int) + seq![':'] + decimal_repr(spec_minor(d.0) as int)
}

/// Rejection witness for a malformed device-number string.
#[derive(Debug)]
pub struct ParseDevnoError;

impl Devno {
    /// The raw packed `dev_t` value.
    pub open spec fn spec_raw(&self) -> u64 {
        self.0
    }

    #[verifier::when_used_as_spec(spec_raw)]
    pub fn raw(&self) -> (r: u64)
        ensures
            r == self.spec_raw(),
    {
        self.0
    }

    /// The major number of this device.
    pub fn major(&self) -> (r: u32)
        ensures
            r == spec_major(self.spec_raw()),
    {
        libc_major(self.0)
    }

    /// The minor number of this device.
    pub fn minor(&self) -> (r: u32)
        ensures
            r == spec_minor(self.spec_raw()),
    {
        libc_minor(self.0)
    }

    /// Parse `major:minor`, or a bare decimal `dev_t` value.
    pub fn from_str(s: &str) -> (r: Result<Devno, ParseDevnoError>)
        ensures
            match r {
                Ok(d) => spec_parse_devno(s@) == Some(d),
                Err(_) => spec_parse_devno(s@) is None,
            },
    {
        let n = s.unicode_len();
        let mut j: usize = 0;
        while j < n && s.get_char(j) != ':'
            invariant
                0 <= j <= n,
                n == s@.len(),
                forall|i: int| 0 <= i < j ==> s@[i] != ':',
            decreases n - j,
        {
            j = j + 1;
        }
        if j < n {
            proof {
                lemma_find_char_at(s@, ':', j as int);
            }
            let ma_str = s.substring_char(0, j);
            let mi_str = s.substring_char(j + 1, n);
            let ma = match parse_decimal(ma_str, 0xffff_ffff) {
                Some(v) => v,
                None => {
                    return Err(ParseDevnoError);
                },
            };
            let mi = match parse_decimal(mi_str, 0xffff_ffff) {
                Some(v) => v,
                None => {
                    return Err(ParseDevnoError);
                },
            };
            Ok(Devno(libc_makedev(ma as u32, mi as u32)))
        } else {
            proof {
                lemma_find_char_none(s@, ':');
            }
            match parse_decimal(s, u64::MAX) {
                Some(v) => Ok(Devno(v)),
                None => Err(ParseDevnoError),
            }
        }
    }

    /// Render this device number as `major:minor`.
    pub fn format(&self) -> (r: String)
        ensures
            r@ == spec_format_devno(*self),
    {
        let mut r = format_decimal(self.major() as u64);
        proof {
            reveal_strlit(":");
        }
        r.append(":");
        let mi = format_decimal(self.minor() as u64);
        r.append(mi.as_str());
        proof {
            assert(r@ =~= spec_format_devno(*self));
        }
        r
    }
}

impl From<u64> for Devno {
    /// Wrap a raw `dev_t` value.
    fn from(raw: u64) -> (r: Self) {
        Devno(raw)
    }
}

impl vstd::std_specs::convert::FromSpecImpl<u64> for Devno {
    open spec fn obeys_from_spec() -> bool {
        true
    }

    open spec fn from_spec(raw: u64) -> Self {
        Devno(raw)
    }
}

impl From<(u32, u32)> for Devno {
    /// Pack a (major, minor) pair.
    fn from(raw: (u32, u32)) -> (r: Self) {
        Devno(libc_makedev(raw.0, raw.1))
    }
}

impl vstd::std_specs::convert::FromSpecImpl<(u32, u32)> for Devno {
    open spec fn obeys_from_spec() -> bool {
        true
    }

    open spec fn from_spec(raw: (u32, u32)) -> Self {
        Devno(spec_makedev(raw.0, raw.1))
    }
}

/// A canonical `major:minor` string: both halves in canonical decimal
/// form and within `u32` range.
pub open spec fn is_canonical_devno_string(s: Seq<char>) -> bool {
    let j = find_char(s, ':');
    &&& 0 <= j < s.len()
    &&& is_canonical_decimal(s.subrange(0, j))
    &&& decimal_value(s.subrange(0, j)) <= u32::MAX
    &&& is_canonical_decimal(s.subrange(j + 1, s.len() as int))
    &&& decimal_value(s.subrange(j + 1, s.len() as int)) <= u32::MAX
}

/// Formatting any device number yields a canonical `major:minor` string
/// that parses back to the same device number.
pub proof fn lemma_devno_format_parse(d: Devno)
    ensures
        is_canonical_devno_string(spec_format_devno(d)),
        spec_parse_devno(spec_format_devno(d)) == Some(d),
{
    let ma = spec_major(d.0);
    let mi = spec_minor(d.0);
    let rm = decimal_repr(ma as int);
    let rn = decimal_repr(mi as int);
    crate::num::lemma_decimal_repr_value(ma as int);
    crate::num::lemma_decimal_repr_value(mi as int);
    let s = spec_format_devno(d);
    assert(s.len() == rm.len() + 1 + rn.len());
    assert forall|i: int| 0 <= i < rm.len() implies s[i] != ':' by {
        assert(s[i] == rm[i]);
        assert(crate::num::is_digit_char(rm[i]));
    }
    assert(s[rm.len() as int] == ':');
    lemma_find_char_at(s, ':', rm.len() as int);
    assert(s.subrange(0, rm.len() as int) =~= rm);
    assert(s.subrange(rm.len() as int + 1, s.len() as int) =~= rn);
    lemma_makedev_identity(d.0);
    assert(spec_parse_devno(s) == Some(d));
}

/// Law: a device number parsed from a canonical `major:minor` string
/// formats back to the identical string.
pub proof fn lemma_devno_string_round_trip(s: Seq<char>)
    requires
        is_canonical_devno_string(s),
    ensures
        spec_parse_devno(s) is Some,
        spec_format_devno(spec_parse_devno(s).unwrap()) == s,
{
    let j = find_char(s, ':');
    lemma_find_char_props(s, ':');
    let ma = s.subrange(0, j);
    let mi = s.subrange(j + 1, s.len() as int);
    crate::num::lemma_decimal_value_nonneg(ma);
    crate::num::lemma_decimal_value_nonneg(mi);
    let mav = decimal_value(ma) as u32;
    let miv = decimal_value(mi) as u32;
    let d = Devno(spec_makedev(mav, miv));
    assert(spec_parse_devno(s) == Some(d));
    lemma_makedev_parts(mav, miv);
    lemma_canonical_decimal_unique(ma);
    lemma_canonical_decimal_unique(mi);
    assert(decimal_repr(spec_major(d.0) as int) == ma);
    assert(decimal_repr(spec_minor(d.0) as int) == mi);
    assert(spec_format_devno(d) =~= s);
}

} // verus!
