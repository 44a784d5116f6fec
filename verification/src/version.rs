//! Version numbers of the external build tool, parsed from the first line of
//! its version banner, and compared to gate features.

use vstd::prelude::*;
use crate::decode::strip_cr;
use crate::decode::strip_cr_str;
use crate::strutil::is_prefix;
use crate::strutil::has_prefix;
use crate::strutil::spec_split;
use crate::strutil::spec_split_once;
use crate::strutil::split_once_str;
use crate::strutil::split_str;

verus! {

/// A `major.minor.patch` version of the external build tool.
#[derive(Debug, Clone, Copy, PartialEq, Eq, Structural)]
pub struct Version {
    /// The major version number.
    pub major: u32,
    /// The minor version number.
    pub minor: u32,
    /// The patch version number.
    pub patch: u32,
}

pub open spec fn is_digit(c: char) -> bool {
    '0' as u32 <= c as u32 && c as u32 <= '9' as u32
}

pub open spec fn digit_val(c: char) -> int {
    c as u32 - '0' as u32
}

pub open spec fn all_digits(s: Seq<char>) -> bool {
    forall|i: int| 0 <= i < s.len() ==> is_digit(s[i])
}

/// The number written in decimal by `s`, most significant digit first.
pub open spec fn digits_val(s: Seq<char>) -> int
    decreases s.len(),
{
    if s.len() == 0 {
        0
    } else {
        digits_val(s.drop_last()) * 10 + digit_val(s.last())
    }
}

/// A decimal `u32`: an optional leading `+`, then one or more digits, whose
/// value fits.
pub open spec fn spec_parse_u32(s: Seq<char>) -> Option<u32> {
    let t = if s.len() > 0 && s[0] == '+' {
        s.drop_first()
    } else {
        s
    };
    if t.len() > 0 && all_digits(t) && digits_val(t) <= u32::MAX {
        Some(digits_val(t) as u32)
    } else {
        None
    }
}

pub proof fn lemma_digits_val_nonneg(s: Seq<char>)
    requires
        all_digits(s),
    ensures
        digits_val(s) >= 0,
    decreases s.len(),
{
    if s.len() > 0 {
        lemma_digits_val_nonneg(s.drop_last());
    }
}

/// A longer digit string writes at least as large a number.
pub proof fn lemma_digits_val_prefix(s: Seq<char>, k: int)
    requires
        all_digits(s),
        0 <= k <= s.len(),
    ensures
        digits_val(s.take(k)) <= digits_val(s),
    decreases s.len(),
{
    if k == s.len() {
        assert(s.take(k) =~= s);
    } else {
        assert(s.drop_last().take(k) =~= s.take(k));
        lemma_digits_val_prefix(s.drop_last(), k);
        lemma_digits_val_nonneg(s.drop_last());
    }
}

/// Parse a decimal `u32`.
pub fn parse_u32(s: &str) -> (r: Option<u32>)
    ensures
        r == spec_parse_u32(s@),
{
    let len = s.unicode_len();
    let mut start: usize = 0;
    if len > 0 && s.get_char(0) == '+' {
        start = 1;
    }
    let ghost t = if s@.len() > 0 && s@[0] == '+' {
        s@.drop_first()
    } else {
        s@
    };
    proof {
        assert(t =~= s@.skip(start as int));
    }
    if start == len {
        return None;
    }
    let mut val: u32 = 0;
    let mut j: usize = start;
    proof {
        assert(t.take(0) =~= Seq::<char>::empty());
    }
    while j < len
        invariant
            len == s@.len(),
            t == s@.skip(start as int),
            t == (if s@.len() > 0 && s@[0] == '+' {
                s@.drop_first()
            } else {
                s@
            }),
            start <= j <= len,
            start < len,
            all_digits(t.take(j - start)),
            val == digits_val(t.take(j - start)),
        decreases len - j,
    {
        let c = s.get_char(j);
        let cu = c as u32;
        proof {
            assert(t[j - start] == s@[j as int]);
            assert(t.take(j - start + 1).drop_last() =~= t.take(j - start));
            assert(t.take(j - start + 1).last() == t[j - start]);
        }
        if cu < '0' as u32 || cu > '9' as u32 {
            proof {
                assert(!is_digit(t[j - start]));
            }
            return None;
        }
        let d = cu - '0' as u32;
        if val > 429496729 || (val == 429496729 && d > 5) {
            proof {
                assert(digit_val(t[j - start]) == d);
                assert(digits_val(t.take(j - start + 1)) > u32::MAX);
                if all_digits(t) {
                    lemma_digits_val_prefix(t, j - start + 1);
                    assert(digits_val(t) > u32::MAX);
                }
            }
            return None;
        }
        val = val * 10 + d;
        j += 1;
    }
    proof {
        assert(t.take(len - start) =~= t);
    }
    Some(val)
}

/// The version written in the tool's banner: the first line must read
/// `xmake v<major>.<minor>.<patch>`, with an optional `+<commit>` tail.
pub open spec fn spec_parse_version(s: Seq<char>) -> Option<Version> {
    if s.len() == 0 {
        None
    } else {
        let line = strip_cr(spec_split(s, '\n')[0]);
        if !is_prefix("xmake v"@, line) {
            None
        } else {
            let rest = line.skip("xmake v"@.len() as int);
            let vp = match spec_split_once(rest, '+') {
                Some((a, _)) => a,
                None => rest,
            };
            let parts = spec_split(vp, '.');
            if parts.len() != 3 {
                None
            } else {
                match (spec_parse_u32(parts[0]), spec_parse_u32(parts[1]), spec_parse_u32(
                    parts[2],
                )) {
                    (Some(ma), Some(mi), Some(pa)) => Some(
                        Version { major: ma, minor: mi, patch: pa },
                    ),
                    _ => None,
                }
            }
        }
    }
}

/// `a` comes before `b` in version order.
pub open spec fn spec_version_lt(a: Version, b: Version) -> bool {
    a.major < b.major || (a.major == b.major && (a.minor < b.minor || (a.minor == b.minor
        && a.patch < b.patch)))
}

impl Version {
    /// A version from its three numbers.
    pub fn new(major: u32, minor: u32, patch: u32) -> (r: Version)
        ensures
            r == (Version { major, minor, patch }),
    {
        Version { major, minor, patch }
    }

    /// Parse the tool's version banner.
    pub fn parse(s: &str) -> (r: Option<Version>)
        ensures
            r == spec_parse_version(s@),
    {
        let len = s.unicode_len();
        if len == 0 {
            return None;
        }
        let lines = split_str(s, '\n');
        let line = strip_cr_str(&lines[0]);
        proof {
            assert(lines.deep_view()[0] == lines[0]@);
            reveal_strlit("xmake v");
        }
        if !has_prefix(line.as_str(), "xmake v") {
            return None;
        }
        let llen = line.as_str().unicode_len();
        let rest = String::from_str(line.as_str().substring_char(7, llen));
        proof {
            assert(line@.subrange(7, llen as int) =~= line@.skip(7));
        }
        let vp = match split_once_str(rest.as_str(), '+') {
            Some((a, _)) => a,
            None => rest,
        };
        let parts = split_str(vp.as_str(), '.');
        if parts.len() != 3 {
            return None;
        }
        proof {
            assert(parts.deep_view()[0] == parts[0]@);
            assert(parts.deep_view()[1] == parts[1]@);
            assert(parts.deep_view()[2] == parts[2]@);
        }
        let major = match parse_u32(parts[0].as_str()) {
            Some(v) => v,
            None => {
                return None;
            },
        };
        let minor = match parse_u32(parts[1].as_str()) {
            Some(v) => v,
            None => {
                return None;
            },
        };
        let patch = match parse_u32(parts[2].as_str()) {
            Some(v) => v,
            None => {
                return None;
            },
        };
        Some(Version { major, minor, patch })
    }

    /// Is this version strictly older than `other`?
    pub fn older_than(&self, other: &Version) -> (r: bool)
        ensures
            r == spec_version_lt(*self, *other),
    {
        if self.major != other.major {
            self.major < other.major
        } else if self.minor != other.minor {
            self.minor < other.minor
        } else {
            self.patch < other.patch
        }
    }
}

} // verus!
