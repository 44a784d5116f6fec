//! Verified string utilities: character-level splitting, trimming, prefix
//! tests and joining, with their specification-level counterparts.

use vstd::prelude::*;

verus! {

/// Whitespace characters recognized when trimming a payload.
pub open spec fn is_ws(c: char) -> bool {
    c == ' ' || c == '\t' || c == '\n' || c == '\r' || c == '\u{b}' || c == '\u{c}'
}

/// `p` is a prefix of `s`.
pub open spec fn is_prefix(p: Seq<char>, s: Seq<char>) -> bool {
    p.len() <= s.len() && s.take(p.len() as int) == p
}

/// Split `s` at every occurrence of `sep`: `n` separators give `n + 1`
/// segments, so the result is never empty and a separator-free string is a
/// single segment.
pub open spec fn spec_split(s: Seq<char>, sep: char) -> Seq<Seq<char>>
    decreases s.len(),
{
    if s.len() == 0 {
        seq![Seq::<char>::empty()]
    } else if s[0] == sep {
        seq![Seq::<char>::empty()] + spec_split(s.drop_first(), sep)
    } else {
        let rest = spec_split(s.drop_first(), sep);
        seq![seq![s[0]] + rest[0]] + rest.drop_first()
    }
}

/// Split `s` at the first occurrence of `sep`, or `None` if `sep` does not
/// occur; neither part contains the separator occurrence itself.
pub open spec fn spec_split_once(s: Seq<char>, sep: char) -> Option<(Seq<char>, Seq<char>)>
    decreases s.len(),
{
    if s.len() == 0 {
        None
    } else if s[0] == sep {
        Some((Seq::<char>::empty(), s.drop_first()))
    } else {
        match spec_split_once(s.drop_first(), sep) {
            None => None,
            Some((k, v)) => Some((seq![s[0]] + k, v)),
        }
    }
}

pub open spec fn spec_trim_start(s: Seq<char>) -> Seq<char>
    decreases s.len(),
{
    if s.len() > 0 && is_ws(s[0]) {
        spec_trim_start(s.drop_first())
    } else {
        s
    }
}

pub open spec fn spec_trim_end(s: Seq<char>) -> Seq<char>
    decreases s.len(),
{
    if s.len() > 0 && is_ws(s.last()) {
        spec_trim_end(s.drop_last())
    } else {
        s
    }
}

/// Drop leading and trailing whitespace.
pub open spec fn spec_trim(s: Seq<char>) -> Seq<char> {
    spec_trim_end(spec_trim_start(s))
}

/// Join segments with a single separator character between neighbours.
pub open spec fn spec_join(parts: Seq<Seq<char>>, sep: char) -> Seq<char>
    decreases parts.len(),
{
    if parts.len() == 0 {
        Seq::<char>::empty()
    } else if parts.len() == 1 {
        parts[0]
    } else {
        parts[0] + seq![sep] + spec_join(parts.drop_first(), sep)
    }
}

pub proof fn lemma_split_len(s: Seq<char>, sep: char)
    ensures
        spec_split(s, sep).len() >= 1,
    decreases s.len(),
{
    if s.len() == 0 {
    } else {
        lemma_split_len(s.drop_first(), sep);
    }
}

/// A separator-free string splits into itself as the sole segment.
pub proof fn lemma_split_no_sep(s: Seq<char>, sep: char)
    requires
        forall|i: int| 0 <= i < s.len() ==> s[i] != sep,
    ensures
        spec_split(s, sep) == seq![s],
    decreases s.len(),
{
    if s.len() == 0 {
        assert(spec_split(s, sep) =~~= seq![s]);
    } else {
        lemma_split_no_sep(s.drop_first(), sep);
        assert(seq![s[0]] + s.drop_first() =~= s);
        assert(spec_split(s, sep) =~~= seq![s]);
    }
}

/// Splitting `a + sep + b` where `a` is separator-free peels `a` off as the
/// first segment.
pub proof fn lemma_split_append(a: Seq<char>, sep: char, b: Seq<char>)
    requires
        forall|i: int| 0 <= i < a.len() ==> a[i] != sep,
    ensures
        spec_split(a + seq![sep] + b, sep) == seq![a] + spec_split(b, sep),
    decreases a.len(),
{
    let s = a + seq![sep] + b;
    if a.len() == 0 {
        assert(s =~= seq![sep] + b);
        assert(s[0] == sep);
        assert(s.drop_first() =~= b);
        assert(a =~= Seq::<char>::empty());
        assert(spec_split(s, sep) =~~= seq![a] + spec_split(b, sep));
    } else {
        assert(s[0] == a[0]);
        assert(s.drop_first() =~= a.drop_first() + seq![sep] + b);
        lemma_split_append(a.drop_first(), sep, b);
        let rest = spec_split(s.drop_first(), sep);
        lemma_split_len(b, sep);
        assert(rest == seq![a.drop_first()] + spec_split(b, sep));
        assert(rest[0] == a.drop_first());
        assert(seq![s[0]] + rest[0] =~= a);
        assert(rest.drop_first() =~= spec_split(b, sep));
        assert(spec_split(s, sep) =~~= seq![a] + spec_split(b, sep));
    }
}

pub proof fn lemma_split_once_found(s: Seq<char>, sep: char, i: int)
    requires
        0 <= i < s.len(),
        s[i] == sep,
        forall|j: int| 0 <= j < i ==> s[j] != sep,
    ensures
        spec_split_once(s, sep) == Some((s.take(i), s.skip(i + 1))),
    decreases i,
{
    if i == 0 {
        assert(s.take(0) =~= Seq::<char>::empty());
        assert(s.skip(1) =~= s.drop_first());
    } else {
        lemma_split_once_found(s.drop_first(), sep, i - 1);
        assert(seq![s[0]] + s.drop_first().take(i - 1) =~= s.take(i));
        assert(s.drop_first().skip(i) =~= s.skip(i + 1));
    }
}

pub proof fn lemma_split_once_none(s: Seq<char>, sep: char)
    requires
        forall|j: int| 0 <= j < s.len() ==> s[j] != sep,
    ensures
        spec_split_once(s, sep) is None,
    decreases s.len(),
{
    if s.len() > 0 {
        lemma_split_once_none(s.drop_first(), sep);
    }
}

pub proof fn lemma_trim_start_skip(s: Seq<char>, k: int)
    requires
        0 <= k <= s.len(),
        forall|j: int| 0 <= j < k ==> is_ws(s[j]),
        k == s.len() || !is_ws(s[k]),
    ensures
        spec_trim_start(s) == s.skip(k),
    decreases k,
{
    if k == 0 {
        assert(s.skip(0) =~= s);
    } else {
        lemma_trim_start_skip(s.drop_first(), k - 1);
        assert(s.drop_first().skip(k - 1) =~= s.skip(k));
    }
}

pub proof fn lemma_trim_end_take(s: Seq<char>, k: int)
    requires
        0 <= k <= s.len(),
        forall|j: int| k <= j < s.len() ==> is_ws(s[j]),
        k == 0 || !is_ws(s[k - 1]),
    ensures
        spec_trim_end(s) == s.take(k),
    decreases s.len(),
{
    if k == s.len() {
        assert(s.take(k) =~= s);
    } else {
        assert(is_ws(s.last()));
        lemma_trim_end_take(s.drop_last(), k);
        assert(s.drop_last().take(k) =~= s.take(k));
    }
}

/// Joining separator-free segments and splitting again gives the segments
/// back.
pub proof fn lemma_split_join(parts: Seq<Seq<char>>, sep: char)
    requires
        parts.len() >= 1,
        forall|i: int, j: int|
            0 <= i < parts.len() && 0 <= j < parts[i].len() ==> parts[i][j] != sep,
    ensures
        spec_split(spec_join(parts, sep), sep) == parts,
    decreases parts.len(),
{
    if parts.len() == 1 {
        lemma_split_no_sep(parts[0], sep);
        assert(spec_split(spec_join(parts, sep), sep) =~~= parts);
    } else {
        lemma_split_join(parts.drop_first(), sep);
        lemma_split_append(parts[0], sep, spec_join(parts.drop_first(), sep));
        assert(seq![parts[0]] + parts.drop_first() =~= parts);
        assert(spec_split(spec_join(parts, sep), sep) =~~= parts);
    }
}

/// `p` is a suffix of `s`.
pub open spec fn is_suffix(p: Seq<char>, s: Seq<char>) -> bool {
    p.len() <= s.len() && s.skip(s.len() - p.len()) == p
}

/// `pat` occurs in `s` at position `i`.
pub open spec fn matches_at(s: Seq<char>, pat: Seq<char>, i: int) -> bool {
    0 <= i && i + pat.len() <= s.len() && s.subrange(i, i + pat.len()) == pat
}

/// The first position at which `pat` occurs in `s`, if any.
pub open spec fn spec_find_sub(s: Seq<char>, pat: Seq<char>) -> Option<int>
    decreases s.len(),
{
    if pat.len() > s.len() {
        None
    } else if s.take(pat.len() as int) == pat {
        Some(0)
    } else if s.len() == 0 {
        None
    } else {
        match spec_find_sub(s.drop_first(), pat) {
            None => None,
            Some(i) => Some(i + 1),
        }
    }
}

pub proof fn lemma_find_sub_at(s: Seq<char>, pat: Seq<char>, i: int)
    requires
        matches_at(s, pat, i),
        forall|j: int| 0 <= j < i ==> !matches_at(s, pat, j),
    ensures
        spec_find_sub(s, pat) == Some(i),
    decreases i,
{
    if i == 0 {
        assert(s.take(pat.len() as int) =~= s.subrange(0, pat.len() as int));
    } else {
        assert(!matches_at(s, pat, 0));
        assert(s.take(pat.len() as int) =~= s.subrange(0, pat.len() as int));
        assert(s.drop_first().subrange(i - 1, i - 1 + pat.len()) =~= s.subrange(
            i,
            i + pat.len(),
        ));
        assert(matches_at(s.drop_first(), pat, i - 1));
        assert forall|j: int| 0 <= j < i - 1 implies !matches_at(s.drop_first(), pat, j) by {
            assert(!matches_at(s, pat, j + 1));
            if 0 <= j && j + pat.len() <= s.drop_first().len() {
                assert(s.drop_first().subrange(j, j + pat.len()) =~= s.subrange(
                    j + 1,
                    j + 1 + pat.len(),
                ));
            }
        }
        lemma_find_sub_at(s.drop_first(), pat, i - 1);
    }
}

pub proof fn lemma_find_sub_none(s: Seq<char>, pat: Seq<char>)
    requires
        forall|j: int| 0 <= j ==> !matches_at(s, pat, j),
    ensures
        spec_find_sub(s, pat) is None,
    decreases s.len(),
{
    if pat.len() > s.len() {
    } else {
        assert(!matches_at(s, pat, 0));
        assert(s.take(pat.len() as int) =~= s.subrange(0, pat.len() as int));
        if s.len() > 0 {
            assert forall|j: int| 0 <= j implies !matches_at(s.drop_first(), pat, j) by {
                assert(!matches_at(s, pat, j + 1));
                if j + pat.len() <= s.drop_first().len() {
                    assert(s.drop_first().subrange(j, j + pat.len()) =~= s.subrange(
                        j + 1,
                        j + 1 + pat.len(),
                    ));
                }
            }
            lemma_find_sub_none(s.drop_first(), pat);
        }
    }
}

/// Replace every occurrence of `pat` in `s` by `rep`, left to right and
/// without revisiting replaced text.
pub open spec fn spec_replace(s: Seq<char>, pat: Seq<char>, rep: Seq<char>) -> Seq<char>
    decreases s.len(),
{
    if pat.len() == 0 {
        s
    } else {
        match spec_find_sub(s, pat) {
            None => s,
            Some(i) => if 0 <= i && i + pat.len() <= s.len() {
                s.take(i) + rep + spec_replace(s.skip(i + pat.len()), pat, rep)
            } else {
                s
            },
        }
    }
}

/// Replace every occurrence of `pat` in `s` by `rep`.
pub fn replace_all(s: &str, pat: &str, rep: &str) -> (r: String)
    requires
        pat@.len() > 0,
    ensures
        r@ == spec_replace(s@, pat@, rep@),
    decreases s@.len(),
{
    match find_sub(s, pat) {
        None => String::from_str(s),
        Some(i) => {
            let plen = pat.unicode_len();
            let slen = s.unicode_len();
            let mut out = String::from_str(s.substring_char(0, i));
            proof {
                assert(s@.subrange(0, i as int) =~= s@.take(i as int));
            }
            out.append(rep);
            let tail = replace_all(s.substring_char(i + plen, slen), pat, rep);
            proof {
                assert(s@.subrange(i as int + plen as int, slen as int) =~= s@.skip(
                    i as int + plen as int,
                ));
            }
            out.append(tail.as_str());
            out
        },
    }
}

/// A join starts with its first segment's first character.
pub proof fn lemma_join_first(parts: Seq<Seq<char>>, sep: char)
    requires
        parts.len() >= 1,
        parts[0].len() > 0,
    ensures
        spec_join(parts, sep).len() > 0,
        spec_join(parts, sep)[0] == parts[0][0],
{
}

/// A join ends with its last segment's last character.
pub proof fn lemma_join_last(parts: Seq<Seq<char>>, sep: char)
    requires
        parts.len() >= 1,
        parts.last().len() > 0,
    ensures
        spec_join(parts, sep).len() > 0,
        spec_join(parts, sep).last() == parts.last().last(),
{
    if parts.len() >= 2 {
        lemma_join_append_last(parts, sep);
    }
}

/// A character absent from every segment and distinct from the separator
/// is absent from the join.
pub proof fn lemma_join_no_char(parts: Seq<Seq<char>>, sep: char, c: char)
    requires
        c != sep,
        forall|i: int, j: int|
            0 <= i < parts.len() && 0 <= j < parts[i].len() ==> parts[i][j] != c,
    ensures
        forall|j: int| 0 <= j < spec_join(parts, sep).len() ==> spec_join(parts, sep)[j] != c,
    decreases parts.len(),
{
    if parts.len() == 0 {
    } else if parts.len() == 1 {
        assert(forall|j: int| 0 <= j < parts[0].len() ==> parts[0][j] != c);
    } else {
        lemma_join_no_char(parts.drop_first(), sep, c);
        let rest = spec_join(parts.drop_first(), sep);
        assert forall|j: int| 0 <= j < spec_join(parts, sep).len() implies spec_join(
            parts,
            sep,
        )[j] != c by {
            if j < parts[0].len() {
                assert(spec_join(parts, sep)[j] == parts[0][j]);
            } else if j == parts[0].len() {
                assert(spec_join(parts, sep)[j] == sep);
            } else {
                assert(spec_join(parts, sep)[j] == rest[j - parts[0].len() - 1]);
            }
        }
    }
}

pub fn char_is_ws(c: char) -> (r: bool)
    ensures
        r == is_ws(c),
{
    c == ' ' || c == '\t' || c == '\n' || c == '\r' || c == '\u{b}' || c == '\u{c}'
}

/// Character-for-character string equality.
pub fn str_eq(a: &str, b: &str) -> (r: bool)
    ensures
        r == (a@ == b@),
{
    let alen = a.unicode_len();
    let blen = b.unicode_len();
    if alen != blen {
        return false;
    }
    let mut i: usize = 0;
    while i < alen
        invariant
            alen == a@.len(),
            alen == b@.len(),
            0 <= i <= alen,
            forall|j: int| 0 <= j < i ==> a@[j] == b@[j],
        decreases alen - i,
    {
        if a.get_char(i) != b.get_char(i) {
            return false;
        }
        i += 1;
    }
    proof {
        assert(a@ =~= b@);
    }
    true
}

/// Does `s` start with `p`?
pub fn has_prefix(s: &str, p: &str) -> (r: bool)
    ensures
        r == is_prefix(p@, s@),
{
    let slen = s.unicode_len();
    let plen = p.unicode_len();
    if plen > slen {
        return false;
    }
    let mut i: usize = 0;
    while i < plen
        invariant
            slen == s@.len(),
            plen == p@.len(),
            plen <= slen,
            0 <= i <= plen,
            forall|j: int| 0 <= j < i ==> s@[j] == p@[j],
        decreases plen - i,
    {
        if s.get_char(i) != p.get_char(i) {
            proof {
                assert(s@.take(plen as int)[i as int] != p@[i as int]);
            }
            return false;
        }
        i += 1;
    }
    proof {
        assert(s@.take(plen as int) =~= p@);
    }
    true
}

/// Does `s` end with `p`?
pub fn has_suffix(s: &str, p: &str) -> (r: bool)
    ensures
        r == is_suffix(p@, s@),
{
    let slen = s.unicode_len();
    let plen = p.unicode_len();
    if plen > slen {
        return false;
    }
    let off = slen - plen;
    let mut j: usize = 0;
    while j < plen
        invariant
            slen == s@.len(),
            plen == p@.len(),
            plen <= slen,
            off == slen - plen,
            0 <= j <= plen,
            forall|k: int| 0 <= k < j ==> s@[off + k] == p@[k],
        decreases plen - j,
    {
        if s.get_char(off + j) != p.get_char(j) {
            proof {
                assert(s@.skip(off as int)[j as int] != p@[j as int]);
            }
            return false;
        }
        j += 1;
    }
    proof {
        assert(s@.skip(off as int) =~= p@);
    }
    true
}

/// Does `pat` occur in `s` at position `i`?
fn match_at(s: &str, pat: &str, i: usize) -> (r: bool)
    requires
        i + pat@.len() <= s@.len(),
    ensures
        r == matches_at(s@, pat@, i as int),
{
    let slen = s.unicode_len();
    let plen = pat.unicode_len();
    let mut j: usize = 0;
    while j < plen
        invariant
            slen == s@.len(),
            plen == pat@.len(),
            i + plen <= slen,
            0 <= j <= plen,
            forall|k: int| 0 <= k < j ==> s@[i + k] == pat@[k],
        decreases plen - j,
    {
        if s.get_char(i + j) != pat.get_char(j) {
            proof {
                assert(s@.subrange(i as int, i as int + plen as int)[j as int] != pat@[j as int]);
            }
            return false;
        }
        j += 1;
    }
    proof {
        assert(s@.subrange(i as int, i as int + plen as int) =~= pat@);
    }
    true
}

/// The first position at which `pat` occurs in `s`.
pub fn find_sub(s: &str, pat: &str) -> (r: Option<usize>)
    ensures
        match r {
            Some(i) => spec_find_sub(s@, pat@) == Some(i as int) && matches_at(
                s@,
                pat@,
                i as int,
            ),
            None => spec_find_sub(s@, pat@) is None,
        },
{
    let slen = s.unicode_len();
    let plen = pat.unicode_len();
    if plen > slen {
        proof {
            lemma_find_sub_none(s@, pat@);
        }
        return None;
    }
    if plen == 0 {
        proof {
            assert(s@.subrange(0, 0) =~= pat@);
            lemma_find_sub_at(s@, pat@, 0);
        }
        return Some(0);
    }
    let mut i: usize = 0;
    while i <= slen - plen
        invariant
            slen == s@.len(),
            plen == pat@.len(),
            0 < plen <= slen,
            0 <= i <= slen - plen + 1,
            forall|j: int| 0 <= j < i ==> !matches_at(s@, pat@, j),
        decreases slen - plen - i + 1,
    {
        if match_at(s, pat, i) {
            proof {
                lemma_find_sub_at(s@, pat@, i as int);
            }
            return Some(i);
        }
        i += 1;
    }
    proof {
        assert forall|j: int| 0 <= j implies !matches_at(s@, pat@, j) by {
            if j < i {
            } else {
                assert(j + pat@.len() > s@.len());
            }
        }
        lemma_find_sub_none(s@, pat@);
    }
    None
}

/// Does `pat` occur anywhere in `s`?
pub fn contains_sub(s: &str, pat: &str) -> (r: bool)
    ensures
        r == (spec_find_sub(s@, pat@) is Some),
{
    match find_sub(s, pat) {
        Some(_) => true,
        None => false,
    }
}

/// Split `s` at every occurrence of `sep`.
pub fn split_str(s: &str, sep: char) -> (r: Vec<String>)
    ensures
        r.deep_view() == spec_split(s@, sep),
        r.len() >= 1,
{
    let len = s.unicode_len();
    let mut r: Vec<String> = Vec::new();
    let mut start: usize = 0;
    let mut i: usize = 0;
    proof {
        assert(r.deep_view() =~= Seq::<Seq<char>>::empty());
        assert(s@.skip(0) =~= s@);
        assert(spec_split(s@, sep) =~~= r.deep_view() + spec_split(s@.skip(0), sep));
    }
    while i < len
        invariant
            len == s@.len(),
            0 <= start <= i <= len,
            forall|j: int| start <= j < i ==> s@[j] != sep,
            spec_split(s@, sep) == r.deep_view() + spec_split(s@.skip(start as int), sep),
        decreases len - i,
    {
        if s.get_char(i) == sep {
            let seg = String::from_str(s.substring_char(start, i));
            proof {
                let tail = s@.skip(start as int);
                assert(tail =~= s@.subrange(start as int, i as int) + seq![sep] + s@.skip(
                    i as int + 1,
                ));
                lemma_split_append(
                    s@.subrange(start as int, i as int),
                    sep,
                    s@.skip(i as int + 1),
                );
            }
            let ghost old_r = r.deep_view();
            r.push(seg);
            proof {
                assert(r.deep_view() =~= old_r.push(seg@));
                assert(r.deep_view() + spec_split(s@.skip(i as int + 1), sep) =~~= old_r + (seq![
                    seg@,
                ] + spec_split(s@.skip(i as int + 1), sep)));
            }
            start = i + 1;
        }
        i += 1;
    }
    let seg = String::from_str(s.substring_char(start, len));
    proof {
        lemma_split_no_sep(s@.skip(start as int), sep);
        assert(s@.skip(start as int) =~= s@.subrange(start as int, len as int));
    }
    let ghost old_r = r.deep_view();
    r.push(seg);
    proof {
        assert(r.deep_view() =~= old_r.push(seg@));
        assert(r.deep_view() =~~= old_r + seq![s@.skip(start as int)]);
    }
    r
}

/// Split `s` at the first occurrence of `sep`.
pub fn split_once_str(s: &str, sep: char) -> (r: Option<(String, String)>)
    ensures
        match r {
            Some((k, v)) => spec_split_once(s@, sep) == Some((k@, v@)),
            None => spec_split_once(s@, sep) is None,
        },
{
    let len = s.unicode_len();
    let mut i: usize = 0;
    while i < len
        invariant
            len == s@.len(),
            0 <= i <= len,
            forall|j: int| 0 <= j < i ==> s@[j] != sep,
        decreases len - i,
    {
        if s.get_char(i) == sep {
            let k = String::from_str(s.substring_char(0, i));
            let v = String::from_str(s.substring_char(i + 1, len));
            proof {
                lemma_split_once_found(s@, sep, i as int);
                assert(s@.subrange(0, i as int) =~= s@.take(i as int));
                assert(s@.subrange(i as int + 1, len as int) =~= s@.skip(i as int + 1));
            }
            return Some((k, v));
        }
        i += 1;
    }
    proof {
        lemma_split_once_none(s@, sep);
    }
    None
}

/// Drop leading and trailing whitespace.
pub fn trim_str(s: &str) -> (r: String)
    ensures
        r@ == spec_trim(s@),
{
    let len = s.unicode_len();
    let mut a: usize = 0;
    while a < len && char_is_ws(s.get_char(a))
        invariant
            len == s@.len(),
            0 <= a <= len,
            forall|j: int| 0 <= j < a ==> is_ws(s@[j]),
        decreases len - a,
    {
        a += 1;
    }
    proof {
        lemma_trim_start_skip(s@, a as int);
    }
    let mut b: usize = len;
    while b > a && char_is_ws(s.get_char(b - 1))
        invariant
            len == s@.len(),
            a <= b <= len,
            forall|j: int| b <= j < len ==> is_ws(s@[j]),
        decreases b,
    {
        b -= 1;
    }
    proof {
        let tail = s@.skip(a as int);
        lemma_trim_end_take(tail, b - a);
        assert(tail.take(b - a) =~= s@.subrange(a as int, b as int));
    }
    String::from_str(s.substring_char(a, b))
}

/// Join segments with a one-character separator; `sep` must be that single
/// character.
pub fn join_str(parts: &Vec<String>, sep: &str) -> (r: String)
    requires
        sep@.len() == 1,
    ensures
        r@ == spec_join(parts.deep_view(), sep@[0]),
{
    let mut r = String::new();
    let mut i: usize = 0;
    while i < parts.len()
        invariant
            sep@.len() == 1,
            0 <= i <= parts.len(),
            r@ == spec_join(parts.deep_view().take(i as int), sep@[0]),
        decreases parts.len() - i,
    {
        let ghost prev = r@;
        let ghost dv = parts.deep_view();
        if i > 0 {
            r.append(sep);
            proof {
                assert(r@ =~= prev + seq![sep@[0]]);
            }
        }
        r.append(parts[i].as_str());
        proof {
            lemma_join_take_step(dv, sep@[0], i as int);
            assert(dv.take(i as int + 1) =~= dv.take(i as int).push(dv[i as int]));
        }
        i += 1;
    }
    proof {
        assert(parts.deep_view().take(parts.len() as int) =~= parts.deep_view());
    }
    r
}

/// Appending one more segment to a join appends a separator (when the join
/// was nonempty) and the segment.
pub proof fn lemma_join_take_step(parts: Seq<Seq<char>>, sep: char, i: int)
    requires
        0 <= i < parts.len(),
    ensures
        i == 0 ==> spec_join(parts.take(1), sep) == parts[0],
        i > 0 ==> spec_join(parts.take(i + 1), sep) == spec_join(parts.take(i), sep) + seq![sep]
            + parts[i],
    decreases i,
{
    if i == 0 {
        assert(parts.take(1).len() == 1);
        assert(parts.take(1)[0] == parts[0]);
    } else {
        lemma_join_append_last(parts.take(i + 1), sep);
        assert(parts.take(i + 1).drop_last() =~= parts.take(i));
        assert(parts.take(i + 1).last() == parts[i]);
    }
}

/// A join of at least two segments is the join of all but the last, a
/// separator, and the last.
pub proof fn lemma_join_append_last(parts: Seq<Seq<char>>, sep: char)
    requires
        parts.len() >= 2,
    ensures
        spec_join(parts, sep) == spec_join(parts.drop_last(), sep) + seq![sep] + parts.last(),
    decreases parts.len(),
{
    if parts.len() == 2 {
        assert(parts.drop_last() =~~= seq![parts[0]]);
        assert(spec_join(parts.drop_first(), sep) == parts[1]);
    } else {
        lemma_join_append_last(parts.drop_first(), sep);
        assert(parts.drop_first().drop_last() =~= parts.drop_last().drop_first());
        assert(parts.drop_first().last() == parts.last());
        assert(parts.drop_last()[0] == parts[0]);
        assert(parts[0] + seq![sep] + (spec_join(parts.drop_last().drop_first(), sep) + seq![sep]
            + parts.last()) =~= (parts[0] + seq![sep] + spec_join(
            parts.drop_last().drop_first(),
            sep,
        )) + seq![sep] + parts.last());
    }
}

} // verus!
