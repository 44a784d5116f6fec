//! The build-info decoding protocol: a line-oriented `key:value-list` format
//! with pipe-delimited values and dotted namespace sub-keys, decoded into a
//! structured [`BuildInfo`].

use vstd::prelude::*;
use crate::strutil::is_prefix;
use crate::strutil::join_str;
use crate::strutil::spec_join;
use crate::strutil::spec_split;
use crate::strutil::spec_split_once;
use crate::strutil::spec_trim;
use crate::strutil::split_once_str;
use crate::strutil::split_str;
use crate::strutil::str_eq;
use crate::strutil::has_prefix;
use crate::strutil::trim_str;

verus! {

/// The different kinds of linkage for a library.
#[derive(Debug, Clone, PartialEq, Eq, Structural)]
pub enum LinkKind {
    /// The library is statically linked into the final binary.
    Static,
    /// The library is referenced by the final binary at runtime.
    Dynamic,
    /// The library is provided by the operating system.
    System,
    /// The library is an operating-system framework (meaningful on macOS).
    Framework,
    /// The linkage kind could not be determined.
    Unknown,
}

/// The source consulted when querying information from [`BuildInfo`].
pub enum Source {
    /// Coming from a target.
    Target,
    /// Coming from a package.
    Package,
    /// Both of them.
    Both,
}

/// Errors that can occur when decoding a string into its [`BuildInfo`]
/// representation.
#[derive(Debug, PartialEq, Eq, Structural)]
pub enum ParsingError {
    /// Given kind did not match any of the [`LinkKind`] variants.
    InvalidKind,
    /// Missing at least one key to construct [`BuildInfo`].
    MissingKey,
    /// Link string is malformed.
    MalformedLink,
    /// Multiple values where a single one is required.
    MultipleValues,
    /// Error when converting a string to a value.
    ParseError,
}

/// A single linked library: its name and the kind of linkage.
#[derive(Debug, Clone, PartialEq, Eq)]
pub struct Link {
    name: String,
    kind: LinkKind,
}

/// Mathematical model of a [`Link`].
#[verifier::ext_equal]
pub struct LinkV {
    pub name: Seq<char>,
    pub kind: LinkKind,
}

impl View for Link {
    type V = LinkV;

    closed spec fn view(&self) -> LinkV {
        LinkV { name: self.name@, kind: self.kind }
    }
}

impl DeepView for Link {
    type V = LinkV;

    open spec fn deep_view(&self) -> LinkV {
        self.view()
    }
}

impl Link {
    /// Returns the name of the library.
    pub fn name(&self) -> (r: &str)
        ensures
            r@ == self@.name,
    {
        self.name.as_str()
    }

    /// Returns the kind of linkage for the library.
    pub fn kind(&self) -> (r: &LinkKind)
        ensures
            *r == self@.kind,
    {
        &self.kind
    }

    /// Creates a new `Link` with the given name and kind.
    pub fn new(name: &str, kind: LinkKind) -> (r: Link)
        ensures
            r@.name == name@,
            r@.kind == kind,
    {
        Link { name: String::from_str(name), kind }
    }
}

/// An association list of keys to value lists, keeping the order in which
/// keys first appeared; inserting an existing key overwrites its values in
/// place.
pub struct InfoMap {
    entries: Vec<(String, Vec<String>)>,
}

/// `m` holds key `k`.
pub open spec fn assoc_has(m: Seq<(Seq<char>, Seq<Seq<char>>)>, k: Seq<char>) -> bool
    decreases m.len(),
{
    if m.len() == 0 {
        false
    } else if m[0].0 == k {
        true
    } else {
        assoc_has(m.drop_first(), k)
    }
}

/// The values of the first entry of `m` with key `k`.
pub open spec fn assoc_get(m: Seq<(Seq<char>, Seq<Seq<char>>)>, k: Seq<char>) -> Option<
    Seq<Seq<char>>,
>
    decreases m.len(),
{
    if m.len() == 0 {
        None
    } else if m[0].0 == k {
        Some(m[0].1)
    } else {
        assoc_get(m.drop_first(), k)
    }
}

/// Overwrite the first entry with key `k`, or append a new entry.
pub open spec fn assoc_set(
    m: Seq<(Seq<char>, Seq<Seq<char>>)>,
    k: Seq<char>,
    v: Seq<Seq<char>>,
) -> Seq<(Seq<char>, Seq<Seq<char>>)>
    decreases m.len(),
{
    if m.len() == 0 {
        seq![(k, v)]
    } else if m[0].0 == k {
        seq![(k, v)] + m.drop_first()
    } else {
        seq![m[0]] + assoc_set(m.drop_first(), k, v)
    }
}

/// No key occurs twice.
pub open spec fn assoc_unique(m: Seq<(Seq<char>, Seq<Seq<char>>)>) -> bool {
    forall|i: int, j: int| 0 <= i < j < m.len() ==> m[i].0 != m[j].0
}

pub proof fn lemma_assoc_has_exists(m: Seq<(Seq<char>, Seq<Seq<char>>)>, k: Seq<char>)
    ensures
        assoc_has(m, k) <==> exists|i: int| 0 <= i < m.len() && m[i].0 == k,
    decreases m.len(),
{
    if m.len() > 0 {
        lemma_assoc_has_exists(m.drop_first(), k);
        if m[0].0 == k {
            assert(m[0].0 == k);
        } else if exists|i: int| 0 <= i < m.len() && m[i].0 == k {
            let i = choose|i: int| 0 <= i < m.len() && m[i].0 == k;
            assert(m.drop_first()[i - 1].0 == k);
        }
    }
}

pub proof fn lemma_assoc_get_at(m: Seq<(Seq<char>, Seq<Seq<char>>)>, k: Seq<char>, i: int)
    requires
        0 <= i < m.len(),
        m[i].0 == k,
        forall|j: int| 0 <= j < i ==> m[j].0 != k,
    ensures
        assoc_get(m, k) == Some(m[i].1),
        assoc_has(m, k),
    decreases i,
{
    if i > 0 {
        lemma_assoc_get_at(m.drop_first(), k, i - 1);
    }
}

pub proof fn lemma_assoc_get_none(m: Seq<(Seq<char>, Seq<Seq<char>>)>, k: Seq<char>)
    requires
        forall|j: int| 0 <= j < m.len() ==> m[j].0 != k,
    ensures
        assoc_get(m, k) is None,
        !assoc_has(m, k),
    decreases m.len(),
{
    if m.len() > 0 {
        lemma_assoc_get_none(m.drop_first(), k);
    }
}

pub proof fn lemma_assoc_set_update(
    m: Seq<(Seq<char>, Seq<Seq<char>>)>,
    k: Seq<char>,
    v: Seq<Seq<char>>,
    i: int,
)
    requires
        0 <= i < m.len(),
        m[i].0 == k,
        forall|j: int| 0 <= j < i ==> m[j].0 != k,
    ensures
        assoc_set(m, k, v) == m.update(i, (k, v)),
    decreases i,
{
    if i == 0 {
        assert(assoc_set(m, k, v) =~~= m.update(0, (k, v)));
    } else {
        lemma_assoc_set_update(m.drop_first(), k, v, i - 1);
        assert(m.drop_first().update(i - 1, (k, v)) =~= m.update(i, (k, v)).drop_first());
        assert(assoc_set(m, k, v) =~~= m.update(i, (k, v)));
    }
}

pub proof fn lemma_assoc_set_push(
    m: Seq<(Seq<char>, Seq<Seq<char>>)>,
    k: Seq<char>,
    v: Seq<Seq<char>>,
)
    requires
        !assoc_has(m, k),
    ensures
        assoc_set(m, k, v) == m.push((k, v)),
    decreases m.len(),
{
    if m.len() == 0 {
        assert(assoc_set(m, k, v) =~~= m.push((k, v)));
    } else {
        lemma_assoc_set_push(m.drop_first(), k, v);
        assert(m.drop_first().push((k, v)) =~= m.push((k, v)).drop_first());
        assert(assoc_set(m, k, v) =~~= m.push((k, v)));
    }
}

/// Overwriting or appending keeps keys unique.
pub proof fn lemma_assoc_set_unique(
    m: Seq<(Seq<char>, Seq<Seq<char>>)>,
    k: Seq<char>,
    v: Seq<Seq<char>>,
)
    requires
        assoc_unique(m),
    ensures
        assoc_unique(assoc_set(m, k, v)),
{
    lemma_assoc_has_exists(m, k);
    if assoc_has(m, k) {
        let first = first_key_index(m, k);
        lemma_first_key_index(m, k);
        lemma_assoc_set_update(m, k, v, first);
        let u = m.update(first, (k, v));
        assert forall|i: int, j: int| 0 <= i < j < u.len() implies u[i].0 != u[j].0 by {
            assert(m[i].0 != m[j].0);
        }
    } else {
        lemma_assoc_set_push(m, k, v);
        let u = m.push((k, v));
        assert forall|i: int, j: int| 0 <= i < j < u.len() implies u[i].0 != u[j].0 by {
            if j < m.len() {
                assert(m[i].0 != m[j].0);
            }
        }
    }
}

/// The first index of `m` whose key is `k` (meaningful only when one exists).
pub open spec fn first_key_index(m: Seq<(Seq<char>, Seq<Seq<char>>)>, k: Seq<char>) -> int
    decreases m.len(),
{
    if m.len() == 0 {
        0
    } else if m[0].0 == k {
        0
    } else {
        1 + first_key_index(m.drop_first(), k)
    }
}

pub proof fn lemma_first_key_index(m: Seq<(Seq<char>, Seq<Seq<char>>)>, k: Seq<char>)
    requires
        assoc_has(m, k),
    ensures
        0 <= first_key_index(m, k) < m.len(),
        m[first_key_index(m, k)].0 == k,
        forall|j: int| 0 <= j < first_key_index(m, k) ==> m[j].0 != k,
    decreases m.len(),
{
    if m.len() > 0 && m[0].0 != k {
        lemma_first_key_index(m.drop_first(), k);
        assert forall|j: int| 0 <= j < first_key_index(m, k) implies m[j].0 != k by {
            if j > 0 {
                assert(m.drop_first()[j - 1] == m[j]);
            }
        }
    }
}

impl View for InfoMap {
    type V = Seq<(Seq<char>, Seq<Seq<char>>)>;

    closed spec fn view(&self) -> Seq<(Seq<char>, Seq<Seq<char>>)> {
        self.entries.deep_view()
    }
}

impl InfoMap {
    /// Keys never repeat.
    pub open spec fn wf(&self) -> bool {
        assoc_unique(self@)
    }

    /// An empty map.
    pub fn new() -> (r: InfoMap)
        ensures
            r@ == Seq::<(Seq<char>, Seq<Seq<char>>)>::empty(),
            r.wf(),
    {
        let r = InfoMap { entries: Vec::new() };
        proof {
            assert(r@ =~= Seq::<(Seq<char>, Seq<Seq<char>>)>::empty());
        }
        r
    }

    /// How many keys the map holds.
    pub fn len(&self) -> (r: usize)
        ensures
            r == self@.len(),
    {
        self.entries.len()
    }

    /// The key and values at position `i`, in first-insertion order.
    pub fn entry_at(&self, i: usize) -> (r: (&String, &Vec<String>))
        requires
            i < self@.len(),
        ensures
            r.0@ == self@[i as int].0,
            r.1.deep_view() == self@[i as int].1,
    {
        (&self.entries[i].0, &self.entries[i].1)
    }

    /// The position of the entry with `key`, if any.
    fn find_key(&self, key: &str) -> (r: Option<usize>)
        ensures
            match r {
                Some(i) => i < self@.len() && self@[i as int].0 == key@ && (forall|j: int|
                    0 <= j < i ==> self@[j].0 != key@),
                None => forall|j: int| 0 <= j < self@.len() ==> self@[j].0 != key@,
            },
    {
        let mut i: usize = 0;
        while i < self.entries.len()
            invariant
                self@.len() == self.entries.len(),
                0 <= i <= self.entries.len(),
                forall|j: int| 0 <= j < i ==> self@[j].0 != key@,
            decreases self.entries.len() - i,
        {
            if str_eq(self.entries[i].0.as_str(), key) {
                return Some(i);
            }
            i += 1;
        }
        None
    }

    /// Insert `values` under `key`, overwriting in place any earlier entry.
    pub fn insert(&mut self, key: String, values: Vec<String>)
        ensures
            final(self)@ == assoc_set(old(self)@, key@, values.deep_view()),
            old(self).wf() ==> final(self).wf(),
    {
        let ghost m = self@;
        let ghost k = key@;
        let ghost v = values.deep_view();
        match self.find_key(key.as_str()) {
            Some(i) => {
                self.entries.set(i, (key, values));
                proof {
                    lemma_assoc_set_update(m, k, v, i as int);
                    assert(self@ =~~= m.update(i as int, (k, v)));
                    if assoc_unique(m) {
                        lemma_assoc_set_unique(m, k, v);
                    }
                }
            },
            None => {
                self.entries.push((key, values));
                proof {
                    lemma_assoc_get_none(m, k);
                    lemma_assoc_set_push(m, k, v);
                    assert(self@ =~~= m.push((k, v)));
                    if assoc_unique(m) {
                        lemma_assoc_set_unique(m, k, v);
                    }
                }
            },
        }
    }

    /// Does the map hold `key`?
    pub fn contains_key(&self, key: &str) -> (r: bool)
        ensures
            r == assoc_has(self@, key@),
    {
        match self.find_key(key) {
            Some(i) => {
                proof {
                    lemma_assoc_get_at(self@, key@, i as int);
                }
                true
            },
            None => {
                proof {
                    lemma_assoc_get_none(self@, key@);
                }
                false
            },
        }
    }

    /// The values stored under `key`, if any.
    pub fn get(&self, key: &str) -> (r: Option<&Vec<String>>)
        ensures
            match r {
                Some(v) => assoc_get(self@, key@) == Some(v.deep_view()),
                None => assoc_get(self@, key@) is None,
            },
    {
        match self.find_key(key) {
            Some(i) => {
                proof {
                    lemma_assoc_get_at(self@, key@, i as int);
                }
                Some(&self.entries[i].1)
            },
            None => {
                proof {
                    lemma_assoc_get_none(self@, key@);
                }
                None
            },
        }
    }
}

/// Keep only nonempty segments.
pub open spec fn drop_empty(vs: Seq<Seq<char>>) -> Seq<Seq<char>>
    decreases vs.len(),
{
    if vs.len() == 0 {
        Seq::<Seq<char>>::empty()
    } else {
        let rest = drop_empty(vs.drop_last());
        if vs.last().len() > 0 {
            rest.push(vs.last())
        } else {
            rest
        }
    }
}

/// A value list: split on `|`, empty segments dropped.
pub open spec fn spec_values(v: Seq<char>) -> Seq<Seq<char>> {
    drop_empty(spec_split(v, '|'))
}

/// One trailing carriage return is not part of a line.
pub open spec fn strip_cr(l: Seq<char>) -> Seq<char> {
    if l.len() > 0 && l.last() == '\r' {
        l.drop_last()
    } else {
        l
    }
}

/// The lines of a trimmed payload.
pub open spec fn spec_lines(s: Seq<char>) -> Seq<Seq<char>> {
    if s.len() == 0 {
        Seq::<Seq<char>>::empty()
    } else {
        spec_split(s, '\n').map_values(|l: Seq<char>| strip_cr(l))
    }
}

/// Fold one line into the key/value map: lines without a colon are skipped,
/// otherwise the line is split at its first colon and the value list replaces
/// any earlier one for the same key.
pub open spec fn spec_entry_line(
    m: Seq<(Seq<char>, Seq<Seq<char>>)>,
    line: Seq<char>,
) -> Seq<(Seq<char>, Seq<Seq<char>>)> {
    match spec_split_once(line, ':') {
        None => m,
        Some((k, v)) => assoc_set(m, k, spec_values(v)),
    }
}

pub open spec fn entries_of_lines(lines: Seq<Seq<char>>) -> Seq<(Seq<char>, Seq<Seq<char>>)>
    decreases lines.len(),
{
    if lines.len() == 0 {
        Seq::<(Seq<char>, Seq<Seq<char>>)>::empty()
    } else {
        spec_entry_line(entries_of_lines(lines.drop_last()), lines.last())
    }
}

/// The key/value map of a payload: trim, split into lines, fold each
/// `key:value-list` line, later lines overwriting earlier ones.
pub open spec fn spec_pairs(s: Seq<char>) -> Seq<(Seq<char>, Seq<Seq<char>>)> {
    entries_of_lines(spec_lines(spec_trim(s)))
}

pub proof fn lemma_entries_of_lines_unique(lines: Seq<Seq<char>>)
    ensures
        assoc_unique(entries_of_lines(lines)),
    decreases lines.len(),
{
    if lines.len() > 0 {
        lemma_entries_of_lines_unique(lines.drop_last());
        match spec_split_once(lines.last(), ':') {
            None => {},
            Some((k, v)) => {
                lemma_assoc_set_unique(entries_of_lines(lines.drop_last()), k, spec_values(v));
            },
        }
    }
}

/// Copy a vector of strings.
pub fn clone_strings(v: &Vec<String>) -> (r: Vec<String>)
    ensures
        r.deep_view() == v.deep_view(),
{
    let mut r: Vec<String> = Vec::new();
    let mut i: usize = 0;
    while i < v.len()
        invariant
            0 <= i <= v.len(),
            r.deep_view() =~= v.deep_view().take(i as int),
        decreases v.len() - i,
    {
        let s = v[i].clone();
        proof {
            assert(s@ == v.deep_view()[i as int]);
        }
        let ghost before = r.deep_view();
        r.push(s);
        proof {
            assert(r.deep_view() =~= before.push(v.deep_view()[i as int]));
            assert(before.push(v.deep_view()[i as int]) =~= v.deep_view().take(i as int + 1));
        }
        i += 1;
    }
    proof {
        assert(v.deep_view().take(v.len() as int) =~= v.deep_view());
    }
    r
}

/// Split a raw value string on `|`, dropping empty segments.
pub fn split_values(v: &str) -> (r: Vec<String>)
    ensures
        r.deep_view() == spec_values(v@),
{
    let parts = split_str(v, '|');
    let mut r: Vec<String> = Vec::new();
    let mut i: usize = 0;
    proof {
        assert(parts.deep_view().take(0) =~= Seq::<Seq<char>>::empty());
    }
    while i < parts.len()
        invariant
            0 <= i <= parts.len(),
            parts.deep_view() == spec_split(v@, '|'),
            r.deep_view() == drop_empty(parts.deep_view().take(i as int)),
        decreases parts.len() - i,
    {
        let ghost dv = parts.deep_view();
        proof {
            assert(dv.take(i as int + 1).drop_last() =~= dv.take(i as int));
            assert(dv.take(i as int + 1).last() == dv[i as int]);
        }
        if parts[i].unicode_len() > 0 {
            let ghost before = r.deep_view();
            r.push(parts[i].clone());
            proof {
                assert(r.deep_view() =~= before.push(dv[i as int]));
            }
        }
        i += 1;
    }
    proof {
        assert(parts.deep_view().take(parts.len() as int) =~= parts.deep_view());
    }
    r
}

/// Parse a payload into its key/value map: trim, split into lines, and fold
/// each `key:value-list` line, later lines overwriting earlier ones.
pub fn parse_info_pairs(s: &str) -> (r: InfoMap)
    ensures
        r@ == spec_pairs(s@),
        r.wf(),
{
    let t = trim_str(s);
    let mut map = InfoMap::new();
    if t.as_str().unicode_len() == 0 {
        return map;
    }
    let lines = split_str(t.as_str(), '\n');
    let ghost lns = spec_lines(t@);
    proof {
        assert(lns =~= lines.deep_view().map_values(|l: Seq<char>| strip_cr(l)));
        assert(lns.take(0) =~= Seq::<Seq<char>>::empty());
        lemma_entries_of_lines_unique(lns.take(0));
    }
    let mut i: usize = 0;
    while i < lines.len()
        invariant
            lines.deep_view() == spec_split(t@, '\n'),
            t@.len() > 0,
            lns == spec_lines(t@),
            lns.len() == lines.len(),
            forall|j: int| 0 <= j < lns.len() ==> lns[j] == strip_cr(lines.deep_view()[j]),
            0 <= i <= lines.len(),
            map@ == entries_of_lines(lns.take(i as int)),
            map.wf(),
        decreases lines.len() - i,
    {
        let line = strip_cr_str(&lines[i]);
        proof {
            assert(lns.take(i as int + 1).drop_last() =~= lns.take(i as int));
            assert(lns.take(i as int + 1).last() == lns[i as int]);
        }
        match split_once_str(line.as_str(), ':') {
            Some((k, v)) => {
                let vals = split_values(v.as_str());
                map.insert(k, vals);
            },
            None => {},
        }
        i += 1;
    }
    proof {
        assert(lns.take(lines.len() as int) =~= lns);
    }
    map
}

/// Drop one trailing carriage return, if present.
pub(crate) fn strip_cr_str(l: &String) -> (r: String)
    ensures
        r@ == strip_cr(l@),
{
    let len = l.as_str().unicode_len();
    if len > 0 && l.as_str().get_char(len - 1) == '\r' {
        proof {
            assert(l@.subrange(0, l@.len() - 1) =~= l@.drop_last());
        }
        String::from_str(l.as_str().substring_char(0, len - 1))
    } else {
        l.clone()
    }
}

/// The sub-keys of `m` under `main_key` followed by a dot, in first-insertion
/// order.
pub open spec fn spec_subkeys(
    m: Seq<(Seq<char>, Seq<Seq<char>>)>,
    prefix: Seq<char>,
) -> Seq<Seq<char>>
    decreases m.len(),
{
    if m.len() == 0 {
        Seq::<Seq<char>>::empty()
    } else {
        let rest = spec_subkeys(m.drop_first(), prefix);
        if is_prefix(prefix, m[0].0) {
            seq![m[0].0.skip(prefix.len() as int)] + rest
        } else {
            rest
        }
    }
}

/// The keys of `map` of the form `main_key.<sub>`, with the prefix stripped.
pub fn subkeys_of(map: &InfoMap, main_key: &str) -> (r: Vec<String>)
    ensures
        r.deep_view() == spec_subkeys(map@, main_key@ + seq!['.']),
{
    let mut prefix = String::from_str(main_key);
    prefix.append(".");
    proof {
        reveal_strlit(".");
        assert(prefix@ =~= main_key@ + seq!['.']);
    }
    let ghost p = prefix@;
    let plen = prefix.as_str().unicode_len();
    let n = map.len();
    let mut r: Vec<String> = Vec::new();
    let mut i: usize = 0;
    proof {
        assert(r.deep_view() =~= Seq::<Seq<char>>::empty());
        assert(map@.skip(0) =~= map@);
        assert(r.deep_view() + spec_subkeys(map@, p) =~~= spec_subkeys(map@, p));
    }
    while i < n
        invariant
            n == map@.len(),
            p == prefix@,
            plen == p.len(),
            0 <= i <= n,
            spec_subkeys(map@, p) == r.deep_view() + spec_subkeys(map@.skip(i as int), p),
        decreases n - i,
    {
        let ghost tail = map@.skip(i as int);
        proof {
            assert(tail.len() > 0);
            assert(tail[0] == map@[i as int]);
            assert(tail.drop_first() =~= map@.skip(i as int + 1));
        }
        let (key, _vals) = map.entry_at(i);
        let klen = key.as_str().unicode_len();
        if has_prefix(key.as_str(), prefix.as_str()) {
            let suffix = String::from_str(key.as_str().substring_char(plen, klen));
            let ghost before = r.deep_view();
            r.push(suffix);
            proof {
                assert(key@.subrange(plen as int, klen as int) =~= key@.skip(p.len() as int));
                assert(r.deep_view() =~= before.push(key@.skip(p.len() as int)));
                assert(before.push(key@.skip(p.len() as int)) + spec_subkeys(
                    map@.skip(i as int + 1),
                    p,
                ) =~~= before + (seq![key@.skip(p.len() as int)] + spec_subkeys(
                    map@.skip(i as int + 1),
                    p,
                )));
            }
        }
        i += 1;
    }
    proof {
        assert(map@.skip(n as int) =~= Seq::<(Seq<char>, Seq<Seq<char>>)>::empty());
        assert(r.deep_view() + spec_subkeys(map@.skip(n as int), p) =~~= r.deep_view());
    }
    r
}

/// Require exactly one value under `key`: no entry or an empty list is
/// `MissingKey`, two or more values is `MultipleValues`.
pub open spec fn spec_scalar(m: Seq<(Seq<char>, Seq<Seq<char>>)>, key: Seq<char>) -> Result<
    Seq<char>,
    ParsingError,
> {
    match assoc_get(m, key) {
        None => Err(ParsingError::MissingKey),
        Some(vs) => if vs.len() > 1 {
            Err(ParsingError::MultipleValues)
        } else if vs.len() == 0 {
            Err(ParsingError::MissingKey)
        } else {
            Ok(vs[0])
        },
    }
}

/// A scalar boolean field: the literal text `true` or `false`, anything else
/// is `ParseError`.
pub open spec fn spec_bool_field(m: Seq<(Seq<char>, Seq<Seq<char>>)>, key: Seq<char>) -> Result<
    bool,
    ParsingError,
> {
    match spec_scalar(m, key) {
        Err(e) => Err(e),
        Ok(v) => if v == "true"@ {
            Ok(true)
        } else if v == "false"@ {
            Ok(false)
        } else {
            Err(ParsingError::ParseError)
        },
    }
}

/// Extract the single string value stored under `field`.
pub fn parse_scalar_field(map: &InfoMap, field: &str) -> (r: Result<String, ParsingError>)
    ensures
        match r {
            Ok(v) => spec_scalar(map@, field@) == Ok::<Seq<char>, ParsingError>(v@),
            Err(e) => spec_scalar(map@, field@) == Err::<Seq<char>, ParsingError>(e),
        },
{
    match map.get(field) {
        None => Err(ParsingError::MissingKey),
        Some(vs) => {
            if vs.len() > 1 {
                Err(ParsingError::MultipleValues)
            } else if vs.len() == 0 {
                Err(ParsingError::MissingKey)
            } else {
                proof {
                    assert(vs.deep_view()[0] == vs[0]@);
                }
                Ok(vs[0].clone())
            }
        },
    }
}

/// Parse a lowercase linkage tag.
pub open spec fn spec_parse_kind(t: Seq<char>) -> Result<LinkKind, ParsingError> {
    if t == "static"@ {
        Ok(LinkKind::Static)
    } else if t == "shared"@ {
        Ok(LinkKind::Dynamic)
    } else if t == "system"@ {
        Ok(LinkKind::System)
    } else if t == "framework"@ {
        Ok(LinkKind::Framework)
    } else if t == "unknown"@ {
        Ok(LinkKind::Unknown)
    } else {
        Err(ParsingError::InvalidKind)
    }
}

/// Parse a `name/kind` entry: anything but exactly one `/` is malformed.
pub open spec fn spec_parse_link(e: Seq<char>) -> Result<LinkV, ParsingError> {
    let parts = spec_split(e, '/');
    if parts.len() != 2 {
        Err(ParsingError::MalformedLink)
    } else {
        match spec_parse_kind(parts[1]) {
            Ok(k) => Ok(LinkV { name: parts[0], kind: k }),
            Err(err) => Err(err),
        }
    }
}

/// Parse each entry of a `links` value list; the leftmost failure wins.
pub open spec fn spec_parse_links(vs: Seq<Seq<char>>) -> Result<Seq<LinkV>, ParsingError>
    decreases vs.len(),
{
    if vs.len() == 0 {
        Ok(Seq::<LinkV>::empty())
    } else {
        match spec_parse_links(vs.drop_last()) {
            Err(e) => Err(e),
            Ok(ls) => match spec_parse_link(vs.last()) {
                Err(e) => Err(e),
                Ok(l) => Ok(ls.push(l)),
            },
        }
    }
}

impl LinkKind {
    /// Parse a lowercase linkage tag into its kind.
    pub fn parse(s: &str) -> (r: Result<LinkKind, ParsingError>)
        ensures
            r == spec_parse_kind(s@),
    {
        if str_eq(s, "static") {
            Ok(LinkKind::Static)
        } else if str_eq(s, "shared") {
            Ok(LinkKind::Dynamic)
        } else if str_eq(s, "system") {
            Ok(LinkKind::System)
        } else if str_eq(s, "framework") {
            Ok(LinkKind::Framework)
        } else if str_eq(s, "unknown") {
            Ok(LinkKind::Unknown)
        } else {
            Err(ParsingError::InvalidKind)
        }
    }
}

impl Link {
    /// Parse a `name/kind` entry.
    pub fn parse(s: &str) -> (r: Result<Link, ParsingError>)
        ensures
            match r {
                Ok(l) => spec_parse_link(s@) == Ok::<LinkV, ParsingError>(l@),
                Err(e) => spec_parse_link(s@) == Err::<LinkV, ParsingError>(e),
            },
    {
        let parts = split_str(s, '/');
        if parts.len() != 2 {
            return Err(ParsingError::MalformedLink);
        }
        proof {
            assert(parts.deep_view()[0] == parts[0]@);
            assert(parts.deep_view()[1] == parts[1]@);
        }
        match LinkKind::parse(parts[1].as_str()) {
            Ok(k) => Ok(Link { name: parts[0].clone(), kind: k }),
            Err(e) => Err(e),
        }
    }
}

/// Parse every entry of a `links` value list.
pub fn parse_links(vs: &Vec<String>) -> (r: Result<Vec<Link>, ParsingError>)
    ensures
        match r {
            Ok(ls) => spec_parse_links(vs.deep_view()) == Ok::<Seq<LinkV>, ParsingError>(
                ls.deep_view(),
            ),
            Err(e) => spec_parse_links(vs.deep_view()) == Err::<Seq<LinkV>, ParsingError>(e),
        },
{
    let ghost dv = vs.deep_view();
    let mut ls: Vec<Link> = Vec::new();
    let mut i: usize = 0;
    proof {
        assert(dv.take(0) =~= Seq::<Seq<char>>::empty());
        assert(ls.deep_view() =~= Seq::<LinkV>::empty());
    }
    while i < vs.len()
        invariant
            dv == vs.deep_view(),
            0 <= i <= vs.len(),
            spec_parse_links(dv.take(i as int)) == Ok::<Seq<LinkV>, ParsingError>(ls.deep_view()),
        decreases vs.len() - i,
    {
        proof {
            assert(dv.take(i as int + 1).drop_last() =~= dv.take(i as int));
            assert(dv.take(i as int + 1).last() == dv[i as int]);
            assert(dv[i as int] == vs[i as int]@);
        }
        match Link::parse(vs[i].as_str()) {
            Ok(l) => {
                let ghost before = ls.deep_view();
                let ghost lv = l@;
                ls.push(l);
                proof {
                    assert(ls.deep_view() =~= before.push(lv));
                }
            },
            Err(e) => {
                proof {
                    lemma_parse_links_err_extends(dv, i as int + 1, e);
                }
                return Err(e);
            },
        }
        i += 1;
    }
    proof {
        assert(dv.take(vs.len() as int) =~= dv);
    }
    Ok(ls)
}

/// A failing prefix makes the whole list fail with the same error.
pub proof fn lemma_parse_links_err_extends(vs: Seq<Seq<char>>, j: int, e: ParsingError)
    requires
        0 <= j <= vs.len(),
        spec_parse_links(vs.take(j)) == Err::<Seq<LinkV>, ParsingError>(e),
    ensures
        spec_parse_links(vs) == Err::<Seq<LinkV>, ParsingError>(e),
    decreases vs.len() - j,
{
    if j == vs.len() {
        assert(vs.take(j) =~= vs);
    } else {
        assert(vs.take(j + 1).drop_last() =~= vs.take(j));
        lemma_parse_links_err_extends(vs, j + 1, e);
    }
}

/// Extract the single boolean value stored under `field`.
pub fn parse_bool_field(map: &InfoMap, field: &str) -> (r: Result<bool, ParsingError>)
    ensures
        match r {
            Ok(v) => spec_bool_field(map@, field@) == Ok::<bool, ParsingError>(v),
            Err(e) => spec_bool_field(map@, field@) == Err::<bool, ParsingError>(e),
        },
{
    match parse_scalar_field(map, field) {
        Err(e) => Err(e),
        Ok(v) => {
            if str_eq(v.as_str(), "true") {
                Ok(true)
            } else if str_eq(v.as_str(), "false") {
                Ok(false)
            } else {
                Err(ParsingError::ParseError)
            }
        },
    }
}

/// Entries of `m` whose key starts with `prefix`, the prefix stripped, in
/// first-insertion order.
pub open spec fn spec_namespace(
    m: Seq<(Seq<char>, Seq<Seq<char>>)>,
    prefix: Seq<char>,
) -> Seq<(Seq<char>, Seq<Seq<char>>)>
    decreases m.len(),
{
    if m.len() == 0 {
        Seq::<(Seq<char>, Seq<Seq<char>>)>::empty()
    } else {
        let rest = spec_namespace(m.drop_first(), prefix);
        if is_prefix(prefix, m[0].0) {
            seq![(m[0].0.skip(prefix.len() as int), m[0].1)] + rest
        } else {
            rest
        }
    }
}

/// Collect the entries of `map` whose key starts with `prefix`, stripping the
/// prefix.
fn namespace_entries(map: &InfoMap, prefix: &str) -> (r: Vec<(String, Vec<String>)>)
    ensures
        r.deep_view() == spec_namespace(map@, prefix@),
{
    let ghost p = prefix@;
    let plen = prefix.unicode_len();
    let n = map.len();
    let mut r: Vec<(String, Vec<String>)> = Vec::new();
    let mut i: usize = 0;
    proof {
        assert(r.deep_view() =~= Seq::<(Seq<char>, Seq<Seq<char>>)>::empty());
        assert(map@.skip(0) =~= map@);
        assert(r.deep_view() + spec_namespace(map@, p) =~~= spec_namespace(map@, p));
    }
    while i < n
        invariant
            n == map@.len(),
            p == prefix@,
            plen == p.len(),
            0 <= i <= n,
            spec_namespace(map@, p) == r.deep_view() + spec_namespace(map@.skip(i as int), p),
        decreases n - i,
    {
        let ghost tail = map@.skip(i as int);
        proof {
            assert(tail.len() > 0);
            assert(tail[0] == map@[i as int]);
            assert(tail.drop_first() =~= map@.skip(i as int + 1));
        }
        let (key, vals) = map.entry_at(i);
        let klen = key.as_str().unicode_len();
        if has_prefix(key.as_str(), prefix) {
            let suffix = String::from_str(key.as_str().substring_char(plen, klen));
            let copied = clone_strings(vals);
            let ghost before = r.deep_view();
            let ghost entry = (key@.skip(p.len() as int), vals.deep_view());
            r.push((suffix, copied));
            proof {
                assert(key@.subrange(plen as int, klen as int) =~= key@.skip(p.len() as int));
                assert(r.deep_view() =~= before.push(entry));
                assert(before.push(entry) + spec_namespace(map@.skip(i as int + 1), p) =~~= before
                    + (seq![entry] + spec_namespace(map@.skip(i as int + 1), p)));
            }
        }
        i += 1;
    }
    proof {
        assert(map@.skip(n as int) =~= Seq::<(Seq<char>, Seq<Seq<char>>)>::empty());
        assert(r.deep_view() + spec_namespace(map@.skip(n as int), p) =~~= r.deep_view());
    }
    r
}

/// Mathematical model of a [`BuildInfo`].
#[verifier::ext_equal]
pub struct BuildInfoV {
    pub linkdirs: Seq<Seq<char>>,
    pub links: Seq<LinkV>,
    pub includedirs_package: Seq<(Seq<char>, Seq<Seq<char>>)>,
    pub includedirs_target: Seq<(Seq<char>, Seq<Seq<char>>)>,
    pub use_cxx: bool,
    pub use_stl: bool,
}

/// The link information for a build: the directories searched for libraries,
/// the individual links, the include directories of each package and target,
/// and whether C++ and its standard library are used.
pub struct BuildInfo {
    linkdirs: Vec<String>,
    links: Vec<Link>,
    includedirs_package: Vec<(String, Vec<String>)>,
    includedirs_target: Vec<(String, Vec<String>)>,
    use_cxx: bool,
    use_stl: bool,
}

impl View for BuildInfo {
    type V = BuildInfoV;

    closed spec fn view(&self) -> BuildInfoV {
        BuildInfoV {
            linkdirs: self.linkdirs.deep_view(),
            links: self.links.deep_view(),
            includedirs_package: self.includedirs_package.deep_view(),
            includedirs_target: self.includedirs_target.deep_view(),
            use_cxx: self.use_cxx,
            use_stl: self.use_stl,
        }
    }
}

/// Decode a payload: build its key/value map, then extract the four
/// mandatory fields and the two optional namespaced maps. An absent
/// `linkdirs` or `links` key, and an absent or empty `cxx_used` or
/// `stl_used`, is `MissingKey`; the `links` entries must each be
/// `name/kind`; the booleans must be the literal text `true` or `false`.
pub open spec fn spec_decode(s: Seq<char>) -> Result<BuildInfoV, ParsingError> {
    let m = spec_pairs(s);
    match assoc_get(m, "linkdirs"@) {
        None => Err(ParsingError::MissingKey),
        Some(dirs) => match assoc_get(m, "links"@) {
            None => Err(ParsingError::MissingKey),
            Some(lvs) => match spec_parse_links(lvs) {
                Err(e) => Err(e),
                Ok(links) => match spec_bool_field(m, "cxx_used"@) {
                    Err(e) => Err(e),
                    Ok(cxx) => match spec_bool_field(m, "stl_used"@) {
                        Err(e) => Err(e),
                        Ok(stl) => Ok(
                            BuildInfoV {
                                linkdirs: dirs,
                                links: links,
                                includedirs_package: spec_namespace(m, "includedirs_package."@),
                                includedirs_target: spec_namespace(m, "includedirs_target."@),
                                use_cxx: cxx,
                                use_stl: stl,
                            },
                        ),
                    },
                },
            },
        },
    }
}

impl BuildInfo {
    /// Decode a payload string into its structured form, or report the first
    /// failure; no partial result is ever returned.
    pub fn decode(s: &str) -> (r: Result<BuildInfo, ParsingError>)
        ensures
            match r {
                Ok(b) => spec_decode(s@) == Ok::<BuildInfoV, ParsingError>(b@),
                Err(e) => spec_decode(s@) == Err::<BuildInfoV, ParsingError>(e),
            },
    {
        let map = parse_info_pairs(s);
        let linkdirs = match map.get("linkdirs") {
            None => {
                return Err(ParsingError::MissingKey);
            },
            Some(v) => clone_strings(v),
        };
        let raw_links = match map.get("links") {
            None => {
                return Err(ParsingError::MissingKey);
            },
            Some(v) => v,
        };
        let links = match parse_links(raw_links) {
            Err(e) => {
                return Err(e);
            },
            Ok(ls) => ls,
        };
        let use_cxx = match parse_bool_field(&map, "cxx_used") {
            Err(e) => {
                return Err(e);
            },
            Ok(b) => b,
        };
        let use_stl = match parse_bool_field(&map, "stl_used") {
            Err(e) => {
                return Err(e);
            },
            Ok(b) => b,
        };
        let includedirs_package = namespace_entries(&map, "includedirs_package.");
        let includedirs_target = namespace_entries(&map, "includedirs_target.");
        Ok(
            BuildInfo {
                linkdirs,
                links,
                includedirs_package,
                includedirs_target,
                use_cxx,
                use_stl,
            },
        )
    }

    /// The directories that contain the linked libraries, in declaration
    /// order, duplicates kept.
    pub fn linkdirs(&self) -> (r: &Vec<String>)
        ensures
            r.deep_view() == self@.linkdirs,
    {
        &self.linkdirs
    }

    /// The individual linked libraries, in declaration order.
    pub fn links(&self) -> (r: &Vec<Link>)
        ensures
            r.deep_view() == self@.links,
    {
        &self.links
    }

    /// Whether the build uses C++.
    pub fn use_cxx(&self) -> (r: bool)
        ensures
            r == self@.use_cxx,
    {
        self.use_cxx
    }

    /// Whether the build uses the C++ standard library.
    pub fn use_stl(&self) -> (r: bool)
        ensures
            r == self@.use_stl,
    {
        self.use_stl
    }

    /// The include directories of the target or package called `name`, or of
    /// all of them when `name` is `*`; an unknown name yields an empty
    /// result, never an error.
    pub fn includedirs(&self, source: Source, name: &str) -> (r: Vec<String>)
        ensures
            r.deep_view() == match source {
                Source::Target => spec_dirs_of(self@.includedirs_target, name@),
                Source::Package => spec_dirs_of(self@.includedirs_package, name@),
                Source::Both => spec_dirs_of(self@.includedirs_target, name@) + spec_dirs_of(
                    self@.includedirs_package,
                    name@,
                ),
            },
    {
        match source {
            Source::Target => dirs_of(&self.includedirs_target, name),
            Source::Package => dirs_of(&self.includedirs_package, name),
            Source::Both => {
                let mut r = dirs_of(&self.includedirs_target, name);
                let more = dirs_of(&self.includedirs_package, name);
                extend_strings(&mut r, &more);
                r
            },
        }
    }

    /// Append a search directory discovered after decoding (an enrichment
    /// performed by the emitter, not a correction of decoded data).
    pub fn push_linkdir(&mut self, dir: String)
        ensures
            final(self)@ == (BuildInfoV {
                linkdirs: old(self)@.linkdirs.push(dir@),
                ..old(self)@
            }),
    {
        let ghost d = dir@;
        self.linkdirs.push(dir);
        proof {
            assert(self.linkdirs.deep_view() =~= old(self)@.linkdirs.push(d));
        }
    }
}

/// The model of a build info with nothing in it.
pub open spec fn empty_build_info() -> BuildInfoV {
    BuildInfoV {
        linkdirs: Seq::<Seq<char>>::empty(),
        links: Seq::<LinkV>::empty(),
        includedirs_package: Seq::<(Seq<char>, Seq<Seq<char>>)>::empty(),
        includedirs_target: Seq::<(Seq<char>, Seq<Seq<char>>)>::empty(),
        use_cxx: false,
        use_stl: false,
    }
}

impl Default for BuildInfo {
    /// An empty build info: no directories, no links, nothing used.
    fn default() -> (r: BuildInfo)
        ensures
            r@ == empty_build_info(),
    {
        let r = BuildInfo {
            linkdirs: Vec::new(),
            links: Vec::new(),
            includedirs_package: Vec::new(),
            includedirs_target: Vec::new(),
            use_cxx: false,
            use_stl: false,
        };
        proof {
            assert(r@.linkdirs =~= Seq::<Seq<char>>::empty());
            assert(r@.links =~= Seq::<LinkV>::empty());
            assert(r@.includedirs_package =~= Seq::<(Seq<char>, Seq<Seq<char>>)>::empty());
            assert(r@.includedirs_target =~= Seq::<(Seq<char>, Seq<Seq<char>>)>::empty());
        }
        r
    }
}

/// Every value list of `m` concatenated, in entry order.
pub open spec fn spec_all_dirs(m: Seq<(Seq<char>, Seq<Seq<char>>)>) -> Seq<Seq<char>>
    decreases m.len(),
{
    if m.len() == 0 {
        Seq::<Seq<char>>::empty()
    } else {
        m[0].1 + spec_all_dirs(m.drop_first())
    }
}

/// The directories of `name` in `m`: all of them for `*`, the named entry's
/// otherwise, and an empty result for an absent name.
pub open spec fn spec_dirs_of(m: Seq<(Seq<char>, Seq<Seq<char>>)>, name: Seq<char>) -> Seq<
    Seq<char>,
> {
    if name == "*"@ {
        spec_all_dirs(m)
    } else {
        match assoc_get(m, name) {
            None => Seq::<Seq<char>>::empty(),
            Some(ds) => ds,
        }
    }
}

/// Append copies of all of `src` to `dst`.
pub fn extend_strings(dst: &mut Vec<String>, src: &Vec<String>)
    ensures
        final(dst).deep_view() == old(dst).deep_view() + src.deep_view(),
{
    let ghost base = dst.deep_view();
    let mut j: usize = 0;
    proof {
        assert(base + src.deep_view().take(0) =~= base);
    }
    while j < src.len()
        invariant
            0 <= j <= src.len(),
            dst.deep_view() == base + src.deep_view().take(j as int),
        decreases src.len() - j,
    {
        let s = src[j].clone();
        proof {
            assert(s@ == src.deep_view()[j as int]);
        }
        let ghost before = dst.deep_view();
        dst.push(s);
        proof {
            assert(dst.deep_view() =~= before.push(src.deep_view()[j as int]));
            assert(before.push(src.deep_view()[j as int]) =~= base + src.deep_view().take(
                j as int + 1,
            ));
        }
        j += 1;
    }
    proof {
        assert(src.deep_view().take(src.len() as int) =~= src.deep_view());
    }
}

/// The directories of `name` in the given map.
fn dirs_of(m: &Vec<(String, Vec<String>)>, name: &str) -> (r: Vec<String>)
    ensures
        r.deep_view() == spec_dirs_of(m.deep_view(), name@),
{
    if str_eq(name, "*") {
        all_dirs(m)
    } else {
        match assoc_lookup(m, name) {
            Some(v) => clone_strings(v),
            None => {
                let r: Vec<String> = Vec::new();
                proof {
                    assert(r.deep_view() =~= Seq::<Seq<char>>::empty());
                }
                r
            },
        }
    }
}

/// Every value list of `m` concatenated.
fn all_dirs(m: &Vec<(String, Vec<String>)>) -> (r: Vec<String>)
    ensures
        r.deep_view() == spec_all_dirs(m.deep_view()),
{
    let ghost dv = m.deep_view();
    let mut r: Vec<String> = Vec::new();
    let mut i: usize = 0;
    proof {
        assert(r.deep_view() =~= Seq::<Seq<char>>::empty());
        assert(dv.skip(0) =~= dv);
        assert(r.deep_view() + spec_all_dirs(dv) =~~= spec_all_dirs(dv));
    }
    while i < m.len()
        invariant
            dv == m.deep_view(),
            0 <= i <= m.len(),
            spec_all_dirs(dv) == r.deep_view() + spec_all_dirs(dv.skip(i as int)),
        decreases m.len() - i,
    {
        let ghost tail = dv.skip(i as int);
        proof {
            assert(tail.len() > 0);
            assert(tail[0] == dv[i as int]);
            assert(tail.drop_first() =~= dv.skip(i as int + 1));
        }
        let ghost before = r.deep_view();
        extend_strings(&mut r, &m[i].1);
        proof {
            assert(dv[i as int].1 == m[i as int].1.deep_view());
            assert(before + (dv[i as int].1 + spec_all_dirs(dv.skip(i as int + 1))) =~~= (before
                + dv[i as int].1) + spec_all_dirs(dv.skip(i as int + 1)));
        }
        i += 1;
    }
    proof {
        assert(dv.skip(m.len() as int) =~= Seq::<(Seq<char>, Seq<Seq<char>>)>::empty());
        assert(r.deep_view() + spec_all_dirs(dv.skip(m.len() as int)) =~~= r.deep_view());
    }
    r
}

/// The serialized text of a boolean field.
pub open spec fn spec_bool_text(b: bool) -> Seq<char> {
    if b {
        "true"@
    } else {
        "false"@
    }
}

/// The serialized tag of a linkage kind.
pub open spec fn spec_kind_text(k: LinkKind) -> Seq<char> {
    match k {
        LinkKind::Static => "static"@,
        LinkKind::Dynamic => "shared"@,
        LinkKind::System => "system"@,
        LinkKind::Framework => "framework"@,
        LinkKind::Unknown => "unknown"@,
    }
}

/// The serialized `name/kind` text of one link.
pub open spec fn spec_link_text(l: LinkV) -> Seq<char> {
    l.name + "/"@ + spec_kind_text(l.kind)
}

/// The serialized texts of a link list, in order.
pub open spec fn spec_links_texts(ls: Seq<LinkV>) -> Seq<Seq<char>>
    decreases ls.len(),
{
    if ls.len() == 0 {
        Seq::<Seq<char>>::empty()
    } else {
        spec_links_texts(ls.drop_last()).push(spec_link_text(ls.last()))
    }
}

/// The serialized line of each map entry, in order.
pub open spec fn spec_map_lines(
    prefix: Seq<char>,
    m: Seq<(Seq<char>, Seq<Seq<char>>)>,
) -> Seq<Seq<char>>
    decreases m.len(),
{
    if m.len() == 0 {
        Seq::<Seq<char>>::empty()
    } else {
        seq![prefix + m[0].0 + ":"@ + spec_join(m[0].1, '|')] + spec_map_lines(
            prefix,
            m.drop_first(),
        )
    }
}

/// The lines of a serialized build info: the two booleans, the links, the
/// link directories, then one line per namespaced map entry.
pub open spec fn spec_encode_lines(b: BuildInfoV) -> Seq<Seq<char>> {
    seq![
        "cxx_used:"@ + spec_bool_text(b.use_cxx),
        "stl_used:"@ + spec_bool_text(b.use_stl),
        "links:"@ + spec_join(spec_links_texts(b.links), '|'),
        "linkdirs:"@ + spec_join(b.linkdirs, '|'),
    ] + spec_map_lines("includedirs_package."@, b.includedirs_package) + spec_map_lines(
        "includedirs_target."@,
        b.includedirs_target,
    )
}

/// A serialized build info: its lines joined by newlines.
pub open spec fn spec_encode(b: BuildInfoV) -> Seq<char> {
    spec_join(spec_encode_lines(b), '\n')
}

/// Two strings and a third, concatenated.
fn cat3(a: &str, b: &str, c: &str) -> (r: String)
    ensures
        r@ == a@ + b@ + c@,
{
    let mut r = String::from_str(a);
    r.append(b);
    r.append(c);
    proof {
        assert(r@ =~= a@ + b@ + c@);
    }
    r
}

impl BuildInfo {
    /// Serialize this build info back into the line format that
    /// [`BuildInfo::decode`] reads.
    pub fn encode(&self) -> (r: String)
        ensures
            r@ == spec_encode(self@),
    {
        let mut lines: Vec<String> = Vec::new();
        let mut cxx_line = String::from_str("cxx_used:");
        cxx_line.append(if self.use_cxx {
            "true"
        } else {
            "false"
        });
        lines.push(cxx_line);
        let mut stl_line = String::from_str("stl_used:");
        stl_line.append(if self.use_stl {
            "true"
        } else {
            "false"
        });
        lines.push(stl_line);
        let texts = link_texts(&self.links);
        proof {
            reveal_strlit("|");
        }
        let mut links_line = String::from_str("links:");
        links_line.append(join_str(&texts, "|").as_str());
        lines.push(links_line);
        let mut dirs_line = String::from_str("linkdirs:");
        dirs_line.append(join_str(&self.linkdirs, "|").as_str());
        lines.push(dirs_line);
        proof {
            assert(lines.deep_view() =~= seq![
                "cxx_used:"@ + spec_bool_text(self@.use_cxx),
                "stl_used:"@ + spec_bool_text(self@.use_stl),
                "links:"@ + spec_join(spec_links_texts(self@.links), '|'),
                "linkdirs:"@ + spec_join(self@.linkdirs, '|'),
            ]);
        }
        let ghost base = lines.deep_view();
        append_map_lines(&mut lines, "includedirs_package.", &self.includedirs_package);
        append_map_lines(&mut lines, "includedirs_target.", &self.includedirs_target);
        proof {
            assert(lines.deep_view() =~= spec_encode_lines(self@));
            reveal_strlit("\n");
        }
        join_str(&lines, "\n")
    }
}

/// The serialized text of every link.
fn link_texts(links: &Vec<Link>) -> (r: Vec<String>)
    ensures
        r.deep_view() == spec_links_texts(links.deep_view()),
{
    let ghost dv = links.deep_view();
    let mut r: Vec<String> = Vec::new();
    let mut i: usize = 0;
    proof {
        assert(dv.take(0) =~= Seq::<LinkV>::empty());
        assert(r.deep_view() =~= Seq::<Seq<char>>::empty());
    }
    while i < links.len()
        invariant
            dv == links.deep_view(),
            0 <= i <= links.len(),
            r.deep_view() == spec_links_texts(dv.take(i as int)),
        decreases links.len() - i,
    {
        proof {
            assert(dv.take(i as int + 1).drop_last() =~= dv.take(i as int));
            assert(dv.take(i as int + 1).last() == dv[i as int]);
            assert(links[i as int]@ == dv[i as int]);
        }
        let kind_text: &str = match links[i].kind() {
            LinkKind::Static => "static",
            LinkKind::Dynamic => "shared",
            LinkKind::System => "system",
            LinkKind::Framework => "framework",
            LinkKind::Unknown => "unknown",
        };
        let t = cat3(links[i].name(), "/", kind_text);
        let ghost before = r.deep_view();
        let ghost tv = t@;
        r.push(t);
        proof {
            assert(tv == spec_link_text(dv[i as int]));
            assert(r.deep_view() =~= before.push(tv));
        }
        i += 1;
    }
    proof {
        assert(dv.take(links.len() as int) =~= dv);
    }
    r
}

/// Append the serialized line of every entry of a namespaced map.
fn append_map_lines(lines: &mut Vec<String>, prefix: &str, m: &Vec<(String, Vec<String>)>)
    ensures
        final(lines).deep_view() == old(lines).deep_view() + spec_map_lines(
            prefix@,
            m.deep_view(),
        ),
{
    let ghost base = lines.deep_view();
    let ghost dv = m.deep_view();
    let ghost p = prefix@;
    let mut i: usize = 0;
    proof {
        assert(dv.skip(0) =~= dv);
        assert(base + spec_map_lines(p, dv) =~~= base + spec_map_lines(p, dv));
    }
    while i < m.len()
        invariant
            dv == m.deep_view(),
            p == prefix@,
            0 <= i <= m.len(),
            base + spec_map_lines(p, dv) =~~= lines.deep_view() + spec_map_lines(
                p,
                dv.skip(i as int),
            ),
        decreases m.len() - i,
    {
        let ghost tail = dv.skip(i as int);
        proof {
            assert(tail.len() > 0);
            assert(tail[0] == dv[i as int]);
            assert(tail.drop_first() =~= dv.skip(i as int + 1));
            assert(dv[i as int] == (m[i as int].0@, m[i as int].1.deep_view()));
            reveal_strlit("|");
        }
        let joined = join_str(&m[i].1, "|");
        let line = cat3(prefix, m[i].0.as_str(), ":");
        let mut full = line;
        full.append(joined.as_str());
        let ghost lv = full@;
        proof {
            assert(lv =~= p + dv[i as int].0 + ":"@ + spec_join(dv[i as int].1, '|'));
        }
        let ghost before = lines.deep_view();
        lines.push(full);
        proof {
            assert(lines.deep_view() =~= before.push(lv));
            assert(before.push(lv) + spec_map_lines(p, dv.skip(i as int + 1)) =~~= before + (seq![
                lv,
            ] + spec_map_lines(p, dv.skip(i as int + 1))));
        }
        i += 1;
    }
    proof {
        assert(dv.skip(m.len() as int) =~= Seq::<(Seq<char>, Seq<Seq<char>>)>::empty());
        assert(lines.deep_view() + spec_map_lines(p, dv.skip(m.len() as int)) =~~= lines.deep_view());
    }
}

/// The values of the first entry of `m` with key `name`, if any.
fn assoc_lookup<'a>(m: &'a Vec<(String, Vec<String>)>, name: &str) -> (r: Option<&'a Vec<String>>)
    ensures
        match r {
            Some(v) => assoc_get(m.deep_view(), name@) == Some(v.deep_view()),
            None => assoc_get(m.deep_view(), name@) is None,
        },
{
    let mut i: usize = 0;
    while i < m.len()
        invariant
            0 <= i <= m.len(),
            forall|j: int| 0 <= j < i ==> m.deep_view()[j].0 != name@,
        decreases m.len() - i,
    {
        if str_eq(m[i].0.as_str(), name) {
            proof {
                lemma_assoc_get_at(m.deep_view(), name@, i as int);
            }
            return Some(&m[i].1);
        }
        i += 1;
    }
    proof {
        lemma_assoc_get_none(m.deep_view(), name@);
    }
    None
}

} // verus!
