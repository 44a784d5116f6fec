//! Laws of the decoder, encoder and emitter, stated over all inputs and
//! proved once: which error each malformed payload produces, how value
//! lists treat empty segments, how the namespaced maps answer lookups, and
//! what the reconciliation pass emits.

use vstd::prelude::*;
use crate::decode::BuildInfoV;
use crate::decode::LinkV;
use crate::decode::ParsingError;
use crate::decode::assoc_get;
use crate::decode::drop_empty;
use crate::decode::spec_bool_field;
use crate::decode::spec_decode;
use crate::decode::spec_namespace;
use crate::decode::spec_pairs;
use crate::decode::spec_parse_kind;
use crate::decode::spec_parse_link;
use crate::decode::spec_parse_links;
use crate::decode::spec_scalar;
use crate::decode::spec_values;
use crate::emit::DirectiveV;
use crate::emit::spec_declared_dynamic;
use crate::emit::spec_reconcile;
use crate::emit::spec_so_stem;
use crate::strutil::is_prefix;
use crate::strutil::spec_join;
use crate::strutil::spec_split;
use crate::strutil::lemma_split_join;
use crate::strutil::lemma_split_no_sep;

verus! {

/// How often `c` occurs in `s`.
pub open spec fn count_char(s: Seq<char>, c: char) -> int
    decreases s.len(),
{
    if s.len() == 0 {
        0
    } else {
        (if s[0] == c {
            1int
        } else {
            0int
        }) + count_char(s.drop_first(), c)
    }
}

/// Splitting yields one segment more than there are separators.
pub proof fn lemma_split_len_count(s: Seq<char>, sep: char)
    ensures
        spec_split(s, sep).len() == count_char(s, sep) + 1,
    decreases s.len(),
{
    if s.len() > 0 {
        lemma_split_len_count(s.drop_first(), sep);
        crate::strutil::lemma_split_len(s.drop_first(), sep);
    }
}

/// Decoding a payload that lacks a mandatory key fails with `MissingKey`:
/// an absent `linkdirs` or `links` fails outright, and an absent or empty
/// `cxx_used` or `stl_used` fails once the earlier fields are acceptable.
pub proof fn lemma_decode_missing_key(s: Seq<char>)
    requires
        ({
            let m = spec_pairs(s);
            ||| assoc_get(m, "linkdirs"@) is None
            ||| (assoc_get(m, "linkdirs"@) is Some && assoc_get(m, "links"@) is None)
            ||| (assoc_get(m, "linkdirs"@) is Some && assoc_get(m, "links"@) is Some
                && spec_parse_links(assoc_get(m, "links"@)->0) is Ok && spec_scalar(
                m,
                "cxx_used"@,
            ) == Err::<Seq<char>, ParsingError>(ParsingError::MissingKey))
            ||| (assoc_get(m, "linkdirs"@) is Some && assoc_get(m, "links"@) is Some
                && spec_parse_links(assoc_get(m, "links"@)->0) is Ok && spec_bool_field(
                m,
                "cxx_used"@,
            ) is Ok && spec_scalar(m, "stl_used"@) == Err::<Seq<char>, ParsingError>(
                ParsingError::MissingKey,
            ))
        }),
    ensures
        spec_decode(s) == Err::<BuildInfoV, ParsingError>(ParsingError::MissingKey),
{
}

/// A `links` entry without exactly one `/` separator is malformed.
pub proof fn lemma_malformed_link(e: Seq<char>)
    requires
        count_char(e, '/') != 1,
    ensures
        spec_parse_link(e) == Err::<LinkV, ParsingError>(ParsingError::MalformedLink),
{
    lemma_split_len_count(e, '/');
}

/// A `links` entry with one separator but an unknown kind tag is an
/// invalid kind.
pub proof fn lemma_invalid_kind(e: Seq<char>)
    requires
        count_char(e, '/') == 1,
        ({
            let tag = spec_split(e, '/')[1];
            !(tag == "static"@ || tag == "shared"@ || tag == "system"@ || tag == "framework"@
                || tag == "unknown"@)
        }),
    ensures
        spec_parse_link(e) == Err::<LinkV, ParsingError>(ParsingError::InvalidKind),
{
    lemma_split_len_count(e, '/');
}

/// A list whose entries all parse parses whole.
pub proof fn lemma_links_all_ok(vs: Seq<Seq<char>>)
    requires
        forall|j: int| 0 <= j < vs.len() ==> spec_parse_link(vs[j]) is Ok,
    ensures
        spec_parse_links(vs) is Ok,
    decreases vs.len(),
{
    if vs.len() > 0 {
        assert(forall|j: int|
            0 <= j < vs.drop_last().len() ==> spec_parse_link(vs.drop_last()[j]) is Ok);
        lemma_links_all_ok(vs.drop_last());
    }
}

/// The first failing entry decides the error for the whole `links` list.
pub proof fn lemma_links_first_error(vs: Seq<Seq<char>>, i: int)
    requires
        0 <= i < vs.len(),
        forall|j: int| 0 <= j < i ==> spec_parse_link(vs[j]) is Ok,
        spec_parse_link(vs[i]) is Err,
    ensures
        match spec_parse_link(vs[i]) {
            Err(e) => spec_parse_links(vs) == Err::<Seq<LinkV>, ParsingError>(e),
            Ok(_) => false,
        },
{
    assert(forall|j: int| 0 <= j < i ==> spec_parse_link(vs.take(i)[j]) is Ok);
    lemma_links_all_ok(vs.take(i));
    assert(vs.take(i + 1).drop_last() =~= vs.take(i));
    assert(vs.take(i + 1).last() == vs[i]);
    match spec_parse_link(vs[i]) {
        Err(e) => {
            crate::decode::lemma_parse_links_err_extends(vs, i + 1, e);
        },
        Ok(_) => {},
    }
}

/// A scalar field with two or more values is refused as such.
pub proof fn lemma_scalar_multiple(
    m: Seq<(Seq<char>, Seq<Seq<char>>)>,
    key: Seq<char>,
)
    requires
        assoc_get(m, key) is Some,
        assoc_get(m, key)->0.len() >= 2,
    ensures
        spec_scalar(m, key) == Err::<Seq<char>, ParsingError>(ParsingError::MultipleValues),
{
}

/// A payload whose `cxx_used` or `stl_used` carries several values is
/// decoded to `MultipleValues`, once the earlier fields are acceptable.
pub proof fn lemma_decode_multiple_values(s: Seq<char>)
    requires
        ({
            let m = spec_pairs(s);
            &&& assoc_get(m, "linkdirs"@) is Some
            &&& assoc_get(m, "links"@) is Some
            &&& spec_parse_links(assoc_get(m, "links"@)->0) is Ok
            &&& {
                ||| (assoc_get(m, "cxx_used"@) is Some && assoc_get(m, "cxx_used"@)->0.len() >= 2)
                ||| (spec_bool_field(m, "cxx_used"@) is Ok && assoc_get(m, "stl_used"@) is Some
                    && assoc_get(m, "stl_used"@)->0.len() >= 2)
            }
        }),
    ensures
        spec_decode(s) == Err::<BuildInfoV, ParsingError>(ParsingError::MultipleValues),
{
    let m = spec_pairs(s);
    if assoc_get(m, "cxx_used"@) is Some && assoc_get(m, "cxx_used"@)->0.len() >= 2 {
        lemma_scalar_multiple(m, "cxx_used"@);
    } else {
        lemma_scalar_multiple(m, "stl_used"@);
    }
}

/// A pipe-delimited list decodes to its nonempty segments, in order: empty
/// segments are always dropped and nothing else is.
pub proof fn lemma_values_drop_empty(vs: Seq<Seq<char>>)
    requires
        forall|i: int, j: int| 0 <= i < vs.len() && 0 <= j < vs[i].len() ==> vs[i][j] != '|',
    ensures
        spec_values(spec_join(vs, '|')) == drop_empty(vs),
{
    if vs.len() == 0 {
        assert(spec_join(vs, '|') =~= Seq::<char>::empty());
        assert(spec_split(Seq::<char>::empty(), '|') =~~= seq![Seq::<char>::empty()]);
        assert(seq![Seq::<char>::empty()].drop_last() =~= Seq::<Seq<char>>::empty());
        assert(seq![Seq::<char>::empty()].last() == Seq::<char>::empty());
        assert(drop_empty(Seq::<Seq<char>>::empty()) == Seq::<Seq<char>>::empty());
        assert(drop_empty(seq![Seq::<char>::empty()]) =~= Seq::<Seq<char>>::empty());
        assert(drop_empty(vs) =~= Seq::<Seq<char>>::empty());
    } else {
        lemma_split_join(vs, '|');
    }
}

/// `is_prefix` holds of a prefix by construction.
pub proof fn lemma_is_prefix_concat(p: Seq<char>, t: Seq<char>)
    ensures
        is_prefix(p, p + t),
        (p + t).skip(p.len() as int) == t,
{
    assert((p + t).take(p.len() as int) =~= p);
    assert((p + t).skip(p.len() as int) =~= t);
}

/// A namespaced map answers a lookup exactly as the payload map answers
/// the prefixed key: present names carry the same values, and a name whose
/// prefixed key is absent is absent.
pub proof fn lemma_namespace_lookup(
    m: Seq<(Seq<char>, Seq<Seq<char>>)>,
    prefix: Seq<char>,
    name: Seq<char>,
)
    ensures
        assoc_get(spec_namespace(m, prefix), name) == assoc_get(m, prefix + name),
    decreases m.len(),
{
    lemma_is_prefix_concat(prefix, name);
    if m.len() == 0 {
    } else {
        lemma_namespace_lookup(m.drop_first(), prefix, name);
        if is_prefix(prefix, m[0].0) {
            let strip = m[0].0.skip(prefix.len() as int);
            assert(prefix + strip =~= m[0].0);
            if strip == name {
                assert(m[0].0 == prefix + name);
                assert(spec_namespace(m, prefix)[0] == (strip, m[0].1));
            } else {
                assert(m[0].0 != prefix + name);
                assert(spec_namespace(m, prefix) =~= seq![(strip, m[0].1)] + spec_namespace(
                    m.drop_first(),
                    prefix,
                ));
                assert(spec_namespace(m, prefix).drop_first() =~= spec_namespace(
                    m.drop_first(),
                    prefix,
                ));
            }
        } else {
            assert(m[0].0 != prefix + name);
        }
    }
}

/// The reconciliation pass emits a dynamic link for exactly the on-disk
/// shared libraries whose derived name is not among the declared dynamic
/// links: declared links are never duplicated, and every undeclared
/// library found on disk is linked.
pub proof fn lemma_reconcile_exact(links: Seq<LinkV>, files: Seq<Seq<char>>)
    ensures
        forall|n: Seq<char>|
            #[trigger] spec_reconcile(links, files).contains(DirectiveV::LinkDylib(n)) <==> (
            !spec_declared_dynamic(links, n) && exists|i: int|
                0 <= i < files.len() && spec_so_stem(files[i]) == Some(n)),
    decreases files.len(),
{
    if files.len() == 0 {
        assert forall|n: Seq<char>|
            !(#[trigger] spec_reconcile(links, files).contains(DirectiveV::LinkDylib(n))) by {
            assert(spec_reconcile(links, files).len() == 0);
        }
    } else {
        lemma_reconcile_exact(links, files.drop_first());
        let rest = spec_reconcile(links, files.drop_first());
        let whole = spec_reconcile(links, files);
        assert forall|n: Seq<char>|
            #[trigger] whole.contains(DirectiveV::LinkDylib(n)) <==> (!spec_declared_dynamic(
                links,
                n,
            ) && exists|i: int| 0 <= i < files.len() && spec_so_stem(files[i]) == Some(n)) by {
            let head: Seq<DirectiveV> = match spec_so_stem(files[0]) {
                Some(st) => if !spec_declared_dynamic(links, st) {
                    seq![DirectiveV::LinkDylib(st)]
                } else {
                    Seq::<DirectiveV>::empty()
                },
                None => Seq::<DirectiveV>::empty(),
            };
            assert(whole == head + rest);
            if whole.contains(DirectiveV::LinkDylib(n)) {
                let k = choose|k: int|
                    0 <= k < whole.len() && whole[k] == DirectiveV::LinkDylib(n);
                if k < head.len() {
                    assert(spec_so_stem(files[0]) == Some(n));
                } else {
                    assert(rest[k - head.len()] == DirectiveV::LinkDylib(n));
                    assert(rest.contains(DirectiveV::LinkDylib(n)));
                    let i = choose|i: int|
                        0 <= i < files.drop_first().len() && spec_so_stem(
                            files.drop_first()[i],
                        ) == Some(n);
                    assert(files.drop_first()[i] == files[i + 1]);
                    assert(spec_so_stem(files[i + 1]) == Some(n));
                }
            }
            if !spec_declared_dynamic(links, n) && exists|i: int|
                0 <= i < files.len() && spec_so_stem(files[i]) == Some(n) {
                let i = choose|i: int|
                    0 <= i < files.len() && spec_so_stem(files[i]) == Some(n);
                if i == 0 {
                    assert(head[0] == DirectiveV::LinkDylib(n));
                    assert(whole[0] == DirectiveV::LinkDylib(n));
                    assert(whole.contains(DirectiveV::LinkDylib(n)));
                } else {
                    assert(files.drop_first()[i - 1] == files[i]);
                    assert(rest.contains(DirectiveV::LinkDylib(n)));
                    let k = choose|k: int|
                        0 <= k < rest.len() && rest[k] == DirectiveV::LinkDylib(n);
                    assert(whole[head.len() + k] == DirectiveV::LinkDylib(n));
                    assert(whole.contains(DirectiveV::LinkDylib(n)));
                }
            }
        }
    }
}

/// `c` occurs nowhere in `s`.
pub open spec fn no_char(s: Seq<char>, c: char) -> bool {
    forall|i: int| 0 <= i < s.len() ==> s[i] != c
}

/// A value the encoding can carry faithfully: nonempty, free of the list
/// and line separators, and not ending in whitespace (the payload's edges
/// are trimmed).
pub open spec fn good_value(v: Seq<char>) -> bool {
    v.len() > 0 && !crate::strutil::is_ws(v.last()) && no_char(v, '|') && no_char(v, '\n')
        && no_char(v, '\r')
}

pub open spec fn good_values(vs: Seq<Seq<char>>) -> bool {
    forall|i: int| 0 <= i < vs.len() ==> good_value(#[trigger] vs[i])
}

/// A link name the encoding can carry: free of the entry, list and line
/// separators.
pub open spec fn good_name(n: Seq<char>) -> bool {
    no_char(n, '/') && no_char(n, '|') && no_char(n, '\n') && no_char(n, '\r')
}

/// A map key the encoding can carry: free of the key and line separators.
pub open spec fn good_key(k: Seq<char>) -> bool {
    no_char(k, ':') && no_char(k, '\n') && no_char(k, '\r')
}

pub open spec fn good_map(m: Seq<(Seq<char>, Seq<Seq<char>>)>) -> bool {
    crate::decode::assoc_unique(m) && forall|i: int|
        0 <= i < m.len() ==> good_key(#[trigger] m[i].0) && good_values(m[i].1)
}

/// A build info the line format can carry faithfully.
pub open spec fn encodable(b: BuildInfoV) -> bool {
    good_values(b.linkdirs) && (forall|i: int|
        0 <= i < b.links.len() ==> good_name(#[trigger] b.links[i].name)) && good_map(
        b.includedirs_package,
    ) && good_map(b.includedirs_target)
}

pub proof fn lemma_no_char_concat(a: Seq<char>, b: Seq<char>, c: char)
    requires
        no_char(a, c),
        no_char(b, c),
    ensures
        no_char(a + b, c),
{
    assert forall|i: int| 0 <= i < (a + b).len() implies (a + b)[i] != c by {
        if i < a.len() {
            assert((a + b)[i] == a[i]);
        } else {
            assert((a + b)[i] == b[i - a.len()]);
        }
    }
}

/// Dropping empty segments from a list without any is the identity.
pub proof fn lemma_drop_empty_id(vs: Seq<Seq<char>>)
    requires
        forall|i: int| 0 <= i < vs.len() ==> (#[trigger] vs[i]).len() > 0,
    ensures
        drop_empty(vs) == vs,
    decreases vs.len(),
{
    if vs.len() > 0 {
        lemma_drop_empty_id(vs.drop_last());
        assert(drop_empty(vs) =~~= vs);
    }
}

/// A single separator-free nonempty value is its own value list.
pub proof fn lemma_values_of_raw(v: Seq<char>)
    requires
        v.len() > 0,
        no_char(v, '|'),
    ensures
        spec_values(v) == seq![v],
{
    lemma_split_no_sep(v, '|');
    lemma_drop_empty_id(seq![v]);
}

/// A line made of a colon-free key, a colon, and a value part splits back
/// into the key and the value part.
pub proof fn lemma_line_parts(key: Seq<char>, rest: Seq<char>)
    requires
        no_char(key, ':'),
    ensures
        crate::strutil::spec_split_once(key + ":"@ + rest, ':') == Some((key, rest)),
{
    reveal_strlit(":");
    let s = key + ":"@ + rest;
    assert(s[key.len() as int] == ':');
    assert(forall|j: int| 0 <= j < key.len() ==> s[j] == key[j]);
    crate::strutil::lemma_split_once_found(s, ':', key.len() as int);
    assert(s.take(key.len() as int) =~= key);
    assert(s.skip(key.len() as int + 1) =~= rest);
}

pub proof fn lemma_entries_snoc(lines: Seq<Seq<char>>, line: Seq<char>)
    ensures
        crate::decode::entries_of_lines(lines.push(line)) == crate::decode::spec_entry_line(
            crate::decode::entries_of_lines(lines),
            line,
        ),
{
    assert(lines.push(line).drop_last() =~= lines);
    assert(lines.push(line).last() == line);
}

pub proof fn lemma_assoc_has_push(
    m: Seq<(Seq<char>, Seq<Seq<char>>)>,
    e: (Seq<char>, Seq<Seq<char>>),
    k: Seq<char>,
)
    ensures
        crate::decode::assoc_has(m.push(e), k) <==> (crate::decode::assoc_has(m, k) || e.0 == k),
    decreases m.len(),
{
    if m.len() == 0 {
        assert(m.push(e)[0] == e);
        assert(m.push(e).drop_first() =~= Seq::<(Seq<char>, Seq<Seq<char>>)>::empty());
        assert(!crate::decode::assoc_has(Seq::<(Seq<char>, Seq<Seq<char>>)>::empty(), k));
        assert(m =~= Seq::<(Seq<char>, Seq<Seq<char>>)>::empty());
    } else {
        assert(m.push(e).drop_first() =~= m.drop_first().push(e));
        lemma_assoc_has_push(m.drop_first(), e, k);
    }
}

/// The entries a namespaced map contributes: its keys behind the prefix.
pub open spec fn prefixed_entries(
    prefix: Seq<char>,
    m: Seq<(Seq<char>, Seq<Seq<char>>)>,
) -> Seq<(Seq<char>, Seq<Seq<char>>)>
    decreases m.len(),
{
    if m.len() == 0 {
        Seq::<(Seq<char>, Seq<Seq<char>>)>::empty()
    } else {
        seq![(prefix + m[0].0, m[0].1)] + prefixed_entries(prefix, m.drop_first())
    }
}

pub proof fn lemma_prefixed_entries_shape(prefix: Seq<char>, m: Seq<(Seq<char>, Seq<Seq<char>>)>)
    ensures
        prefixed_entries(prefix, m).len() == m.len(),
        forall|i: int|
            0 <= i < m.len() ==> #[trigger] prefixed_entries(prefix, m)[i] == (
                prefix + m[i].0,
                m[i].1,
            ),
    decreases m.len(),
{
    if m.len() > 0 {
        lemma_prefixed_entries_shape(prefix, m.drop_first());
        assert forall|i: int|
            0 <= i < m.len() implies #[trigger] prefixed_entries(prefix, m)[i] == (
                prefix + m[i].0,
                m[i].1,
            ) by {
            if i > 0 {
                assert(prefixed_entries(prefix, m)[i] == prefixed_entries(
                    prefix,
                    m.drop_first(),
                )[i - 1]);
                assert(m.drop_first()[i - 1] == m[i]);
            }
        }
    }
}

/// Folding the serialized lines of a namespaced map onto existing entries
/// appends the prefixed entries, provided none of the keys was seen.
pub proof fn lemma_entries_map_lines(
    lines: Seq<Seq<char>>,
    prefix: Seq<char>,
    m: Seq<(Seq<char>, Seq<Seq<char>>)>,
)
    requires
        good_key(prefix),
        good_map(m),
        forall|i: int|
            0 <= i < m.len() ==> !crate::decode::assoc_has(
                crate::decode::entries_of_lines(lines),
                prefix + #[trigger] m[i].0,
            ),
    ensures
        crate::decode::entries_of_lines(lines + crate::decode::spec_map_lines(prefix, m))
            == crate::decode::entries_of_lines(lines) + prefixed_entries(prefix, m),
    decreases m.len(),
{
    let e0 = crate::decode::entries_of_lines(lines);
    if m.len() == 0 {
        assert(lines + crate::decode::spec_map_lines(prefix, m) =~= lines);
        assert(e0 + prefixed_entries(prefix, m) =~= e0);
    } else {
        let key0 = prefix + m[0].0;
        let vals0 = m[0].1;
        let line0 = prefix + m[0].0 + ":"@ + spec_join(vals0, '|');
        assert(no_char(key0, ':')) by {
            lemma_no_char_concat(prefix, m[0].0, ':');
        }
        assert(line0 == key0 + ":"@ + spec_join(vals0, '|'));
        lemma_entries_snoc(lines, line0);
        lemma_line_parts(key0, spec_join(vals0, '|'));
        lemma_values_drop_empty(vals0);
        lemma_drop_empty_id(vals0);
        crate::decode::lemma_assoc_set_push(e0, key0, vals0);
        let lines1 = lines.push(line0);
        let e1 = crate::decode::entries_of_lines(lines1);
        assert(e1 == e0.push((key0, vals0)));
        assert forall|i: int|
            0 <= i < m.drop_first().len() implies !crate::decode::assoc_has(
                e1,
                prefix + #[trigger] m.drop_first()[i].0,
            ) by {
            assert(m.drop_first()[i] == m[i + 1]);
            lemma_assoc_has_push(e0, (key0, vals0), prefix + m[i + 1].0);
            if key0 == prefix + m[i + 1].0 {
                assert(m[0].0 =~= (prefix + m[0].0).skip(prefix.len() as int));
                assert(m[i + 1].0 =~= (prefix + m[i + 1].0).skip(prefix.len() as int));
                assert(m[0].0 == m[i + 1].0);
                assert(false);
            }
        }
        assert(good_map(m.drop_first())) by {
            assert(forall|i: int|
                0 <= i < m.drop_first().len() ==> #[trigger] m.drop_first()[i] == m[i + 1]);
        }
        lemma_entries_map_lines(lines1, prefix, m.drop_first());
        assert(lines + crate::decode::spec_map_lines(prefix, m) =~= lines1
            + crate::decode::spec_map_lines(prefix, m.drop_first()));
        assert(prefixed_entries(prefix, m) =~= seq![(key0, vals0)] + prefixed_entries(
            prefix,
            m.drop_first(),
        ));
        assert(e0 + prefixed_entries(prefix, m) =~= e0.push((key0, vals0)) + prefixed_entries(
            prefix,
            m.drop_first(),
        ));
    }
}

/// The serialized link texts are nonempty and free of the list and line
/// separators.
pub proof fn lemma_links_texts_good(ls: Seq<LinkV>)
    requires
        forall|i: int| 0 <= i < ls.len() ==> good_name(#[trigger] ls[i].name),
    ensures
        forall|i: int|
            0 <= i < crate::decode::spec_links_texts(ls).len()
                ==> (#[trigger] crate::decode::spec_links_texts(ls)[i]).len() > 0 && no_char(
                crate::decode::spec_links_texts(ls)[i],
                '|',
            ) && no_char(crate::decode::spec_links_texts(ls)[i], '\n') && no_char(
                crate::decode::spec_links_texts(ls)[i],
                '\r',
            ) && !crate::strutil::is_ws(crate::decode::spec_links_texts(ls)[i].last()),
        crate::decode::spec_links_texts(ls).len() == ls.len(),
    decreases ls.len(),
{
    reveal_strlit("/");
    reveal_strlit("static");
    reveal_strlit("shared");
    reveal_strlit("system");
    reveal_strlit("framework");
    reveal_strlit("unknown");
    if ls.len() > 0 {
        assert(forall|i: int|
            0 <= i < ls.drop_last().len() ==> good_name(#[trigger] ls.drop_last()[i].name));
        lemma_links_texts_good(ls.drop_last());
        let t = crate::decode::spec_link_text(ls.last());
        let kt = crate::decode::spec_kind_text(ls.last().kind);
        assert(no_char(kt, '|') && no_char(kt, '\n') && no_char(kt, '\r')) by {
            assert forall|j: int| 0 <= j < kt.len() implies kt[j] != '|' && kt[j] != '\n'
                && kt[j] != '\r' by {}
        }
        assert(no_char("/"@, '|') && no_char("/"@, '\n') && no_char("/"@, '\r')) by {
            assert forall|j: int| 0 <= j < ("/"@).len() implies ("/"@)[j] != '|' && ("/"@)[j]
                != '\n' && ("/"@)[j] != '\r' by {}
        }
        lemma_no_char_concat(ls.last().name, "/"@, '|');
        lemma_no_char_concat(ls.last().name + "/"@, kt, '|');
        lemma_no_char_concat(ls.last().name, "/"@, '\n');
        lemma_no_char_concat(ls.last().name + "/"@, kt, '\n');
        lemma_no_char_concat(ls.last().name, "/"@, '\r');
        lemma_no_char_concat(ls.last().name + "/"@, kt, '\r');
        assert(kt.len() > 0);
        assert(t.last() == kt.last());
        assert(!crate::strutil::is_ws(kt.last())) by {
            assert forall|j: int| 0 <= j < kt.len() implies !crate::strutil::is_ws(kt[j]) by {}
        }
        assert forall|i: int|
            0 <= i < crate::decode::spec_links_texts(ls).len() implies (
            #[trigger] crate::decode::spec_links_texts(ls)[i]).len() > 0 && no_char(
            crate::decode::spec_links_texts(ls)[i],
            '|',
        ) && no_char(crate::decode::spec_links_texts(ls)[i], '\n') && no_char(
            crate::decode::spec_links_texts(ls)[i],
            '\r',
        ) && !crate::strutil::is_ws(crate::decode::spec_links_texts(ls)[i].last()) by {
            if i < ls.len() - 1 {
                assert(crate::decode::spec_links_texts(ls)[i]
                    == crate::decode::spec_links_texts(ls.drop_last())[i]);
            } else {
                assert(crate::decode::spec_links_texts(ls)[i] == t);
            }
        }
    }
}

/// Serializing one link and parsing the entry back yields the link.
pub proof fn lemma_parse_one_link(l: LinkV)
    requires
        good_name(l.name),
    ensures
        spec_parse_link(crate::decode::spec_link_text(l)) == Ok::<LinkV, ParsingError>(l),
{
    reveal_strlit("/");
    reveal_strlit("static");
    reveal_strlit("shared");
    reveal_strlit("system");
    reveal_strlit("framework");
    reveal_strlit("unknown");
    let kt = crate::decode::spec_kind_text(l.kind);
    let t = crate::decode::spec_link_text(l);
    assert(t =~= l.name + seq!['/'] + kt);
    assert forall|j: int| 0 <= j < kt.len() implies kt[j] != '/' by {}
    lemma_split_no_sep(kt, '/');
    crate::strutil::lemma_split_append(l.name, '/', kt);
    assert(spec_split(t, '/') == seq![l.name] + seq![kt]);
    assert(spec_split(t, '/').len() == 2);
    assert(spec_split(t, '/')[1] == kt);
    assert(spec_parse_kind(kt) == Ok::<crate::decode::LinkKind, ParsingError>(l.kind)) by {
        match l.kind {
            crate::decode::LinkKind::Static => {},
            crate::decode::LinkKind::Dynamic => {
                assert(("shared"@)[1] != ("static"@)[1]);
            },
            crate::decode::LinkKind::System => {
                assert(("system"@)[1] != ("static"@)[1]);
                assert(("system"@)[1] != ("shared"@)[1]);
            },
            crate::decode::LinkKind::Framework => {
                assert(("framework"@)[0] != ("static"@)[0]);
                assert(("framework"@)[0] != ("shared"@)[0]);
                assert(("framework"@)[0] != ("system"@)[0]);
            },
            crate::decode::LinkKind::Unknown => {
                assert(("unknown"@)[0] != ("static"@)[0]);
                assert(("unknown"@)[0] != ("shared"@)[0]);
                assert(("unknown"@)[0] != ("system"@)[0]);
                assert(("unknown"@)[0] != ("framework"@)[0]);
            },
        }
    }
    assert(spec_split(t, '/')[0] == l.name);
    assert(spec_parse_link(t) == Ok::<LinkV, ParsingError>(LinkV { name: l.name, kind: l.kind }));
    assert(LinkV { name: l.name, kind: l.kind } =~= l);
}

/// Serializing a link list and parsing it back yields the list.
pub proof fn lemma_parse_links_texts(ls: Seq<LinkV>)
    requires
        forall|i: int| 0 <= i < ls.len() ==> good_name(#[trigger] ls[i].name),
    ensures
        spec_parse_links(crate::decode::spec_links_texts(ls)) == Ok::<Seq<LinkV>, ParsingError>(
            ls,
        ),
    decreases ls.len(),
{
    let texts = crate::decode::spec_links_texts(ls);
    if ls.len() == 0 {
        assert(texts.len() == 0);
        assert(ls =~= Seq::<LinkV>::empty());
        assert(spec_parse_links(texts) == Ok::<Seq<LinkV>, ParsingError>(Seq::<LinkV>::empty()));
    } else {
        assert(forall|i: int|
            0 <= i < ls.drop_last().len() ==> good_name(#[trigger] ls.drop_last()[i].name));
        lemma_parse_links_texts(ls.drop_last());
        lemma_parse_one_link(ls.last());
        assert(texts == crate::decode::spec_links_texts(ls.drop_last()).push(
            crate::decode::spec_link_text(ls.last()),
        ));
        assert(texts.drop_last() =~= crate::decode::spec_links_texts(ls.drop_last()));
        assert(texts.last() == crate::decode::spec_link_text(ls.last()));
        assert(ls.drop_last().push(ls.last()) =~= ls);
    }
}

/// Without a start-marker line, filtered mode retains nothing: a build
/// that produces no structured payload yields an empty string, not an
/// error.
pub proof fn lemma_filter_no_start(lines: Seq<Seq<char>>)
    requires
        forall|i: int|
            0 <= i < lines.len() ==> !is_prefix("__xmakers_start__"@, #[trigger] lines[i]),
    ensures
        crate::filter::spec_filter_output(lines, false) == Seq::<char>::empty(),
{
    lemma_filtered_from_outside(lines);
}

proof fn lemma_filtered_from_outside(lines: Seq<Seq<char>>)
    requires
        forall|i: int|
            0 <= i < lines.len() ==> !is_prefix("__xmakers_start__"@, #[trigger] lines[i]),
    ensures
        crate::filter::spec_filtered_from(lines, false).1 == Seq::<char>::empty(),
        crate::filter::spec_filtered_from(lines, false).0 == false,
    decreases lines.len(),
{
    if lines.len() > 0 {
        assert(forall|i: int|
            0 <= i < lines.drop_first().len() ==> !is_prefix(
                "__xmakers_start__"@,
                #[trigger] lines.drop_first()[i],
            ));
        lemma_filtered_from_outside(lines.drop_first());
        let step = crate::filter::spec_filter_step(false, lines[0]);
        assert(step.0 == false && step.1 == Seq::<char>::empty());
        assert(step.1 + crate::filter::spec_filtered_from(lines.drop_first(), false).1
            =~= Seq::<char>::empty());
    }
}

/// The first four serialized lines: the mandatory fields.
pub open spec fn base_lines(b: BuildInfoV) -> Seq<Seq<char>> {
    seq![
        "cxx_used:"@ + crate::decode::spec_bool_text(b.use_cxx),
        "stl_used:"@ + crate::decode::spec_bool_text(b.use_stl),
        "links:"@ + spec_join(crate::decode::spec_links_texts(b.links), '|'),
        "linkdirs:"@ + spec_join(b.linkdirs, '|'),
    ]
}

/// The entries the first four lines decode to.
pub open spec fn base_entries(b: BuildInfoV) -> Seq<(Seq<char>, Seq<Seq<char>>)> {
    seq![
        ("cxx_used"@, seq![crate::decode::spec_bool_text(b.use_cxx)]),
        ("stl_used"@, seq![crate::decode::spec_bool_text(b.use_stl)]),
        ("links"@, crate::decode::spec_links_texts(b.links)),
        ("linkdirs"@, b.linkdirs),
    ]
}

/// The four mandatory lines decode to the four mandatory entries.
#[verifier::rlimit(60)]
#[verifier::spinoff_prover]
pub proof fn lemma_base_entries(b: BuildInfoV)
    requires
        encodable(b),
    ensures
        crate::decode::entries_of_lines(base_lines(b)) == base_entries(b),
{
    reveal_strlit("cxx_used:");
    reveal_strlit("cxx_used");
    reveal_strlit("stl_used:");
    reveal_strlit("stl_used");
    reveal_strlit("links:");
    reveal_strlit("links");
    reveal_strlit("linkdirs:");
    reveal_strlit("linkdirs");
    reveal_strlit(":");
    reveal_strlit("true");
    reveal_strlit("false");
    let btc = crate::decode::spec_bool_text(b.use_cxx);
    let bts = crate::decode::spec_bool_text(b.use_stl);
    let texts = crate::decode::spec_links_texts(b.links);
    let l1 = "cxx_used:"@ + btc;
    let l2 = "stl_used:"@ + bts;
    let l3 = "links:"@ + spec_join(texts, '|');
    let l4 = "linkdirs:"@ + spec_join(b.linkdirs, '|');
    assert(l1 =~= "cxx_used"@ + ":"@ + btc);
    assert(l2 =~= "stl_used"@ + ":"@ + bts);
    assert(l3 =~= "links"@ + ":"@ + spec_join(texts, '|'));
    assert(l4 =~= "linkdirs"@ + ":"@ + spec_join(b.linkdirs, '|'));
    assert(no_char("cxx_used"@, ':')) by {
        assert forall|j: int| 0 <= j < ("cxx_used"@).len() implies ("cxx_used"@)[j] != ':' by {}
    }
    assert(no_char("stl_used"@, ':')) by {
        assert forall|j: int| 0 <= j < ("stl_used"@).len() implies ("stl_used"@)[j] != ':' by {}
    }
    assert(no_char("links"@, ':')) by {
        assert forall|j: int| 0 <= j < ("links"@).len() implies ("links"@)[j] != ':' by {}
    }
    assert(no_char("linkdirs"@, ':')) by {
        assert forall|j: int| 0 <= j < ("linkdirs"@).len() implies ("linkdirs"@)[j] != ':' by {}
    }
    lemma_line_parts("cxx_used"@, btc);
    lemma_line_parts("stl_used"@, bts);
    lemma_line_parts("links"@, spec_join(texts, '|'));
    lemma_line_parts("linkdirs"@, spec_join(b.linkdirs, '|'));
    assert(btc.len() > 0 && no_char(btc, '|') && bts.len() > 0 && no_char(bts, '|')) by {
        assert forall|j: int| 0 <= j < ("true"@).len() implies ("true"@)[j] != '|' by {}
        assert forall|j: int| 0 <= j < ("false"@).len() implies ("false"@)[j] != '|' by {}
    }
    lemma_values_of_raw(btc);
    lemma_values_of_raw(bts);
    lemma_links_texts_good(b.links);
    assert(forall|i: int, j: int|
        0 <= i < texts.len() && 0 <= j < texts[i].len() ==> texts[i][j] != '|');
    lemma_values_drop_empty(texts);
    assert(forall|i: int| 0 <= i < texts.len() ==> (#[trigger] texts[i]).len() > 0);
    lemma_drop_empty_id(texts);
    assert(forall|i: int, j: int|
        0 <= i < b.linkdirs.len() && 0 <= j < b.linkdirs[i].len() ==> b.linkdirs[i][j] != '|');
    lemma_values_drop_empty(b.linkdirs);
    assert(forall|i: int| 0 <= i < b.linkdirs.len() ==> (#[trigger] b.linkdirs[i]).len() > 0);
    lemma_drop_empty_id(b.linkdirs);
    let e_none = Seq::<(Seq<char>, Seq<Seq<char>>)>::empty();
    let s0 = Seq::<Seq<char>>::empty();
    let s1 = seq![l1];
    let s2 = seq![l1, l2];
    let s3 = seq![l1, l2, l3];
    let s4 = seq![l1, l2, l3, l4];
    assert(crate::decode::entries_of_lines(s0) == e_none);
    assert(s1 =~= s0.push(l1));
    lemma_entries_snoc(s0, l1);
    crate::decode::lemma_assoc_get_none(e_none, "cxx_used"@);
    crate::decode::lemma_assoc_set_push(e_none, "cxx_used"@, seq![btc]);
    let e1 = e_none.push(("cxx_used"@, seq![btc]));
    assert(crate::decode::entries_of_lines(s1) == e1);
    assert(s2 =~= s1.push(l2));
    lemma_entries_snoc(s1, l2);
    assert(("cxx_used"@)[0] != ("stl_used"@)[0]);
    assert(forall|j: int| 0 <= j < e1.len() ==> e1[j].0 != "stl_used"@);
    crate::decode::lemma_assoc_get_none(e1, "stl_used"@);
    crate::decode::lemma_assoc_set_push(e1, "stl_used"@, seq![bts]);
    let e2 = e1.push(("stl_used"@, seq![bts]));
    assert(crate::decode::entries_of_lines(s2) == e2);
    assert(s3 =~= s2.push(l3));
    lemma_entries_snoc(s2, l3);
    assert(("links"@).len() != ("cxx_used"@).len());
    assert(("links"@).len() != ("stl_used"@).len());
    assert(forall|j: int| 0 <= j < e2.len() ==> e2[j].0 != "links"@);
    crate::decode::lemma_assoc_get_none(e2, "links"@);
    crate::decode::lemma_assoc_set_push(e2, "links"@, texts);
    let e3 = e2.push(("links"@, texts));
    assert(crate::decode::entries_of_lines(s3) == e3);
    assert(s4 =~= s3.push(l4));
    lemma_entries_snoc(s3, l4);
    assert(("linkdirs"@)[0] != ("cxx_used"@)[0]);
    assert(("linkdirs"@)[0] != ("stl_used"@)[0]);
    assert(("linkdirs"@).len() != ("links"@).len());
    assert(forall|j: int| 0 <= j < e3.len() ==> e3[j].0 != "linkdirs"@);
    crate::decode::lemma_assoc_get_none(e3, "linkdirs"@);
    crate::decode::lemma_assoc_set_push(e3, "linkdirs"@, b.linkdirs);
    let e4 = e3.push(("linkdirs"@, b.linkdirs));
    assert(crate::decode::entries_of_lines(s4) == e4);
    assert(s4 =~= base_lines(b));
    assert(e4 =~= base_entries(b));
}

pub proof fn lemma_namespace_append(
    a: Seq<(Seq<char>, Seq<Seq<char>>)>,
    b: Seq<(Seq<char>, Seq<Seq<char>>)>,
    p: Seq<char>,
)
    ensures
        spec_namespace(a + b, p) == spec_namespace(a, p) + spec_namespace(b, p),
    decreases a.len(),
{
    if a.len() == 0 {
        assert(a + b =~= b);
        assert(spec_namespace(a, p) + spec_namespace(b, p) =~= spec_namespace(b, p));
    } else {
        assert((a + b).drop_first() =~= a.drop_first() + b);
        assert((a + b)[0] == a[0]);
        lemma_namespace_append(a.drop_first(), b, p);
        if is_prefix(p, a[0].0) {
            assert(seq![(a[0].0.skip(p.len() as int), a[0].1)] + (spec_namespace(
                a.drop_first(),
                p,
            ) + spec_namespace(b, p)) =~= (seq![(a[0].0.skip(p.len() as int), a[0].1)]
                + spec_namespace(a.drop_first(), p)) + spec_namespace(b, p));
        }
    }
}

pub proof fn lemma_namespace_none(m: Seq<(Seq<char>, Seq<Seq<char>>)>, p: Seq<char>)
    requires
        forall|i: int| 0 <= i < m.len() ==> !is_prefix(p, #[trigger] m[i].0),
    ensures
        spec_namespace(m, p) == Seq::<(Seq<char>, Seq<Seq<char>>)>::empty(),
    decreases m.len(),
{
    if m.len() > 0 {
        assert(forall|i: int|
            0 <= i < m.drop_first().len() ==> !is_prefix(p, #[trigger] m.drop_first()[i].0));
        lemma_namespace_none(m.drop_first(), p);
    }
}

/// Stripping the prefix undoes prefixing.
pub proof fn lemma_namespace_prefixed(p: Seq<char>, m: Seq<(Seq<char>, Seq<Seq<char>>)>)
    ensures
        spec_namespace(prefixed_entries(p, m), p) == m,
    decreases m.len(),
{
    if m.len() == 0 {
        assert(spec_namespace(prefixed_entries(p, m), p) =~= m);
    } else {
        let pe = prefixed_entries(p, m);
        assert(pe[0] == (p + m[0].0, m[0].1));
        lemma_is_prefix_concat(p, m[0].0);
        assert(pe.drop_first() =~= prefixed_entries(p, m.drop_first()));
        lemma_namespace_prefixed(p, m.drop_first());
        assert(spec_namespace(pe, p) =~= m);
    }
}

/// Every serialized map line is nonempty, free of line separators, and
/// ends in something the trim cannot take.
pub proof fn lemma_map_lines_good(prefix: Seq<char>, m: Seq<(Seq<char>, Seq<Seq<char>>)>)
    requires
        good_key(prefix),
        good_map(m),
    ensures
        crate::decode::spec_map_lines(prefix, m).len() == m.len(),
        forall|i: int|
            0 <= i < m.len() ==> (#[trigger] crate::decode::spec_map_lines(prefix, m)[i]).len()
                > 0 && no_char(crate::decode::spec_map_lines(prefix, m)[i], '\n') && no_char(
                crate::decode::spec_map_lines(prefix, m)[i],
                '\r',
            ) && !crate::strutil::is_ws(crate::decode::spec_map_lines(prefix, m)[i].last()),
    decreases m.len(),
{
    reveal_strlit(":");
    if m.len() > 0 {
        assert(good_map(m.drop_first())) by {
            assert(forall|i: int|
                0 <= i < m.drop_first().len() ==> #[trigger] m.drop_first()[i] == m[i + 1]);
        }
        lemma_map_lines_good(prefix, m.drop_first());
        let line = prefix + m[0].0 + ":"@ + spec_join(m[0].1, '|');
        assert(no_char(line, '\n') && no_char(line, '\r')) by {
            assert(no_char(":"@, '\n') && no_char(":"@, '\r')) by {
                assert forall|j: int| 0 <= j < (":"@).len() implies (":"@)[j] != '\n' && (
                ":"@)[j] != '\r' by {}
            }
            assert(forall|i: int, j: int|
                0 <= i < m[0].1.len() && 0 <= j < m[0].1[i].len() ==> m[0].1[i][j] != '\n');
            assert(forall|i: int, j: int|
                0 <= i < m[0].1.len() && 0 <= j < m[0].1[i].len() ==> m[0].1[i][j] != '\r');
            crate::strutil::lemma_join_no_char(m[0].1, '|', '\n');
            crate::strutil::lemma_join_no_char(m[0].1, '|', '\r');
            lemma_no_char_concat(prefix, m[0].0, '\n');
            lemma_no_char_concat(prefix + m[0].0, ":"@, '\n');
            lemma_no_char_concat(prefix + m[0].0 + ":"@, spec_join(m[0].1, '|'), '\n');
            lemma_no_char_concat(prefix, m[0].0, '\r');
            lemma_no_char_concat(prefix + m[0].0, ":"@, '\r');
            lemma_no_char_concat(prefix + m[0].0 + ":"@, spec_join(m[0].1, '|'), '\r');
        }
        assert(line.len() > 0 && !crate::strutil::is_ws(line.last())) by {
            if m[0].1.len() == 0 {
                assert(spec_join(m[0].1, '|') =~= Seq::<char>::empty());
                assert(line =~= prefix + m[0].0 + ":"@);
                assert(line.last() == ':');
            } else {
                crate::strutil::lemma_join_last(m[0].1, '|');
                assert(line.last() == m[0].1.last().last());
            }
        }
        assert forall|i: int|
            0 <= i < m.len() implies (#[trigger] crate::decode::spec_map_lines(prefix, m)[i]).len()
            > 0 && no_char(crate::decode::spec_map_lines(prefix, m)[i], '\n') && no_char(
            crate::decode::spec_map_lines(prefix, m)[i],
            '\r',
        ) && !crate::strutil::is_ws(crate::decode::spec_map_lines(prefix, m)[i].last()) by {
            if i == 0 {
                assert(crate::decode::spec_map_lines(prefix, m)[0] == line);
            } else {
                assert(crate::decode::spec_map_lines(prefix, m)[i]
                    == crate::decode::spec_map_lines(prefix, m.drop_first())[i - 1]);
                assert(m.drop_first()[i - 1] == m[i]);
            }
        }
    }
}

/// Trimming a serialized build info changes nothing, and its lines are
/// exactly the serialized lines.
#[verifier::rlimit(60)]
#[verifier::spinoff_prover]
pub proof fn lemma_encode_trim_lines(b: BuildInfoV)
    requires
        encodable(b),
    ensures
        crate::decode::spec_lines(crate::strutil::spec_trim(crate::decode::spec_encode(b)))
            == crate::decode::spec_encode_lines(b),
{
    reveal_strlit("cxx_used:");
    reveal_strlit("stl_used:");
    reveal_strlit("links:");
    reveal_strlit("linkdirs:");
    reveal_strlit("includedirs_package.");
    reveal_strlit("includedirs_target.");
    reveal_strlit("true");
    reveal_strlit("false");
    let lines = crate::decode::spec_encode_lines(b);
    let enc = crate::decode::spec_encode(b);
    let p_pkg = "includedirs_package."@;
    let p_tgt = "includedirs_target."@;
    let pkg_lines = crate::decode::spec_map_lines(p_pkg, b.includedirs_package);
    let tgt_lines = crate::decode::spec_map_lines(p_tgt, b.includedirs_target);
    assert(good_key(p_pkg)) by {
        assert forall|j: int| 0 <= j < p_pkg.len() implies p_pkg[j] != ':' && p_pkg[j] != '\n'
            && p_pkg[j] != '\r' by {}
    }
    assert(good_key(p_tgt)) by {
        assert forall|j: int| 0 <= j < p_tgt.len() implies p_tgt[j] != ':' && p_tgt[j] != '\n'
            && p_tgt[j] != '\r' by {}
    }
    lemma_map_lines_good(p_pkg, b.includedirs_package);
    lemma_map_lines_good(p_tgt, b.includedirs_target);
    lemma_links_texts_good(b.links);
    let texts = crate::decode::spec_links_texts(b.links);
    let good_line = |l: Seq<char>|
        l.len() > 0 && no_char(l, '\n') && no_char(l, '\r') && !crate::strutil::is_ws(l.last());
    assert forall|i: int| 0 <= i < 4 implies good_line(base_lines(b)[i]) by {
        assert(no_char("cxx_used:"@, '\n') && no_char("cxx_used:"@, '\r')) by {
            assert forall|j: int|
                0 <= j < ("cxx_used:"@).len() implies ("cxx_used:"@)[j] != '\n' && (
            "cxx_used:"@)[j] != '\r' by {}
        }
        assert(no_char("stl_used:"@, '\n') && no_char("stl_used:"@, '\r')) by {
            assert forall|j: int|
                0 <= j < ("stl_used:"@).len() implies ("stl_used:"@)[j] != '\n' && (
            "stl_used:"@)[j] != '\r' by {}
        }
        assert(no_char("links:"@, '\n') && no_char("links:"@, '\r')) by {
            assert forall|j: int|
                0 <= j < ("links:"@).len() implies ("links:"@)[j] != '\n' && ("links:"@)[j]
                    != '\r' by {}
        }
        assert(no_char("linkdirs:"@, '\n') && no_char("linkdirs:"@, '\r')) by {
            assert forall|j: int|
                0 <= j < ("linkdirs:"@).len() implies ("linkdirs:"@)[j] != '\n' && (
            "linkdirs:"@)[j] != '\r' by {}
        }
        assert(no_char("true"@, '\n') && no_char("true"@, '\r') && no_char("false"@, '\n')
            && no_char("false"@, '\r')) by {
            assert forall|j: int|
                0 <= j < ("true"@).len() implies ("true"@)[j] != '\n' && ("true"@)[j]
                    != '\r' by {}
            assert forall|j: int|
                0 <= j < ("false"@).len() implies ("false"@)[j] != '\n' && ("false"@)[j]
                    != '\r' by {}
        }
        let btc = crate::decode::spec_bool_text(b.use_cxx);
        let bts = crate::decode::spec_bool_text(b.use_stl);
        if i == 0 {
            lemma_no_char_concat("cxx_used:"@, btc, '\n');
            lemma_no_char_concat("cxx_used:"@, btc, '\r');
            assert(base_lines(b)[0].last() == btc.last());
            assert(!crate::strutil::is_ws(btc.last()));
        } else if i == 1 {
            lemma_no_char_concat("stl_used:"@, bts, '\n');
            lemma_no_char_concat("stl_used:"@, bts, '\r');
            assert(base_lines(b)[1].last() == bts.last());
            assert(!crate::strutil::is_ws(bts.last()));
        } else if i == 2 {
            assert(forall|x: int, j: int|
                0 <= x < texts.len() && 0 <= j < texts[x].len() ==> texts[x][j] != '\n');
            assert(forall|x: int, j: int|
                0 <= x < texts.len() && 0 <= j < texts[x].len() ==> texts[x][j] != '\r');
            crate::strutil::lemma_join_no_char(texts, '|', '\n');
            crate::strutil::lemma_join_no_char(texts, '|', '\r');
            lemma_no_char_concat("links:"@, spec_join(texts, '|'), '\n');
            lemma_no_char_concat("links:"@, spec_join(texts, '|'), '\r');
            if texts.len() == 0 {
                assert(spec_join(texts, '|') =~= Seq::<char>::empty());
                assert(base_lines(b)[2] =~= "links:"@);
                assert(base_lines(b)[2].last() == ':');
            } else {
                crate::strutil::lemma_join_last(texts, '|');
                assert(base_lines(b)[2].last() == texts.last().last());
            }
        } else {
            assert(forall|x: int, j: int|
                0 <= x < b.linkdirs.len() && 0 <= j < b.linkdirs[x].len() ==> b.linkdirs[x][j]
                    != '\n');
            assert(forall|x: int, j: int|
                0 <= x < b.linkdirs.len() && 0 <= j < b.linkdirs[x].len() ==> b.linkdirs[x][j]
                    != '\r');
            crate::strutil::lemma_join_no_char(b.linkdirs, '|', '\n');
            crate::strutil::lemma_join_no_char(b.linkdirs, '|', '\r');
            lemma_no_char_concat("linkdirs:"@, spec_join(b.linkdirs, '|'), '\n');
            lemma_no_char_concat("linkdirs:"@, spec_join(b.linkdirs, '|'), '\r');
            if b.linkdirs.len() == 0 {
                assert(spec_join(b.linkdirs, '|') =~= Seq::<char>::empty());
                assert(base_lines(b)[3] =~= "linkdirs:"@);
                assert(base_lines(b)[3].last() == ':');
            } else {
                crate::strutil::lemma_join_last(b.linkdirs, '|');
                assert(base_lines(b)[3].last() == b.linkdirs.last().last());
            }
        }
    }
    assert(lines =~= base_lines(b) + pkg_lines + tgt_lines);
    assert(lines.len() >= 4);
    assert forall|i: int| 0 <= i < lines.len() implies good_line(#[trigger] lines[i]) by {
        if i < 4 {
            assert(lines[i] == base_lines(b)[i]);
        } else if i < 4 + pkg_lines.len() {
            assert(lines[i] == pkg_lines[i - 4]);
        } else {
            assert(lines[i] == tgt_lines[i - 4 - pkg_lines.len()]);
        }
    }
    assert(lines[0].len() > 0);
    assert(lines[0][0] == 'c');
    crate::strutil::lemma_join_first(lines, '\n');
    crate::strutil::lemma_join_last(lines, '\n');
    assert(!crate::strutil::is_ws(enc[0]));
    assert(!crate::strutil::is_ws(enc.last()));
    crate::strutil::lemma_trim_start_skip(enc, 0);
    assert(enc.skip(0) =~= enc);
    crate::strutil::lemma_trim_end_take(enc, enc.len() as int);
    assert(enc.take(enc.len() as int) =~= enc);
    assert(crate::strutil::spec_trim(enc) == enc);
    assert(forall|i: int, j: int|
        0 <= i < lines.len() && 0 <= j < lines[i].len() ==> lines[i][j] != '\n');
    lemma_split_join(lines, '\n');
    assert(crate::decode::spec_lines(enc) =~= lines) by {
        assert(enc.len() > 0);
        assert forall|i: int|
            0 <= i < lines.len() implies crate::decode::strip_cr(spec_split(enc, '\n')[i])
            == lines[i] by {
            assert(spec_split(enc, '\n')[i] == lines[i]);
        }
    }
}

/// Round trip: serializing a build info and decoding the text yields the
/// same structure, order and all, for every encodable value.
#[verifier::rlimit(100)]
#[verifier::spinoff_prover]
pub proof fn lemma_decode_encode(b: BuildInfoV)
    requires
        encodable(b),
    ensures
        spec_decode(crate::decode::spec_encode(b)) == Ok::<BuildInfoV, ParsingError>(b),
{
    reveal_strlit("cxx_used");
    reveal_strlit("stl_used");
    reveal_strlit("links");
    reveal_strlit("linkdirs");
    reveal_strlit("includedirs_package.");
    reveal_strlit("includedirs_target.");
    reveal_strlit("true");
    reveal_strlit("false");
    let enc = crate::decode::spec_encode(b);
    let lines = crate::decode::spec_encode_lines(b);
    let p_pkg = "includedirs_package."@;
    let p_tgt = "includedirs_target."@;
    let pkg = b.includedirs_package;
    let tgt = b.includedirs_target;
    let pkg_lines = crate::decode::spec_map_lines(p_pkg, pkg);
    let tgt_lines = crate::decode::spec_map_lines(p_tgt, tgt);
    lemma_encode_trim_lines(b);
    assert(spec_pairs(enc) == crate::decode::entries_of_lines(lines));
    lemma_base_entries(b);
    let e_base = base_entries(b);
    assert(good_key(p_pkg)) by {
        assert forall|j: int| 0 <= j < p_pkg.len() implies p_pkg[j] != ':' && p_pkg[j] != '\n'
            && p_pkg[j] != '\r' by {}
    }
    assert(good_key(p_tgt)) by {
        assert forall|j: int| 0 <= j < p_tgt.len() implies p_tgt[j] != ':' && p_tgt[j] != '\n'
            && p_tgt[j] != '\r' by {}
    }
    assert forall|i: int|
        0 <= i < pkg.len() implies !crate::decode::assoc_has(
        crate::decode::entries_of_lines(base_lines(b)),
        p_pkg + #[trigger] pkg[i].0,
    ) by {
        assert((p_pkg + pkg[i].0).len() >= 20);
        assert(forall|j: int| 0 <= j < e_base.len() ==> (#[trigger] e_base[j].0).len() < 20);
        assert(forall|j: int| 0 <= j < e_base.len() ==> e_base[j].0 != p_pkg + pkg[i].0);
        crate::decode::lemma_assoc_get_none(e_base, p_pkg + pkg[i].0);
    }
    lemma_entries_map_lines(base_lines(b), p_pkg, pkg);
    let e_mid = e_base + prefixed_entries(p_pkg, pkg);
    assert(crate::decode::entries_of_lines(base_lines(b) + pkg_lines) == e_mid);
    lemma_prefixed_entries_shape(p_pkg, pkg);
    lemma_prefixed_entries_shape(p_tgt, tgt);
    assert(p_pkg[12] == 'p' && p_tgt[12] == 't');
    assert forall|i: int|
        0 <= i < tgt.len() implies !crate::decode::assoc_has(
        e_mid,
        p_tgt + #[trigger] tgt[i].0,
    ) by {
        let key = p_tgt + tgt[i].0;
        assert(key.len() >= 19);
        assert(key[12] == p_tgt[12]);
        assert forall|j: int| 0 <= j < e_mid.len() implies (#[trigger] e_mid[j]).0 != key by {
            if j < 4 {
                assert(e_mid[j] == e_base[j]);
                assert(e_base[j].0.len() < 19);
            } else {
                assert(e_mid[j] == prefixed_entries(p_pkg, pkg)[j - 4]);
                assert(e_mid[j].0 == p_pkg + pkg[j - 4].0);
                assert((p_pkg + pkg[j - 4].0)[12] == p_pkg[12]);
            }
        }
        crate::decode::lemma_assoc_get_none(e_mid, key);
    }
    lemma_entries_map_lines(base_lines(b) + pkg_lines, p_tgt, tgt);
    assert(lines =~= (base_lines(b) + pkg_lines) + tgt_lines);
    let e_all = e_mid + prefixed_entries(p_tgt, tgt);
    assert(crate::decode::entries_of_lines(lines) == e_all);
    // The four mandatory fields sit at the head, under their own keys.
    assert(("cxx_used"@)[0] != ("stl_used"@)[0]);
    assert(("links"@).len() != ("cxx_used"@).len());
    assert(("links"@).len() != ("stl_used"@).len());
    assert(("linkdirs"@)[0] != ("cxx_used"@)[0]);
    assert(("linkdirs"@)[0] != ("stl_used"@)[0]);
    assert(("linkdirs"@).len() != ("links"@).len());
    assert(e_all[0] == ("cxx_used"@, seq![crate::decode::spec_bool_text(b.use_cxx)]));
    assert(e_all[1] == ("stl_used"@, seq![crate::decode::spec_bool_text(b.use_stl)]));
    assert(e_all[2] == ("links"@, crate::decode::spec_links_texts(b.links)));
    assert(e_all[3] == ("linkdirs"@, b.linkdirs));
    crate::decode::lemma_assoc_get_at(e_all, "cxx_used"@, 0);
    assert(forall|j: int| 0 <= j < 1 ==> e_all[j].0 != "stl_used"@);
    crate::decode::lemma_assoc_get_at(e_all, "stl_used"@, 1);
    assert(forall|j: int| 0 <= j < 2 ==> e_all[j].0 != "links"@);
    crate::decode::lemma_assoc_get_at(e_all, "links"@, 2);
    assert(forall|j: int| 0 <= j < 3 ==> e_all[j].0 != "linkdirs"@);
    crate::decode::lemma_assoc_get_at(e_all, "linkdirs"@, 3);
    lemma_parse_links_texts(b.links);
    assert(("true"@).len() != ("false"@).len());
    // The namespaced maps come back exactly.
    lemma_namespace_append(e_mid, prefixed_entries(p_tgt, tgt), p_pkg);
    lemma_namespace_append(e_base, prefixed_entries(p_pkg, pkg), p_pkg);
    assert forall|i: int|
        0 <= i < e_base.len() implies !is_prefix(p_pkg, (#[trigger] e_base[i]).0) by {
        assert(e_base[i].0.len() < 20);
    }
    lemma_namespace_none(e_base, p_pkg);
    lemma_namespace_prefixed(p_pkg, pkg);
    assert forall|i: int|
        0 <= i < prefixed_entries(p_tgt, tgt).len() implies !is_prefix(
        p_pkg,
        (#[trigger] prefixed_entries(p_tgt, tgt)[i]).0,
    ) by {
        let key = p_tgt + tgt[i].0;
        assert(prefixed_entries(p_tgt, tgt)[i].0 == key);
        if is_prefix(p_pkg, key) {
            assert(key.take(20)[12] == key[12]);
            assert(key[12] == p_tgt[12]);
            assert(false);
        }
    }
    lemma_namespace_none(prefixed_entries(p_tgt, tgt), p_pkg);
    assert(spec_namespace(e_all, p_pkg) =~= pkg);
    lemma_namespace_append(e_mid, prefixed_entries(p_tgt, tgt), p_tgt);
    lemma_namespace_append(e_base, prefixed_entries(p_pkg, pkg), p_tgt);
    assert forall|i: int|
        0 <= i < e_base.len() implies !is_prefix(p_tgt, (#[trigger] e_base[i]).0) by {
        assert(e_base[i].0.len() < 19);
    }
    lemma_namespace_none(e_base, p_tgt);
    assert forall|i: int|
        0 <= i < prefixed_entries(p_pkg, pkg).len() implies !is_prefix(
        p_tgt,
        (#[trigger] prefixed_entries(p_pkg, pkg)[i]).0,
    ) by {
        let key = p_pkg + pkg[i].0;
        assert(prefixed_entries(p_pkg, pkg)[i].0 == key);
        if is_prefix(p_tgt, key) {
            assert(key.take(19)[12] == key[12]);
            assert(key[12] == p_pkg[12]);
            assert(false);
        }
    }
    lemma_namespace_none(prefixed_entries(p_pkg, pkg), p_tgt);
    lemma_namespace_prefixed(p_tgt, tgt);
    assert(spec_namespace(e_all, p_tgt) =~= tgt);
    // Assemble the decoded structure.
    match spec_decode(enc) {
        Ok(out) => {
            assert(out =~~= b);
        },
        Err(_) => {
            assert(false);
        },
    }
}

} // verus!
