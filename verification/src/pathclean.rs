//! Lexical path cleaning: resolve `.` and `..` components and collapse
//! separators, without consulting the filesystem.

use vstd::prelude::*;
use crate::strutil::spec_join;
use crate::strutil::spec_split;
use crate::strutil::join_str;
use crate::strutil::split_str;
use crate::strutil::str_eq;

verus! {

/// The path names the root.
pub open spec fn spec_rooted(s: Seq<char>) -> bool {
    s.len() > 0 && s[0] == '/'
}

/// The path's components: the separator-split segments that are neither
/// empty nor `.`.
pub open spec fn drop_dots(parts: Seq<Seq<char>>) -> Seq<Seq<char>>
    decreases parts.len(),
{
    if parts.len() == 0 {
        Seq::<Seq<char>>::empty()
    } else {
        let rest = drop_dots(parts.drop_last());
        if parts.last().len() > 0 && parts.last() != "."@ {
            rest.push(parts.last())
        } else {
            rest
        }
    }
}

pub open spec fn spec_components(s: Seq<char>) -> Seq<Seq<char>> {
    drop_dots(spec_split(s, '/'))
}

/// Fold the components over a stack: a normal component is pushed; `..`
/// pops a preceding normal component, vanishes at the root, and is kept
/// otherwise.
pub open spec fn clean_fold(comps: Seq<Seq<char>>, rooted: bool) -> Seq<Seq<char>>
    decreases comps.len(),
{
    if comps.len() == 0 {
        Seq::<Seq<char>>::empty()
    } else {
        let st = clean_fold(comps.drop_last(), rooted);
        let c = comps.last();
        if c == ".."@ {
            if st.len() > 0 && st.last() != ".."@ {
                st.drop_last()
            } else if st.len() == 0 && rooted {
                st
            } else {
                st.push(c)
            }
        } else {
            st.push(c)
        }
    }
}

/// The cleaned path: components joined by single separators, behind the
/// root when the path was absolute; an empty result is the current
/// directory.
pub open spec fn spec_clean(s: Seq<char>) -> Seq<char> {
    let st = clean_fold(spec_components(s), spec_rooted(s));
    if spec_rooted(s) {
        seq!['/'] + spec_join(st, '/')
    } else if st.len() == 0 {
        "."@
    } else {
        spec_join(st, '/')
    }
}

/// Clean a path lexically: collapse separators, drop `.` components, and
/// resolve `..` against preceding components and the root.
pub fn clean(path: &str) -> (r: String)
    ensures
        r@ == spec_clean(path@),
{
    let len = path.unicode_len();
    let rooted = len > 0 && path.get_char(0) == '/';
    let raw = split_str(path, '/');
    let ghost rawdv = raw.deep_view();
    let mut stack: Vec<String> = Vec::new();
    let mut i: usize = 0;
    proof {
        assert(rawdv.take(0) =~= Seq::<Seq<char>>::empty());
        assert(stack.deep_view() =~= Seq::<Seq<char>>::empty());
    }
    while i < raw.len()
        invariant
            rawdv == raw.deep_view(),
            rawdv == spec_split(path@, '/'),
            rooted == spec_rooted(path@),
            0 <= i <= raw.len(),
            stack.deep_view() == clean_fold(drop_dots(rawdv.take(i as int)), rooted),
        decreases raw.len() - i,
    {
        proof {
            assert(rawdv.take(i as int + 1).drop_last() =~= rawdv.take(i as int));
            assert(rawdv.take(i as int + 1).last() == rawdv[i as int]);
            assert(rawdv[i as int] == raw[i as int]@);
        }
        let p = &raw[i];
        let plen = p.as_str().unicode_len();
        let ghost comps = drop_dots(rawdv.take(i as int));
        if plen == 0 || str_eq(p.as_str(), ".") {
            proof {
                assert(drop_dots(rawdv.take(i as int + 1)) =~~= comps);
            }
        } else if str_eq(p.as_str(), "..") {
            proof {
                reveal_strlit(".");
                reveal_strlit("..");
                assert(rawdv[i as int] == ".."@);
                assert(drop_dots(rawdv.take(i as int + 1)) =~~= comps.push(".."@));
                assert(comps.push(".."@).drop_last() =~= comps);
                assert(comps.push(".."@).last() == ".."@);
            }
            let slen = stack.len();
            let on_parent: bool;
            if slen > 0 {
                on_parent = str_eq(stack[slen - 1].as_str(), "..");
                proof {
                    assert(stack.deep_view()[slen - 1] == stack[slen - 1]@);
                }
            } else {
                on_parent = false;
            }
            if slen > 0 && !on_parent {
                let ghost before = stack.deep_view();
                stack.pop();
                proof {
                    assert(stack.deep_view() =~= before.drop_last());
                }
            } else if slen == 0 && rooted {
            } else {
                let ghost before = stack.deep_view();
                stack.push(String::from_str(".."));
                proof {
                    assert(stack.deep_view() =~= before.push(".."@));
                }
            }
        } else {
            proof {
                reveal_strlit(".");
                assert(raw[i as int]@ != "."@);
                assert(drop_dots(rawdv.take(i as int + 1)) =~~= comps.push(rawdv[i as int]));
                assert(comps.push(rawdv[i as int]).drop_last() =~= comps);
                assert(comps.push(rawdv[i as int]).last() == rawdv[i as int]);
            }
            let ghost before = stack.deep_view();
            stack.push(p.clone());
            proof {
                assert(stack.deep_view() =~= before.push(rawdv[i as int]));
            }
        }
        i += 1;
    }
    proof {
        assert(rawdv.take(raw.len() as int) =~= rawdv);
    }
    proof {
        reveal_strlit("/");
    }
    let joined = join_str(&stack, "/");
    if rooted {
        let mut r = String::from_str("/");
        r.append(joined.as_str());
        proof {
            assert(r@ =~= seq!['/'] + joined@);
        }
        r
    } else if stack.len() == 0 {
        String::from_str(".")
    } else {
        joined
    }
}

} // verus!
