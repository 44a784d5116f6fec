//! The link-directive emitter: turns a decoded [`BuildInfo`] plus the actual
//! contents of the install directory into the host pipeline's linker
//! directives, reconciling declared links against the libraries found on
//! disk and auto-selecting a C++ standard library.

use vstd::prelude::*;
use crate::decode::BuildInfo;
use crate::decode::BuildInfoV;
use crate::decode::Link;
use crate::decode::LinkKind;
use crate::decode::LinkV;
use crate::strutil::has_prefix;
use crate::strutil::has_suffix;
use crate::strutil::contains_sub;
use crate::strutil::find_sub;
use crate::strutil::is_prefix;
use crate::strutil::is_suffix;
use crate::strutil::spec_find_sub;
use crate::strutil::spec_split;
use crate::strutil::spec_split_once;
use crate::strutil::split_once_str;
use crate::strutil::split_str;
use crate::strutil::str_eq;

verus! {

/// A single linker directive for the host build pipeline.
#[derive(Debug, Clone, PartialEq, Eq)]
pub enum Directive {
    /// A search path for any linkage.
    SearchAll(String),
    /// A search path for native libraries (the install `lib`/`bin` dirs).
    SearchNative(String),
    /// Link a static archive.
    LinkStatic(String),
    /// Link a dynamic library.
    LinkDylib(String),
    /// Link an operating-system framework.
    LinkFramework(String),
    /// Name a library and let the downstream linker decide.
    LinkDefault(String),
}

/// Mathematical model of a [`Directive`].
pub enum DirectiveV {
    SearchAll(Seq<char>),
    SearchNative(Seq<char>),
    LinkStatic(Seq<char>),
    LinkDylib(Seq<char>),
    LinkFramework(Seq<char>),
    LinkDefault(Seq<char>),
}

impl View for Directive {
    type V = DirectiveV;

    open spec fn view(&self) -> DirectiveV {
        match self {
            Directive::SearchAll(p) => DirectiveV::SearchAll(p@),
            Directive::SearchNative(p) => DirectiveV::SearchNative(p@),
            Directive::LinkStatic(n) => DirectiveV::LinkStatic(n@),
            Directive::LinkDylib(n) => DirectiveV::LinkDylib(n@),
            Directive::LinkFramework(n) => DirectiveV::LinkFramework(n@),
            Directive::LinkDefault(n) => DirectiveV::LinkDefault(n@),
        }
    }
}

impl DeepView for Directive {
    type V = DirectiveV;

    open spec fn deep_view(&self) -> DirectiveV {
        self.view()
    }
}

/// The host pipeline's line for a directive: a fixed `key=value`-style
/// prefix naming the directive's form, then the path or library name.
pub open spec fn spec_render(d: DirectiveV) -> Seq<char> {
    match d {
        DirectiveV::SearchAll(p) => "cargo:rustc-link-search=all="@ + p,
        DirectiveV::SearchNative(p) => "cargo:rustc-link-search=native="@ + p,
        DirectiveV::LinkStatic(n) => "cargo:rustc-link-lib=static="@ + n,
        DirectiveV::LinkDylib(n) => "cargo:rustc-link-lib=dylib="@ + n,
        DirectiveV::LinkFramework(n) => "cargo:rustc-link-lib=framework="@ + n,
        DirectiveV::LinkDefault(n) => "cargo:rustc-link-lib="@ + n,
    }
}

impl Directive {
    /// Render this directive as the line the host pipeline reads.
    pub fn render(&self) -> (r: String)
        ensures
            r@ == spec_render(self@),
    {
        let mut r: String;
        match self {
            Directive::SearchAll(p) => {
                r = String::from_str("cargo:rustc-link-search=all=");
                r.append(p.as_str());
            },
            Directive::SearchNative(p) => {
                r = String::from_str("cargo:rustc-link-search=native=");
                r.append(p.as_str());
            },
            Directive::LinkStatic(n) => {
                r = String::from_str("cargo:rustc-link-lib=static=");
                r.append(n.as_str());
            },
            Directive::LinkDylib(n) => {
                r = String::from_str("cargo:rustc-link-lib=dylib=");
                r.append(n.as_str());
            },
            Directive::LinkFramework(n) => {
                r = String::from_str("cargo:rustc-link-lib=framework=");
                r.append(n.as_str());
            },
            Directive::LinkDefault(n) => {
                r = String::from_str("cargo:rustc-link-lib=");
                r.append(n.as_str());
            },
        }
        r
    }
}

/// The announcement of the final resolved installation path, read by
/// dependents of the build.
pub fn install_announcement(dst: &str) -> (r: String)
    ensures
        r@ == "cargo:root="@ + dst@,
{
    let mut r = String::from_str("cargo:root=");
    r.append(dst);
    r
}

/// Joining a file name onto a directory, with a single separator between.
pub open spec fn spec_path_join(base: Seq<char>, name: Seq<char>) -> Seq<char> {
    if base.len() == 0 {
        name
    } else if base.last() == '/' {
        base + name
    } else {
        base + seq!['/'] + name
    }
}

/// Join a file name onto a directory.
pub fn path_join(base: &str, name: &str) -> (r: String)
    ensures
        r@ == spec_path_join(base@, name@),
{
    let blen = base.unicode_len();
    let mut r = String::from_str(base);
    if blen > 0 && base.get_char(blen - 1) != '/' {
        r.append("/");
        proof {
            reveal_strlit("/");
        }
    }
    r.append(name);
    proof {
        if base@.len() == 0 {
            assert(r@ =~= name@);
        } else if base@.last() == '/' {
            assert(r@ =~= base@ + name@);
        } else {
            assert(r@ =~= base@ + seq!['/'] + name@);
        }
    }
    r
}

/// One search-path directive for every declared link directory, in order.
pub open spec fn spec_search_directives(linkdirs: Seq<Seq<char>>) -> Seq<DirectiveV>
    decreases linkdirs.len(),
{
    if linkdirs.len() == 0 {
        Seq::<DirectiveV>::empty()
    } else {
        seq![DirectiveV::SearchAll(linkdirs[0])] + spec_search_directives(linkdirs.drop_first())
    }
}

/// The directive emitted for one declared link: static archives and dynamic
/// libraries get their dedicated form, frameworks only where the platform
/// has them, and everything else is handed to the linker by name.
pub open spec fn spec_link_directive(l: LinkV, plat: Seq<char>) -> DirectiveV {
    match l.kind {
        LinkKind::Static => DirectiveV::LinkStatic(l.name),
        LinkKind::Dynamic => DirectiveV::LinkDylib(l.name),
        LinkKind::Framework => if plat == "macosx"@ {
            DirectiveV::LinkFramework(l.name)
        } else {
            DirectiveV::LinkDefault(l.name)
        },
        LinkKind::System => DirectiveV::LinkDefault(l.name),
        LinkKind::Unknown => DirectiveV::LinkDefault(l.name),
    }
}

pub open spec fn spec_link_directives_of(links: Seq<LinkV>, plat: Seq<char>) -> Seq<DirectiveV>
    decreases links.len(),
{
    if links.len() == 0 {
        Seq::<DirectiveV>::empty()
    } else {
        seq![spec_link_directive(links[0], plat)] + spec_link_directives_of(
            links.drop_first(),
            plat,
        )
    }
}

/// `name` is among the declared dynamic links.
pub open spec fn spec_declared_dynamic(links: Seq<LinkV>, name: Seq<char>) -> bool {
    exists|j: int|
        0 <= j < links.len() && links[j].kind == LinkKind::Dynamic && links[j].name == name
}

/// The library name derived from a shared-object file name: the file must
/// end in `.so` and start with `lib`, and the name is what stands between
/// the `lib` prefix and the first `.so` that follows it.
pub open spec fn spec_so_stem(file: Seq<char>) -> Option<Seq<char>> {
    if !is_suffix(".so"@, file) {
        None
    } else if !is_prefix("lib"@, file) {
        None
    } else {
        let rest = file.skip("lib"@.len() as int);
        match spec_find_sub(rest, ".so"@) {
            Some(i) => Some(rest.take(i)),
            None => Some(rest),
        }
    }
}

/// One extra dynamic-link directive for every shared library found on disk
/// whose name was not already declared dynamic; declared links take
/// priority and are never duplicated.
pub open spec fn spec_reconcile(links: Seq<LinkV>, files: Seq<Seq<char>>) -> Seq<DirectiveV>
    decreases files.len(),
{
    if files.len() == 0 {
        Seq::<DirectiveV>::empty()
    } else {
        let head = match spec_so_stem(files[0]) {
            Some(n) => if !spec_declared_dynamic(links, n) {
                seq![DirectiveV::LinkDylib(n)]
            } else {
                Seq::<DirectiveV>::empty()
            },
            None => Seq::<DirectiveV>::empty(),
        };
        head + spec_reconcile(links, files.drop_first())
    }
}

/// The reconciliation pass runs only on the platform whose shared-library
/// naming convention it knows, and only when the install library directory
/// exists.
pub open spec fn spec_reconcile_section(
    links: Seq<LinkV>,
    plat: Seq<char>,
    files: Option<Seq<Seq<char>>>,
) -> Seq<DirectiveV> {
    if plat == "linux"@ {
        match files {
            Some(fs) => spec_reconcile(links, fs),
            None => Seq::<DirectiveV>::empty(),
        }
    } else {
        Seq::<DirectiveV>::empty()
    }
}

/// The C++ standard-library runtimes acceptable on each platform.
pub open spec fn spec_stl_list(plat: Seq<char>) -> Option<Seq<Seq<char>>> {
    if plat == "linux"@ {
        Some(seq!["c++_static"@, "c++_shared"@, "stdc++_static"@, "stdc++_shared"@])
    } else if plat == "android"@ {
        Some(
            seq![
                "c++_static"@,
                "c++_shared"@,
                "gnustl_static"@,
                "gnustl_shared"@,
                "stlport_static"@,
                "stlport_shared"@,
            ],
        )
    } else {
        None
    }
}

/// The directive for an explicitly selected runtime: its name is what
/// stands before the first underscore, linked statically when the runtime
/// names a static variant.
pub open spec fn spec_runtime_directive(rt: Seq<char>) -> DirectiveV {
    let name = match spec_split_once(rt, '_') {
        Some((n, _)) => n,
        None => rt,
    };
    if spec_find_sub(rt, "static"@) is Some {
        DirectiveV::LinkStatic(name)
    } else {
        DirectiveV::LinkDylib(name)
    }
}

/// The directive for the first configured runtime found in the platform's
/// acceptable list; first match wins.
pub open spec fn spec_first_match(
    candidates: Seq<Seq<char>>,
    list: Seq<Seq<char>>,
) -> Seq<DirectiveV>
    decreases candidates.len(),
{
    if candidates.len() == 0 {
        Seq::<DirectiveV>::empty()
    } else if list.contains(candidates[0]) {
        seq![spec_runtime_directive(candidates[0])]
    } else {
        spec_first_match(candidates.drop_first(), list)
    }
}

/// The platform's default C++ runtime, by the effective CRT-static
/// configuration.
pub open spec fn spec_default_runtime(plat: Seq<char>, static_crt: bool) -> Option<Seq<char>> {
    if plat == "linux"@ {
        if static_crt {
            Some("stdc++_static"@)
        } else {
            Some("stdc++_shared"@)
        }
    } else if plat == "android"@ {
        if static_crt {
            Some("c++_static"@)
        } else {
            Some("c++_shared"@)
        }
    } else if plat == "windows"@ {
        if static_crt {
            Some("MT"@)
        } else {
            Some("MD"@)
        }
    } else {
        None
    }
}

/// The directive for a derived default runtime: its name is what stands
/// before the first underscore (or the whole name), linked statically
/// exactly when the CRT is static.
pub open spec fn spec_default_directive(rt: Seq<char>, static_crt: bool) -> DirectiveV {
    let name = match spec_split_once(rt, '_') {
        Some((n, _)) => n,
        None => rt,
    };
    if static_crt {
        DirectiveV::LinkStatic(name)
    } else {
        DirectiveV::LinkDylib(name)
    }
}

/// The standard-library auto-link pass: nothing when opted out or unused;
/// with an explicit runtime selection, the first selected runtime in the
/// platform's acceptable list; otherwise the platform's derived default.
pub open spec fn spec_stl_directives(
    plat: Seq<char>,
    use_stl: bool,
    no_stl_link: bool,
    runtimes: Option<Seq<char>>,
    static_crt: bool,
) -> Seq<DirectiveV> {
    if no_stl_link || !use_stl {
        Seq::<DirectiveV>::empty()
    } else {
        match runtimes {
            Some(rts) => match spec_stl_list(plat) {
                None => Seq::<DirectiveV>::empty(),
                Some(list) => spec_first_match(spec_split(rts, ','), list),
            },
            None => match spec_default_runtime(plat, static_crt) {
                None => Seq::<DirectiveV>::empty(),
                Some(rt) => seq![spec_default_directive(rt, static_crt)],
            },
        }
    }
}

/// Everything the emitter produces, in order: a search path per declared
/// link directory, the install `lib` and `bin` search paths, a directive
/// per declared link, the reconciliation pass, and the standard-library
/// pass.
pub open spec fn spec_emit(
    info: BuildInfoV,
    dst: Seq<char>,
    plat: Seq<char>,
    files: Option<Seq<Seq<char>>>,
    runtimes: Option<Seq<char>>,
    no_stl_link: bool,
    static_crt: bool,
) -> Seq<DirectiveV> {
    spec_search_directives(info.linkdirs) + seq![
        DirectiveV::SearchNative(spec_path_join(dst, "lib"@)),
        DirectiveV::SearchNative(spec_path_join(dst, "bin"@)),
    ] + spec_link_directives_of(info.links, plat) + spec_reconcile_section(info.links, plat, files)
        + spec_stl_directives(plat, info.use_stl, no_stl_link, runtimes, static_crt)
}

/// A search-path directive for every declared link directory.
fn search_directives(linkdirs: &Vec<String>) -> (r: Vec<Directive>)
    ensures
        r.deep_view() == spec_search_directives(linkdirs.deep_view()),
{
    let ghost dv = linkdirs.deep_view();
    let mut r: Vec<Directive> = Vec::new();
    let mut i: usize = 0;
    proof {
        assert(r.deep_view() =~= Seq::<DirectiveV>::empty());
        assert(dv.skip(0) =~= dv);
        assert(r.deep_view() + spec_search_directives(dv) =~~= spec_search_directives(dv));
    }
    while i < linkdirs.len()
        invariant
            dv == linkdirs.deep_view(),
            0 <= i <= linkdirs.len(),
            spec_search_directives(dv) == r.deep_view() + spec_search_directives(
                dv.skip(i as int),
            ),
        decreases linkdirs.len() - i,
    {
        let ghost tail = dv.skip(i as int);
        proof {
            assert(tail.len() > 0);
            assert(tail[0] == dv[i as int]);
            assert(tail.drop_first() =~= dv.skip(i as int + 1));
        }
        let d = linkdirs[i].clone();
        proof {
            assert(d@ == dv[i as int]);
        }
        let ghost before = r.deep_view();
        r.push(Directive::SearchAll(d));
        proof {
            assert(r.deep_view() =~= before.push(DirectiveV::SearchAll(dv[i as int])));
            assert(before.push(DirectiveV::SearchAll(dv[i as int])) + spec_search_directives(
                dv.skip(i as int + 1),
            ) =~~= before + (seq![DirectiveV::SearchAll(dv[i as int])] + spec_search_directives(
                dv.skip(i as int + 1),
            )));
        }
        i += 1;
    }
    proof {
        assert(dv.skip(linkdirs.len() as int) =~= Seq::<Seq<char>>::empty());
        assert(r.deep_view() + spec_search_directives(dv.skip(linkdirs.len() as int)) =~~= r.deep_view());
    }
    r
}

/// A directive for every declared link, in declaration order.
fn directives_for_links(links: &Vec<Link>, plat: &str) -> (r: Vec<Directive>)
    ensures
        r.deep_view() == spec_link_directives_of(links.deep_view(), plat@),
{
    let ghost dv = links.deep_view();
    let ghost p = plat@;
    let mut r: Vec<Directive> = Vec::new();
    let mut i: usize = 0;
    proof {
        assert(r.deep_view() =~= Seq::<DirectiveV>::empty());
        assert(dv.skip(0) =~= dv);
        assert(r.deep_view() + spec_link_directives_of(dv, p) =~~= spec_link_directives_of(
            dv,
            p,
        ));
    }
    while i < links.len()
        invariant
            dv == links.deep_view(),
            p == plat@,
            0 <= i <= links.len(),
            spec_link_directives_of(dv, p) == r.deep_view() + spec_link_directives_of(
                dv.skip(i as int),
                p,
            ),
        decreases links.len() - i,
    {
        let ghost tail = dv.skip(i as int);
        proof {
            assert(tail.len() > 0);
            assert(tail[0] == dv[i as int]);
            assert(tail.drop_first() =~= dv.skip(i as int + 1));
            assert(links[i as int]@ == dv[i as int]);
        }
        let name = String::from_str(links[i].name());
        let d = match links[i].kind() {
            LinkKind::Static => Directive::LinkStatic(name),
            LinkKind::Dynamic => Directive::LinkDylib(name),
            LinkKind::Framework => {
                if str_eq(plat, "macosx") {
                    Directive::LinkFramework(name)
                } else {
                    Directive::LinkDefault(name)
                }
            },
            LinkKind::System => Directive::LinkDefault(name),
            LinkKind::Unknown => Directive::LinkDefault(name),
        };
        let ghost before = r.deep_view();
        let ghost dvi = d@;
        r.push(d);
        proof {
            assert(dvi == spec_link_directive(dv[i as int], p));
            assert(r.deep_view() =~= before.push(dvi));
            assert(before.push(dvi) + spec_link_directives_of(dv.skip(i as int + 1), p) =~~= before
                + (seq![dvi] + spec_link_directives_of(dv.skip(i as int + 1), p)));
        }
        i += 1;
    }
    proof {
        assert(dv.skip(links.len() as int) =~= Seq::<LinkV>::empty());
        assert(r.deep_view() + spec_link_directives_of(dv.skip(links.len() as int), p) =~~= r.deep_view());
    }
    r
}

/// Is `name` among the declared dynamic links?
fn is_declared_dynamic(links: &Vec<Link>, name: &str) -> (r: bool)
    ensures
        r == spec_declared_dynamic(links.deep_view(), name@),
{
    let mut i: usize = 0;
    while i < links.len()
        invariant
            0 <= i <= links.len(),
            forall|j: int|
                0 <= j < i ==> !(links.deep_view()[j].kind == LinkKind::Dynamic
                    && links.deep_view()[j].name == name@),
        decreases links.len() - i,
    {
        let is_dyn = match links[i].kind() {
            LinkKind::Dynamic => true,
            _ => false,
        };
        if is_dyn && str_eq(links[i].name(), name) {
            proof {
                assert(links.deep_view()[i as int].kind == LinkKind::Dynamic);
            }
            return true;
        }
        i += 1;
    }
    false
}

/// The library name of a shared-object file name, if it is one.
fn so_stem(file: &str) -> (r: Option<String>)
    ensures
        match r {
            Some(n) => spec_so_stem(file@) == Some(n@),
            None => spec_so_stem(file@) is None,
        },
{
    if !has_suffix(file, ".so") {
        return None;
    }
    if !has_prefix(file, "lib") {
        return None;
    }
    proof {
        reveal_strlit("lib");
        reveal_strlit(".so");
    }
    let len = file.unicode_len();
    let rest = file.substring_char(3, len);
    proof {
        assert(file@.subrange(3, len as int) =~= file@.skip(3));
    }
    match find_sub(rest, ".so") {
        Some(i) => {
            proof {
                assert(rest@.subrange(0, i as int) =~= rest@.take(i as int));
            }
            Some(String::from_str(rest.substring_char(0, i)))
        },
        None => Some(String::from_str(rest)),
    }
}

/// The reconciliation pass over the shared-library files found on disk.
fn reconcile(links: &Vec<Link>, files: &Vec<String>) -> (r: Vec<Directive>)
    ensures
        r.deep_view() == spec_reconcile(links.deep_view(), files.deep_view()),
{
    let ghost ls = links.deep_view();
    let ghost fs = files.deep_view();
    let mut r: Vec<Directive> = Vec::new();
    let mut i: usize = 0;
    proof {
        assert(r.deep_view() =~= Seq::<DirectiveV>::empty());
        assert(fs.skip(0) =~= fs);
        assert(r.deep_view() + spec_reconcile(ls, fs) =~~= spec_reconcile(ls, fs));
    }
    while i < files.len()
        invariant
            ls == links.deep_view(),
            fs == files.deep_view(),
            0 <= i <= files.len(),
            spec_reconcile(ls, fs) == r.deep_view() + spec_reconcile(ls, fs.skip(i as int)),
        decreases files.len() - i,
    {
        let ghost tail = fs.skip(i as int);
        proof {
            assert(tail.len() > 0);
            assert(tail[0] == fs[i as int]);
            assert(tail.drop_first() =~= fs.skip(i as int + 1));
        }
        match so_stem(files[i].as_str()) {
            Some(n) => {
                if !is_declared_dynamic(links, n.as_str()) {
                    let ghost before = r.deep_view();
                    let ghost nv = n@;
                    r.push(Directive::LinkDylib(n));
                    proof {
                        assert(r.deep_view() =~= before.push(DirectiveV::LinkDylib(nv)));
                        assert(before.push(DirectiveV::LinkDylib(nv)) + spec_reconcile(
                            ls,
                            fs.skip(i as int + 1),
                        ) =~~= before + (seq![DirectiveV::LinkDylib(nv)] + spec_reconcile(
                            ls,
                            fs.skip(i as int + 1),
                        )));
                    }
                }
            },
            None => {},
        }
        i += 1;
    }
    proof {
        assert(fs.skip(files.len() as int) =~= Seq::<Seq<char>>::empty());
        assert(r.deep_view() + spec_reconcile(ls, fs.skip(files.len() as int)) =~~= r.deep_view());
    }
    r
}

/// Does the list hold `c`?
fn list_contains(list: &Vec<String>, c: &str) -> (r: bool)
    ensures
        r == list.deep_view().contains(c@),
{
    let mut i: usize = 0;
    while i < list.len()
        invariant
            0 <= i <= list.len(),
            forall|j: int| 0 <= j < i ==> list.deep_view()[j] != c@,
        decreases list.len() - i,
    {
        if str_eq(list[i].as_str(), c) {
            proof {
                assert(list.deep_view()[i as int] == c@);
            }
            return true;
        }
        i += 1;
    }
    proof {
        assert(forall|j: int| 0 <= j < list.deep_view().len() ==> list.deep_view()[j] != c@);
    }
    false
}

/// The directive for a runtime name: the part before the first underscore,
/// static when `static_kind` says so.
fn runtime_directive(rt: &str, static_kind: bool) -> (r: Directive)
    ensures
        static_kind ==> r@ == (DirectiveV::LinkStatic(
            match spec_split_once(rt@, '_') {
                Some((n, _)) => n,
                None => rt@,
            },
        )),
        !static_kind ==> r@ == (DirectiveV::LinkDylib(
            match spec_split_once(rt@, '_') {
                Some((n, _)) => n,
                None => rt@,
            },
        )),
{
    let name = match split_once_str(rt, '_') {
        Some((n, _)) => n,
        None => String::from_str(rt),
    };
    if static_kind {
        Directive::LinkStatic(name)
    } else {
        Directive::LinkDylib(name)
    }
}

/// The standard-library auto-link pass.
fn stl_directives(
    plat: &str,
    use_stl: bool,
    no_stl_link: bool,
    runtimes: Option<&str>,
    static_crt: bool,
) -> (r: Vec<Directive>)
    ensures
        r.deep_view() == spec_stl_directives(
            plat@,
            use_stl,
            no_stl_link,
            match runtimes {
                Some(rt) => Some(rt@),
                None => None::<Seq<char>>,
            },
            static_crt,
        ),
{
    let mut r: Vec<Directive> = Vec::new();
    proof {
        assert(r.deep_view() =~= Seq::<DirectiveV>::empty());
    }
    if no_stl_link || !use_stl {
        return r;
    }
    match runtimes {
        Some(rts) => {
            let mut list: Vec<String> = Vec::new();
            if str_eq(plat, "linux") {
                list.push(String::from_str("c++_static"));
                list.push(String::from_str("c++_shared"));
                list.push(String::from_str("stdc++_static"));
                list.push(String::from_str("stdc++_shared"));
                proof {
                    assert(list.deep_view() =~= seq![
                        "c++_static"@,
                        "c++_shared"@,
                        "stdc++_static"@,
                        "stdc++_shared"@,
                    ]);
                    assert(spec_stl_list(plat@) == Some(list.deep_view()));
                }
            } else if str_eq(plat, "android") {
                list.push(String::from_str("c++_static"));
                list.push(String::from_str("c++_shared"));
                list.push(String::from_str("gnustl_static"));
                list.push(String::from_str("gnustl_shared"));
                list.push(String::from_str("stlport_static"));
                list.push(String::from_str("stlport_shared"));
                proof {
                    assert(list.deep_view() =~= seq![
                        "c++_static"@,
                        "c++_shared"@,
                        "gnustl_static"@,
                        "gnustl_shared"@,
                        "stlport_static"@,
                        "stlport_shared"@,
                    ]);
                    assert(spec_stl_list(plat@) == Some(list.deep_view()));
                }
            } else {
                return r;
            }
            let candidates = split_str(rts, ',');
            let ghost cs = candidates.deep_view();
            let ghost lv = list.deep_view();
            let mut i: usize = 0;
            proof {
                assert(cs.skip(0) =~= cs);
            }
            while i < candidates.len()
                invariant
                    cs == candidates.deep_view(),
                    lv == list.deep_view(),
                    runtimes == Some(rts),
                    cs == spec_split(rts@, ','),
                    spec_stl_list(plat@) == Some(lv),
                    !no_stl_link && use_stl,
                    0 <= i <= candidates.len(),
                    r.deep_view() == Seq::<DirectiveV>::empty(),
                    spec_first_match(cs, lv) == spec_first_match(cs.skip(i as int), lv),
                decreases candidates.len() - i,
            {
                let ghost tail = cs.skip(i as int);
                proof {
                    assert(tail.len() > 0);
                    assert(tail[0] == cs[i as int]);
                    assert(tail.drop_first() =~= cs.skip(i as int + 1));
                }
                proof {
                    assert(cs[i as int] == candidates[i as int]@);
                }
                if list_contains(&list, candidates[i].as_str()) {
                    let is_static = contains_sub(candidates[i].as_str(), "static");
                    let d = runtime_directive(candidates[i].as_str(), is_static);
                    let ghost dv = d@;
                    r.push(d);
                    proof {
                        assert(dv == spec_runtime_directive(cs[i as int]));
                        assert(r.deep_view() =~= seq![spec_runtime_directive(cs[i as int])]);
                        assert(spec_first_match(tail, lv) == seq![
                            spec_runtime_directive(tail[0]),
                        ]);
                        assert(spec_stl_list(plat@) == Some(lv));
                        assert(spec_stl_directives(plat@, use_stl, no_stl_link, Some(rts@),
                            static_crt) == spec_first_match(cs, lv));
                        assert(r.deep_view() == spec_first_match(cs, lv));
                    }
                    return r;
                }
                i += 1;
            }
            proof {
                assert(cs.skip(candidates.len() as int) =~= Seq::<Seq<char>>::empty());
            }
            r
        },
        None => {
            let rt: String;
            if str_eq(plat, "linux") {
                rt = if static_crt {
                    String::from_str("stdc++_static")
                } else {
                    String::from_str("stdc++_shared")
                };
            } else if str_eq(plat, "android") {
                rt = if static_crt {
                    String::from_str("c++_static")
                } else {
                    String::from_str("c++_shared")
                };
            } else if str_eq(plat, "windows") {
                rt = if static_crt {
                    String::from_str("MT")
                } else {
                    String::from_str("MD")
                };
            } else {
                return r;
            }
            let d = runtime_directive(rt.as_str(), static_crt);
            let ghost dv = d@;
            r.push(d);
            proof {
                match spec_default_runtime(plat@, static_crt) {
                    Some(srt) => {
                        assert(srt == rt@);
                        assert(dv == spec_default_directive(srt, static_crt));
                        assert(r.deep_view() =~= seq![spec_default_directive(srt, static_crt)]);
                    },
                    None => {
                        assert(false);
                    },
                }
            }
            r
        },
    }
}

/// Emit every linker directive for a decoded build, and enrich the decoded
/// link directories with the install `lib` and `bin` directories.
pub fn link_directives(
    info: &mut BuildInfo,
    dst: &str,
    plat: &str,
    lib_files: Option<&Vec<String>>,
    runtimes: Option<&str>,
    no_stl_link: bool,
    static_crt: bool,
) -> (r: Vec<Directive>)
    ensures
        r.deep_view() == spec_emit(
            old(info)@,
            dst@,
            plat@,
            match lib_files {
                Some(fs) => Some(fs.deep_view()),
                None => None::<Seq<Seq<char>>>,
            },
            match runtimes {
                Some(rt) => Some(rt@),
                None => None::<Seq<char>>,
            },
            no_stl_link,
            static_crt,
        ),
        final(info)@ == (BuildInfoV {
            linkdirs: old(info)@.linkdirs.push(spec_path_join(dst@, "lib"@)).push(
                spec_path_join(dst@, "bin"@),
            ),
            ..old(info)@
        }),
{
    let mut r = search_directives(info.linkdirs());
    let libdir = path_join(dst, "lib");
    let bindir = path_join(dst, "bin");
    let ghost s1 = r.deep_view();
    r.push(Directive::SearchNative(libdir.clone()));
    r.push(Directive::SearchNative(bindir.clone()));
    let ghost s2 = r.deep_view();
    proof {
        assert(s2 =~= s1 + seq![
            DirectiveV::SearchNative(spec_path_join(dst@, "lib"@)),
            DirectiveV::SearchNative(spec_path_join(dst@, "bin"@)),
        ]);
    }
    let mut links_d = directives_for_links(info.links(), plat);
    let ghost s3v = links_d.deep_view();
    r.append(&mut links_d);
    let ghost s3 = r.deep_view();
    proof {
        assert(s3 =~= s2 + s3v);
    }
    let mut rec_d: Vec<Directive> = Vec::new();
    if str_eq(plat, "linux") {
        match lib_files {
            Some(files) => {
                rec_d = reconcile(info.links(), files);
            },
            None => {},
        }
    }
    let ghost s4v = rec_d.deep_view();
    proof {
        if !(plat@ == "linux"@) || lib_files is None {
            assert(s4v =~= Seq::<DirectiveV>::empty());
        }
    }
    r.append(&mut rec_d);
    let ghost s4 = r.deep_view();
    proof {
        assert(s4 =~= s3 + s4v);
    }
    let mut stl_d = stl_directives(plat, info.use_stl(), no_stl_link, runtimes, static_crt);
    let ghost s5v = stl_d.deep_view();
    r.append(&mut stl_d);
    proof {
        assert(r.deep_view() =~= s4 + s5v);
    }
    info.push_linkdir(libdir);
    info.push_linkdir(bindir);
    proof {
        assert(r.deep_view() =~~= spec_emit(
            old(info)@,
            dst@,
            plat@,
            match lib_files {
                Some(fs) => Some(fs.deep_view()),
                None => None::<Seq<Seq<char>>>,
            },
            match runtimes {
                Some(rt) => Some(rt@),
                None => None::<Seq<char>>,
            },
            no_stl_link,
            static_crt,
        ));
    }
    r
}

} // verus!
