use xmake::BuildInfo;
use xmake::emit::Directive;
use xmake::emit::link_directives;
use xmake::filter::OutputFilter;
use xmake::filter::filter_lines;
use xmake::pathclean::clean;

fn lines(v: &[&str]) -> Vec<String> {
    v.iter().map(|s| String::from(*s)).collect()
}

#[test]
fn filter_filtered_mode_keeps_payload_only() {
    let input = lines(&[
        "noise1",
        "__xmakers_start__",
        "payload1",
        "payload2",
        "__xmakers_end__",
        "noise2",
    ]);
    assert_eq!(filter_lines(&input, false), "payload1\npayload2\n");
}

#[test]
fn filter_raw_mode_keeps_everything() {
    let input = lines(&[
        "noise1",
        "__xmakers_start__",
        "payload1",
        "payload2",
        "__xmakers_end__",
        "noise2",
    ]);
    assert_eq!(
        filter_lines(&input, true),
        "noise1\n__xmakers_start__\npayload1\npayload2\n__xmakers_end__\nnoise2\n"
    );
}

#[test]
fn filter_without_start_marker_is_empty() {
    let input = lines(&["noise1", "noise2"]);
    assert_eq!(filter_lines(&input, false), "");
}

#[test]
fn filter_incremental_feeding() {
    let mut f = OutputFilter::new(false);
    f.feed_line("banner");
    f.feed_line("__xmakers_start__");
    f.feed_line("a:1");
    assert_eq!(f.output(), "a:1\n");
    f.feed_line("__xmakers_end__");
    f.feed_line("tail");
    assert_eq!(f.output(), "a:1\n");
}

#[test]
fn filter_restart_after_second_start_marker() {
    let input = lines(&[
        "__xmakers_start__",
        "one",
        "__xmakers_start__",
        "two",
        "__xmakers_end__",
    ]);
    assert_eq!(filter_lines(&input, false), "one\ntwo\n");
}

fn dylib_names(ds: &[Directive]) -> Vec<String> {
    let mut out = Vec::new();
    for d in ds {
        if let Directive::LinkDylib(n) = d {
            out.push(n.clone());
        }
    }
    out
}

#[test]
fn reconciliation_adds_undeclared_shared_libs() {
    let payload = "cxx_used:false\nstl_used:false\nlinks:foo/shared\nlinkdirs:\n";
    let mut info = BuildInfo::decode(payload).unwrap();
    let files = lines(&["libfoo.so", "libbar.so"]);
    let ds = link_directives(
        &mut info,
        "/out",
        "linux",
        Some(&files),
        None,
        true,
        false,
    );
    let names = dylib_names(&ds);
    assert_eq!(names, vec![String::from("foo"), String::from("bar")]);
}

#[test]
fn reconciliation_skips_files_without_convention() {
    let payload = "cxx_used:false\nstl_used:false\nlinks:\nlinkdirs:\n";
    let mut info = BuildInfo::decode(payload).unwrap();
    let files = lines(&["libx.so.1", "notlib.so", "README", "libok.so"]);
    let ds = link_directives(
        &mut info,
        "/out",
        "linux",
        Some(&files),
        None,
        true,
        false,
    );
    assert_eq!(dylib_names(&ds), vec![String::from("ok")]);
}

#[test]
fn reconciliation_only_on_linux() {
    let payload = "cxx_used:false\nstl_used:false\nlinks:\nlinkdirs:\n";
    let mut info = BuildInfo::decode(payload).unwrap();
    let files = lines(&["libfoo.so"]);
    let ds = link_directives(
        &mut info,
        "/out",
        "macosx",
        Some(&files),
        None,
        true,
        false,
    );
    assert!(dylib_names(&ds).is_empty());
}

#[test]
fn emit_search_paths_and_link_kinds() {
    let payload = "cxx_used:false\nstl_used:false\nlinks:a/static|b/shared|c/system|d/framework|e/unknown\nlinkdirs:/d1|/d2\n";
    let mut info = BuildInfo::decode(payload).unwrap();
    let ds = link_directives(&mut info, "/out", "macosx", None, None, true, false);
    assert_eq!(ds[0], Directive::SearchAll(String::from("/d1")));
    assert_eq!(ds[1], Directive::SearchAll(String::from("/d2")));
    assert_eq!(ds[2], Directive::SearchNative(String::from("/out/lib")));
    assert_eq!(ds[3], Directive::SearchNative(String::from("/out/bin")));
    assert_eq!(ds[4], Directive::LinkStatic(String::from("a")));
    assert_eq!(ds[5], Directive::LinkDylib(String::from("b")));
    assert_eq!(ds[6], Directive::LinkDefault(String::from("c")));
    assert_eq!(ds[7], Directive::LinkFramework(String::from("d")));
    assert_eq!(ds[8], Directive::LinkDefault(String::from("e")));
    assert_eq!(ds.len(), 9);
    assert_eq!(
        info.linkdirs(),
        &vec![
            String::from("/d1"),
            String::from("/d2"),
            String::from("/out/lib"),
            String::from("/out/bin"),
        ]
    );
}

#[test]
fn emit_framework_falls_back_off_mac() {
    let payload = "cxx_used:false\nstl_used:false\nlinks:d/framework\nlinkdirs:\n";
    let mut info = BuildInfo::decode(payload).unwrap();
    let ds = link_directives(&mut info, "/out", "windows", None, None, true, false);
    assert_eq!(ds[2], Directive::LinkDefault(String::from("d")));
}

#[test]
fn stl_explicit_runtime_first_match_wins() {
    let payload = "cxx_used:true\nstl_used:true\nlinks:\nlinkdirs:\n";
    let mut info = BuildInfo::decode(payload).unwrap();
    let ds = link_directives(
        &mut info,
        "/out",
        "linux",
        None,
        Some("MT,c++_static,stdc++_shared"),
        false,
        false,
    );
    assert_eq!(*ds.last().unwrap(), Directive::LinkStatic(String::from("c++")));
}

#[test]
fn stl_default_runtime_by_platform() {
    let payload = "cxx_used:true\nstl_used:true\nlinks:\nlinkdirs:\n";
    let mut info = BuildInfo::decode(payload).unwrap();
    let ds = link_directives(&mut info, "/out", "linux", None, None, false, false);
    assert_eq!(*ds.last().unwrap(), Directive::LinkDylib(String::from("stdc++")));

    let mut info2 = BuildInfo::decode(payload).unwrap();
    let ds2 = link_directives(&mut info2, "/out", "android", None, None, false, true);
    assert_eq!(*ds2.last().unwrap(), Directive::LinkStatic(String::from("c++")));
}

#[test]
fn stl_skipped_when_opted_out_or_unused() {
    let payload = "cxx_used:true\nstl_used:true\nlinks:\nlinkdirs:\n";
    let mut info = BuildInfo::decode(payload).unwrap();
    let ds = link_directives(&mut info, "/out", "linux", None, None, true, false);
    assert_eq!(ds.len(), 2);

    let payload2 = "cxx_used:true\nstl_used:false\nlinks:\nlinkdirs:\n";
    let mut info2 = BuildInfo::decode(payload2).unwrap();
    let ds2 = link_directives(&mut info2, "/out", "linux", None, None, false, false);
    assert_eq!(ds2.len(), 2);
}

#[test]
fn directive_rendering() {
    assert_eq!(
        Directive::SearchAll(String::from("/d")).render(),
        "cargo:rustc-link-search=all=/d"
    );
    assert_eq!(
        Directive::SearchNative(String::from("/d/lib")).render(),
        "cargo:rustc-link-search=native=/d/lib"
    );
    assert_eq!(
        Directive::LinkStatic(String::from("a")).render(),
        "cargo:rustc-link-lib=static=a"
    );
    assert_eq!(
        Directive::LinkDylib(String::from("b")).render(),
        "cargo:rustc-link-lib=dylib=b"
    );
    assert_eq!(
        Directive::LinkFramework(String::from("c")).render(),
        "cargo:rustc-link-lib=framework=c"
    );
    assert_eq!(
        Directive::LinkDefault(String::from("d")).render(),
        "cargo:rustc-link-lib=d"
    );
    assert_eq!(
        xmake::emit::install_announcement("/out"),
        "cargo:root=/out"
    );
}

#[test]
fn clean_resolves_dots_and_separators() {
    assert_eq!(clean("a/./b/../c"), "a/c");
    assert_eq!(clean("a//b///c"), "a/b/c");
    assert_eq!(clean("/../a"), "/a");
    assert_eq!(clean("../.."), "../..");
    assert_eq!(clean(""), ".");
    assert_eq!(clean("/"), "/");
    assert_eq!(clean("a/b/.."), "a");
    assert_eq!(clean("./x"), "x");
}
