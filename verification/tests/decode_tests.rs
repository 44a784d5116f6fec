use std::collections::HashSet;

use xmake::BuildInfo;
use xmake::Link;
use xmake::LinkKind;
use xmake::ParsingError;
use xmake::Source;
use xmake::parse_info_pairs;
use xmake::parse_scalar_field;
use xmake::subkeys_of;

fn to_set<T: std::cmp::Eq + std::hash::Hash>(vec: Vec<T>) -> HashSet<T> {
    vec.into_iter().collect()
}

#[test]
fn parse_line() {
    let expected_values: Vec<String> = ["value1", "value2", "value3"].map(String::from).to_vec();
    let map = parse_info_pairs("key:value1|value2|value3");
    assert!(map.contains_key("key"));
    assert_eq!(map.get("key").unwrap(), &expected_values);
}

#[test]
fn parse_line_empty_values() {
    let expected_values: Vec<String> = ["value1", "value2"].map(String::from).to_vec();
    let map = parse_info_pairs("key:value1||value2");
    assert!(map.contains_key("key"));
    assert_eq!(map.get("key").unwrap(), &expected_values);
}

#[test]
fn parse_field_multiple_values() {
    let map = parse_info_pairs("key:value1|value2|value3");
    let result = parse_scalar_field(&map, "key");
    assert!(map.contains_key("key"));
    assert!(result.is_err());
    assert_eq!(result.err().unwrap(), ParsingError::MultipleValues);
}

#[test]
fn parse_with_subkeys() {
    let map = parse_info_pairs("main:value\nmain.subkey:value1|value2|value3\nmain.sub2:vv");
    let subkeys = to_set(subkeys_of(&map, "main"));
    let expected: HashSet<String> = to_set(vec![String::from("sub2"), String::from("subkey")]);
    assert_eq!(subkeys, expected);
}

#[test]
fn parse_build_info_missing_key() {
    let mut s = String::new();
    s.push_str("linkdirs:path/to/libA|path/to/libB|path\\to\\libC\n");
    s.push_str("links:linkA/static|linkB/shared\n");

    let build_info = BuildInfo::decode(&s);
    assert!(build_info.is_err());
    assert_eq!(build_info.err().unwrap(), ParsingError::MissingKey);
}

#[test]
fn parse_build_info_missing_kind() {
    let mut s = String::new();
    s.push_str("cxx_used:true\n");
    s.push_str("stl_used:false\n");
    s.push_str("links:linkA|linkB\n");
    s.push_str("linkdirs:path/to/libA|path/to/libB|path\\to\\libC\n");

    let build_info = BuildInfo::decode(&s);
    assert!(build_info.is_err());
}

#[test]
fn parse_build_info_missing_info() {
    let mut s = String::new();
    s.push_str("links:linkA/static|linkB/shared\n");
    s.push_str("linkdirs:path/to/libA|path/to/libB|path\\to\\libC\n");

    let build_info = BuildInfo::decode(&s);
    assert!(build_info.is_err());
}

#[test]
fn parse_build_info() {
    let expected_links = vec![
        Link::new("linkA", LinkKind::Static),
        Link::new("linkB", LinkKind::Dynamic),
    ];
    let expected_directories: Vec<String> = ["path/to/libA", "path/to/libB", "path\\to\\libC"]
        .map(String::from)
        .to_vec();

    let expected_includedirs_package_a =
        to_set(["includedir/a", "includedir\\aa"].map(String::from).to_vec());
    let expected_includedirs_package_b =
        to_set(["includedir/bb", "includedir\\b"].map(String::from).to_vec());

    let expected_includedirs_target_c = to_set(["includedir/c"].map(String::from).to_vec());

    let expected_includedirs_both_greedy = to_set(
        [
            "includedir/c",
            "includedir/bb",
            "includedir\\b",
            "includedir/a",
            "includedir\\aa",
        ]
        .map(String::from)
        .to_vec(),
    );

    let expected_cxx = true;
    let expected_stl = false;

    let mut s = String::new();
    s.push_str("cxx_used:true\n");
    s.push_str("stl_used:false\n");
    s.push_str("links:linkA/static|linkB/shared\n");
    s.push_str("linkdirs:path/to/libA|path/to/libB|path\\to\\libC\n");
    s.push_str("includedirs_package.a:includedir/a|includedir\\aa\n");
    s.push_str("includedirs_package.b:includedir/bb|includedir\\b\n");
    s.push_str("includedirs_target.c:includedir/c");

    let build_info = BuildInfo::decode(&s).unwrap();

    assert_eq!(build_info.links(), &expected_links);
    assert_eq!(build_info.linkdirs(), &expected_directories);
    assert_eq!(build_info.use_cxx(), expected_cxx);
    assert_eq!(build_info.use_stl(), expected_stl);

    assert_eq!(
        to_set(build_info.includedirs(Source::Package, "a")),
        expected_includedirs_package_a
    );
    assert_eq!(
        to_set(build_info.includedirs(Source::Package, "b")),
        expected_includedirs_package_b
    );
    assert_eq!(
        to_set(build_info.includedirs(Source::Target, "c")),
        expected_includedirs_target_c
    );
    assert_eq!(
        to_set(build_info.includedirs(Source::Both, "*")),
        expected_includedirs_both_greedy
    );
}

#[test]
fn decode_example_end_to_end() {
    let payload = "cxx_used:true\nstl_used:false\nlinks:linkA/static|linkB/shared\nlinkdirs:/p/a|/p/b\n";
    let info = BuildInfo::decode(payload).unwrap();
    assert_eq!(info.use_cxx(), true);
    assert_eq!(info.use_stl(), false);
    assert_eq!(
        info.links(),
        &vec![
            Link::new("linkA", LinkKind::Static),
            Link::new("linkB", LinkKind::Dynamic),
        ]
    );
    assert_eq!(
        info.linkdirs(),
        &vec![String::from("/p/a"), String::from("/p/b")]
    );
    assert!(info.includedirs(Source::Package, "*").is_empty());
    assert!(info.includedirs(Source::Target, "*").is_empty());
}

#[test]
fn decode_missing_each_mandatory_key() {
    let full = [
        "cxx_used:true",
        "stl_used:false",
        "links:linkA/static",
        "linkdirs:/p/a",
    ];
    for skip in 0..4 {
        let mut s = String::new();
        for (i, line) in full.iter().enumerate() {
            if i != skip {
                s.push_str(line);
                s.push('\n');
            }
        }
        let r = BuildInfo::decode(&s);
        assert_eq!(r.err().unwrap(), ParsingError::MissingKey);
    }
}

#[test]
fn decode_malformed_link() {
    let s = "cxx_used:true\nstl_used:false\nlinks:linkA\nlinkdirs:/p/a\n";
    assert_eq!(
        BuildInfo::decode(s).err().unwrap(),
        ParsingError::MalformedLink
    );
    let s2 = "cxx_used:true\nstl_used:false\nlinks:a/b/static\nlinkdirs:/p/a\n";
    assert_eq!(
        BuildInfo::decode(s2).err().unwrap(),
        ParsingError::MalformedLink
    );
}

#[test]
fn decode_invalid_kind() {
    let s = "cxx_used:true\nstl_used:false\nlinks:linkA/bogus\nlinkdirs:/p/a\n";
    assert_eq!(
        BuildInfo::decode(s).err().unwrap(),
        ParsingError::InvalidKind
    );
}

#[test]
fn decode_scalar_multiple_values() {
    let s = "cxx_used:true|false\nstl_used:false\nlinks:linkA/static\nlinkdirs:/p/a\n";
    assert_eq!(
        BuildInfo::decode(s).err().unwrap(),
        ParsingError::MultipleValues
    );
    let s2 = "cxx_used:true\nstl_used:false|false\nlinks:linkA/static\nlinkdirs:/p/a\n";
    assert_eq!(
        BuildInfo::decode(s2).err().unwrap(),
        ParsingError::MultipleValues
    );
}

#[test]
fn decode_bool_parse_error() {
    let s = "cxx_used:yes\nstl_used:false\nlinks:linkA/static\nlinkdirs:/p/a\n";
    assert_eq!(
        BuildInfo::decode(s).err().unwrap(),
        ParsingError::ParseError
    );
}

#[test]
fn decode_drops_empty_segments() {
    let s = "cxx_used:true\nstl_used:false\nlinks:\nlinkdirs:a||b\n";
    let info = BuildInfo::decode(s).unwrap();
    assert_eq!(info.linkdirs(), &vec![String::from("a"), String::from("b")]);
    assert!(info.links().is_empty());
}

#[test]
fn decode_last_line_wins() {
    let s = "cxx_used:true\ncxx_used:false\nstl_used:false\nlinks:\nlinkdirs:/p\n";
    let info = BuildInfo::decode(s).unwrap();
    assert_eq!(info.use_cxx(), false);
}

#[test]
fn decode_skips_lines_without_colon() {
    let s = "noise without colon\ncxx_used:true\nstl_used:false\nlinks:\nlinkdirs:/p\n";
    let info = BuildInfo::decode(s).unwrap();
    assert_eq!(info.use_cxx(), true);
}

#[test]
fn includedirs_absent_name_is_empty() {
    let s = "cxx_used:true\nstl_used:false\nlinks:\nlinkdirs:/p\nincludedirs_package.x:/i/a\n";
    let info = BuildInfo::decode(s).unwrap();
    assert_eq!(
        info.includedirs(Source::Package, "x"),
        vec![String::from("/i/a")]
    );
    assert!(info.includedirs(Source::Package, "y").is_empty());
    assert!(info.includedirs(Source::Target, "x").is_empty());
    assert_eq!(
        info.includedirs(Source::Both, "x"),
        vec![String::from("/i/a")]
    );
}

#[test]
fn encode_exact_text() {
    let payload = "cxx_used:true\nstl_used:false\nlinks:linkA/static|linkB/shared\nlinkdirs:/p/a|/p/b\n";
    let info = BuildInfo::decode(payload).unwrap();
    assert_eq!(
        info.encode(),
        "cxx_used:true\nstl_used:false\nlinks:linkA/static|linkB/shared\nlinkdirs:/p/a|/p/b"
    );
}

#[test]
fn encode_decode_round_trip() {
    let mut s = String::new();
    s.push_str("cxx_used:true\n");
    s.push_str("stl_used:true\n");
    s.push_str("links:linkA/static|linkB/shared|sys/system|fw/framework|odd/unknown\n");
    s.push_str("linkdirs:/p/a|/p/b|/p/a\n");
    s.push_str("includedirs_package.a:/i/a|/i/aa\n");
    s.push_str("includedirs_target.c:/i/c\n");
    let info = BuildInfo::decode(&s).unwrap();
    let again = BuildInfo::decode(&info.encode()).unwrap();
    assert_eq!(again.links(), info.links());
    assert_eq!(again.linkdirs(), info.linkdirs());
    assert_eq!(again.use_cxx(), info.use_cxx());
    assert_eq!(again.use_stl(), info.use_stl());
    assert_eq!(
        again.includedirs(Source::Package, "a"),
        info.includedirs(Source::Package, "a")
    );
    assert_eq!(
        again.includedirs(Source::Target, "c"),
        info.includedirs(Source::Target, "c")
    );
    assert_eq!(
        again.includedirs(Source::Both, "*"),
        info.includedirs(Source::Both, "*")
    );
}

#[test]
fn decode_empty_payload_is_missing_key() {
    assert_eq!(
        BuildInfo::decode("").err().unwrap(),
        ParsingError::MissingKey
    );
    assert_eq!(
        BuildInfo::decode("   \n\t ").err().unwrap(),
        ParsingError::MissingKey
    );
}

#[test]
fn decode_trims_surrounding_whitespace() {
    let s = "\n  cxx_used:true\nstl_used:false\nlinks:\nlinkdirs:/p\n\n";
    let info = BuildInfo::decode(s).unwrap();
    assert_eq!(info.use_cxx(), true);
    // Interior lines are not trimmed: an indented key is a different key.
    let s2 = "pad:1\n  cxx_used:true\nstl_used:false\nlinks:\nlinkdirs:/p";
    assert_eq!(
        BuildInfo::decode(s2).err().unwrap(),
        ParsingError::MissingKey
    );
}

#[test]
fn link_accessors() {
    let l = Link::new("z", LinkKind::Framework);
    assert_eq!(l.name(), "z");
    assert_eq!(l.kind(), &LinkKind::Framework);
}
