use xmake::config::BuildEnv;
use xmake::config::Config;
use xmake::config::minimum_version;
use xmake::version::Version;
use xmake::version::parse_u32;

fn env_with(host: &str, target: &str, os: &str) -> BuildEnv {
    BuildEnv {
        out_dir: Some(String::from("/out")),
        host: Some(String::from(host)),
        target: Some(String::from(target)),
        target_os: Some(String::from(os)),
        target_family: Some(String::from("unix")),
        target_arch: Some(String::from("x86_64")),
        target_feature: None,
        profile: Some(String::from("release")),
        opt_level: Some(String::from("3")),
        debug: Some(String::from("false")),
        ndk_home: None,
        emscripten_home: None,
    }
}

#[test]
fn version_parse_banner() {
    let banner = "xmake v2.9.8+HEAD.13fc39238, A cross-platform build utility based on Lua\nCopyright (C) 2015-present\n";
    assert_eq!(Version::parse(banner), Some(Version::new(2, 9, 8)));
    assert_eq!(Version::parse("xmake v2.9.5"), Some(Version::new(2, 9, 5)));
    assert_eq!(Version::parse(""), None);
    assert_eq!(Version::parse("other v1.2.3"), None);
    assert_eq!(Version::parse("xmake v2.9"), None);
    assert_eq!(Version::parse("xmake v2.9.8.1"), None);
}

#[test]
fn version_ordering_and_gate() {
    assert!(Version::new(2, 9, 5).older_than(&Version::new(2, 9, 6)));
    assert!(Version::new(2, 8, 9).older_than(&Version::new(2, 9, 0)));
    assert!(!Version::new(3, 0, 0).older_than(&Version::new(2, 9, 9)));
    assert!(!Version::new(2, 9, 6).older_than(&Version::new(2, 9, 6)));

    let mut cfg = Config::new("proj");
    assert!(cfg.check_version(None));
    assert!(!cfg.check_version(Some(Version::new(2, 9, 5))));
    assert!(cfg.check_version(Some(minimum_version())));
}

#[test]
fn parse_u32_cases() {
    assert_eq!(parse_u32("123"), Some(123));
    assert_eq!(parse_u32("+5"), Some(5));
    assert_eq!(parse_u32("0"), Some(0));
    assert_eq!(parse_u32("4294967295"), Some(4294967295));
    assert_eq!(parse_u32("4294967296"), None);
    assert_eq!(parse_u32(""), None);
    assert_eq!(parse_u32("+"), None);
    assert_eq!(parse_u32("1x"), None);
    assert_eq!(parse_u32("8.1"), None);
}

#[test]
fn plat_mapping() {
    let mut cfg = Config::new("proj");
    assert_eq!(
        cfg.get_xmake_plat("macos", Some("unix")),
        Some(String::from("macosx"))
    );
    // The first answer is cached.
    assert_eq!(
        cfg.get_xmake_plat("linux", Some("unix")),
        Some(String::from("macosx"))
    );

    let mut cfg2 = Config::new("proj");
    assert_eq!(cfg2.get_xmake_plat("fuchsia", Some("unix")), None);
    let mut cfg3 = Config::new("proj");
    assert_eq!(
        cfg3.get_xmake_plat("freebsd", Some("unix")),
        Some(String::from("cross"))
    );
    let mut cfg4 = Config::new("proj");
    assert_eq!(
        cfg4.get_xmake_plat("unknownos", Some("wasm")),
        Some(String::from("wasm"))
    );
}

#[test]
fn arch_mapping_depends_on_version() {
    let mut cfg = Config::new("proj");
    // No version seen: the older name is assumed.
    assert_eq!(
        cfg.get_xmake_arch("linux", "aarch64", Some("unix")),
        Some(String::from("arm64-v8a"))
    );

    let mut cfg2 = Config::new("proj");
    assert!(cfg2.check_version(Some(Version::new(2, 9, 9))));
    assert_eq!(
        cfg2.get_xmake_arch("linux", "aarch64", Some("unix")),
        Some(String::from("arm64"))
    );

    let mut cfg3 = Config::new("proj");
    assert_eq!(
        cfg3.get_xmake_arch("android", "i686", Some("unix")),
        Some(String::from("x86"))
    );
    let mut cfg4 = Config::new("proj");
    assert_eq!(
        cfg4.get_xmake_arch("windows", "i686", Some("windows")),
        Some(String::from("x86"))
    );
    let mut cfg5 = Config::new("proj");
    assert_eq!(
        cfg5.get_xmake_arch("freebsd", "i686", Some("unix")),
        Some(String::from("i386"))
    );
}

#[test]
fn mode_inference() {
    let cfg = Config::new("proj");
    assert_eq!(
        cfg.get_mode(Some("debug"), Some("0"), Some("true")),
        Some(String::from("debug"))
    );
    assert_eq!(
        cfg.get_mode(Some("release"), Some("3"), Some("false")),
        Some(String::from("release"))
    );
    assert_eq!(
        cfg.get_mode(Some("release"), Some("2"), Some("true")),
        Some(String::from("releasedbg"))
    );
    assert_eq!(
        cfg.get_mode(Some("release"), Some("s"), Some("true")),
        Some(String::from("minsizerel"))
    );
    assert_eq!(
        cfg.get_mode(Some("bench"), Some("weird"), Some("maybe")),
        Some(String::from("releasedbg"))
    );
    assert_eq!(
        cfg.get_mode(Some("debug"), Some("weird"), Some("true")),
        Some(String::from("debug"))
    );
    assert_eq!(cfg.get_mode(None, Some("0"), Some("true")), None);

    let mut cfg2 = Config::new("proj");
    cfg2.mode("coverage");
    assert_eq!(cfg2.get_mode(None, None, None), Some(String::from("coverage")));
}

#[test]
fn static_crt_and_runtimes() {
    let cfg = Config::new("proj");
    assert!(!cfg.get_static_crt(None));
    assert!(cfg.get_static_crt(Some("sse,crt-static,avx")));

    let mut cfg2 = Config::new("proj");
    cfg2.static_crt(true);
    assert!(cfg2.get_static_crt(Some("")));
    assert_eq!(
        cfg2.get_runtimes("linux", Some("unix"), None),
        Some(String::from("stdc++_static"))
    );

    let mut cfg3 = Config::new("proj");
    assert_eq!(
        cfg3.get_runtimes("windows", Some("windows"), None),
        Some(String::from("MD"))
    );
    let mut cfg4 = Config::new("proj");
    assert_eq!(cfg4.get_runtimes("macos", Some("unix"), None), None);
}

#[test]
fn env_cache_memoizes_first_answer() {
    let mut cfg = Config::new("proj");
    assert_eq!(
        cfg.getenv_os("K", Some("first")),
        Some(String::from("first"))
    );
    assert_eq!(
        cfg.getenv_os("K", Some("second")),
        Some(String::from("first"))
    );
    assert_eq!(cfg.getenv_os("MISSING", None), None);
    assert_eq!(cfg.getenv_os("MISSING", Some("late")), None);
}

#[test]
fn targets_env_rendering() {
    let mut cfg = Config::new("proj");
    assert_eq!(cfg.build_env_targets(), None);
    cfg.targets("ns::foo,bar");
    assert_eq!(cfg.build_env_targets(), Some(String::from("ns||foo,bar")));

    let mut cfg2 = Config::new("proj");
    cfg2.targets(vec![String::from("foo"), String::from("bar")]);
    assert_eq!(cfg2.build_env_targets(), Some(String::from("foo,bar")));

    let mut cfg3 = Config::new("proj");
    cfg3.targets(vec!["a", "b"]);
    assert_eq!(cfg3.build_env_targets(), Some(String::from("a,b")));

    let mut cfg4 = Config::new("proj");
    cfg4.targets(["x", "y"]);
    assert_eq!(cfg4.build_env_targets(), Some(String::from("x,y")));
}

#[test]
fn install_dir_prefers_configured() {
    let mut cfg = Config::new("proj");
    assert_eq!(cfg.install_dir(Some("/env")), Some(String::from("/env")));
    assert_eq!(cfg.install_dir(None), None);
    cfg.out_dir("/set");
    assert_eq!(cfg.install_dir(Some("/env")), Some(String::from("/set")));
}

#[test]
fn config_args_native_build() {
    let mut cfg = Config::new("proj");
    cfg.option("shared", "true");
    let env = env_with("x86_64-linux", "x86_64-linux", "linux");
    let args = cfg.config_args(&env, None).unwrap();
    assert_eq!(
        args,
        vec![
            String::from("--yes"),
            String::from("--buildir=/out"),
            String::from("--plat=linux"),
            String::from("--runtimes=stdc++_shared"),
            String::from("-m"),
            String::from("release"),
            String::from("--shared=true"),
        ]
    );
}

#[test]
fn config_args_cross_build() {
    let mut cfg = Config::new("proj");
    cfg.no_stl_link(true);
    let mut env = env_with("x86_64-linux", "aarch64-freebsd", "freebsd");
    env.target_arch = Some(String::from("aarch64"));
    let args = cfg.config_args(&env, Some("/sdkroot")).unwrap();
    assert_eq!(
        args,
        vec![
            String::from("--yes"),
            String::from("--buildir=/out"),
            String::from("--plat=cross"),
            String::from("--arch=arm64"),
            String::from("--sdk=/sdkroot"),
            String::from("--cross=arm64-freebsd"),
            String::from("--toolchain=cross"),
            String::from("-m"),
            String::from("release"),
        ]
    );
}

#[test]
fn config_args_missing_inputs() {
    let mut cfg = Config::new("proj");
    let mut env = env_with("h", "h", "linux");
    env.out_dir = None;
    assert!(cfg.config_args(&env, None).is_none());

    let mut cfg2 = Config::new("proj");
    let mut env2 = env_with("h", "h", "fuchsia");
    env2.out_dir = Some(String::from("/out"));
    assert!(cfg2.config_args(&env2, None).is_none());

    // A cross target without a discovered sdk cannot be configured.
    let mut cfg3 = Config::new("proj");
    let env3 = env_with("x86_64-linux", "riscv-none", "bare");
    assert!(cfg3.config_args(&env3, None).is_none());
}

#[test]
fn builder_flags_round_through() {
    let mut cfg = Config::new("proj");
    assert!(cfg.auto_link_enabled());
    cfg.auto_link(false);
    assert!(!cfg.auto_link_enabled());
    cfg.verbose(true);
    cfg.no_stl_link(true);
    cfg.env("XMAKE", "path/to/xmake");
    cfg.runtimes("MT,c++_static");
    let env = env_with("h", "h", "linux");
    let args = cfg.config_args(&env, None).unwrap();
    assert!(args.contains(&String::from("--runtimes=MT,c++_static")));
}
