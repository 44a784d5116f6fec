//! Builder-style configuration for a pending build of the external tool:
//! option and environment accumulation, platform and architecture mapping,
//! compilation-mode inference, runtime selection and version gating. The
//! process spawning itself stays outside the library; these methods make
//! every decision from plain values handed in.

use vstd::prelude::*;
use crate::decode::BuildInfo;
use crate::decode::BuildInfoV;
use crate::emit::spec_default_runtime;
use crate::strutil::join_str;
use crate::strutil::spec_find_sub;
use crate::strutil::spec_join;
use crate::strutil::spec_replace;
use crate::strutil::replace_all;
use crate::strutil::str_eq;
use crate::version::Version;
use crate::version::spec_version_lt;

verus! {

/// A snapshot of the environment variables the configuration step consults;
/// the caller fills it from the process environment.
pub struct BuildEnv {
    /// `OUT_DIR`.
    pub out_dir: Option<String>,
    /// `HOST`.
    pub host: Option<String>,
    /// `TARGET`.
    pub target: Option<String>,
    /// `CARGO_CFG_TARGET_OS`.
    pub target_os: Option<String>,
    /// `CARGO_CFG_TARGET_FAMILY`.
    pub target_family: Option<String>,
    /// `CARGO_CFG_TARGET_ARCH`.
    pub target_arch: Option<String>,
    /// `CARGO_CFG_TARGET_FEATURE`.
    pub target_feature: Option<String>,
    /// `PROFILE`.
    pub profile: Option<String>,
    /// `OPT_LEVEL`.
    pub opt_level: Option<String>,
    /// `DEBUG`.
    pub debug: Option<String>,
    /// `ANDROID_NDK_HOME`.
    pub ndk_home: Option<String>,
    /// `EMSCRIPTEN_HOME`.
    pub emscripten_home: Option<String>,
}

/// Mathematical model of a [`BuildEnv`].
pub struct BuildEnvV {
    pub out_dir: Option<Seq<char>>,
    pub host: Option<Seq<char>>,
    pub target: Option<Seq<char>>,
    pub target_os: Option<Seq<char>>,
    pub target_family: Option<Seq<char>>,
    pub target_arch: Option<Seq<char>>,
    pub target_feature: Option<Seq<char>>,
    pub profile: Option<Seq<char>>,
    pub opt_level: Option<Seq<char>>,
    pub debug: Option<Seq<char>>,
    pub ndk_home: Option<Seq<char>>,
    pub emscripten_home: Option<Seq<char>>,
}

pub open spec fn view_opt(o: Option<String>) -> Option<Seq<char>> {
    match o {
        Some(s) => Some(s@),
        None => None,
    }
}

impl View for BuildEnv {
    type V = BuildEnvV;

    open spec fn view(&self) -> BuildEnvV {
        BuildEnvV {
            out_dir: view_opt(self.out_dir),
            host: view_opt(self.host),
            target: view_opt(self.target),
            target_os: view_opt(self.target_os),
            target_family: view_opt(self.target_family),
            target_arch: view_opt(self.target_arch),
            target_feature: view_opt(self.target_feature),
            profile: view_opt(self.profile),
            opt_level: view_opt(self.opt_level),
            debug: view_opt(self.debug),
            ndk_home: view_opt(self.ndk_home),
            emscripten_home: view_opt(self.emscripten_home),
        }
    }
}

/// Mathematical model of a [`Config`].
pub struct ConfigV {
    pub path: Seq<char>,
    pub targets: Option<Seq<char>>,
    pub verbose: bool,
    pub auto_link: bool,
    pub out_dir: Option<Seq<char>>,
    pub mode: Option<Seq<char>>,
    pub options: Seq<(Seq<char>, Seq<char>)>,
    pub env: Seq<(Seq<char>, Seq<char>)>,
    pub static_crt: Option<bool>,
    pub runtimes: Option<Seq<char>>,
    pub no_stl_link: bool,
    pub build_info: BuildInfoV,
    pub plat: Option<Seq<char>>,
    pub arch: Option<Seq<char>>,
    pub xmake_version: Option<Version>,
    pub env_cache: Seq<(Seq<char>, Option<Seq<char>>)>,
}

/// Values remembered between the configuration steps of one build.
struct ConfigCache {
    build_info: BuildInfo,
    plat: Option<String>,
    arch: Option<String>,
    xmake_version: Option<Version>,
    env: Vec<(String, Option<String>)>,
}

/// Builder-style configuration for a pending build.
pub struct Config {
    path: String,
    targets: Option<String>,
    verbose: bool,
    auto_link: bool,
    out_dir: Option<String>,
    mode: Option<String>,
    options: Vec<(String, String)>,
    env: Vec<(String, String)>,
    static_crt: Option<bool>,
    runtimes: Option<String>,
    no_stl_link: bool,
    cache: ConfigCache,
}

pub open spec fn view_env_cache(e: Seq<(String, Option<String>)>) -> Seq<
    (Seq<char>, Option<Seq<char>>),
> {
    e.map_values(|p: (String, Option<String>)| (p.0@, view_opt(p.1)))
}

impl View for Config {
    type V = ConfigV;

    closed spec fn view(&self) -> ConfigV {
        ConfigV {
            path: self.path@,
            targets: view_opt(self.targets),
            verbose: self.verbose,
            auto_link: self.auto_link,
            out_dir: view_opt(self.out_dir),
            mode: view_opt(self.mode),
            options: self.options.deep_view(),
            env: self.env.deep_view(),
            static_crt: self.static_crt,
            runtimes: view_opt(self.runtimes),
            no_stl_link: self.no_stl_link,
            build_info: self.cache.build_info@,
            plat: view_opt(self.cache.plat),
            arch: view_opt(self.cache.arch),
            xmake_version: self.cache.xmake_version,
            env_cache: view_env_cache(self.cache.env@),
        }
    }
}

/// Values that can stand for a comma-separated list of names.
pub trait CommaSeparated {
    /// Render the value as one comma-separated string.
    fn as_comma_separated(self) -> String;
}

impl CommaSeparated for String {
    fn as_comma_separated(self) -> String {
        self
    }
}

impl CommaSeparated for &str {
    fn as_comma_separated(self) -> String {
        String::from_str(self)
    }
}

impl CommaSeparated for Vec<String> {
    fn as_comma_separated(self) -> String {
        proof {
            reveal_strlit(",");
        }
        join_str(&self, ",")
    }
}

impl<const N: usize> CommaSeparated for [&str; N] {
    fn as_comma_separated(self) -> String {
        let mut owned: Vec<String> = Vec::new();
        let mut i: usize = 0;
        while i < N
            decreases N - i,
        {
            owned.push(String::from_str(self[i]));
            i += 1;
        }
        proof {
            reveal_strlit(",");
        }
        join_str(&owned, ",")
    }
}

impl CommaSeparated for Vec<&str> {
    fn as_comma_separated(self) -> String {
        let mut owned: Vec<String> = Vec::new();
        let mut i: usize = 0;
        while i < self.len()
            decreases self.len() - i,
        {
            owned.push(String::from_str(self[i]));
            i += 1;
        }
        proof {
            reveal_strlit(",");
        }
        join_str(&owned, ",")
    }
}

/// The version of the external tool that this crate requires.
pub fn minimum_version() -> (r: Version)
    ensures
        r == (Version { major: 2, minor: 9, patch: 6 }),
{
    Version::new(2, 9, 6)
}

/// The platform vocabulary of the external tool for a Rust target
/// operating system; `None` is an unsupported target.
pub open spec fn spec_plat(os: Seq<char>, family: Option<Seq<char>>) -> Option<Seq<char>> {
    if os == "windows"@ {
        Some("windows"@)
    } else if os == "linux"@ {
        Some("linux"@)
    } else if os == "android"@ {
        Some("android"@)
    } else if os == "androideabi"@ {
        Some("android"@)
    } else if os == "emscripten"@ {
        Some("wasm"@)
    } else if os == "macos"@ {
        Some("macosx"@)
    } else if os == "ios"@ {
        Some("iphoneos"@)
    } else if os == "tvos"@ {
        Some("appletvos"@)
    } else if os == "fuchsia"@ {
        None
    } else if os == "solaris"@ {
        None
    } else {
        match family {
            Some(f) => if f == "wasm"@ {
                Some("wasm"@)
            } else {
                Some("cross"@)
            },
            None => None,
        }
    }
}

/// The platform after consulting the cache.
pub open spec fn spec_plat_used(
    cached: Option<Seq<char>>,
    os: Seq<char>,
    family: Option<Seq<char>>,
) -> Option<Seq<char>> {
    match cached {
        Some(p) => Some(p),
        None => spec_plat(os, family),
    }
}

/// Whether the tool still uses the older name for 64-bit ARM: true below
/// the version that renamed it, and assumed for an unknown version.
pub open spec fn spec_arm64_changes(v: Option<Version>) -> bool {
    match v {
        Some(ver) => spec_version_lt(ver, Version { major: 2, minor: 9, patch: 9 }),
        None => true,
    }
}

/// The architecture vocabulary of the external tool for a Rust target
/// architecture on a given platform.
pub open spec fn spec_arch(
    plat: Seq<char>,
    os: Seq<char>,
    arch: Seq<char>,
    arm64_changes: bool,
) -> Seq<char> {
    if plat == "android"@ && os == "androideabi"@ {
        if arch == "arm"@ {
            "armeabi"@
        } else if arch == "armv7"@ {
            "armeabi-v7a"@
        } else {
            arch
        }
    } else if plat == "android"@ && arch == "aarch64"@ {
        "arm64-v8a"@
    } else if plat == "android"@ && arch == "i686"@ {
        "x86"@
    } else if plat == "linux"@ && arch == "loongarch64"@ {
        "loong64"@
    } else if plat == "linux"@ && arch == "aarch64"@ && arm64_changes {
        "arm64-v8a"@
    } else if plat == "watchos"@ && arch == "arm64_32"@ {
        "armv7k"@
    } else if plat == "watchos"@ && arch == "armv7k"@ {
        "armv7k"@
    } else if plat == "iphoneos"@ && arch == "aarch64"@ {
        "arm64"@
    } else if plat == "macosx"@ && arch == "aarch64"@ {
        "arm64"@
    } else if plat == "windows"@ && arch == "i686"@ {
        "x86"@
    } else if arch == "aarch64"@ {
        "arm64"@
    } else if arch == "i686"@ {
        "i386"@
    } else {
        arch
    }
}

/// The compilation mode inferred from the Rust profile when none was set:
/// `debug` for opt-level 0, `minsizerel` for the size levels, and
/// `release`/`releasedbg` by debug info otherwise; unknown values fall back
/// by profile.
pub open spec fn spec_mode_of(p: Seq<char>, o: Seq<char>, d: Seq<char>) -> Seq<char> {
    let release_profile = !(p == "debug"@);
    let known_opt = o == "0"@ || o == "1"@ || o == "2"@ || o == "3"@ || o == "s"@ || o == "z"@;
    let opt_debug = o == "0"@ || (!known_opt && !release_profile);
    let opt_size = o == "s"@ || o == "z"@;
    let dbg = !(d == "false"@);
    if opt_debug {
        "debug"@
    } else if opt_size {
        "minsizerel"@
    } else if dbg {
        "releasedbg"@
    } else {
        "release"@
    }
}

pub open spec fn spec_mode(
    mode: Option<Seq<char>>,
    profile: Option<Seq<char>>,
    opt_level: Option<Seq<char>>,
    debug: Option<Seq<char>>,
) -> Option<Seq<char>> {
    match mode {
        Some(m) => Some(m),
        None => match (profile, opt_level, debug) {
            (Some(p), Some(o), Some(d)) => Some(spec_mode_of(p, o, d)),
            _ => None,
        },
    }
}

/// The effective CRT-static setting: the explicit configuration, or else
/// whether the target features name `crt-static`.
pub open spec fn spec_static_crt(cfg: Option<bool>, feature: Option<Seq<char>>) -> bool {
    match cfg {
        Some(b) => b,
        None => match feature {
            Some(f) => spec_find_sub(f, "crt-static"@) is Some,
            None => false,
        },
    }
}

/// Lookup in the memoized environment cache.
pub open spec fn env_cache_get(
    c: Seq<(Seq<char>, Option<Seq<char>>)>,
    k: Seq<char>,
) -> Option<Option<Seq<char>>>
    decreases c.len(),
{
    if c.len() == 0 {
        None
    } else if c[0].0 == k {
        Some(c[0].1)
    } else {
        env_cache_get(c.drop_first(), k)
    }
}

impl Config {
    /// A blank configuration for the project at `path`; linking defaults to
    /// on, everything else to unset.
    pub fn new(path: &str) -> (r: Config)
        ensures
            r@ == (ConfigV {
                path: path@,
                targets: None,
                verbose: false,
                auto_link: true,
                out_dir: None,
                mode: None,
                options: Seq::<(Seq<char>, Seq<char>)>::empty(),
                env: Seq::<(Seq<char>, Seq<char>)>::empty(),
                static_crt: None,
                runtimes: None,
                no_stl_link: false,
                build_info: crate::decode::empty_build_info(),
                plat: None,
                arch: None,
                xmake_version: None,
                env_cache: Seq::<(Seq<char>, Option<Seq<char>>)>::empty(),
            }),
    {
        let r = Config {
            path: String::from_str(path),
            targets: None,
            verbose: false,
            auto_link: true,
            out_dir: None,
            mode: None,
            options: Vec::new(),
            env: Vec::new(),
            static_crt: None,
            runtimes: None,
            no_stl_link: false,
            cache: ConfigCache {
                build_info: BuildInfo::default(),
                plat: None,
                arch: None,
                xmake_version: None,
                env: Vec::new(),
            },
        };
        proof {
            assert(r@.options =~= Seq::<(Seq<char>, Seq<char>)>::empty());
            assert(r@.env =~= Seq::<(Seq<char>, Seq<char>)>::empty());
            assert(r@.env_cache =~= Seq::<(Seq<char>, Option<Seq<char>>)>::empty());
        }
        r
    }

    /// Set the tool's targets for this compilation (not the Rust target).
    pub fn targets<T: CommaSeparated>(&mut self, targets: T)
        ensures
            final(self)@.targets is Some,
            final(self)@ == (ConfigV { targets: final(self)@.targets, ..old(self)@ }),
    {
        let t = targets.as_comma_separated();
        self.targets = Some(t);
    }

    /// Set verbose output.
    pub fn verbose(&mut self, value: bool)
        ensures
            final(self)@ == (ConfigV { verbose: value, ..old(self)@ }),
    {
        self.verbose = value;
    }

    /// Configure whether targets and their dependencies are linked; on by
    /// default.
    pub fn auto_link(&mut self, value: bool)
        ensures
            final(self)@ == (ConfigV { auto_link: value, ..old(self)@ }),
    {
        self.auto_link = value;
    }

    /// Configure whether the C++ standard library is left unlinked; off by
    /// default.
    pub fn no_stl_link(&mut self, value: bool)
        ensures
            final(self)@ == (ConfigV { no_stl_link: value, ..old(self)@ }),
    {
        self.no_stl_link = value;
    }

    /// Set the output directory for this compilation.
    pub fn out_dir(&mut self, out: &str)
        ensures
            final(self)@ == (ConfigV { out_dir: Some(out@), ..old(self)@ }),
    {
        self.out_dir = Some(String::from_str(out));
    }

    /// Set the tool's compilation mode.
    pub fn mode(&mut self, mode: &str)
        ensures
            final(self)@ == (ConfigV { mode: Some(mode@), ..old(self)@ }),
    {
        self.mode = Some(String::from_str(mode));
    }

    /// Add an option for the configuration step.
    pub fn option(&mut self, key: &str, value: &str)
        ensures
            final(self)@ == (ConfigV {
                options: old(self)@.options.push((key@, value@)),
                ..old(self)@
            }),
    {
        let ghost before = self.options.deep_view();
        self.options.push((String::from_str(key), String::from_str(value)));
        proof {
            assert(self.options.deep_view() =~= before.push((key@, value@)));
        }
    }

    /// Add an environment variable for the spawned tool processes.
    pub fn env(&mut self, key: &str, value: &str)
        ensures
            final(self)@ == (ConfigV { env: old(self)@.env.push((key@, value@)), ..old(self)@ }),
    {
        let ghost before = self.env.deep_view();
        self.env.push((String::from_str(key), String::from_str(value)));
        proof {
            assert(self.env.deep_view() =~= before.push((key@, value@)));
        }
    }

    /// Configure the runtime type (static or not).
    pub fn static_crt(&mut self, static_crt: bool)
        ensures
            final(self)@ == (ConfigV { static_crt: Some(static_crt), ..old(self)@ }),
    {
        self.static_crt = Some(static_crt);
    }

    /// Set the runtimes used to pick the C++ standard library.
    pub fn runtimes<T: CommaSeparated>(&mut self, runtimes: T)
        ensures
            final(self)@.runtimes is Some,
            final(self)@ == (ConfigV { runtimes: final(self)@.runtimes, ..old(self)@ }),
    {
        let t = runtimes.as_comma_separated();
        self.runtimes = Some(t);
    }

    /// The decoded build information of the last build.
    pub fn build_info(&self) -> (r: &BuildInfo)
        ensures
            r@ == self@.build_info,
    {
        &self.cache.build_info
    }

    /// Whether automatic linking is configured.
    pub fn auto_link_enabled(&self) -> (r: bool)
        ensures
            r == self@.auto_link,
    {
        self.auto_link
    }

    /// Remember the build information decoded after a build.
    pub fn set_build_info(&mut self, info: BuildInfo)
        ensures
            final(self)@ == (ConfigV { build_info: info@, ..old(self)@ }),
    {
        self.cache.build_info = info;
    }

    /// The directives of the linking step for the decoded build info held
    /// by this configuration, enriching its link directories with the
    /// install `lib` and `bin` directories on the way.
    pub fn link_directives(
        &mut self,
        dst: &str,
        plat: &str,
        lib_files: Option<&Vec<String>>,
        static_crt: bool,
    ) -> (r: Vec<crate::emit::Directive>)
        ensures
            r.deep_view() == crate::emit::spec_emit(
                old(self)@.build_info,
                dst@,
                plat@,
                match lib_files {
                    Some(fs) => Some(fs.deep_view()),
                    None => None::<Seq<Seq<char>>>,
                },
                old(self)@.runtimes,
                old(self)@.no_stl_link,
                static_crt,
            ),
            final(self)@ == (ConfigV {
                build_info: (BuildInfoV {
                    linkdirs: old(self)@.build_info.linkdirs.push(
                        crate::emit::spec_path_join(dst@, "lib"@),
                    ).push(crate::emit::spec_path_join(dst@, "bin"@)),
                    ..old(self)@.build_info
                }),
                ..old(self)@
            }),
    {
        let runtimes_opt: Option<&str> = match &self.runtimes {
            Some(r) => Some(r.as_str()),
            None => None,
        };
        let no_stl = self.no_stl_link;
        crate::emit::link_directives(
            &mut self.cache.build_info,
            dst,
            plat,
            lib_files,
            runtimes_opt,
            no_stl,
            static_crt,
        )
    }

    /// A memoized environment lookup: the first answer for a name is kept
    /// and later lookups never consult the environment again.
    pub fn getenv_os(&mut self, v: &str, fresh: Option<&str>) -> (r: Option<String>)
        ensures
            match env_cache_get(old(self)@.env_cache, v@) {
                Some(cached) => view_opt(r) == cached && final(self)@ == old(self)@,
                None => view_opt(r) == (match fresh {
                    Some(f) => Some(f@),
                    None => None::<Seq<char>>,
                }) && final(self)@ == (ConfigV {
                    env_cache: old(self)@.env_cache.push(
                        (
                            v@,
                            match fresh {
                                Some(f) => Some(f@),
                                None => None::<Seq<char>>,
                            },
                        ),
                    ),
                    ..old(self)@
                }),
            },
    {
        let ghost cache0 = self@.env_cache;
        let n = self.cache.env.len();
        let mut i: usize = 0;
        proof {
            assert(cache0.len() == self.cache.env@.len());
        }
        while i < n
            invariant
                self@ == old(self)@,
                cache0 == self@.env_cache,
                n == self.cache.env.len(),
                cache0.len() == n,
                0 <= i <= n,
                forall|j: int| 0 <= j < i ==> cache0[j].0 != v@,
            decreases n - i,
        {
            proof {
                assert(cache0[i as int] == (self.cache.env@[i as int].0@, view_opt(
                    self.cache.env@[i as int].1,
                )));
            }
            if str_eq(self.cache.env[i].0.as_str(), v) {
                let r = match &self.cache.env[i].1 {
                    Some(s) => Some(s.clone()),
                    None => None,
                };
                proof {
                    lemma_env_cache_get_at(cache0, v@, i as int);
                }
                return r;
            }
            i += 1;
        }
        proof {
            lemma_env_cache_get_none(cache0, v@);
        }
        let owned: Option<String> = match fresh {
            Some(f) => Some(String::from_str(f)),
            None => None,
        };
        let ghost fv = view_opt(owned);
        let r = match &owned {
            Some(s) => Some(s.clone()),
            None => None,
        };
        self.cache.env.push((String::from_str(v), owned));
        proof {
            assert(self@.env_cache =~= cache0.push((v@, fv)));
            assert(self@ == (ConfigV { env_cache: cache0.push((v@, fv)), ..old(self)@ }));
        }
        r
    }

    /// The effective CRT-static setting.
    pub fn get_static_crt(&self, target_feature: Option<&str>) -> (r: bool)
        ensures
            r == spec_static_crt(
                self@.static_crt,
                match target_feature {
                    Some(f) => Some(f@),
                    None => None::<Seq<char>>,
                },
            ),
    {
        match &self.static_crt {
            Some(b) => *b,
            None => match target_feature {
                Some(f) => crate::strutil::contains_sub(f, "crt-static"),
                None => false,
            },
        }
    }

    /// The tool's platform name for the Rust target, memoized; `None` is an
    /// unsupported target.
    pub fn get_xmake_plat(&mut self, target_os: &str, target_family: Option<&str>) -> (r: Option<
        String,
    >)
        ensures
            view_opt(r) == spec_plat_used(
                old(self)@.plat,
                target_os@,
                match target_family {
                    Some(f) => Some(f@),
                    None => None::<Seq<char>>,
                },
            ),
            final(self)@ == (ConfigV {
                plat: spec_plat_used(
                    old(self)@.plat,
                    target_os@,
                    match target_family {
                        Some(f) => Some(f@),
                        None => None::<Seq<char>>,
                    },
                ),
                ..old(self)@
            }),
    {
        match &self.cache.plat {
            Some(p) => {
                let r = Some(p.clone());
                proof {
                    assert(final(self)@ == old(self)@);
                }
                return r;
            },
            None => {},
        }
        let plat: Option<&str> = if str_eq(target_os, "windows") {
            Some("windows")
        } else if str_eq(target_os, "linux") {
            Some("linux")
        } else if str_eq(target_os, "android") {
            Some("android")
        } else if str_eq(target_os, "androideabi") {
            Some("android")
        } else if str_eq(target_os, "emscripten") {
            Some("wasm")
        } else if str_eq(target_os, "macos") {
            Some("macosx")
        } else if str_eq(target_os, "ios") {
            Some("iphoneos")
        } else if str_eq(target_os, "tvos") {
            Some("appletvos")
        } else if str_eq(target_os, "fuchsia") {
            None
        } else if str_eq(target_os, "solaris") {
            None
        } else {
            match target_family {
                Some(f) => if str_eq(f, "wasm") {
                    Some("wasm")
                } else {
                    Some("cross")
                },
                None => {
                    return None;
                },
            }
        };
        match plat {
            Some(p) => {
                let owned = String::from_str(p);
                self.cache.plat = Some(owned.clone());
                Some(owned)
            },
            None => None,
        }
    }

    /// The tool's architecture name for the Rust target, memoized.
    pub fn get_xmake_arch(
        &mut self,
        target_os: &str,
        target_arch: &str,
        target_family: Option<&str>,
    ) -> (r: Option<String>)
        ensures
            old(self)@.arch is Some ==> view_opt(r) == old(self)@.arch && final(self)@ == old(
                self,
            )@,
            old(self)@.arch is None ==> match spec_plat_used(
                old(self)@.plat,
                target_os@,
                match target_family {
                    Some(f) => Some(f@),
                    None => None::<Seq<char>>,
                },
            ) {
                None => r is None && final(self)@ == (ConfigV {
                    plat: None,
                    ..old(self)@
                }),
                Some(p) => view_opt(r) == Some(
                    spec_arch(p, target_os@, target_arch@, spec_arm64_changes(
                        old(self)@.xmake_version,
                    )),
                ) && final(self)@ == (ConfigV {
                    plat: Some(p),
                    arch: Some(
                        spec_arch(p, target_os@, target_arch@, spec_arm64_changes(
                            old(self)@.xmake_version,
                        )),
                    ),
                    ..old(self)@
                }),
            },
    {
        match &self.cache.arch {
            Some(a) => {
                let r = Some(a.clone());
                return r;
            },
            None => {},
        }
        let plat = match self.get_xmake_plat(target_os, target_family) {
            Some(p) => p,
            None => {
                return None;
            },
        };
        let arm64_changes = match &self.cache.xmake_version {
            Some(v) => v.older_than(&Version::new(2, 9, 9)),
            None => true,
        };
        let android = str_eq(plat.as_str(), "android");
        let arch: String = if android && str_eq(target_os, "androideabi") {
            if str_eq(target_arch, "arm") {
                String::from_str("armeabi")
            } else if str_eq(target_arch, "armv7") {
                String::from_str("armeabi-v7a")
            } else {
                String::from_str(target_arch)
            }
        } else if android && str_eq(target_arch, "aarch64") {
            String::from_str("arm64-v8a")
        } else if android && str_eq(target_arch, "i686") {
            String::from_str("x86")
        } else if str_eq(plat.as_str(), "linux") && str_eq(target_arch, "loongarch64") {
            String::from_str("loong64")
        } else if str_eq(plat.as_str(), "linux") && str_eq(target_arch, "aarch64")
            && arm64_changes {
            String::from_str("arm64-v8a")
        } else if str_eq(plat.as_str(), "watchos") && str_eq(target_arch, "arm64_32") {
            String::from_str("armv7k")
        } else if str_eq(plat.as_str(), "watchos") && str_eq(target_arch, "armv7k") {
            String::from_str("armv7k")
        } else if str_eq(plat.as_str(), "iphoneos") && str_eq(target_arch, "aarch64") {
            String::from_str("arm64")
        } else if str_eq(plat.as_str(), "macosx") && str_eq(target_arch, "aarch64") {
            String::from_str("arm64")
        } else if str_eq(plat.as_str(), "windows") && str_eq(target_arch, "i686") {
            String::from_str("x86")
        } else if str_eq(target_arch, "aarch64") {
            String::from_str("arm64")
        } else if str_eq(target_arch, "i686") {
            String::from_str("i386")
        } else {
            String::from_str(target_arch)
        };
        self.cache.arch = Some(arch.clone());
        Some(arch)
    }

    /// The compilation mode: the configured one, or the one inferred from
    /// the Rust profile; `None` when an inference input is missing.
    pub fn get_mode(
        &self,
        profile: Option<&str>,
        opt_level: Option<&str>,
        debug: Option<&str>,
    ) -> (r: Option<String>)
        ensures
            view_opt(r) == spec_mode(
                self@.mode,
                match profile {
                    Some(p) => Some(p@),
                    None => None::<Seq<char>>,
                },
                match opt_level {
                    Some(o) => Some(o@),
                    None => None::<Seq<char>>,
                },
                match debug {
                    Some(d) => Some(d@),
                    None => None::<Seq<char>>,
                },
            ),
    {
        match &self.mode {
            Some(m) => Some(m.clone()),
            None => {
                let p = match profile {
                    Some(p) => p,
                    None => {
                        return None;
                    },
                };
                let o = match opt_level {
                    Some(o) => o,
                    None => {
                        return None;
                    },
                };
                let d = match debug {
                    Some(d) => d,
                    None => {
                        return None;
                    },
                };
                let release_profile = !str_eq(p, "debug");
                let known_opt = str_eq(o, "0") || str_eq(o, "1") || str_eq(o, "2") || str_eq(
                    o,
                    "3",
                ) || str_eq(o, "s") || str_eq(o, "z");
                let opt_debug = str_eq(o, "0") || (!known_opt && !release_profile);
                let opt_size = str_eq(o, "s") || str_eq(o, "z");
                let dbg = !str_eq(d, "false");
                if opt_debug {
                    Some(String::from_str("debug"))
                } else if opt_size {
                    Some(String::from_str("minsizerel"))
                } else if dbg {
                    Some(String::from_str("releasedbg"))
                } else {
                    Some(String::from_str("release"))
                }
            },
        }
    }

    /// The default runtime for the platform when none was configured,
    /// memoizing the platform on the way.
    pub fn get_runtimes(
        &mut self,
        target_os: &str,
        target_family: Option<&str>,
        target_feature: Option<&str>,
    ) -> (r: Option<String>)
        ensures
            view_opt(r) == (match spec_plat_used(
                old(self)@.plat,
                target_os@,
                match target_family {
                    Some(f) => Some(f@),
                    None => None::<Seq<char>>,
                },
            ) {
                None => None::<Seq<char>>,
                Some(p) => spec_default_runtime(
                    p,
                    spec_static_crt(
                        old(self)@.static_crt,
                        match target_feature {
                            Some(f) => Some(f@),
                            None => None::<Seq<char>>,
                        },
                    ),
                ),
            }),
            final(self)@ == (ConfigV {
                plat: spec_plat_used(
                    old(self)@.plat,
                    target_os@,
                    match target_family {
                        Some(f) => Some(f@),
                        None => None::<Seq<char>>,
                    },
                ),
                ..old(self)@
            }),
    {
        let static_crt = self.get_static_crt(target_feature);
        let plat = match self.get_xmake_plat(target_os, target_family) {
            Some(p) => p,
            None => {
                return None;
            },
        };
        if str_eq(plat.as_str(), "linux") {
            if static_crt {
                Some(String::from_str("stdc++_static"))
            } else {
                Some(String::from_str("stdc++_shared"))
            }
        } else if str_eq(plat.as_str(), "android") {
            if static_crt {
                Some(String::from_str("c++_static"))
            } else {
                Some(String::from_str("c++_shared"))
            }
        } else if str_eq(plat.as_str(), "windows") {
            if static_crt {
                Some(String::from_str("MT"))
            } else {
                Some(String::from_str("MD"))
            }
        } else {
            None
        }
    }

    /// Gate on the tool's version: too old a version refuses to go on; an
    /// unknown version is tolerated. The version seen is remembered.
    pub fn check_version(&mut self, version: Option<Version>) -> (r: bool)
        ensures
            r == (match version {
                Some(v) => !spec_version_lt(v, Version { major: 2, minor: 9, patch: 6 }),
                None => true,
            }),
            final(self)@ == (ConfigV {
                xmake_version: (match version {
                    Some(v) => if !spec_version_lt(v, Version { major: 2, minor: 9, patch: 6 }) {
                        Some(v)
                    } else {
                        old(self)@.xmake_version
                    },
                    None => old(self)@.xmake_version,
                }),
                ..old(self)@
            }),
    {
        match version {
            None => true,
            Some(v) => {
                if v.older_than(&minimum_version()) {
                    false
                } else {
                    self.cache.xmake_version = Some(v);
                    true
                }
            },
        }
    }

    /// The install directory: the configured output directory, or the
    /// host-provided one.
    pub fn install_dir(&self, out_dir_env: Option<&str>) -> (r: Option<String>)
        ensures
            view_opt(r) == (match self@.out_dir {
                Some(d) => Some(d),
                None => match out_dir_env {
                    Some(e) => Some(e@),
                    None => None::<Seq<char>>,
                },
            }),
    {
        match &self.out_dir {
            Some(d) => Some(d.clone()),
            None => match out_dir_env {
                Some(e) => Some(String::from_str(e)),
                None => None,
            },
        }
    }

    /// The configured targets rendered for the tool's environment: the
    /// namespace separator interferes with the host's list separator, so it
    /// is replaced.
    pub fn build_env_targets(&self) -> (r: Option<String>)
        ensures
            view_opt(r) == (match self@.targets {
                Some(t) => Some(spec_replace(t, "::"@, "||"@)),
                None => None::<Seq<char>>,
            }),
    {
        match &self.targets {
            Some(t) => {
                proof {
                    reveal_strlit("::");
                }
                Some(replace_all(t.as_str(), "::", "||"))
            },
            None => None,
        }
    }

    /// The cross-compilation section of the configuration arguments.
    fn cross_section(
        &mut self,
        env: &BuildEnv,
        os: &str,
        family: Option<&str>,
        plat: &str,
        sdk: Option<&str>,
        same: bool,
    ) -> (r: Option<Vec<String>>)
        requires
            same || old(self)@.plat == Some(plat@),
        ensures
            match r {
                Some(v) => spec_cross_part(
                    old(self)@,
                    env@,
                    os@,
                    plat@,
                    match sdk {
                        Some(s) => Some(s@),
                        None => None::<Seq<char>>,
                    },
                    same,
                ) == Some(v.deep_view()),
                None => spec_cross_part(
                    old(self)@,
                    env@,
                    os@,
                    plat@,
                    match sdk {
                        Some(s) => Some(s@),
                        None => None::<Seq<char>>,
                    },
                    same,
                ) is None,
            },
            final(self)@ == (ConfigV { arch: final(self)@.arch, ..old(self)@ }),
    {
        let ghost c0 = self@;
        let ghost ev = env@;
        let ghost sdkv = match sdk {
            Some(s) => Some(s@),
            None => None::<Seq<char>>,
        };
        let ghost platv = plat@;
        let mut cross_args: Vec<String> = Vec::new();
        if same {
            proof {
                assert(cross_args.deep_view() =~= Seq::<Seq<char>>::empty());
            }
            return Some(cross_args);
        }
        let ta = match &env.target_arch {
            Some(a) => a,
            None => {
                return None;
            },
        };
        let arch = match self.get_xmake_arch(os, ta.as_str(), family) {
            Some(a) => a,
            None => {
                proof {
                    assert(false);
                }
                return None;
            },
        };
        let ghost archv = arch@;
        proof {
            assert(archv == (match c0.arch {
                Some(a) => a,
                None => spec_arch(platv, os@, ta@, spec_arm64_changes(c0.xmake_version)),
            }));
        }
        cross_args.push(concat2("--arch=", arch.as_str()));
        if str_eq(plat, "android") {
            match &env.ndk_home {
                Some(n) => {
                    cross_args.push(concat2("--ndk=", n.as_str()));
                    cross_args.push(String::from_str("--toolchain=ndk"));
                    proof {
                        assert(cross_args.deep_view() =~= seq![
                            "--arch="@ + archv,
                            "--ndk="@ + ev.ndk_home->0,
                            "--toolchain=ndk"@,
                        ]);
                    }
                },
                None => {
                    cross_args.push(String::from_str("--toolchain=ndk"));
                    proof {
                        assert(cross_args.deep_view() =~= seq![
                            "--arch="@ + archv,
                            "--toolchain=ndk"@,
                        ]);
                        assert(Seq::<Seq<char>>::empty() + seq!["--toolchain=ndk"@] =~~= seq![
                            "--toolchain=ndk"@,
                        ]);
                    }
                },
            }
        } else if str_eq(plat, "wasm") {
            match &env.emscripten_home {
                Some(m) => {
                    cross_args.push(concat2("--emsdk=", m.as_str()));
                    cross_args.push(String::from_str("--toolchain=emcc"));
                    proof {
                        assert(cross_args.deep_view() =~= seq![
                            "--arch="@ + archv,
                            "--emsdk="@ + ev.emscripten_home->0,
                            "--toolchain=emcc"@,
                        ]);
                    }
                },
                None => {
                    cross_args.push(String::from_str("--toolchain=emcc"));
                    proof {
                        assert(cross_args.deep_view() =~= seq![
                            "--arch="@ + archv,
                            "--toolchain=emcc"@,
                        ]);
                        assert(Seq::<Seq<char>>::empty() + seq!["--toolchain=emcc"@] =~~= seq![
                            "--toolchain=emcc"@,
                        ]);
                    }
                },
            }
        } else if str_eq(plat, "cross") {
            match sdk {
                None => {
                    return None;
                },
                Some(s) => {
                    cross_args.push(concat2("--sdk=", s));
                    let mut cross_arg = String::from_str("--cross=");
                    cross_arg.append(arch.as_str());
                    cross_arg.append("-");
                    cross_arg.append(os);
                    proof {
                        reveal_strlit("-");
                        assert(cross_arg@ =~= "--cross="@ + archv + "-"@ + os@);
                    }
                    cross_args.push(cross_arg);
                    cross_args.push(String::from_str("--toolchain=cross"));
                    proof {
                        assert(cross_args.deep_view() =~= seq![
                            "--arch="@ + archv,
                            "--sdk="@ + s@,
                            "--cross="@ + archv + "-"@ + os@,
                            "--toolchain=cross"@,
                        ]);
                    }
                },
            }
        } else {
            proof {
                assert(cross_args.deep_view() =~= seq!["--arch="@ + archv]);
            }
        }
        proof {
            assert(spec_cross_part(c0, ev, os@, platv, sdkv, same) == Some(
                cross_args.deep_view(),
            ));
        }
        Some(cross_args)
    }

    /// The runtimes section of the configuration arguments.
    fn runtimes_section(
        &mut self,
        os: &str,
        family: Option<&str>,
        feature: Option<&str>,
        plat: &str,
    ) -> (r: Vec<String>)
        requires
            old(self)@.plat == Some(plat@),
        ensures
            r.deep_view() == spec_runtimes_args(
                old(self)@,
                match feature {
                    Some(f) => Some(f@),
                    None => None::<Seq<char>>,
                },
                plat@,
            ),
            final(self)@ == old(self)@,
    {
        let ghost c0 = self@;
        let ghost featv = match feature {
            Some(f) => Some(f@),
            None => None::<Seq<char>>,
        };
        let mut rt_args: Vec<String> = Vec::new();
        match &self.runtimes {
            Some(rt) => {
                let a = concat2("--runtimes=", rt.as_str());
                rt_args.push(a);
                proof {
                    assert(rt_args.deep_view() =~= spec_runtimes_args(c0, featv, plat@));
                }
            },
            None => {
                let no_stl = self.no_stl_link;
                match self.get_runtimes(os, family, feature) {
                    Some(d) => {
                        if !no_stl {
                            let a = concat2("--runtimes=", d.as_str());
                            rt_args.push(a);
                            proof {
                                assert(rt_args.deep_view() =~= spec_runtimes_args(
                                    c0,
                                    featv,
                                    plat@,
                                ));
                            }
                        } else {
                            proof {
                                assert(rt_args.deep_view() =~= spec_runtimes_args(
                                    c0,
                                    featv,
                                    plat@,
                                ));
                            }
                        }
                    },
                    None => {
                        proof {
                            assert(rt_args.deep_view() =~= spec_runtimes_args(c0, featv, plat@));
                        }
                    },
                }
            },
        }
        rt_args
    }

    /// Discover the cross toolchain root when the configuration will need
    /// one: only a cross-compiling build whose platform maps to the generic
    /// cross toolchain consults the C compiler driver. The discovered root
    /// depends on the process environment, so nothing is promised of it;
    /// only the platform cache may change.
    pub fn find_cross_sdk(&mut self, env: &BuildEnv) -> (r: Option<String>)
        ensures
            final(self)@ == (ConfigV { plat: final(self)@.plat, ..old(self)@ }),
    {
        let host = match &env.host {
            Some(h) => h,
            None => {
                return None;
            },
        };
        let target = match &env.target {
            Some(t) => t,
            None => {
                return None;
            },
        };
        if str_eq(host.as_str(), target.as_str()) {
            return None;
        }
        let os = match &env.target_os {
            Some(o) => o,
            None => {
                return None;
            },
        };
        let family: Option<&str> = match &env.target_family {
            Some(f) => Some(f.as_str()),
            None => None,
        };
        let plat = match self.get_xmake_plat(os.as_str(), family) {
            Some(p) => p,
            None => {
                return None;
            },
        };
        if str_eq(plat.as_str(), "cross") {
            cross_sdk(host.as_str(), target.as_str())
        } else {
            None
        }
    }

    /// Assemble the arguments of the configuration step from the
    /// environment snapshot; `sdk` is the cross toolchain root, consulted
    /// only for the generic cross platform. Only the platform and
    /// architecture caches may change.
    #[verifier::rlimit(60)]
    #[verifier::spinoff_prover]
    pub fn config_args(&mut self, env: &BuildEnv, sdk: Option<&str>) -> (r: Option<Vec<String>>)
        ensures
            match r {
                Some(v) => spec_config_args(
                    old(self)@,
                    env@,
                    match sdk {
                        Some(s) => Some(s@),
                        None => None::<Seq<char>>,
                    },
                ) == Some(v.deep_view()),
                None => spec_config_args(
                    old(self)@,
                    env@,
                    match sdk {
                        Some(s) => Some(s@),
                        None => None::<Seq<char>>,
                    },
                ) is None,
            },
            final(self)@ == (ConfigV {
                plat: final(self)@.plat,
                arch: final(self)@.arch,
                ..old(self)@
            }),
    {
        let ghost c0 = self@;
        let ghost ev = env@;
        let ghost sdkv = match sdk {
            Some(s) => Some(s@),
            None => None::<Seq<char>>,
        };
        let out_env: Option<&str> = match &env.out_dir {
            Some(s) => Some(s.as_str()),
            None => None,
        };
        let dst = match self.install_dir(out_env) {
            Some(d) => d,
            None => {
                return None;
            },
        };
        let host = match &env.host {
            Some(h) => h,
            None => {
                return None;
            },
        };
        let target = match &env.target {
            Some(t) => t,
            None => {
                return None;
            },
        };
        let os = match &env.target_os {
            Some(o) => o,
            None => {
                return None;
            },
        };
        let family: Option<&str> = match &env.target_family {
            Some(f) => Some(f.as_str()),
            None => None,
        };
        let feature: Option<&str> = match &env.target_feature {
            Some(f) => Some(f.as_str()),
            None => None,
        };
        let plat = match self.get_xmake_plat(os.as_str(), family) {
            Some(p) => p,
            None => {
                return None;
            },
        };
        let ghost platv = plat@;
        let mut args: Vec<String> = Vec::new();
        args.push(String::from_str("--yes"));
        args.push(concat2("--buildir=", dst.as_str()));
        args.push(concat2("--plat=", plat.as_str()));
        let ghost base = seq!["--yes"@, "--buildir="@ + dst@, "--plat="@ + platv];
        proof {
            assert(args.deep_view() =~= base);
        }
        let same = str_eq(host.as_str(), target.as_str());
        let ghost c_pre = self@;
        proof {
            assert(spec_cross_part(c0, ev, os@, platv, sdkv, same) == spec_cross_part(
                c_pre,
                ev,
                os@,
                platv,
                sdkv,
                same,
            ));
        }
        let mut cross_args = match self.cross_section(
            env,
            os.as_str(),
            family,
            plat.as_str(),
            sdk,
            same,
        ) {
            Some(v) => v,
            None => {
                return None;
            },
        };
        let ghost crossv = cross_args.deep_view();
        args.append(&mut cross_args);
        proof {
            assert(args.deep_view() =~= base + crossv);
        }
        let ghost c_rt = self@;
        proof {
            assert(spec_runtimes_args(c0, ev.target_feature, platv) == spec_runtimes_args(
                c_rt,
                ev.target_feature,
                platv,
            ));
            assert(ev.target_feature == (match feature {
                Some(f) => Some(f@),
                None => None::<Seq<char>>,
            }));
        }
        let mut rt_args = self.runtimes_section(os.as_str(), family, feature, plat.as_str());
        let ghost rtv = rt_args.deep_view();
        args.append(&mut rt_args);
        proof {
            assert(args.deep_view() =~= base + crossv + rtv);
        }
        let profile: Option<&str> = match &env.profile {
            Some(p) => Some(p.as_str()),
            None => None,
        };
        let opt_level: Option<&str> = match &env.opt_level {
            Some(o) => Some(o.as_str()),
            None => None,
        };
        let debug: Option<&str> = match &env.debug {
            Some(d) => Some(d.as_str()),
            None => None,
        };
        let mode = match self.get_mode(profile, opt_level, debug) {
            Some(m) => m,
            None => {
                return None;
            },
        };
        let ghost modev = mode@;
        args.push(String::from_str("-m"));
        args.push(mode);
        proof {
            assert(args.deep_view() =~= base + crossv + rtv + seq!["-m"@, modev]);
        }
        let ghost pre = args.deep_view();
        let ghost opts = self.options.deep_view();
        let n = self.options.len();
        let mut i: usize = 0;
        proof {
            assert(opts.skip(0) =~= opts);
            assert(pre + spec_option_args(opts) =~~= pre + spec_option_args(opts));
        }
        while i < n
            invariant
                n == self.options.len(),
                opts == self.options.deep_view(),
                0 <= i <= n,
                pre + spec_option_args(opts) =~~= args.deep_view() + spec_option_args(
                    opts.skip(i as int),
                ),
            decreases n - i,
        {
            let ghost tail = opts.skip(i as int);
            proof {
                assert(tail.len() > 0);
                assert(tail[0] == opts[i as int]);
                assert(tail.drop_first() =~= opts.skip(i as int + 1));
                assert(opts[i as int] == (self.options[i as int].0@, self.options[i as int].1@));
            }
            let mut a = String::from_str("--");
            a.append(self.options[i].0.as_str());
            a.append("=");
            a.append(self.options[i].1.as_str());
            proof {
                reveal_strlit("=");
                assert(a@ =~= "--"@ + opts[i as int].0 + "="@ + opts[i as int].1);
            }
            let ghost before = args.deep_view();
            args.push(a);
            proof {
                assert(args.deep_view() =~= before.push(
                    "--"@ + opts[i as int].0 + "="@ + opts[i as int].1,
                ));
                assert(before.push("--"@ + opts[i as int].0 + "="@ + opts[i as int].1)
                    + spec_option_args(opts.skip(i as int + 1)) =~~= before + (seq![
                    "--"@ + opts[i as int].0 + "="@ + opts[i as int].1,
                ] + spec_option_args(opts.skip(i as int + 1))));
            }
            i += 1;
        }
        proof {
            assert(opts.skip(n as int) =~= Seq::<(Seq<char>, Seq<char>)>::empty());
            assert(args.deep_view() + spec_option_args(opts.skip(n as int)) =~~= args.deep_view());
            assert(args.deep_view() =~~= pre + spec_option_args(opts));
            assert(spec_config_args(c0, ev, sdkv) == Some(
                base + crossv + rtv + seq!["-m"@, modev] + spec_option_args(opts),
            ));
            assert(args.deep_view() =~~= base + crossv + rtv + seq!["-m"@, modev]
                + spec_option_args(opts));
        }
        Some(args)
    }
}

/// The index of the last path separator in `p`, if any.
pub open spec fn spec_last_sep(p: Seq<char>) -> Option<int>
    decreases p.len(),
{
    if p.len() == 0 {
        None
    } else if p.last() == '/' || p.last() == '\\' {
        Some(p.len() - 1)
    } else {
        spec_last_sep(p.drop_last())
    }
}

/// The directory holding `p`: everything before the last separator.
pub open spec fn spec_parent_dir(p: Seq<char>) -> Option<Seq<char>> {
    match spec_last_sep(p) {
        None => None,
        Some(i) => if 0 <= i <= p.len() {
            Some(p.take(i))
        } else {
            None
        },
    }
}

/// The toolchain root that holds a compiler: the directory two levels above
/// the compiler binary (above the binary and its `bin` directory).
pub open spec fn spec_sdk_of(compiler: Seq<char>) -> Option<Seq<char>> {
    match spec_parent_dir(compiler) {
        None => None,
        Some(d) => spec_parent_dir(d),
    }
}

/// The directory holding `p`.
pub fn parent_dir(p: &str) -> (r: Option<String>)
    ensures
        match r {
            Some(d) => spec_parent_dir(p@) == Some(d@),
            None => spec_parent_dir(p@) is None,
        },
{
    let len = p.unicode_len();
    let mut j: usize = len;
    while j > 0
        invariant
            len == p@.len(),
            0 <= j <= len,
            forall|k: int| j <= k < len ==> p@[k] != '/' && p@[k] != '\\',
        decreases j,
    {
        let c = p.get_char(j - 1);
        if c == '/' || c == '\\' {
            proof {
                lemma_last_sep_at(p@, j - 1);
                assert(p@.subrange(0, j - 1) =~= p@.take(j - 1));
            }
            return Some(String::from_str(p.substring_char(0, j - 1)));
        }
        j -= 1;
    }
    proof {
        lemma_last_sep_none(p@);
    }
    None
}

proof fn lemma_last_sep_at(p: Seq<char>, i: int)
    requires
        0 <= i < p.len(),
        p[i] == '/' || p[i] == '\\',
        forall|k: int| i < k < p.len() ==> p[k] != '/' && p[k] != '\\',
    ensures
        spec_last_sep(p) == Some(i),
    decreases p.len(),
{
    if i < p.len() - 1 {
        lemma_last_sep_at(p.drop_last(), i);
    }
}

proof fn lemma_last_sep_none(p: Seq<char>)
    requires
        forall|k: int| 0 <= k < p.len() ==> p[k] != '/' && p[k] != '\\',
    ensures
        spec_last_sep(p) is None,
    decreases p.len(),
{
    if p.len() > 0 {
        lemma_last_sep_none(p.drop_last());
    }
}

/// Relies on cc::Build::try_get_compiler: the path of the C compiler that
/// the cc crate discovers for the given host/target pair, or `None` when it
/// finds none. The answer depends on the process environment and the
/// machine, so nothing is promised of it.
#[verifier::external_body]
fn cross_compiler_path(host: &str, target: &str) -> (r: Option<String>) {
    let mut b = cc::Build::new();
    b.cargo_metadata(false).opt_level(0).debug(false).warnings(false).host(host).target(target);
    match b.try_get_compiler() {
        Ok(tool) => Some(tool.path().display().to_string()),
        Err(_) => None,
    }
}

/// The sdk root of a compiler path: a compiler usually lives in the `bin`
/// directory of its toolchain, and the external tool wants the toolchain's
/// root.
pub fn sdk_from_compiler(compiler: &str) -> (r: Option<String>)
    ensures
        match r {
            Some(d) => spec_sdk_of(compiler@) == Some(d@),
            None => spec_sdk_of(compiler@) is None,
        },
{
    match parent_dir(compiler) {
        None => None,
        Some(d) => parent_dir(d.as_str()),
    }
}

/// The cross-compilation sdk root for a host/target pair, discovered
/// through the C compiler driver; whatever came back is reduced to a root
/// by [`sdk_from_compiler`].
pub fn cross_sdk(host: &str, target: &str) -> Option<String> {
    match cross_compiler_path(host, target) {
        None => None,
        Some(p) => sdk_from_compiler(p.as_str()),
    }
}

/// The cross section of the argument list: empty when host and target
/// agree.
pub open spec fn spec_cross_part(
    c: ConfigV,
    e: BuildEnvV,
    os: Seq<char>,
    plat: Seq<char>,
    sdk: Option<Seq<char>>,
    same: bool,
) -> Option<Seq<Seq<char>>> {
    if same {
        Some(Seq::<Seq<char>>::empty())
    } else {
        spec_cross_args(c, e, os, plat, sdk)
    }
}

/// The `--key=value` option arguments, in configuration order.
pub open spec fn spec_option_args(opts: Seq<(Seq<char>, Seq<char>)>) -> Seq<Seq<char>>
    decreases opts.len(),
{
    if opts.len() == 0 {
        Seq::<Seq<char>>::empty()
    } else {
        seq!["--"@ + opts[0].0 + "="@ + opts[0].1] + spec_option_args(opts.drop_first())
    }
}

/// The cross-compilation arguments when host and target differ: the mapped
/// architecture, then the toolchain of the platform; a cross platform
/// without a discovered sdk, or a missing target architecture, fails.
pub open spec fn spec_cross_args(
    c: ConfigV,
    e: BuildEnvV,
    os: Seq<char>,
    plat: Seq<char>,
    sdk: Option<Seq<char>>,
) -> Option<Seq<Seq<char>>> {
    match e.target_arch {
        None => None,
        Some(ta) => {
            let arch = match c.arch {
                Some(a) => a,
                None => spec_arch(plat, os, ta, spec_arm64_changes(c.xmake_version)),
            };
            let head = seq!["--arch="@ + arch];
            if plat == "android"@ {
                Some(
                    head + (match e.ndk_home {
                        Some(n) => seq!["--ndk="@ + n],
                        None => Seq::<Seq<char>>::empty(),
                    }) + seq!["--toolchain=ndk"@],
                )
            } else if plat == "wasm"@ {
                Some(
                    head + (match e.emscripten_home {
                        Some(m) => seq!["--emsdk="@ + m],
                        None => Seq::<Seq<char>>::empty(),
                    }) + seq!["--toolchain=emcc"@],
                )
            } else if plat == "cross"@ {
                match sdk {
                    None => None,
                    Some(s) => Some(
                        head + seq![
                            "--sdk="@ + s,
                            "--cross="@ + arch + "-"@ + os,
                            "--toolchain=cross"@,
                        ],
                    ),
                }
            } else {
                Some(head)
            }
        },
    }
}

/// The runtimes argument: the configured selection, or the platform's
/// default unless standard-library linking was opted out.
pub open spec fn spec_runtimes_args(
    c: ConfigV,
    feature: Option<Seq<char>>,
    plat: Seq<char>,
) -> Seq<Seq<char>> {
    match c.runtimes {
        Some(r) => seq!["--runtimes="@ + r],
        None => match spec_default_runtime(plat, spec_static_crt(c.static_crt, feature)) {
            Some(d) => if !c.no_stl_link {
                seq!["--runtimes="@ + d]
            } else {
                Seq::<Seq<char>>::empty()
            },
            None => Seq::<Seq<char>>::empty(),
        },
    }
}

/// Every argument of the configuration step, in order: consent to
/// downloads, the build directory, the platform, the cross-compilation
/// arguments when host and target differ, the runtimes, the mode, and the
/// configured options. `None` when a required input is missing, the target
/// is unsupported, or a cross sdk is wanted and absent.
pub open spec fn spec_config_args(c: ConfigV, e: BuildEnvV, sdk: Option<Seq<char>>) -> Option<
    Seq<Seq<char>>,
> {
    let dst = match c.out_dir {
        Some(d) => Some(d),
        None => e.out_dir,
    };
    match (dst, e.host, e.target, e.target_os) {
        (Some(dstv), Some(host), Some(target), Some(os)) => match spec_plat_used(
            c.plat,
            os,
            e.target_family,
        ) {
            None => None,
            Some(plat) => {
                let base = seq!["--yes"@, "--buildir="@ + dstv, "--plat="@ + plat];
                let crossr = if host == target {
                    Some(Seq::<Seq<char>>::empty())
                } else {
                    spec_cross_args(c, e, os, plat, sdk)
                };
                match crossr {
                    None => None,
                    Some(cross) => match spec_mode(c.mode, e.profile, e.opt_level, e.debug) {
                        None => None,
                        Some(m) => Some(
                            base + cross + spec_runtimes_args(c, e.target_feature, plat) + seq![
                                "-m"@,
                                m,
                            ] + spec_option_args(c.options),
                        ),
                    },
                }
            },
        },
        _ => None,
    }
}

/// Two strings, concatenated.
fn concat2(a: &str, b: &str) -> (r: String)
    ensures
        r@ == a@ + b@,
{
    let mut r = String::from_str(a);
    r.append(b);
    r
}

pub proof fn lemma_env_cache_get_at(
    c: Seq<(Seq<char>, Option<Seq<char>>)>,
    k: Seq<char>,
    i: int,
)
    requires
        0 <= i < c.len(),
        c[i].0 == k,
        forall|j: int| 0 <= j < i ==> c[j].0 != k,
    ensures
        env_cache_get(c, k) == Some(c[i].1),
    decreases i,
{
    if i > 0 {
        lemma_env_cache_get_at(c.drop_first(), k, i - 1);
    }
}

pub proof fn lemma_env_cache_get_none(c: Seq<(Seq<char>, Option<Seq<char>>)>, k: Seq<char>)
    requires
        forall|j: int| 0 <= j < c.len() ==> c[j].0 != k,
    ensures
        env_cache_get(c, k) is None,
    decreases c.len(),
{
    if c.len() > 0 {
        lemma_env_cache_get_none(c.drop_first(), k);
    }
}

/// Decode the filtered payload of a build's introspection step; a missing
/// or undecodable payload is no build information, never an error.
pub fn decode_build_info(output: Option<&str>) -> (r: Option<BuildInfo>)
    ensures
        match output {
            None => r is None,
            Some(s) => match crate::decode::spec_decode(s@) {
                Ok(b) => r is Some && r->0@ == b,
                Err(_) => r is None,
            },
        },
{
    match output {
        None => None,
        Some(s) => match BuildInfo::decode(s) {
            Ok(b) => Some(b),
            Err(_) => None,
        },
    }
}

} // verus!
