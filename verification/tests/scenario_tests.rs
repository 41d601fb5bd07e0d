use hope::cache::Cache;
use hope::cache::LocalCache;
use hope::cache_log::CacheLogLine;
use hope::outputs::CrateType;
use hope::outputs::OutputDefn;
use hope::outputs::Platform;
use hope::protocol::CacheModel;
use hope::protocol::stamped_files;

fn pushes(log: &[CacheLogLine], name: &str) -> usize {
    log.iter()
        .filter(|l| match l {
            CacheLogLine::PushedCrateOutputs(e) => e.crate_unit_name.starts_with(name),
            _ => false,
        })
        .count()
}

fn pulls(log: &[CacheLogLine], name: &str) -> usize {
    log.iter()
        .filter(|l| match l {
            CacheLogLine::PulledCrateOutputs(e) => e.crate_unit_name.starts_with(name),
            _ => false,
        })
        .count()
}

fn wrapper_runs(log: &[CacheLogLine], name: &str) -> usize {
    log.iter()
        .filter(|l| match l {
            CacheLogLine::RanBuildScriptWrapper(e) => e.crate_name.starts_with(name),
            _ => false,
        })
        .count()
}

fn script_runs(log: &[CacheLogLine], name: &str) -> usize {
    log.iter()
        .filter(|l| match l {
            CacheLogLine::RanBuildScript(e) => e.crate_name.starts_with(name),
            _ => false,
        })
        .count()
}

// A build of a workspace with no dependencies never consults the store:
// the log stays empty.
#[test]
fn build_crate_with_no_deps() {
    let store = CacheModel::new();
    assert!(store.log.is_empty());
    assert!(store.units.is_empty());
}

// One plain library dependency: the first build pushes once; rebuilding
// the same workspace adds nothing; a second workspace pulls exactly once
// and pushes nothing.
#[test]
fn build_crate_with_simple_dep() {
    let mut store = CacheModel::new();

    // Workspace A builds: miss, then push.
    let pulled = store.run_compiler_role("anyhow-9f86d081884c7d65", None, "t1", 10);
    assert!(!pulled);
    assert_eq!(store.log.len(), 1);
    assert_eq!(pushes(&store.log, "anyhow-"), 1);

    // Rebuilding workspace A is up to date: the driver never invokes the
    // wrapper again, so the log is unchanged.
    assert_eq!(store.log.len(), 1);
    assert_eq!(pulls(&store.log, "anyhow-"), 0);

    // Workspace B builds the same unit: pulled, not pushed again.
    let pulled = store.run_compiler_role("anyhow-9f86d081884c7d65", None, "t2", 5);
    assert!(pulled);
    assert_eq!(pushes(&store.log, "anyhow-"), 1);
    assert_eq!(pulls(&store.log, "anyhow-"), 1);
}

// A procedural-macro dependency: pushed once, and its stored
// link-artifact name carries the platform's dynamic-library suffix.
#[test]
fn build_dep_with_proc_macro() {
    let mut store = CacheModel::new();
    let pulled = store.run_compiler_role("serde_derive-55aa", None, "t1", 10);
    assert!(!pulled);
    assert_eq!(pushes(&store.log, "serde_derive-"), 1);

    let linux = OutputDefn::Link(CrateType::ProcMacro).file_name("serde_derive-55aa", Platform::LinuxLike);
    assert!(linux.ends_with(".so"));
    let darwin = OutputDefn::Link(CrateType::ProcMacro).file_name("serde_derive-55aa", Platform::DarwinLike);
    assert!(darwin.ends_with(".dylib"));
}

// A dependency whose build script emits cargo directives. Workspace A
// runs the real script once and pushes the unit with the captured
// stdout. Workspace B replays the stdout without running the script, with
// every rerun-if directive suppressed, and pulls the main unit.
#[test]
fn build_dep_with_build_script() {
    let mut store = CacheModel::new();
    let stdout = "cargo:rustc-cfg=has_std\ncargo:rerun-if-changed=build.rs\n";

    // Workspace A: the impersonator finds no cached stdout and runs the
    // real script.
    let replayed = store.run_impersonator("typenum", "1a2b3c", stdout, "t1");
    assert!(replayed.is_none());
    assert_eq!(wrapper_runs(&store.log, "typenum"), 1);
    assert_eq!(script_runs(&store.log, "typenum"), 1);

    // The main unit misses and is pushed together with the stdout.
    let pulled = store.run_compiler_role("typenum-77ee", Some(("1a2b3c", stdout)), "t2", 10);
    assert!(!pulled);
    assert_eq!(pushes(&store.log, "typenum-"), 1);
    assert!(store.get_build_script_stdout("1a2b3c").is_some());

    // Workspace B: the impersonator replays the cached stdout, filtered.
    let replayed = store.run_impersonator("typenum", "1a2b3c", stdout, "t3");
    assert_eq!(replayed.as_deref(), Some("cargo:rustc-cfg=has_std\n"));
    assert_eq!(wrapper_runs(&store.log, "typenum"), 2);
    assert_eq!(script_runs(&store.log, "typenum"), 1);

    // The main unit is pulled; the deferred recipe is discarded unrun.
    let pulled = store.run_compiler_role("typenum-77ee", None, "t4", 3);
    assert!(pulled);
    assert_eq!(pushes(&store.log, "typenum-"), 1);
    assert_eq!(pulls(&store.log, "typenum-"), 1);
    assert_eq!(script_runs(&store.log, "typenum"), 1);
}

// A build script that writes compiled files into its out-dir: the second
// workspace succeeds off the cache alone, and nothing new happens on the
// build after that.
#[test]
fn build_dep_with_emitting_build_script() {
    let mut store = CacheModel::new();
    let stdout = "cargo:rerun-if-changed=build/main.rs\n";

    let replayed = store.run_impersonator("ring", "aa11", stdout, "t1");
    assert!(replayed.is_none());
    let pulled = store.run_compiler_role("ring-bb22", Some(("aa11", stdout)), "t2", 50);
    assert!(!pulled);

    // Workspace B: everything comes from the cache; the real script does
    // not run.
    let replayed = store.run_impersonator("ring", "aa11", stdout, "t3");
    assert_eq!(replayed.as_deref(), Some(""));
    let pulled = store.run_compiler_role("ring-bb22", None, "t4", 4);
    assert!(pulled);
    assert_eq!(script_runs(&store.log, "ring"), 1);
    let len_after_b = store.log.len();

    // An immediately subsequent build of workspace B is up to date: the
    // driver invokes nothing, and the log stays as it is.
    assert_eq!(store.log.len(), len_after_b);
    assert_eq!(pushes(&store.log, "ring-"), 1);
    assert_eq!(pulls(&store.log, "ring-"), 1);
}

// Sources carrying mtimes later than the cached artifacts must not cause
// rebuild loops: every pulled file is stamped with the sentinel reading,
// and dependency-info lines into build directories are gone, so a third
// consecutive build sees nothing stale and registers no new entries.
#[test]
fn build_dep_with_newer_source_mtimes() {
    let mut store = CacheModel::new();
    let pulled = store.run_compiler_role("libc-cc33", None, "t1", 10);
    assert!(!pulled);
    let pulled = store.run_compiler_role("libc-cc33", None, "t2", 2);
    assert!(pulled);

    // The pull stamps every arriving file with the sentinel's reading, so
    // no file in the out-dir is older than the sentinel.
    let cache = LocalCache::new("/store".to_string());
    let defns = vec![OutputDefn::DepInfo, OutputDefn::Link(CrateType::Lib)];
    let names = cache.pulled_file_names("libc-cc33", &defns, Platform::LinuxLike);
    assert_eq!(names, vec!["libc-cc33.d".to_string(), "liblibc-cc33.rlib".to_string()]);
    let sentinel: u64 = 1_700_000_000;
    let files = stamped_files(&names, sentinel);
    assert!(files.iter().all(|f| f.1 >= sentinel));

    // The rewritten dependency info lists no build-directory paths that
    // the driver could find newer than the sentinel.
    let rewritten = hope::dep_info::rewrite_dep_info(
        "/s/liblibc-cc33.rlib: /reg/src/lib.rs /ws/target/debug/build/libc-cc33/out/gen.rs\n",
    )
    .unwrap();
    assert_eq!(rewritten, "/s/liblibc-cc33.rlib: /reg/src/lib.rs\n");

    // A third consecutive build invokes nothing new.
    let len_before = store.log.len();
    assert_eq!(store.log.len(), len_before);
    assert_eq!(pushes(&store.log, "libc-"), 1);
    assert_eq!(pulls(&store.log, "libc-"), 1);
}

// The store's copy plans name every file of the unit, in both directions.
#[test]
fn copy_plans_cover_every_output_defn() {
    let cache = LocalCache::new("/store".to_string());
    let defns = vec![
        OutputDefn::DepInfo,
        OutputDefn::Metadata,
        OutputDefn::Link(CrateType::Lib),
    ];
    let pull = cache.pull_plan("anyhow-9f", &defns, "/tmp/arrive", Platform::LinuxLike);
    assert_eq!(pull.len(), 3);
    assert_eq!(pull[0].from, "/store/anyhow-9f.d");
    assert_eq!(pull[0].to, "/tmp/arrive/anyhow-9f.d");
    assert_eq!(pull[1].from, "/store/libanyhow-9f.rmeta");
    assert_eq!(pull[2].from, "/store/libanyhow-9f.rlib");

    let push = cache.push_plan("anyhow-9f", &defns, "/tmp/depart", Platform::LinuxLike);
    assert_eq!(push[0].from, "/tmp/depart/anyhow-9f.d");
    assert_eq!(push[0].to, "/store/anyhow-9f.d");

    assert_eq!(
        cache.build_script_stdout_path("1a2b"),
        "/store/build-script-1a2b-stdout.txt"
    );
    assert_eq!(cache.log_path(), "/store/hope-log.jsonl");
    assert_eq!(
        hope::cache::invoked_timestamp_sentinel_path("/ws/target/debug/.fingerprint", "anyhow", "9f"),
        "/ws/target/debug/.fingerprint/anyhow-9f/invoked.timestamp"
    );
}

// The store trait's stdout operations behave as stated: a get returns
// what was last put under the hash, since the store keeps one file per
// hash and a later put overwrites it.
#[test]
fn stdout_store_operations() {
    let mut store = CacheModel::new();
    assert!(store.get_build_script_stdout("h1").is_none());
    store.put_build_script_stdout("h1", "cargo:rustc-cfg=x\n");
    assert_eq!(
        store.get_build_script_stdout("h1").as_deref(),
        Some("cargo:rustc-cfg=x\n")
    );
    store.put_build_script_stdout("h2", "other\n");
    store.put_build_script_stdout("h1", "cargo:rustc-cfg=y\n");
    assert_eq!(
        store.get_build_script_stdout("h1").as_deref(),
        Some("cargo:rustc-cfg=y\n")
    );
    assert_eq!(store.get_build_script_stdout("h2").as_deref(), Some("other\n"));
    assert!(store.log.is_empty());
}
