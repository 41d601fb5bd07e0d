use hope::build_script::BuildScriptInvocationInfo;
use hope::build_script::ImpersonationContext;
use hope::build_script::filter_build_script_stdout;
use hope::build_script::invocation_info_file_name;
use hope::build_script::parse_build_dir_name;
use hope::build_script::real_build_script_link_name;
use hope::build_script::substitution_plan;
use hope::Error;

#[test]
fn fixed_names_are_fixed() {
    assert_eq!(invocation_info_file_name(), "build-script-invocation-info.json");
    assert_eq!(real_build_script_link_name(), "real-build-script");
}

#[test]
fn stdout_filter_suppresses_rerun_directives() {
    let stdout = "cargo:rustc-cfg=has_std\n\
                  cargo:rerun-if-changed=build.rs\n\
                  cargo:rerun-if-env-changed=FOO\n\
                  cargo:rustc-link-lib=z\n";
    assert_eq!(
        filter_build_script_stdout(stdout),
        "cargo:rustc-cfg=has_std\ncargo:rustc-link-lib=z\n"
    );
}

#[test]
fn stdout_filter_keeps_everything_else() {
    assert_eq!(filter_build_script_stdout(""), "");
    assert_eq!(filter_build_script_stdout("plain\n"), "plain\n");
    // A final line without a newline gains its terminator.
    assert_eq!(filter_build_script_stdout("a\nb"), "a\nb\n");
}

#[test]
fn build_dir_names_split_at_the_last_dash() {
    assert_eq!(
        parse_build_dir_name("typenum-1a2b3c4d").unwrap(),
        ("typenum".to_string(), "1a2b3c4d".to_string())
    );
    assert_eq!(
        parse_build_dir_name("serde-test-55aa").unwrap(),
        ("serde-test".to_string(), "55aa".to_string())
    );
    assert!(matches!(parse_build_dir_name("nodash"), Err(Error::BadBuildDirName)));
}

#[test]
fn impersonation_context_reads_the_invoked_paths() {
    let ctx = ImpersonationContext::derive(
        "/ws/target/debug/build/typenum-1a2b/build-script-build",
        "/ws/target/debug/build/typenum-9f8e/out",
    )
    .unwrap();
    assert_eq!(
        ctx.real_build_script_symlink_path,
        "/ws/target/debug/build/typenum-1a2b/real-build-script"
    );
    assert_eq!(ctx.crate_name, "typenum");
    assert_eq!(ctx.run_metadata_hash, "9f8e");
}

#[test]
fn recipe_out_dir_comes_from_the_recorded_environment() {
    let info = BuildScriptInvocationInfo {
        real_build_script_path: "/ws/target/debug/build/t-1a/build_script_build-moved-by-hope"
            .to_string(),
        env_vars: vec![
            ("CARGO_PKG_NAME".to_string(), "typenum".to_string()),
            ("OUT_DIR".to_string(), "/ws/target/debug/build/t-9f/out".to_string()),
        ],
        work_dir: "/reg/typenum-1.17.0".to_string(),
    };
    assert_eq!(info.out_dir().unwrap(), "/ws/target/debug/build/t-9f/out");
    assert_eq!(
        info.invoked_timestamp_path().unwrap(),
        "/ws/target/debug/build/t-9f/invoked.timestamp"
    );
}

#[test]
fn recipe_without_out_dir_is_rejected() {
    let info = BuildScriptInvocationInfo {
        real_build_script_path: "/x".to_string(),
        env_vars: vec![("HOME".to_string(), "/root".to_string())],
        work_dir: "/w".to_string(),
    };
    assert!(matches!(info.out_dir(), Err(Error::MissingOutDirVar)));
}

#[test]
fn recipe_json_round_trips_through_a_json_parser() {
    let info = BuildScriptInvocationInfo {
        real_build_script_path: "/b/build_script_build-moved-by-hope".to_string(),
        env_vars: vec![
            ("OUT_DIR".to_string(), "/o".to_string()),
            ("PATH".to_string(), "/usr/bin:/bin".to_string()),
        ],
        work_dir: "/w".to_string(),
    };
    let text = info.to_json();
    assert_eq!(
        text,
        "{\"real_build_script_path\":\"/b/build_script_build-moved-by-hope\",\
         \"env_vars\":{\"OUT_DIR\":\"/o\",\"PATH\":\"/usr/bin:/bin\"},\"work_dir\":\"/w\"}"
    );
    let v: serde_json::Value = serde_json::from_str(&text).unwrap();
    assert_eq!(
        v.get("env_vars").unwrap().get("OUT_DIR").unwrap().as_str().unwrap(),
        "/o"
    );
    assert_eq!(v.get("work_dir").unwrap().as_str().unwrap(), "/w");
}

#[test]
fn recipe_json_with_empty_environment() {
    let info = BuildScriptInvocationInfo {
        real_build_script_path: "/b".to_string(),
        env_vars: vec![],
        work_dir: "/w".to_string(),
    };
    assert_eq!(
        info.to_json(),
        "{\"real_build_script_path\":\"/b\",\"env_vars\":{},\"work_dir\":\"/w\"}"
    );
}

#[test]
fn substitution_plan_names_every_path() {
    let plan = substitution_plan("/ws/target/debug/build/foo-1a", "build_script_build-1a").unwrap();
    assert_eq!(
        plan.build_script_path,
        "/ws/target/debug/build/foo-1a/build_script_build-1a"
    );
    assert_eq!(
        plan.moved_build_script_path,
        "/ws/target/debug/build/foo-1a/build_script_build-1a-moved-by-hope"
    );
    assert_eq!(plan.symlink_path, "/ws/target/debug/build/foo-1a/real-build-script");
    assert!(matches!(substitution_plan("/d", ""), Err(Error::MissingFileName)));
}
