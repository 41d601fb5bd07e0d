use hope::args::CompilerDecision;
use hope::args::FlagOrKvPair;
use hope::args::Invocation;
use hope::args::classify;
use hope::args::decide_compiler_role;
use hope::args::find_codegen_value;
use hope::args::parse_args;
use hope::outputs::CrateType;
use hope::outputs::OutputType;
use hope::Error;

fn strings(v: &[&str]) -> Vec<String> {
    v.iter().map(|s| s.to_string()).collect()
}

#[test]
fn errors_carry_their_description() {
    assert_eq!(Error::MissingRustcPath.message(), "Missing argument for real `rustc` path");
    assert_eq!(Error::MissingCrateName.message(), "Missing crate name argument");
    assert_eq!(
        Error::MissingOutDir.message(),
        "Missing out-dir; don't know where build artifacts are supposed to be"
    );
}

#[test]
fn flag_or_kv_splits_at_the_first_equals() {
    match FlagOrKvPair::from_str("metadata=abc=def") {
        FlagOrKvPair::KvPair(kv) => {
            assert_eq!(kv.key, "metadata");
            assert_eq!(kv.value, "abc=def");
        },
        FlagOrKvPair::Flag(_) => panic!("expected a key-value pair"),
    }
    match FlagOrKvPair::from_str("prefer-dynamic") {
        FlagOrKvPair::Flag(f) => assert_eq!(f, "prefer-dynamic"),
        FlagOrKvPair::KvPair(_) => panic!("expected a bare flag"),
    }
}

#[test]
fn classify_spots_the_build_script_shape() {
    let argv = strings(&["/ws/target/debug/build/typenum-1a2b/build-script-build"]);
    match classify(&argv).unwrap() {
        Invocation::BuildScript { called_as } => {
            assert_eq!(called_as, "/ws/target/debug/build/typenum-1a2b/build-script-build");
        },
        Invocation::Compiler { .. } => panic!("expected the build-script role"),
    }
}

#[test]
fn classify_spots_the_compiler_shape() {
    let argv = strings(&["/usr/bin/hope", "/usr/bin/rustc", "--crate-name", "foo", "src/lib.rs"]);
    match classify(&argv).unwrap() {
        Invocation::Compiler { rustc_path, compiler_args } => {
            assert_eq!(rustc_path, "/usr/bin/rustc");
            assert_eq!(compiler_args, strings(&["--crate-name", "foo", "src/lib.rs"]));
        },
        Invocation::BuildScript { .. } => panic!("expected the compiler role"),
    }
}

#[test]
fn classify_rejects_degenerate_argv() {
    assert!(matches!(classify(&strings(&[])), Err(Error::MissingExeArg)));
    assert!(matches!(classify(&strings(&["/usr/bin/hope"])), Err(Error::MissingRustcPath)));
}

#[test]
fn parse_args_reads_the_inspected_fields() {
    let argv = strings(&[
        "--crate-name",
        "anyhow",
        "--edition=2018",
        "/reg/index.crates.io-6f17d22bba15001f/anyhow-1.0.0/src/lib.rs",
        "--crate-type",
        "lib",
        "--emit=dep-info,link",
        "-C",
        "embed-bitcode=no",
        "-C",
        "metadata=9f86d081884c7d65",
        "-C",
        "extra-filename=-9f86d081884c7d65",
        "--out-dir",
        "/ws/target/debug/deps",
        "-L",
        "dependency=/ws/target/debug/deps",
        "--cap-lints",
        "allow",
    ]);
    let pa = parse_args(&argv).unwrap();
    assert_eq!(
        pa.input.as_deref(),
        Some("/reg/index.crates.io-6f17d22bba15001f/anyhow-1.0.0/src/lib.rs")
    );
    assert_eq!(pa.crate_name.as_deref(), Some("anyhow"));
    assert_eq!(pa.crate_types, strings(&["lib"]));
    assert_eq!(pa.emit, strings(&["dep-info", "link"]));
    assert_eq!(pa.out_dir.as_deref(), Some("/ws/target/debug/deps"));
    assert_eq!(
        find_codegen_value(&pa.codegen_options, "metadata").as_deref(),
        Some("9f86d081884c7d65")
    );
    assert_eq!(
        find_codegen_value(&pa.codegen_options, "extra-filename").as_deref(),
        Some("-9f86d081884c7d65")
    );
    assert_eq!(
        find_codegen_value(&pa.codegen_options, "embed-bitcode").as_deref(),
        Some("no")
    );
    assert_eq!(find_codegen_value(&pa.codegen_options, "incremental"), None);
}

#[test]
fn parse_args_accepts_inline_short_values() {
    let argv = strings(&["-Cmetadata=aa", "src/lib.rs", "-Ldependency=/x"]);
    let pa = parse_args(&argv).unwrap();
    assert_eq!(find_codegen_value(&pa.codegen_options, "metadata").as_deref(), Some("aa"));
    assert_eq!(pa.input.as_deref(), Some("src/lib.rs"));
}

#[test]
fn parse_args_rejects_what_the_schema_refuses() {
    assert!(matches!(
        parse_args(&strings(&["--no-such-option", "x"])),
        Err(Error::UnrecognisedFlag)
    ));
    assert!(matches!(parse_args(&strings(&["--crate-name"])), Err(Error::MissingArgValue)));
    assert!(matches!(parse_args(&strings(&["-C"])), Err(Error::MissingArgValue)));
    assert!(matches!(parse_args(&strings(&["a.rs", "b.rs"])), Err(Error::UnexpectedArgument)));
}

fn cacheable_argv() -> Vec<String> {
    strings(&[
        "--crate-name",
        "anyhow",
        "/reg/index.crates.io-6f17d22bba15001f/anyhow-1.0.0/src/lib.rs",
        "--crate-type",
        "lib",
        "--emit=dep-info,metadata,link",
        "-C",
        "metadata=9f86d081884c7d65",
        "-C",
        "extra-filename=-9f86d081884c7d65",
        "--out-dir",
        "/ws/target/debug/deps",
    ])
}

#[test]
fn decide_passes_through_without_input() {
    let pa = parse_args(&strings(&["--version"])).unwrap();
    assert!(matches!(decide_compiler_role(&pa).unwrap(), CompilerDecision::PassThrough));
}

#[test]
fn decide_passes_through_outside_the_registry() {
    let pa = parse_args(&strings(&["--crate-name", "foo", "src/lib.rs"])).unwrap();
    assert!(matches!(decide_compiler_role(&pa).unwrap(), CompilerDecision::PassThrough));
}

#[test]
fn decide_builds_the_full_cacheable_plan() {
    let pa = parse_args(&cacheable_argv()).unwrap();
    match decide_compiler_role(&pa).unwrap() {
        CompilerDecision::Cacheable(plan) => {
            assert_eq!(plan.crate_name, "anyhow");
            assert_eq!(plan.extra_filename, "-9f86d081884c7d65");
            assert_eq!(plan.metadata_hash, "9f86d081884c7d65");
            assert_eq!(plan.crate_unit_name, "anyhow-9f86d081884c7d65");
            assert_eq!(plan.out_dir, "/ws/target/debug/deps");
            assert_eq!(plan.crate_types, vec![CrateType::Lib]);
            assert_eq!(
                plan.output_types,
                vec![OutputType::DepInfo, OutputType::Metadata, OutputType::Link]
            );
        },
        CompilerDecision::PassThrough => panic!("expected a cacheable plan"),
    }
}

#[test]
fn decide_demands_each_missing_field_in_order() {
    let input = "/reg/index.crates.io-6f17d22bba15001f/anyhow-1.0.0/src/lib.rs";
    let pa = parse_args(&strings(&[input])).unwrap();
    assert!(matches!(decide_compiler_role(&pa), Err(Error::MissingOutDir)));

    let pa = parse_args(&strings(&[input, "--out-dir", "/d"])).unwrap();
    assert!(matches!(decide_compiler_role(&pa), Err(Error::MissingCrateName)));

    let pa = parse_args(&strings(&[input, "--out-dir", "/d", "--crate-name", "anyhow"])).unwrap();
    assert!(matches!(decide_compiler_role(&pa), Err(Error::MissingExtraFilename)));

    let pa = parse_args(
        &strings(&[input, "--out-dir", "/d", "--crate-name", "anyhow", "-C", "extra-filename=-a"]),
    )
    .unwrap();
    assert!(matches!(decide_compiler_role(&pa), Err(Error::MissingMetadata)));

    let pa = parse_args(
        &strings(&[
            input,
            "--out-dir",
            "/d",
            "--crate-name",
            "anyhow",
            "-C",
            "extra-filename=-a",
            "-C",
            "metadata=a",
            "--crate-type",
            "nonsense",
        ]),
    )
    .unwrap();
    assert!(matches!(decide_compiler_role(&pa), Err(Error::UnrecognisedCrateType)));

    let pa = parse_args(
        &strings(&[
            input,
            "--out-dir",
            "/d",
            "--crate-name",
            "anyhow",
            "-C",
            "extra-filename=-a",
            "-C",
            "metadata=a",
            "--crate-type",
            "lib",
            "--emit",
            "nonsense",
        ]),
    )
    .unwrap();
    assert!(matches!(decide_compiler_role(&pa), Err(Error::UnrecognisedOutputType)));
}

#[test]
fn decide_deduplicates_repeated_types() {
    let pa = parse_args(
        &strings(&[
            "/reg/index.crates.io-6f17d22bba15001f/anyhow-1.0.0/src/lib.rs",
            "--out-dir",
            "/d",
            "--crate-name",
            "anyhow",
            "-C",
            "extra-filename=-a",
            "-C",
            "metadata=a",
            "--crate-type",
            "lib",
            "--crate-type",
            "lib",
            "--emit=link,link,dep-info",
        ]),
    )
    .unwrap();
    match decide_compiler_role(&pa).unwrap() {
        CompilerDecision::Cacheable(plan) => {
            assert_eq!(plan.crate_types, vec![CrateType::Lib]);
            assert_eq!(plan.output_types, vec![OutputType::Link, OutputType::DepInfo]);
        },
        CompilerDecision::PassThrough => panic!("expected a cacheable plan"),
    }
}
