use hope::outputs::CrateType;
use hope::outputs::OutputDefn;
use hope::outputs::OutputType;
use hope::outputs::Platform;
use hope::outputs::append_moved_build_script_suffix;
use hope::outputs::build_script_stdout_file_name;
use hope::outputs::output_defns;
use hope::Error;
use hope::unit_name;

#[test]
fn unit_name_concatenates_name_and_suffix() {
    assert_eq!(unit_name("anyhow", "-1f2e3d"), "anyhow-1f2e3d");
}

#[test]
fn file_names_are_deterministic_per_defn() {
    let u = "foo-abc123";
    assert_eq!(OutputDefn::Asm.file_name(u, Platform::LinuxLike), "foo-abc123.s");
    assert_eq!(OutputDefn::LlvmBc.file_name(u, Platform::LinuxLike), "foo-abc123.bc");
    assert_eq!(OutputDefn::LlvmIr.file_name(u, Platform::LinuxLike), "foo-abc123.ll");
    assert_eq!(OutputDefn::Obj.file_name(u, Platform::LinuxLike), "foo-abc123.o");
    assert_eq!(OutputDefn::Metadata.file_name(u, Platform::LinuxLike), "libfoo-abc123.rmeta");
    assert_eq!(OutputDefn::DepInfo.file_name(u, Platform::LinuxLike), "foo-abc123.d");
    assert_eq!(OutputDefn::Mir.file_name(u, Platform::LinuxLike), "foo-abc123.mir");
    assert_eq!(
        OutputDefn::Link(CrateType::Lib).file_name(u, Platform::LinuxLike),
        "libfoo-abc123.rlib"
    );
    assert_eq!(
        OutputDefn::Link(CrateType::Rlib).file_name(u, Platform::DarwinLike),
        "libfoo-abc123.rlib"
    );
    assert_eq!(OutputDefn::Link(CrateType::Bin).file_name(u, Platform::LinuxLike), "foo-abc123");
}

#[test]
fn dynamic_link_names_follow_the_platform() {
    let u = "serde_derive-9f8e";
    assert_eq!(
        OutputDefn::Link(CrateType::ProcMacro).file_name(u, Platform::LinuxLike),
        "libserde_derive-9f8e.so"
    );
    assert_eq!(
        OutputDefn::Link(CrateType::ProcMacro).file_name(u, Platform::DarwinLike),
        "libserde_derive-9f8e.dylib"
    );
    assert_eq!(
        OutputDefn::Link(CrateType::Dylib).file_name(u, Platform::LinuxLike),
        "libserde_derive-9f8e.so"
    );
    assert_eq!(
        OutputDefn::Link(CrateType::Cdylib).file_name(u, Platform::DarwinLike),
        "libserde_derive-9f8e.dylib"
    );
}

#[test]
fn crate_type_parsing_accepts_every_documented_name() {
    assert_eq!(CrateType::from_str("lib").unwrap(), CrateType::Lib);
    assert_eq!(CrateType::from_str("rlib").unwrap(), CrateType::Rlib);
    assert_eq!(CrateType::from_str("staticlib").unwrap(), CrateType::Staticlib);
    assert_eq!(CrateType::from_str("dylib").unwrap(), CrateType::Dylib);
    assert_eq!(CrateType::from_str("cdylib").unwrap(), CrateType::Cdylib);
    assert_eq!(CrateType::from_str("bin").unwrap(), CrateType::Bin);
    assert_eq!(CrateType::from_str("proc-macro").unwrap(), CrateType::ProcMacro);
    assert!(matches!(CrateType::from_str("banana"), Err(Error::UnrecognisedCrateType)));
}

#[test]
fn output_type_parsing_accepts_every_documented_name() {
    assert_eq!(OutputType::from_str("asm").unwrap(), OutputType::Asm);
    assert_eq!(OutputType::from_str("llvm-bc").unwrap(), OutputType::LlvmBc);
    assert_eq!(OutputType::from_str("llvm-ir").unwrap(), OutputType::LlvmIr);
    assert_eq!(OutputType::from_str("obj").unwrap(), OutputType::Obj);
    assert_eq!(OutputType::from_str("metadata").unwrap(), OutputType::Metadata);
    assert_eq!(OutputType::from_str("link").unwrap(), OutputType::Link);
    assert_eq!(OutputType::from_str("dep-info").unwrap(), OutputType::DepInfo);
    assert_eq!(OutputType::from_str("mir").unwrap(), OutputType::Mir);
    assert!(matches!(OutputType::from_str("mango"), Err(Error::UnrecognisedOutputType)));
}

#[test]
fn output_defns_expand_link_per_crate_type() {
    let cts = vec![CrateType::Lib, CrateType::ProcMacro];
    let ots = vec![OutputType::DepInfo, OutputType::Link, OutputType::Metadata];
    let defns = output_defns(&cts, &ots);
    assert_eq!(
        defns,
        vec![
            OutputDefn::DepInfo,
            OutputDefn::Link(CrateType::Lib),
            OutputDefn::Link(CrateType::ProcMacro),
            OutputDefn::Metadata,
        ]
    );
}

#[test]
fn stdout_file_name_embeds_the_script_hash() {
    assert_eq!(
        build_script_stdout_file_name("0a1b2c3d"),
        "build-script-0a1b2c3d-stdout.txt"
    );
}

#[test]
fn moved_build_script_gets_the_fixed_suffix() {
    assert_eq!(
        append_moved_build_script_suffix("/t/debug/build/foo-abc/build_script_build").unwrap(),
        "/t/debug/build/foo-abc/build_script_build-moved-by-hope"
    );
    assert!(matches!(append_moved_build_script_suffix(""), Err(Error::MissingFileName)));
    assert!(matches!(append_moved_build_script_suffix("/a/b/"), Err(Error::MissingFileName)));
}
