//! Output definitions: which files a compiler invocation emits, and the
//! deterministic name of each one.

use vstd::prelude::*;

use crate::Error;

verus! {

/// The kinds of compilation target selected with `--crate-type`.
#[derive(Clone, Copy, PartialEq, Eq, Structural, Debug, Hash)]
pub enum CrateType {
    Lib,
    Rlib,
    Staticlib,
    Dylib,
    Cdylib,
    Bin,
    ProcMacro,
}

/// The kinds of emitted output selected with `--emit`.
#[derive(Clone, Copy, PartialEq, Eq, Structural, Debug, Hash)]
pub enum OutputType {
    Asm,
    LlvmBc,
    LlvmIr,
    Obj,
    Metadata,
    Link,
    DepInfo,
    Mir,
}

/// The host flavour that decides dynamic-library file extensions.
#[derive(Clone, Copy, PartialEq, Eq, Structural, Debug, Hash)]
pub enum Platform {
    LinuxLike,
    DarwinLike,
}

/// One emitted file family: an output type, with the crate type attached
/// for linked artifacts. Enough to compute the emitted file's name.
#[derive(Clone, Copy, PartialEq, Eq, Structural, Debug, Hash)]
pub enum OutputDefn {
    Asm,
    LlvmBc,
    LlvmIr,
    Obj,
    Metadata,
    Link(CrateType),
    DepInfo,
    Mir,
}

/// The crate type named by `s`, if `s` is one of the recognised names.
pub open spec fn crate_type_of(s: Seq<char>) -> Option<CrateType> {
    if s == "lib"@ {
        Some(CrateType::Lib)
    } else if s == "rlib"@ {
        Some(CrateType::Rlib)
    } else if s == "staticlib"@ {
        Some(CrateType::Staticlib)
    } else if s == "dylib"@ {
        Some(CrateType::Dylib)
    } else if s == "cdylib"@ {
        Some(CrateType::Cdylib)
    } else if s == "bin"@ {
        Some(CrateType::Bin)
    } else if s == "proc-macro"@ {
        Some(CrateType::ProcMacro)
    } else {
        None
    }
}

/// The output type named by `s`, if `s` is one of the recognised names.
pub open spec fn output_type_of(s: Seq<char>) -> Option<OutputType> {
    if s == "asm"@ {
        Some(OutputType::Asm)
    } else if s == "llvm-bc"@ {
        Some(OutputType::LlvmBc)
    } else if s == "llvm-ir"@ {
        Some(OutputType::LlvmIr)
    } else if s == "obj"@ {
        Some(OutputType::Obj)
    } else if s == "metadata"@ {
        Some(OutputType::Metadata)
    } else if s == "link"@ {
        Some(OutputType::Link)
    } else if s == "dep-info"@ {
        Some(OutputType::DepInfo)
    } else if s == "mir"@ {
        Some(OutputType::Mir)
    } else {
        None
    }
}

impl CrateType {
    /// Parses a `--crate-type` value; every name the compiler accepts is
    /// recognised, anything else is rejected.
    pub fn from_str(s: &str) -> (r: Result<CrateType, Error>)
        ensures
            match r {
                Ok(t) => crate_type_of(s@) == Some(t),
                Err(e) => crate_type_of(s@) is None && e == Error::UnrecognisedCrateType,
            },
    {
        let c = crate::text::to_chars(s);
        let v = c.as_slice();
        if crate::text::str_eq_chars("lib", v) {
            Ok(CrateType::Lib)
        } else if crate::text::str_eq_chars("rlib", v) {
            Ok(CrateType::Rlib)
        } else if crate::text::str_eq_chars("staticlib", v) {
            Ok(CrateType::Staticlib)
        } else if crate::text::str_eq_chars("dylib", v) {
            Ok(CrateType::Dylib)
        } else if crate::text::str_eq_chars("cdylib", v) {
            Ok(CrateType::Cdylib)
        } else if crate::text::str_eq_chars("bin", v) {
            Ok(CrateType::Bin)
        } else if crate::text::str_eq_chars("proc-macro", v) {
            Ok(CrateType::ProcMacro)
        } else {
            Err(Error::UnrecognisedCrateType)
        }
    }
}

impl OutputType {
    /// Parses an `--emit` item; every documented item is recognised,
    /// anything else is rejected.
    pub fn from_str(s: &str) -> (r: Result<OutputType, Error>)
        ensures
            match r {
                Ok(t) => output_type_of(s@) == Some(t),
                Err(e) => output_type_of(s@) is None && e == Error::UnrecognisedOutputType,
            },
    {
        let c = crate::text::to_chars(s);
        let v = c.as_slice();
        if crate::text::str_eq_chars("asm", v) {
            Ok(OutputType::Asm)
        } else if crate::text::str_eq_chars("llvm-bc", v) {
            Ok(OutputType::LlvmBc)
        } else if crate::text::str_eq_chars("llvm-ir", v) {
            Ok(OutputType::LlvmIr)
        } else if crate::text::str_eq_chars("obj", v) {
            Ok(OutputType::Obj)
        } else if crate::text::str_eq_chars("metadata", v) {
            Ok(OutputType::Metadata)
        } else if crate::text::str_eq_chars("link", v) {
            Ok(OutputType::Link)
        } else if crate::text::str_eq_chars("dep-info", v) {
            Ok(OutputType::DepInfo)
        } else if crate::text::str_eq_chars("mir", v) {
            Ok(OutputType::Mir)
        } else {
            Err(Error::UnrecognisedOutputType)
        }
    }
}

/// The file name of the linked artifact for crate type `ct` and unit name
/// `unit` on `platform`.
pub open spec fn spec_link_file_name(ct: CrateType, unit: Seq<char>, platform: Platform) -> Seq<
    char,
> {
    match ct {
        CrateType::Lib => "lib"@ + unit + ".rlib"@,
        CrateType::Rlib => "lib"@ + unit + ".rlib"@,
        CrateType::Staticlib => "lib"@ + unit + ".rlib"@,
        CrateType::Bin => unit,
        CrateType::Dylib => spec_dylib_file_name(unit, platform),
        CrateType::Cdylib => spec_dylib_file_name(unit, platform),
        CrateType::ProcMacro => spec_dylib_file_name(unit, platform),
    }
}

/// The platform-dependent dynamic-library file name for unit name `unit`.
pub open spec fn spec_dylib_file_name(unit: Seq<char>, platform: Platform) -> Seq<char> {
    match platform {
        Platform::LinuxLike => "lib"@ + unit + ".so"@,
        Platform::DarwinLike => "lib"@ + unit + ".dylib"@,
    }
}

/// The file name emitted for output definition `defn` and unit name `unit`
/// on `platform`: a pure function of those three values.
pub open spec fn spec_file_name(defn: OutputDefn, unit: Seq<char>, platform: Platform) -> Seq<
    char,
> {
    match defn {
        OutputDefn::Asm => unit + ".s"@,
        OutputDefn::LlvmBc => unit + ".bc"@,
        OutputDefn::LlvmIr => unit + ".ll"@,
        OutputDefn::Obj => unit + ".o"@,
        OutputDefn::Metadata => "lib"@ + unit + ".rmeta"@,
        OutputDefn::Link(ct) => spec_link_file_name(ct, unit, platform),
        OutputDefn::DepInfo => unit + ".d"@,
        OutputDefn::Mir => unit + ".mir"@,
    }
}

/// `a ⧺ b`.
fn concat2(a: &str, b: &str) -> (r: String)
    ensures
        r@ == a@ + b@,
{
    let mut s = a.to_owned();
    s.append(b);
    s
}

/// `a ⧺ b ⧺ c`.
fn concat3(a: &str, b: &str, c: &str) -> (r: String)
    ensures
        r@ == a@ + b@ + c@,
{
    let mut s = a.to_owned();
    s.append(b);
    s.append(c);
    s
}

impl OutputDefn {
    /// The name of the file this output definition emits for the given
    /// unit name, on the given platform.
    pub fn file_name(&self, crate_unit_name: &str, platform: Platform) -> (r: String)
        ensures
            r@ == spec_file_name(*self, crate_unit_name@, platform),
    {
        match self {
            OutputDefn::Asm => concat2(crate_unit_name, ".s"),
            OutputDefn::LlvmBc => concat2(crate_unit_name, ".bc"),
            OutputDefn::LlvmIr => concat2(crate_unit_name, ".ll"),
            OutputDefn::Obj => concat2(crate_unit_name, ".o"),
            OutputDefn::Metadata => concat3("lib", crate_unit_name, ".rmeta"),
            OutputDefn::Link(ct) => match ct {
                CrateType::Lib => concat3("lib", crate_unit_name, ".rlib"),
                CrateType::Rlib => concat3("lib", crate_unit_name, ".rlib"),
                CrateType::Staticlib => concat3("lib", crate_unit_name, ".rlib"),
                CrateType::Bin => crate_unit_name.to_owned(),
                CrateType::Dylib => dylib_file_name(crate_unit_name, platform),
                CrateType::Cdylib => dylib_file_name(crate_unit_name, platform),
                CrateType::ProcMacro => dylib_file_name(crate_unit_name, platform),
            },
            OutputDefn::DepInfo => concat2(crate_unit_name, ".d"),
            OutputDefn::Mir => concat2(crate_unit_name, ".mir"),
        }
    }
}

/// The platform-dependent dynamic-library file name for the given unit name.
fn dylib_file_name(crate_unit_name: &str, platform: Platform) -> (r: String)
    ensures
        r@ == spec_dylib_file_name(crate_unit_name@, platform),
{
    match platform {
        Platform::LinuxLike => concat3("lib", crate_unit_name, ".so"),
        Platform::DarwinLike => concat3("lib", crate_unit_name, ".dylib"),
    }
}

/// Filename determinism: the emitted file name depends on the output
/// definition, the unit name and the platform, and on nothing else.
pub proof fn lemma_file_name_deterministic(
    d1: OutputDefn,
    d2: OutputDefn,
    u1: Seq<char>,
    u2: Seq<char>,
    p1: Platform,
    p2: Platform,
)
    requires
        d1 == d2,
        u1 == u2,
        p1 == p2,
    ensures
        spec_file_name(d1, u1, p1) == spec_file_name(d2, u2, p2),
{
}

/// The output definitions produced for one output type: every crate type
/// gets its own linked artifact; any other output type yields one
/// definition.
pub open spec fn spec_defns_for(cts: Seq<CrateType>, ot: OutputType) -> Seq<OutputDefn> {
    match ot {
        OutputType::Asm => seq![OutputDefn::Asm],
        OutputType::LlvmBc => seq![OutputDefn::LlvmBc],
        OutputType::LlvmIr => seq![OutputDefn::LlvmIr],
        OutputType::Obj => seq![OutputDefn::Obj],
        OutputType::Metadata => seq![OutputDefn::Metadata],
        OutputType::Link => cts.map_values(|ct: CrateType| OutputDefn::Link(ct)),
        OutputType::DepInfo => seq![OutputDefn::DepInfo],
        OutputType::Mir => seq![OutputDefn::Mir],
    }
}

/// Every output definition that applies to an invocation with the given
/// crate types and output types, in order.
pub open spec fn spec_output_defns(cts: Seq<CrateType>, ots: Seq<OutputType>) -> Seq<OutputDefn>
    decreases ots.len(),
{
    if ots.len() == 0 {
        Seq::empty()
    } else {
        spec_defns_for(cts, ots[0]) + spec_output_defns(cts, ots.drop_first())
    }
}

/// The list of output definitions the wrapper must account for, from the
/// parsed `--crate-type` and `--emit` values.
pub fn output_defns(crate_types: &Vec<CrateType>, output_types: &Vec<OutputType>) -> (r: Vec<
    OutputDefn,
>)
    ensures
        r@ == spec_output_defns(crate_types@, output_types@),
{
    let mut r: Vec<OutputDefn> = Vec::new();
    let mut i: usize = 0;
    while i < output_types.len()
        invariant
            i <= output_types@.len(),
            r@ == spec_output_defns(crate_types@, output_types@.subrange(0, i as int)),
        decreases output_types@.len() - i,
    {
        let ot = output_types[i];
        match ot {
            OutputType::Asm => r.push(OutputDefn::Asm),
            OutputType::LlvmBc => r.push(OutputDefn::LlvmBc),
            OutputType::LlvmIr => r.push(OutputDefn::LlvmIr),
            OutputType::Obj => r.push(OutputDefn::Obj),
            OutputType::Metadata => r.push(OutputDefn::Metadata),
            OutputType::Link => {
                let mut j: usize = 0;
                while j < crate_types.len()
                    invariant
                        j <= crate_types@.len(),
                        r@ == spec_output_defns(crate_types@, output_types@.subrange(0, i as int))
                            + crate_types@.subrange(0, j as int).map_values(
                            |ct: CrateType| OutputDefn::Link(ct),
                        ),
                    decreases crate_types@.len() - j,
                {
                    r.push(OutputDefn::Link(crate_types[j]));
                    proof {
                        assert(crate_types@.subrange(0, j + 1 as int).map_values(
                            |ct: CrateType| OutputDefn::Link(ct),
                        ) =~= crate_types@.subrange(0, j as int).map_values(
                            |ct: CrateType| OutputDefn::Link(ct),
                        ).push(OutputDefn::Link(crate_types@[j as int])));
                    }
                    j = j + 1;
                }
                proof {
                    assert(crate_types@.subrange(0, crate_types@.len() as int) =~= crate_types@);
                }
            },
            OutputType::DepInfo => r.push(OutputDefn::DepInfo),
            OutputType::Mir => r.push(OutputDefn::Mir),
        }
        proof {
            lemma_spec_output_defns_snoc(crate_types@, output_types@, i as int);
        }
        i = i + 1;
    }
    proof {
        assert(output_types@.subrange(0, output_types@.len() as int) =~= output_types@);
    }
    r
}

/// Extending the output-type list by one element appends that element's
/// definitions.
proof fn lemma_spec_output_defns_snoc(cts: Seq<CrateType>, ots: Seq<OutputType>, i: int)
    requires
        0 <= i < ots.len(),
    ensures
        spec_output_defns(cts, ots.subrange(0, i + 1)) == spec_output_defns(
            cts,
            ots.subrange(0, i),
        ) + spec_defns_for(cts, ots[i]),
    decreases i,
{
    if i == 0 {
        assert(ots.subrange(0, 1).drop_first() =~= Seq::<OutputType>::empty());
        assert(ots.subrange(0, 0) =~= Seq::<OutputType>::empty());
        assert(ots.subrange(0, 1)[0] == ots[0]);
        assert(spec_defns_for(cts, ots[0]) + Seq::<OutputDefn>::empty() =~= spec_defns_for(
            cts,
            ots[0],
        ));
    } else {
        lemma_spec_output_defns_snoc(cts, ots.drop_first(), i - 1);
        assert(ots.subrange(0, i + 1).drop_first() =~= ots.drop_first().subrange(0, i));
        assert(ots.subrange(0, i).drop_first() =~= ots.drop_first().subrange(0, i - 1));
        assert(ots.subrange(0, i + 1)[0] == ots[0]);
        assert(ots.subrange(0, i)[0] == ots[0]);
        assert(ots.drop_first()[i - 1] == ots[i]);
        assert(spec_output_defns(cts, ots.subrange(0, i + 1)) == spec_defns_for(cts, ots[0])
            + spec_output_defns(cts, ots.drop_first().subrange(0, i)));
        assert(spec_defns_for(cts, ots[0]) + (spec_output_defns(
            cts,
            ots.drop_first().subrange(0, i - 1),
        ) + spec_defns_for(cts, ots[i])) =~= (spec_defns_for(cts, ots[0]) + spec_output_defns(
            cts,
            ots.drop_first().subrange(0, i - 1),
        )) + spec_defns_for(cts, ots[i]));
    }
}

/// The store's file name for a captured build-script standard output,
/// keyed by the build-script execution's opaque hash.
pub fn build_script_stdout_file_name(build_script_execution_metadata_hash: &str) -> (r: String)
    ensures
        r@ == "build-script-"@ + build_script_execution_metadata_hash@ + "-stdout.txt"@,
{
    concat3("build-script-", build_script_execution_metadata_hash, "-stdout.txt")
}

/// The name a compiled build script is moved to so the wrapper can take
/// its place: the original path with a fixed suffix appended.
pub fn append_moved_build_script_suffix(build_script_path: &str) -> (r: Result<String, Error>)
    ensures
        match r {
            Ok(p) => build_script_path@.len() > 0 && build_script_path@.last() != '/' && p@
                == build_script_path@ + "-moved-by-hope"@,
            Err(e) => (build_script_path@.len() == 0 || build_script_path@.last() == '/') && e
                == Error::MissingFileName,
        },
{
    let chars = crate::text::to_chars(build_script_path);
    if chars.len() == 0 {
        return Err(Error::MissingFileName);
    }
    if chars[chars.len() - 1] == '/' {
        return Err(Error::MissingFileName);
    }
    Ok(concat2(build_script_path, "-moved-by-hope"))
}

} // verus!
