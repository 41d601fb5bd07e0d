//! A shared build cache for compiled library units.
//!
//! A wrapper process stands in for the compiler — and, when asked, for a
//! crate's build script — and substitutes previously compiled outputs
//! from a shared content store whenever the unit's fingerprint already
//! has them, pushing them there when it does not. This crate holds the
//! decisions that make the substitution invisible to the outer build
//! driver: classifying an invocation from its argv, naming every file a
//! unit emits, rewriting dependency manifests so they never point into
//! another workspace's build directory, propagating the driver's own
//! sentinel timestamps, replaying captured build-script output, and the
//! cache protocol itself. The binary around it performs the file, process
//! and clock work these decisions direct.

pub mod args;
pub mod build_script;
pub mod cache;
pub mod cache_log;
pub mod dep_info;
pub mod protocol;
pub mod stamp;
pub mod outputs;
pub mod paths;
pub mod text;

use vstd::prelude::*;

verus! {

/// Everything that can go wrong while classifying an invocation or
/// preparing cache traffic for it.
#[derive(Clone, Copy, PartialEq, Eq, Structural, Debug)]
pub enum Error {
    /// argv held no path for this executable.
    MissingExeArg,
    /// Compiler role, but argv held no path to the real compiler.
    MissingRustcPath,
    /// A cacheable invocation without a `--crate-name` argument.
    MissingCrateName,
    /// A cacheable invocation without an `extra-filename` codegen option.
    MissingExtraFilename,
    /// A cacheable invocation without a `metadata` codegen option.
    MissingMetadata,
    /// A cacheable invocation without an `--out-dir` argument.
    MissingOutDir,
    /// A `--crate-type` value that the compiler does not accept.
    UnrecognisedCrateType,
    /// An `--emit` value that the compiler does not accept.
    UnrecognisedOutputType,
    /// A dependency-info data line without a `:` separator.
    MissingColon,
    /// A path that ends without a file name.
    MissingFileName,
    /// A directory path with no parent to walk up to.
    MissingParent,
    /// A build directory name without the `-` that separates the crate
    /// name from the execution hash.
    BadBuildDirName,
    /// The recipe's environment holds no `OUT_DIR` entry.
    MissingOutDirVar,
    /// An option that needs a value stood last, with no value after it.
    MissingArgValue,
    /// An option that the compiler's schema does not list.
    UnrecognisedFlag,
    /// A second positional argument, where only one input is accepted.
    UnexpectedArgument,
}

/// What each error says when reported.
pub open spec fn spec_error_message(e: Error) -> Seq<char> {
    match e {
        Error::MissingExeArg => "Missing argument for path to this executable"@,
        Error::MissingRustcPath => "Missing argument for real `rustc` path"@,
        Error::MissingCrateName => "Missing crate name argument"@,
        Error::MissingExtraFilename => "Missing extra-filename codegen option"@,
        Error::MissingMetadata => "Missing metadata codegen option"@,
        Error::MissingOutDir => "Missing out-dir; don't know where build artifacts are supposed to be"@,
        Error::UnrecognisedCrateType => "Unrecognised crate type in '--crate-type' argument"@,
        Error::UnrecognisedOutputType => "Unrecognised output type in '--emit' argument"@,
        Error::MissingColon => "Couldn't find ':' in dependency-info line"@,
        Error::MissingFileName => "Missing file name for build script"@,
        Error::MissingParent => "Path has no parent directory"@,
        Error::BadBuildDirName => "Couldn't find '-' in build dir"@,
        Error::MissingOutDirVar => "Missing 'OUT_DIR' env var in build script invocation info"@,
        Error::MissingArgValue => "Missing value for compiler option"@,
        Error::UnrecognisedFlag => "Unrecognised compiler option"@,
        Error::UnexpectedArgument => "Unexpected extra positional argument"@,
    }
}

impl Error {
    /// The error's one-line description.
    pub fn message(&self) -> (m: &'static str)
        ensures
            m@ == spec_error_message(*self),
    {
        match self {
            Error::MissingExeArg => "Missing argument for path to this executable",
            Error::MissingRustcPath => "Missing argument for real `rustc` path",
            Error::MissingCrateName => "Missing crate name argument",
            Error::MissingExtraFilename => "Missing extra-filename codegen option",
            Error::MissingMetadata => "Missing metadata codegen option",
            Error::MissingOutDir => "Missing out-dir; don't know where build artifacts are supposed to be",
            Error::UnrecognisedCrateType => "Unrecognised crate type in '--crate-type' argument",
            Error::UnrecognisedOutputType => "Unrecognised output type in '--emit' argument",
            Error::MissingColon => "Couldn't find ':' in dependency-info line",
            Error::MissingFileName => "Missing file name for build script",
            Error::MissingParent => "Path has no parent directory",
            Error::BadBuildDirName => "Couldn't find '-' in build dir",
            Error::MissingOutDirVar => "Missing 'OUT_DIR' env var in build script invocation info",
            Error::MissingArgValue => "Missing value for compiler option",
            Error::UnrecognisedFlag => "Unrecognised compiler option",
            Error::UnexpectedArgument => "Unexpected extra positional argument",
        }
    }
}

/// A compilation unit's name: the crate name followed by the
/// `extra-filename` suffix the build driver chose for it.
pub fn unit_name(crate_name: &str, extra_filename: &str) -> (r: String)
    ensures
        r@ == crate_name@ + extra_filename@,
{
    let mut s = crate_name.to_owned();
    s.append(extra_filename);
    s
}

} // verus!
