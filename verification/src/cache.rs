//! The artifact store: where each cached file lives, and the copy plans
//! a pull or push follows.

use vstd::prelude::*;

use crate::outputs::OutputDefn;
use crate::outputs::Platform;
use crate::outputs::spec_file_name;
use crate::protocol::StoreView;

verus! {

/// One file copy: from one absolute path to another.
#[derive(Debug, Clone)]
pub struct CopyInstruction {
    pub from: String,
    pub to: String,
}

impl View for CopyInstruction {
    type V = (Seq<char>, Seq<char>);

    open spec fn view(&self) -> (Seq<char>, Seq<char>) {
        (self.from@, self.to@)
    }
}

/// The copies a pull makes for one unit: for each output definition, from
/// the store root to the arrival directory.
pub open spec fn spec_pull_copies(
    root: Seq<char>,
    unit: Seq<char>,
    defns: Seq<OutputDefn>,
    arrival_dir: Seq<char>,
    platform: Platform,
) -> Seq<(Seq<char>, Seq<char>)> {
    defns.map_values(
        |d: OutputDefn|
            (
                root + "/"@ + spec_file_name(d, unit, platform),
                arrival_dir + "/"@ + spec_file_name(d, unit, platform),
            ),
    )
}

/// The copies a push makes for one unit: for each output definition, from
/// the departure directory to the store root.
pub open spec fn spec_push_copies(
    root: Seq<char>,
    unit: Seq<char>,
    defns: Seq<OutputDefn>,
    departure_dir: Seq<char>,
    platform: Platform,
) -> Seq<(Seq<char>, Seq<char>)> {
    defns.map_values(
        |d: OutputDefn|
            (
                departure_dir + "/"@ + spec_file_name(d, unit, platform),
                root + "/"@ + spec_file_name(d, unit, platform),
            ),
    )
}

/// The store's capability set, stated over the store's mathematical view:
/// what a pull, a push and the build-script stdout operations do to the
/// stored units, the stored stdouts and the event log. The local
/// filesystem store follows this protocol; other backends can be slotted
/// in by implementing it.
pub trait Cache {
    /// The store's contents and log.
    spec fn view(&self) -> StoreView;

    /// Takes one unit out of the store. Succeeds exactly when the unit is
    /// wholly present; a success appends one `PulledCrateOutputs` entry
    /// for it and changes nothing else; a miss changes nothing.
    fn pull_crate(&mut self, unit_name: &str, at: &str, duration_millis: u64) -> (ok: bool)
        ensures
            ok == old(self).view().units.contains(unit_name@),
            final(self).view().units == old(self).view().units,
            final(self).view().stdouts == old(self).view().stdouts,
            ok ==> final(self).view().log == old(self).view().log.push(
                crate::protocol::LogEventView::Pulled(unit_name@),
            ),
            !ok ==> final(self).view().log == old(self).view().log,
    ;

    /// Puts one unit into the store, with its build script's captured
    /// stdout when one is handed over, and appends one
    /// `PushedCrateOutputs` entry for the unit.
    fn push_crate(
        &mut self,
        unit_name: &str,
        script_stdout: Option<(&str, &str)>,
        at: &str,
        duration_millis: u64,
    )
        ensures
            final(self).view().units == old(self).view().units.push(unit_name@),
            final(self).view().stdouts == match script_stdout {
                Some((h, s)) => old(self).view().stdouts.push((h@, s@)),
                None => old(self).view().stdouts,
            },
            final(self).view().log == old(self).view().log.push(
                crate::protocol::LogEventView::Pushed(unit_name@),
            ),
    ;

    /// The captured stdout stored under the given script hash, if any:
    /// the latest one stored, since the store keeps a single file per
    /// hash and a later store overwrites it.
    fn get_build_script_stdout(&self, script_hash: &str) -> (r: Option<String>)
        ensures
            match r {
                Some(s) => crate::protocol::spec_stdout_lookup(self.view().stdouts, script_hash@)
                    == Some(s@),
                None => crate::protocol::spec_stdout_lookup(self.view().stdouts, script_hash@)
                    is None,
            },
    ;

    /// Stores a captured stdout under the given script hash, leaving the
    /// units and the log alone.
    fn put_build_script_stdout(&mut self, script_hash: &str, stdout: &str)
        ensures
            final(self).view().units == old(self).view().units,
            final(self).view().log == old(self).view().log,
            final(self).view().stdouts == old(self).view().stdouts.push((script_hash@, stdout@)),
    ;
}

/// The local content store: a directory holding one file per cached
/// output definition per unit, named deterministically.
#[derive(Debug)]
pub struct LocalCache {
    pub root: String,
}

impl LocalCache {
    /// A store rooted at the given directory. The directory is not
    /// created here.
    pub fn new(root: String) -> (r: LocalCache)
        ensures
            r.root@ == root@,
    {
        LocalCache { root }
    }

    /// Where one file of the store lives.
    pub fn store_file_path(&self, file_name: &str) -> (r: String)
        ensures
            r@ == self.root@ + "/"@ + file_name@,
    {
        crate::paths::path_join(self.root.as_str(), file_name)
    }

    /// Where a captured build-script stdout lives in the store.
    pub fn build_script_stdout_path(&self, script_hash: &str) -> (r: String)
        ensures
            r@ == self.root@ + "/"@ + "build-script-"@ + script_hash@ + "-stdout.txt"@,
    {
        let name = crate::outputs::build_script_stdout_file_name(script_hash);
        let r = crate::paths::path_join(self.root.as_str(), name.as_str());
        proof {
            assert(r@ =~= self.root@ + "/"@ + "build-script-"@ + script_hash@ + "-stdout.txt"@);
        }
        r
    }

    /// Where the event log lives under the store root.
    pub fn log_path(&self) -> (r: String)
        ensures
            r@ == self.root@ + "/"@ + "hope-log.jsonl"@,
    {
        crate::paths::path_join(self.root.as_str(), crate::cache_log::log_file_name())
    }

    /// The copies a pull of this unit makes, in output-definition order:
    /// each file from the store root to the arrival directory. A copy
    /// that fails means the unit is absent, and the arrival directory
    /// must be discarded.
    pub fn pull_plan(
        &self,
        unit_name: &str,
        output_defns: &Vec<OutputDefn>,
        arrival_dir: &str,
        platform: Platform,
    ) -> (r: Vec<CopyInstruction>)
        ensures
            r@.map_values(|c: CopyInstruction| c@) == spec_pull_copies(
                self.root@,
                unit_name@,
                output_defns@,
                arrival_dir@,
                platform,
            ),
    {
        let ghost target = spec_pull_copies(
            self.root@,
            unit_name@,
            output_defns@,
            arrival_dir@,
            platform,
        );
        let mut r: Vec<CopyInstruction> = Vec::new();
        let n = output_defns.len();
        let mut i: usize = 0;
        proof {
            assert(r@.map_values(|c: CopyInstruction| c@) =~= target.take(0));
        }
        while i < n
            invariant
                n == output_defns@.len(),
                n == target.len(),
                i <= n,
                target == spec_pull_copies(
                    self.root@,
                    unit_name@,
                    output_defns@,
                    arrival_dir@,
                    platform,
                ),
                r@.map_values(|c: CopyInstruction| c@) == target.take(i as int),
            decreases n - i,
        {
            let file_name = output_defns[i].file_name(unit_name, platform);
            let from = crate::paths::path_join(self.root.as_str(), file_name.as_str());
            let to = crate::paths::path_join(arrival_dir, file_name.as_str());
            let ghost pre = r@.map_values(|c: CopyInstruction| c@);
            r.push(CopyInstruction { from, to });
            proof {
                assert(r@.map_values(|c: CopyInstruction| c@) =~= pre.push(target[i as int]));
                assert(pre.push(target[i as int]) =~= target.take(i + 1 as int));
            }
            i = i + 1;
        }
        proof {
            assert(target.take(n as int) =~= target);
        }
        r
    }

    /// The copies a push of this unit makes, in output-definition order:
    /// each file from the departure directory to the store root. Every
    /// declared file must exist in the departure directory.
    pub fn push_plan(
        &self,
        unit_name: &str,
        output_defns: &Vec<OutputDefn>,
        departure_dir: &str,
        platform: Platform,
    ) -> (r: Vec<CopyInstruction>)
        ensures
            r@.map_values(|c: CopyInstruction| c@) == spec_push_copies(
                self.root@,
                unit_name@,
                output_defns@,
                departure_dir@,
                platform,
            ),
    {
        let ghost target = spec_push_copies(
            self.root@,
            unit_name@,
            output_defns@,
            departure_dir@,
            platform,
        );
        let mut r: Vec<CopyInstruction> = Vec::new();
        let n = output_defns.len();
        let mut i: usize = 0;
        proof {
            assert(r@.map_values(|c: CopyInstruction| c@) =~= target.take(0));
        }
        while i < n
            invariant
                n == output_defns@.len(),
                n == target.len(),
                i <= n,
                target == spec_push_copies(
                    self.root@,
                    unit_name@,
                    output_defns@,
                    departure_dir@,
                    platform,
                ),
                r@.map_values(|c: CopyInstruction| c@) == target.take(i as int),
            decreases n - i,
        {
            let file_name = output_defns[i].file_name(unit_name, platform);
            let from = crate::paths::path_join(departure_dir, file_name.as_str());
            let to = crate::paths::path_join(self.root.as_str(), file_name.as_str());
            let ghost pre = r@.map_values(|c: CopyInstruction| c@);
            r.push(CopyInstruction { from, to });
            proof {
                assert(r@.map_values(|c: CopyInstruction| c@) =~= pre.push(target[i as int]));
                assert(pre.push(target[i as int]) =~= target.take(i + 1 as int));
            }
            i = i + 1;
        }
        proof {
            assert(target.take(n as int) =~= target);
        }
        r
    }

    /// The names of the files a pull places into the output directory,
    /// in output-definition order.
    pub fn pulled_file_names(
        &self,
        unit_name: &str,
        output_defns: &Vec<OutputDefn>,
        platform: Platform,
    ) -> (r: Vec<String>)
        ensures
            r@.map_values(|s: String| s@) == output_defns@.map_values(
                |d: OutputDefn| spec_file_name(d, unit_name@, platform),
            ),
    {
        let ghost target = output_defns@.map_values(
            |d: OutputDefn| spec_file_name(d, unit_name@, platform),
        );
        let mut r: Vec<String> = Vec::new();
        let n = output_defns.len();
        let mut i: usize = 0;
        proof {
            assert(r@.map_values(|s: String| s@) =~= target.take(0));
        }
        while i < n
            invariant
                n == output_defns@.len(),
                n == target.len(),
                i <= n,
                target == output_defns@.map_values(
                    |d: OutputDefn| spec_file_name(d, unit_name@, platform),
                ),
                r@.map_values(|s: String| s@) == target.take(i as int),
            decreases n - i,
        {
            let ghost pre = r@.map_values(|s: String| s@);
            r.push(output_defns[i].file_name(unit_name, platform));
            proof {
                assert(r@.map_values(|s: String| s@) =~= pre.push(target[i as int]));
                assert(pre.push(target[i as int]) =~= target.take(i + 1 as int));
            }
            i = i + 1;
        }
        proof {
            assert(target.take(n as int) =~= target);
        }
        r
    }
}

/// The driver's per-unit sentinel: `{package}-{hash}/invoked.timestamp`
/// under the fingerprint directory. Its mtime is the unit's
/// invoked-timestamp.
pub fn invoked_timestamp_sentinel_path(
    fingerprint_dir: &str,
    package_name: &str,
    metadata_hash: &str,
) -> (r: String)
    ensures
        r@ == fingerprint_dir@ + "/"@ + package_name@ + "-"@ + metadata_hash@ + "/"@
            + "invoked.timestamp"@,
{
    let mut s = fingerprint_dir.to_owned();
    s.append("/");
    s.append(package_name);
    s.append("-");
    s.append(metadata_hash);
    s.append("/");
    s.append("invoked.timestamp");
    s
}

/// The cache root to use: the directory named in the environment when one
/// is, else the machine's per-user cache directory for this tool.
pub fn choose_cache_dir(env_value: Option<String>) -> (r: Option<String>)
    ensures
        env_value is Some ==> r == env_value,
{
    match env_value {
        Some(d) => Some(d),
        None => default_cache_dir(),
    }
}

/// The OS-specific per-user cache directory for this tool. Relies on
/// `directories::ProjectDirs::from` and `ProjectDirs::cache_dir`; the
/// value depends on the machine, so nothing is promised of it.
#[verifier::external_body]
fn default_cache_dir() -> Option<String> {
    let dirs = directories::ProjectDirs::from("", "", "Hope")?;
    Some(dirs.cache_dir().to_str()?.to_owned())
}

} // verus!
