//! The cache protocol, as one in-memory state: which units and captured
//! stdouts the store holds and what the log records, with the two wrapper
//! roles as transitions over it. The laws of the protocol — one push per
//! stored unit, one pull and no push on reuse, a deferred build script
//! never run when the main unit is pulled — are stated and proved here.

use vstd::prelude::*;

use crate::cache::Cache;
use crate::cache_log::BuildScriptRunEvent;
use crate::cache_log::BuildScriptWrapperRunEvent;
use crate::cache_log::CacheLogLine;

verus! {

/// One log entry, reduced to its kind and the name it carries.
pub enum LogEventView {
    Pulled(Seq<char>),
    Pushed(Seq<char>),
    WrapperRun(Seq<char>),
    ScriptRun(Seq<char>),
}

/// The name an event line carries, with its kind.
pub open spec fn line_view(l: CacheLogLine) -> LogEventView {
    match l {
        CacheLogLine::PulledCrateOutputs(e) => LogEventView::Pulled(e.crate_unit_name@),
        CacheLogLine::PushedCrateOutputs(e) => LogEventView::Pushed(e.crate_unit_name@),
        CacheLogLine::RanBuildScriptWrapper(e) => LogEventView::WrapperRun(e.crate_name@),
        CacheLogLine::RanBuildScript(e) => LogEventView::ScriptRun(e.crate_name@),
    }
}

/// The store's mathematical state: the unit names wholly present, the
/// captured stdouts by script hash, and the log.
#[verifier::ext_equal]
pub struct StoreView {
    pub units: Seq<Seq<char>>,
    pub stdouts: Seq<(Seq<char>, Seq<char>)>,
    pub log: Seq<LogEventView>,
}

/// The captured stdout stored under a script hash: the value of the last
/// entry with that hash, since the store keeps one file per hash and a
/// later store overwrites it.
pub open spec fn spec_stdout_lookup(stdouts: Seq<(Seq<char>, Seq<char>)>, hash: Seq<char>) -> Option<
    Seq<char>,
>
    decreases stdouts.len(),
{
    if stdouts.len() == 0 {
        None
    } else if stdouts.last().0 == hash {
        Some(stdouts.last().1)
    } else {
        spec_stdout_lookup(stdouts.drop_last(), hash)
    }
}

/// One step of the search through the stored stdouts, from the back.
proof fn lemma_stdout_lookup_step(stdouts: Seq<(Seq<char>, Seq<char>)>, hash: Seq<char>, i: int)
    requires
        0 <= i < stdouts.len(),
    ensures
        spec_stdout_lookup(stdouts.take(i + 1), hash) == if stdouts[i].0 == hash {
            Some(stdouts[i].1)
        } else {
            spec_stdout_lookup(stdouts.take(i), hash)
        },
{
    assert(stdouts.take(i + 1).last() == stdouts[i]);
    assert(stdouts.take(i + 1).drop_last() =~= stdouts.take(i));
}

/// Storing a stdout makes it the one a later get returns, whatever stood
/// under the hash before; entries under other hashes are untouched.
pub proof fn lemma_stdout_last_write_wins(
    stdouts: Seq<(Seq<char>, Seq<char>)>,
    hash: Seq<char>,
    text: Seq<char>,
    other: Seq<char>,
)
    ensures
        spec_stdout_lookup(stdouts.push((hash, text)), hash) == Some(text),
        other != hash ==> spec_stdout_lookup(stdouts.push((hash, text)), other)
            == spec_stdout_lookup(stdouts, other),
{
    assert(stdouts.push((hash, text)).last() == (hash, text));
    assert(stdouts.push((hash, text)).drop_last() =~= stdouts);
}

/// How many `PushedCrateOutputs` entries carry the given unit name.
pub open spec fn count_pushed(log: Seq<LogEventView>, unit: Seq<char>) -> nat
    decreases log.len(),
{
    if log.len() == 0 {
        0
    } else {
        count_pushed(log.drop_last(), unit) + if log.last() == LogEventView::Pushed(unit) {
            1nat
        } else {
            0nat
        }
    }
}

/// How many `PulledCrateOutputs` entries carry the given unit name.
pub open spec fn count_pulled(log: Seq<LogEventView>, unit: Seq<char>) -> nat
    decreases log.len(),
{
    if log.len() == 0 {
        0
    } else {
        count_pulled(log.drop_last(), unit) + if log.last() == LogEventView::Pulled(unit) {
            1nat
        } else {
            0nat
        }
    }
}

/// How many `RanBuildScriptWrapper` entries carry the given crate name.
pub open spec fn count_wrapper_runs(log: Seq<LogEventView>, name: Seq<char>) -> nat
    decreases log.len(),
{
    if log.len() == 0 {
        0
    } else {
        count_wrapper_runs(log.drop_last(), name) + if log.last() == LogEventView::WrapperRun(
            name,
        ) {
            1nat
        } else {
            0nat
        }
    }
}

/// How many `RanBuildScript` entries carry the given crate name.
pub open spec fn count_script_runs(log: Seq<LogEventView>, name: Seq<char>) -> nat
    decreases log.len(),
{
    if log.len() == 0 {
        0
    } else {
        count_script_runs(log.drop_last(), name) + if log.last() == LogEventView::ScriptRun(name) {
            1nat
        } else {
            0nat
        }
    }
}

/// Appending one event changes each count by its own kind alone.
proof fn lemma_counts_push(log: Seq<LogEventView>, e: LogEventView, u: Seq<char>)
    ensures
        count_pushed(log.push(e), u) == count_pushed(log, u) + if e == LogEventView::Pushed(u) {
            1nat
        } else {
            0nat
        },
        count_pulled(log.push(e), u) == count_pulled(log, u) + if e == LogEventView::Pulled(u) {
            1nat
        } else {
            0nat
        },
        count_wrapper_runs(log.push(e), u) == count_wrapper_runs(log, u) + if e
            == LogEventView::WrapperRun(u) {
            1nat
        } else {
            0nat
        },
        count_script_runs(log.push(e), u) == count_script_runs(log, u) + if e
            == LogEventView::ScriptRun(u) {
            1nat
        } else {
            0nat
        },
{
    assert(log.push(e).drop_last() =~= log);
    assert(log.push(e).last() == e);
}

/// What one compiler-role run of the wrapper does to the store for a
/// cacheable unit: a unit already present is pulled, and one
/// `PulledCrateOutputs` entry is appended; an absent unit is built and
/// pushed, with its build script's captured stdout when it has one, and
/// one `PushedCrateOutputs` entry is appended.
pub open spec fn spec_run_compiler_role(
    s: StoreView,
    unit: Seq<char>,
    script_stdout: Option<(Seq<char>, Seq<char>)>,
) -> StoreView {
    if s.units.contains(unit) {
        StoreView { log: s.log.push(LogEventView::Pulled(unit)), ..s }
    } else {
        StoreView {
            units: s.units.push(unit),
            stdouts: match script_stdout {
                Some(p) => s.stdouts.push(p),
                None => s.stdouts,
            },
            log: s.log.push(LogEventView::Pushed(unit)),
        }
    }
}

/// What one impersonator run does to the store: one
/// `RanBuildScriptWrapper` entry always; when the script's stdout is
/// cached nothing else happens (the recipe is written beside the output
/// instead), and when it is not, the real script runs — one
/// `RanBuildScript` entry — and its stdout is stored.
pub open spec fn spec_run_impersonator(
    s: StoreView,
    crate_name: Seq<char>,
    script_hash: Seq<char>,
    real_stdout: Seq<char>,
) -> StoreView {
    let s1 = StoreView { log: s.log.push(LogEventView::WrapperRun(crate_name)), ..s };
    if spec_stdout_lookup(s.stdouts, script_hash) is Some {
        s1
    } else {
        StoreView {
            stdouts: s1.stdouts.push((script_hash, real_stdout)),
            log: s1.log.push(LogEventView::ScriptRun(crate_name)),
            ..s1
        }
    }
}

/// Every unit the store holds was pushed exactly once, and a unit it does
/// not hold was never pushed.
pub open spec fn pushed_once_invariant(s: StoreView) -> bool {
    &&& forall|u: Seq<char>| s.units.contains(u) ==> #[trigger] count_pushed(s.log, u) == 1
    &&& forall|u: Seq<char>| !s.units.contains(u) ==> #[trigger] count_pushed(s.log, u) == 0
}

/// An empty store satisfies the pushed-once invariant.
pub proof fn lemma_empty_pushed_once(s: StoreView)
    requires
        s.units == Seq::<Seq<char>>::empty(),
        s.log == Seq::<LogEventView>::empty(),
    ensures
        pushed_once_invariant(s),
{
    assert forall|u: Seq<char>| !s.units.contains(u) by {
        assert(s.units.len() == 0);
    }
}

/// Every compiled unit that ends up in the store has exactly one
/// `PushedCrateOutputs` entry with its name — repeated builds of the same
/// workspace add none — and a unit outside the store has none: the
/// compiler role preserves this.
pub proof fn lemma_compiler_role_preserves_pushed_once(
    s: StoreView,
    unit: Seq<char>,
    script_stdout: Option<(Seq<char>, Seq<char>)>,
)
    requires
        pushed_once_invariant(s),
    ensures
        pushed_once_invariant(spec_run_compiler_role(s, unit, script_stdout)),
{
    let s2 = spec_run_compiler_role(s, unit, script_stdout);
    if s.units.contains(unit) {
        assert forall|u: Seq<char>| s2.units.contains(u) implies #[trigger] count_pushed(s2.log, u)
            == 1 by {
            lemma_counts_push(s.log, LogEventView::Pulled(unit), u);
        }
        assert forall|u: Seq<char>| !s2.units.contains(u) implies #[trigger] count_pushed(
            s2.log,
            u,
        ) == 0 by {
            lemma_counts_push(s.log, LogEventView::Pulled(unit), u);
        }
    } else {
        assert forall|u: Seq<char>| s2.units.contains(u) implies #[trigger] count_pushed(s2.log, u)
            == 1 by {
            lemma_counts_push(s.log, LogEventView::Pushed(unit), u);
            if u == unit {
                assert(count_pushed(s.log, u) == 0);
            } else {
                assert(s2.units[s2.units.len() - 1] == unit);
                assert forall|i: int| 0 <= i < s2.units.len() && s2.units[i] == u implies s.units.contains(
                    u,
                ) by {
                    assert(i < s.units.len());
                    assert(s.units[i] == u);
                }
                assert(s.units.contains(u));
            }
        }
        assert forall|u: Seq<char>| !s2.units.contains(u) implies #[trigger] count_pushed(
            s2.log,
            u,
        ) == 0 by {
            lemma_counts_push(s.log, LogEventView::Pushed(unit), u);
            assert(s2.units[s2.units.len() - 1] == unit);
            assert(u != unit);
            assert forall|i: int| 0 <= i < s.units.len() && s.units[i] == u implies false by {
                assert(s2.units[i] == u);
            }
            assert(!s.units.contains(u));
        }
    }
}

/// The impersonator pushes no unit: it preserves the pushed-once
/// invariant.
pub proof fn lemma_impersonator_preserves_pushed_once(
    s: StoreView,
    crate_name: Seq<char>,
    script_hash: Seq<char>,
    real_stdout: Seq<char>,
)
    requires
        pushed_once_invariant(s),
    ensures
        pushed_once_invariant(spec_run_impersonator(s, crate_name, script_hash, real_stdout)),
{
    let s1log = s.log.push(LogEventView::WrapperRun(crate_name));
    let s2 = spec_run_impersonator(s, crate_name, script_hash, real_stdout);
    assert forall|u: Seq<char>| true implies #[trigger] count_pushed(s2.log, u) == count_pushed(
        s.log,
        u,
    ) by {
        lemma_counts_push(s.log, LogEventView::WrapperRun(crate_name), u);
        if spec_stdout_lookup(s.stdouts, script_hash) is None {
            lemma_counts_push(s1log, LogEventView::ScriptRun(crate_name), u);
        }
    }
}

/// A consumer workspace that reuses a cached unit records exactly one
/// `PulledCrateOutputs` entry for it and no `PushedCrateOutputs` entry,
/// and leaves the store's contents alone.
pub proof fn lemma_consumer_reuse(
    s: StoreView,
    unit: Seq<char>,
    script_stdout: Option<(Seq<char>, Seq<char>)>,
)
    requires
        s.units.contains(unit),
    ensures
        ({
            let s2 = spec_run_compiler_role(s, unit, script_stdout);
            &&& s2.units == s.units
            &&& s2.stdouts == s.stdouts
            &&& count_pulled(s2.log, unit) == count_pulled(s.log, unit) + 1
            &&& forall|u: Seq<char>| #[trigger]
                count_pushed(s2.log, u) == count_pushed(s.log, u)
        }),
{
    let s2 = spec_run_compiler_role(s, unit, script_stdout);
    lemma_counts_push(s.log, LogEventView::Pulled(unit), unit);
    assert forall|u: Seq<char>| #[trigger] count_pushed(s2.log, u) == count_pushed(s.log, u) by {
        lemma_counts_push(s.log, LogEventView::Pulled(unit), u);
    }
}

/// A build-script-bearing unit in a consumer workspace whose main unit is
/// pulled from cache records exactly one `RanBuildScriptWrapper` entry
/// and no `RanBuildScript` entry: the orchestrator defers the real script
/// and the pull then discards it unrun.
pub proof fn lemma_deferred_script_discarded(
    s: StoreView,
    crate_name: Seq<char>,
    script_hash: Seq<char>,
    real_stdout: Seq<char>,
    unit: Seq<char>,
)
    requires
        spec_stdout_lookup(s.stdouts, script_hash) is Some,
        s.units.contains(unit),
    ensures
        ({
            let s1 = spec_run_impersonator(s, crate_name, script_hash, real_stdout);
            let s2 = spec_run_compiler_role(s1, unit, None);
            &&& count_wrapper_runs(s2.log, crate_name) == count_wrapper_runs(s.log, crate_name) + 1
            &&& forall|n: Seq<char>| #[trigger]
                count_script_runs(s2.log, n) == count_script_runs(s.log, n)
            &&& count_pulled(s2.log, unit) == count_pulled(s.log, unit) + 1
            &&& forall|u: Seq<char>| #[trigger]
                count_pushed(s2.log, u) == count_pushed(s.log, u)
        }),
{
    let s1 = spec_run_impersonator(s, crate_name, script_hash, real_stdout);
    let s2 = spec_run_compiler_role(s1, unit, None);
    lemma_counts_push(s.log, LogEventView::WrapperRun(crate_name), crate_name);
    lemma_counts_push(s1.log, LogEventView::Pulled(unit), crate_name);
    lemma_counts_push(s.log, LogEventView::WrapperRun(crate_name), unit);
    lemma_counts_push(s1.log, LogEventView::Pulled(unit), unit);
    assert(count_wrapper_runs(s2.log, crate_name) == count_wrapper_runs(s.log, crate_name) + 1);
    assert forall|n: Seq<char>| #[trigger] count_script_runs(s2.log, n) == count_script_runs(
        s.log,
        n,
    ) by {
        lemma_counts_push(s.log, LogEventView::WrapperRun(crate_name), n);
        lemma_counts_push(s1.log, LogEventView::Pulled(unit), n);
    }
    assert forall|u: Seq<char>| #[trigger] count_pushed(s2.log, u) == count_pushed(s.log, u) by {
        lemma_counts_push(s.log, LogEventView::WrapperRun(crate_name), u);
        lemma_counts_push(s1.log, LogEventView::Pulled(unit), u);
    }
}

/// Every file a pull writes into the output directory carries the
/// sentinel's reading as its mtime, so none is older than the sentinel.
pub proof fn lemma_timestamp_monotonic(files: Seq<(Seq<char>, u64)>, ts: u64)
    requires
        forall|i: int| 0 <= i < files.len() ==> (#[trigger] files[i]).1 == ts,
    ensures
        forall|i: int| 0 <= i < files.len() ==> (#[trigger] files[i]).1 >= ts,
{
}

/// The out-dir contents after a pull: every pulled file, stamped with the
/// sentinel's reading.
pub fn stamped_files(file_names: &Vec<String>, ts: u64) -> (r: Vec<(String, u64)>)
    ensures
        r@.len() == file_names@.len(),
        forall|i: int|
            0 <= i < r@.len() ==> (#[trigger] r@[i]).0@ == file_names@[i]@ && r@[i].1 == ts,
{
    let mut r: Vec<(String, u64)> = Vec::new();
    let n = file_names.len();
    let mut i: usize = 0;
    while i < n
        invariant
            n == file_names@.len(),
            i <= n,
            r@.len() == i,
            forall|k: int| 0 <= k < i ==> (#[trigger] r@[k]).0@ == file_names@[k]@ && r@[k].1 == ts,
        decreases n - i,
    {
        r.push((file_names[i].clone(), ts));
        i = i + 1;
    }
    r
}

/// An in-memory store: the reference implementation of the cache
/// protocol, and what the scenario tests drive.
#[derive(Debug)]
pub struct CacheModel {
    pub units: Vec<String>,
    pub stdouts: Vec<(String, String)>,
    pub log: Vec<CacheLogLine>,
}

impl CacheModel {
    /// An empty store with an empty log.
    pub fn new() -> (r: CacheModel)
        ensures
            r.view().units == Seq::<Seq<char>>::empty(),
            r.view().stdouts == Seq::<(Seq<char>, Seq<char>)>::empty(),
            r.view().log == Seq::<LogEventView>::empty(),
    {
        let r = CacheModel { units: Vec::new(), stdouts: Vec::new(), log: Vec::new() };
        proof {
            assert(r.view().units =~= Seq::<Seq<char>>::empty());
            assert(r.view().stdouts =~= Seq::<(Seq<char>, Seq<char>)>::empty());
            assert(r.view().log =~= Seq::<LogEventView>::empty());
        }
        r
    }

    /// Whether the store holds the unit wholly.
    pub fn has_unit(&self, unit_name: &str) -> (r: bool)
        ensures
            r == self.view().units.contains(unit_name@),
    {
        let n = self.units.len();
        let mut i: usize = 0;
        while i < n
            invariant
                n == self.units@.len(),
                i <= n,
                forall|k: int| 0 <= k < i ==> self.units@[k]@ != unit_name@,
            decreases n - i,
        {
            if crate::text::str_eq(self.units[i].as_str(), unit_name) {
                proof {
                    assert(self.view().units[i as int] == unit_name@);
                }
                return true;
            }
            i = i + 1;
        }
        proof {
            assert forall|k: int|
                0 <= k < self.view().units.len() implies self.view().units[k] != unit_name@ by {
                assert(self.view().units[k] == self.units@[k]@);
            }
        }
        false
    }

    /// One compiler-role run for a cacheable unit, against this store:
    /// pull when the unit is present, build and push when it is not, as
    /// [`spec_run_compiler_role`] describes. Returns whether it pulled.
    pub fn run_compiler_role(
        &mut self,
        unit_name: &str,
        script_stdout: Option<(&str, &str)>,
        at: &str,
        duration_millis: u64,
    ) -> (pulled: bool)
        ensures
            pulled == old(self).view().units.contains(unit_name@),
            final(self).view() == spec_run_compiler_role(
                old(self).view(),
                unit_name@,
                match script_stdout {
                    Some((h, s)) => Some((h@, s@)),
                    None => None,
                },
            ),
    {
        if self.pull_crate(unit_name, at, duration_millis) {
            proof {
                assert(self.view() =~= spec_run_compiler_role(
                    old(self).view(),
                    unit_name@,
                    match script_stdout {
                        Some((h, s)) => Some((h@, s@)),
                        None => None::<(Seq<char>, Seq<char>)>,
                    },
                ));
            }
            true
        } else {
            self.push_crate(unit_name, script_stdout, at, duration_millis);
            proof {
                assert(self.view() =~= spec_run_compiler_role(
                    old(self).view(),
                    unit_name@,
                    match script_stdout {
                        Some((h, s)) => Some((h@, s@)),
                        None => None::<(Seq<char>, Seq<char>)>,
                    },
                ));
            }
            false
        }
    }

    /// One impersonator run against this store: always records the
    /// wrapper run; replays the cached stdout filtered when it is held,
    /// and otherwise runs the real script — whose stdout is handed in —
    /// records that, and stores the stdout, as [`spec_run_impersonator`]
    /// describes. Returns the filtered replay when one was served.
    pub fn run_impersonator(
        &mut self,
        crate_name: &str,
        script_hash: &str,
        real_stdout: &str,
        at: &str,
    ) -> (replayed: Option<String>)
        ensures
            final(self).view() == spec_run_impersonator(
                old(self).view(),
                crate_name@,
                script_hash@,
                real_stdout@,
            ),
            match replayed {
                Some(text) => {
                    let cached = spec_stdout_lookup(old(self).view().stdouts, script_hash@);
                    cached is Some && text@ == crate::build_script::spec_filtered_stdout(cached->0)
                },
                None => spec_stdout_lookup(old(self).view().stdouts, script_hash@) is None,
            },
    {
        let ghost pre = self.view();
        self.log.push(
            CacheLogLine::RanBuildScriptWrapper(
                BuildScriptWrapperRunEvent { crate_name: crate_name.to_owned(), ran_at: at.to_owned() },
            ),
        );
        proof {
            assert(self.view().log =~= pre.log.push(LogEventView::WrapperRun(crate_name@)));
            assert(self.view().units =~= pre.units);
            assert(self.view().stdouts =~= pre.stdouts);
        }
        match self.get_build_script_stdout(script_hash) {
            Some(cached) => {
                let filtered = crate::build_script::filter_build_script_stdout(cached.as_str());
                proof {
                    assert(self.view() =~= spec_run_impersonator(
                        pre,
                        crate_name@,
                        script_hash@,
                        real_stdout@,
                    ));
                }
                Some(filtered)
            },
            None => {
                let ghost mid = self.view();
                self.log.push(
                    CacheLogLine::RanBuildScript(
                        BuildScriptRunEvent {
                            crate_name: crate_name.to_owned(),
                            ran_at: at.to_owned(),
                        },
                    ),
                );
                self.stdouts.push((script_hash.to_owned(), real_stdout.to_owned()));
                proof {
                    assert(self.view().log =~= mid.log.push(
                        LogEventView::ScriptRun(crate_name@),
                    ));
                    assert(self.view().stdouts =~= mid.stdouts.push((script_hash@, real_stdout@)));
                    assert(self.view().units =~= mid.units);
                    assert(self.view() =~= spec_run_impersonator(
                        pre,
                        crate_name@,
                        script_hash@,
                        real_stdout@,
                    ));
                }
                None
            },
        }
    }
}

impl Cache for CacheModel {
    open spec fn view(&self) -> StoreView {
        StoreView {
            units: self.units@.map_values(|s: String| s@),
            stdouts: self.stdouts@.map_values(|p: (String, String)| (p.0@, p.1@)),
            log: self.log@.map_values(|l: CacheLogLine| line_view(l)),
        }
    }

    fn pull_crate(&mut self, unit_name: &str, at: &str, duration_millis: u64) -> (ok: bool)
        ensures
            ok == old(self).view().units.contains(unit_name@),
            final(self).view().units == old(self).view().units,
            final(self).view().stdouts == old(self).view().stdouts,
            ok ==> final(self).view().log == old(self).view().log.push(
                LogEventView::Pulled(unit_name@),
            ),
            !ok ==> final(self).view().log == old(self).view().log,
    {
        let ghost pre = self.view();
        if !self.has_unit(unit_name) {
            return false;
        }
        self.log.push(
            CacheLogLine::PulledCrateOutputs(
                crate::cache_log::PullCrateOutputsEvent {
                    crate_unit_name: unit_name.to_owned(),
                    copied_at: at.to_owned(),
                    copied_from: "local cache".to_owned(),
                    duration_millis,
                },
            ),
        );
        proof {
            assert(self.view().log =~= pre.log.push(LogEventView::Pulled(unit_name@)));
            assert(self.view().units =~= pre.units);
            assert(self.view().stdouts =~= pre.stdouts);
        }
        true
    }

    fn push_crate(
        &mut self,
        unit_name: &str,
        script_stdout: Option<(&str, &str)>,
        at: &str,
        duration_millis: u64,
    )
        ensures
            final(self).view().units == old(self).view().units.push(unit_name@),
            final(self).view().stdouts == match script_stdout {
                Some((h, s)) => old(self).view().stdouts.push((h@, s@)),
                None => old(self).view().stdouts,
            },
            final(self).view().log == old(self).view().log.push(
                LogEventView::Pushed(unit_name@),
            ),
    {
        let ghost pre = self.view();
        self.units.push(unit_name.to_owned());
        match script_stdout {
            Some((h, s)) => {
                self.stdouts.push((h.to_owned(), s.to_owned()));
            },
            None => {},
        }
        self.log.push(
            CacheLogLine::PushedCrateOutputs(
                crate::cache_log::PushCrateOutputsEvent {
                    crate_unit_name: unit_name.to_owned(),
                    copied_at: at.to_owned(),
                    copied_from: "local cache".to_owned(),
                    duration_millis,
                },
            ),
        );
        proof {
            assert(self.view().units =~= pre.units.push(unit_name@));
            assert(self.view().log =~= pre.log.push(LogEventView::Pushed(unit_name@)));
            match script_stdout {
                Some((h, s)) => {
                    assert(self.view().stdouts =~= pre.stdouts.push((h@, s@)));
                },
                None => {
                    assert(self.view().stdouts =~= pre.stdouts);
                },
            }
        }
    }

    fn get_build_script_stdout(&self, script_hash: &str) -> (r: Option<String>)
        ensures
            match r {
                Some(s) => spec_stdout_lookup(self.view().stdouts, script_hash@) == Some(s@),
                None => spec_stdout_lookup(self.view().stdouts, script_hash@) is None,
            },
    {
        let ghost sv = self.view().stdouts;
        let mut i: usize = self.stdouts.len();
        proof {
            assert(sv.take(self.stdouts@.len() as int) =~= sv);
        }
        while i > 0
            invariant
                i <= self.stdouts@.len(),
                sv.len() == self.stdouts@.len(),
                sv == self.view().stdouts,
                spec_stdout_lookup(sv, script_hash@) == spec_stdout_lookup(
                    sv.take(i as int),
                    script_hash@,
                ),
            decreases i,
        {
            i = i - 1;
            proof {
                lemma_stdout_lookup_step(sv, script_hash@, i as int);
                assert(sv[i as int] == (self.stdouts@[i as int].0@, self.stdouts@[i as int].1@));
            }
            if crate::text::str_eq(self.stdouts[i].0.as_str(), script_hash) {
                return Some(self.stdouts[i].1.clone());
            }
        }
        proof {
            assert(sv.take(0) =~= Seq::<(Seq<char>, Seq<char>)>::empty());
        }
        None
    }

    fn put_build_script_stdout(&mut self, script_hash: &str, stdout: &str)
        ensures
            final(self).view().units == old(self).view().units,
            final(self).view().log == old(self).view().log,
            final(self).view().stdouts == old(self).view().stdouts.push((script_hash@, stdout@)),
    {
        let ghost pre = self.view();
        self.stdouts.push((script_hash.to_owned(), stdout.to_owned()));
        proof {
            assert(self.view().stdouts =~= pre.stdouts.push((script_hash@, stdout@)));
            assert(self.view().units =~= pre.units);
            assert(self.view().log =~= pre.log);
        }
    }
}

} // verus!
