//! Standing in for a crate's build script: where the real script lives,
//! how a deferred run of it is recorded, and how its captured output is
//! replayed.

use vstd::prelude::*;

use crate::Error;
use crate::text::join_terminated;
use crate::text::last_index_of;
use crate::text::spec_lines;
use crate::text::starts_with;

verus! {

/// The recipe file's name inside the build script's output directory.
pub fn invocation_info_file_name() -> (r: &'static str)
    ensures
        r@ == "build-script-invocation-info.json"@,
{
    "build-script-invocation-info.json"
}

/// The name of the symbolic link that points at the moved real build
/// script.
pub fn real_build_script_link_name() -> (r: &'static str)
    ensures
        r@ == "real-build-script"@,
{
    "real-build-script"
}

/// Everything needed to run the real build script later, if the main
/// unit's compilation turns out to need it: the script's path, the
/// environment it was to run under, and its working directory.
#[derive(Debug)]
pub struct BuildScriptInvocationInfo {
    pub real_build_script_path: String,
    pub env_vars: Vec<(String, String)>,
    pub work_dir: String,
}

/// The value of the first environment entry with the given name.
pub open spec fn spec_env_lookup(env: Seq<(Seq<char>, Seq<char>)>, name: Seq<char>) -> Option<
    Seq<char>,
>
    decreases env.len(),
{
    if env.len() == 0 {
        None
    } else if env[0].0 == name {
        Some(env[0].1)
    } else {
        spec_env_lookup(env.drop_first(), name)
    }
}

/// One step of the search through the environment.
proof fn lemma_env_lookup_step(env: Seq<(Seq<char>, Seq<char>)>, name: Seq<char>, i: int)
    requires
        0 <= i < env.len(),
    ensures
        spec_env_lookup(env.skip(i), name) == if env[i].0 == name {
            Some(env[i].1)
        } else {
            spec_env_lookup(env.skip(i + 1), name)
        },
{
    assert(env.skip(i)[0] == env[i]);
    assert(env.skip(i).drop_first() =~= env.skip(i + 1));
}

/// The environment, as pairs of character sequences.
pub open spec fn env_view(env: Seq<(String, String)>) -> Seq<(Seq<char>, Seq<char>)> {
    env.map_values(|p: (String, String)| (p.0@, p.1@))
}

impl BuildScriptInvocationInfo {
    /// The output directory the driver assigned to the build script: the
    /// recorded environment's `OUT_DIR` entry.
    pub fn out_dir(&self) -> (r: Result<String, Error>)
        ensures
            match r {
                Ok(d) => spec_env_lookup(env_view(self.env_vars@), "OUT_DIR"@) == Some(d@),
                Err(e) => spec_env_lookup(env_view(self.env_vars@), "OUT_DIR"@) is None && e
                    == Error::MissingOutDirVar,
            },
    {
        let ghost ev = env_view(self.env_vars@);
        let n = self.env_vars.len();
        let mut i: usize = 0;
        proof {
            assert(ev.skip(0) =~= ev);
        }
        while i < n
            invariant
                n == self.env_vars@.len(),
                n == ev.len(),
                i <= n,
                ev == env_view(self.env_vars@),
                spec_env_lookup(ev, "OUT_DIR"@) == spec_env_lookup(ev.skip(i as int), "OUT_DIR"@),
            decreases n - i,
        {
            proof {
                lemma_env_lookup_step(ev, "OUT_DIR"@, i as int);
                assert(ev[i as int] == (self.env_vars@[i as int].0@, self.env_vars@[i as int].1@));
            }
            if crate::text::str_eq(self.env_vars[i].0.as_str(), "OUT_DIR") {
                return Ok(self.env_vars[i].1.clone());
            }
            i = i + 1;
        }
        Err(Error::MissingOutDirVar)
    }

    /// The path of the sentinel whose mtime is the build script's
    /// invoked-timestamp: `invoked.timestamp` beside the out-dir.
    pub fn invoked_timestamp_path(&self) -> (r: Result<String, Error>)
        ensures
            match r {
                Ok(p) => {
                    let od = spec_env_lookup(env_view(self.env_vars@), "OUT_DIR"@);
                    od is Some && crate::paths::spec_parent(od->0) is Some && p@
                        == crate::paths::spec_parent(od->0)->0 + "/"@ + "invoked.timestamp"@
                },
                Err(e) => {
                    let od = spec_env_lookup(env_view(self.env_vars@), "OUT_DIR"@);
                    (od is None && e == Error::MissingOutDirVar) || (od is Some
                        && crate::paths::spec_parent(od->0) is None && e == Error::MissingParent)
                },
            },
    {
        let out_dir = match self.out_dir() {
            Ok(d) => d,
            Err(e) => {
                return Err(e);
            },
        };
        let build_dir = match crate::paths::path_parent(out_dir.as_str()) {
            Some(d) => d,
            None => {
                return Err(Error::MissingParent);
            },
        };
        Ok(crate::paths::path_join(build_dir.as_str(), "invoked.timestamp"))
    }

    /// The JSON this recipe is persisted as.
    pub fn to_json(&self) -> (r: String)
        ensures
            r@ == spec_recipe_json(
                self.real_build_script_path@,
                env_view(self.env_vars@),
                self.work_dir@,
            ),
    {
        let mut out = String::new();
        out.append("{\"real_build_script_path\":");
        crate::cache_log::push_json_string(&mut out, self.real_build_script_path.as_str());
        out.append(",\"env_vars\":");
        push_env_object(&mut out, &self.env_vars);
        out.append(",\"work_dir\":");
        crate::cache_log::push_json_string(&mut out, self.work_dir.as_str());
        out.push('}');
        proof {
            assert(out@ =~= spec_recipe_json(
                self.real_build_script_path@,
                env_view(self.env_vars@),
                self.work_dir@,
            ));
        }
        out
    }
}

/// One environment entry as a JSON member.
pub open spec fn env_pair_json(p: (Seq<char>, Seq<char>)) -> Seq<char> {
    crate::cache_log::json_string(p.0) + seq![':'] + crate::cache_log::json_string(p.1)
}

/// Environment entries after the first, each behind a comma.
pub open spec fn env_pairs_rest_json(env: Seq<(Seq<char>, Seq<char>)>) -> Seq<char>
    decreases env.len(),
{
    if env.len() == 0 {
        Seq::empty()
    } else {
        seq![','] + env_pair_json(env[0]) + env_pairs_rest_json(env.drop_first())
    }
}

/// Trailing environment members distribute over concatenation.
proof fn lemma_env_pairs_rest_concat(a: Seq<(Seq<char>, Seq<char>)>, b: Seq<(Seq<char>, Seq<char>)>)
    ensures
        env_pairs_rest_json(a + b) == env_pairs_rest_json(a) + env_pairs_rest_json(b),
    decreases a.len(),
{
    if a.len() == 0 {
        assert(a + b =~= b);
        assert(env_pairs_rest_json(a) + env_pairs_rest_json(b) =~= env_pairs_rest_json(b));
    } else {
        lemma_env_pairs_rest_concat(a.drop_first(), b);
        assert((a + b).drop_first() =~= a.drop_first() + b);
        assert((a + b)[0] == a[0]);
        assert(seq![','] + env_pair_json(a[0]) + (env_pairs_rest_json(a.drop_first())
            + env_pairs_rest_json(b)) =~= (seq![','] + env_pair_json(a[0]) + env_pairs_rest_json(
            a.drop_first(),
        )) + env_pairs_rest_json(b));
    }
}

/// One trailing environment member on its own.
proof fn lemma_env_pairs_rest_singleton(p: (Seq<char>, Seq<char>))
    ensures
        env_pairs_rest_json(seq![p]) == seq![','] + env_pair_json(p),
{
    reveal_with_fuel(env_pairs_rest_json, 2);
    assert(seq![p].drop_first() =~= Seq::<(Seq<char>, Seq<char>)>::empty());
    assert(seq![','] + env_pair_json(p) + Seq::<char>::empty() =~= seq![','] + env_pair_json(p));
}

/// The environment as a JSON object, entries in recorded order.
pub open spec fn env_object_json(env: Seq<(Seq<char>, Seq<char>)>) -> Seq<char> {
    if env.len() == 0 {
        "{}"@
    } else {
        seq!['{'] + env_pair_json(env[0]) + env_pairs_rest_json(env.drop_first()) + seq!['}']
    }
}

/// The JSON a recipe is persisted as: the script's path, the environment
/// object, and the working directory.
pub open spec fn spec_recipe_json(
    path: Seq<char>,
    env: Seq<(Seq<char>, Seq<char>)>,
    work_dir: Seq<char>,
) -> Seq<char> {
    "{\"real_build_script_path\":"@ + crate::cache_log::json_string(path) + ",\"env_vars\":"@
        + env_object_json(env) + ",\"work_dir\":"@ + crate::cache_log::json_string(work_dir)
        + seq!['}']
}

/// Appends the environment as a JSON object.
fn push_env_object(out: &mut String, env: &Vec<(String, String)>)
    ensures
        final(out)@ == old(out)@ + env_object_json(env_view(env@)),
{
    let ghost ev = env_view(env@);
    let n = env.len();
    if n == 0 {
        out.append("{}");
        return ;
    }
    out.push('{');
    crate::cache_log::push_json_string(out, env[0].0.as_str());
    out.push(':');
    crate::cache_log::push_json_string(out, env[0].1.as_str());
    proof {
        assert(ev[0] == (env@[0].0@, env@[0].1@));
        assert(ev.subrange(1, 1) =~= Seq::<(Seq<char>, Seq<char>)>::empty());
        assert(out@ =~= old(out)@ + seq!['{'] + env_pair_json(ev[0]) + env_pairs_rest_json(
            ev.subrange(1, 1),
        ));
    }
    let mut i: usize = 1;
    while i < n
        invariant
            n == env@.len(),
            n == ev.len(),
            1 <= i <= n,
            ev == env_view(env@),
            out@ == old(out)@ + seq!['{'] + env_pair_json(ev[0]) + env_pairs_rest_json(
                ev.subrange(1, i as int),
            ),
        decreases n - i,
    {
        out.push(',');
        crate::cache_log::push_json_string(out, env[i].0.as_str());
        out.push(':');
        crate::cache_log::push_json_string(out, env[i].1.as_str());
        proof {
            assert(ev[i as int] == (env@[i as int].0@, env@[i as int].1@));
            assert(ev.subrange(1, i + 1 as int) =~= ev.subrange(1, i as int) + seq![ev[i as int]]);
            lemma_env_pairs_rest_concat(ev.subrange(1, i as int), seq![ev[i as int]]);
            lemma_env_pairs_rest_singleton(ev[i as int]);
            assert(out@ =~= old(out)@ + seq!['{'] + env_pair_json(ev[0]) + env_pairs_rest_json(
                ev.subrange(1, i + 1 as int),
            ));
        }
        i = i + 1;
    }
    out.push('}');
    proof {
        assert(ev.subrange(1, n as int) =~= ev.drop_first());
        assert(out@ =~= old(out)@ + env_object_json(ev));
    }
}

/// The crate name and run hash encoded in a build directory's name:
/// everything before the last `-`, and everything after it.
pub fn parse_build_dir_name(dir_name: &str) -> (r: Result<(String, String), Error>)
    ensures
        match r {
            Ok((cn, h)) => last_index_of(dir_name@, '-') >= 0 && cn@ == dir_name@.take(
                last_index_of(dir_name@, '-'),
            ) && h@ == dir_name@.skip(last_index_of(dir_name@, '-') + 1),
            Err(e) => last_index_of(dir_name@, '-') < 0 && e == Error::BadBuildDirName,
        },
{
    let chars = crate::text::to_chars(dir_name);
    let n = chars.len();
    match crate::text::rfind_char(chars.as_slice(), '-') {
        None => {
            proof {
                crate::text::lemma_last_index_absent(dir_name@, '-');
            }
            Err(Error::BadBuildDirName)
        },
        Some(i) => {
            proof {
                crate::text::lemma_last_index_at(dir_name@, '-', i as int);
            }
            let cn = crate::text::chars_to_string(
                crate::text::slice_range(chars.as_slice(), 0, i).as_slice(),
            );
            let h = crate::text::chars_to_string(
                crate::text::slice_range(chars.as_slice(), i + 1, n).as_slice(),
            );
            Ok((cn, h))
        },
    }
}

/// What the impersonator needs before it can consult the store: where the
/// real build script's link lives, and the crate name and run hash from
/// the build directory's name.
#[derive(Debug)]
pub struct ImpersonationContext {
    pub real_build_script_symlink_path: String,
    pub crate_name: String,
    pub run_metadata_hash: String,
}

impl ImpersonationContext {
    /// Reads the impersonation context off the path the wrapper was
    /// invoked as and the `OUT_DIR` the driver assigned: the link lives
    /// beside the invoked path, and the out-dir's parent directory is
    /// named `{crate}-{hash}`.
    pub fn derive(called_as: &str, out_dir: &str) -> (r: Result<ImpersonationContext, Error>)
        ensures
            match r {
                Ok(c) => {
                    &&& crate::paths::spec_parent(called_as@) is Some
                    &&& c.real_build_script_symlink_path@ == crate::paths::spec_parent(called_as@)->0
                        + "/"@ + "real-build-script"@
                    &&& crate::paths::spec_parent(out_dir@) is Some
                    &&& {
                        let dn = crate::paths::spec_last_component(
                            crate::paths::spec_parent(out_dir@)->0,
                        );
                        last_index_of(dn, '-') >= 0 && c.crate_name@ == dn.take(
                            last_index_of(dn, '-'),
                        ) && c.run_metadata_hash@ == dn.skip(last_index_of(dn, '-') + 1)
                    }
                },
                Err(e) => {
                    ||| (crate::paths::spec_parent(called_as@) is None && e == Error::MissingParent)
                    ||| (crate::paths::spec_parent(out_dir@) is None && e == Error::MissingParent)
                    ||| (crate::paths::spec_parent(called_as@) is Some && crate::paths::spec_parent(
                        out_dir@,
                    ) is Some && last_index_of(
                        crate::paths::spec_last_component(crate::paths::spec_parent(out_dir@)->0),
                        '-',
                    ) < 0 && e == Error::BadBuildDirName)
                },
            },
    {
        let script_dir = match crate::paths::path_parent(called_as) {
            Some(d) => d,
            None => {
                return Err(Error::MissingParent);
            },
        };
        let link = crate::paths::path_join(script_dir.as_str(), real_build_script_link_name());
        let build_dir = match crate::paths::path_parent(out_dir) {
            Some(d) => d,
            None => {
                return Err(Error::MissingParent);
            },
        };
        let dir_name = crate::paths::path_last_component(build_dir.as_str());
        let (crate_name, run_metadata_hash) = match parse_build_dir_name(dir_name.as_str()) {
            Ok(p) => p,
            Err(e) => {
                return Err(e);
            },
        };
        Ok(
            ImpersonationContext {
                real_build_script_symlink_path: link,
                crate_name,
                run_metadata_hash,
            },
        )
    }
}

/// Where the producer path puts things when it substitutes the wrapper
/// for a freshly compiled build script: the script's own path, the name
/// it is moved aside to, and the link that will point at it.
#[derive(Debug)]
pub struct SubstitutionPlan {
    pub build_script_path: String,
    pub moved_build_script_path: String,
    pub symlink_path: String,
}

/// The producer path's substitution plan for one build-script unit: the
/// compiled script `out_dir/unit` is moved aside under a fixed suffix, a
/// `real-build-script` link in `out_dir` points at the moved file, and a
/// copy of this wrapper takes the original name.
pub fn substitution_plan(out_dir: &str, crate_unit_name: &str) -> (r: Result<
    SubstitutionPlan,
    Error,
>)
    ensures
        ({
            let bsp = out_dir@ + "/"@ + crate_unit_name@;
            match r {
                Ok(p) => bsp.len() > 0 && bsp.last() != '/' && p.build_script_path@ == bsp
                    && p.moved_build_script_path@ == bsp + "-moved-by-hope"@ && p.symlink_path@
                    == out_dir@ + "/"@ + "real-build-script"@,
                Err(e) => (bsp.len() == 0 || bsp.last() == '/') && e == Error::MissingFileName,
            }
        }),
{
    let build_script_path = crate::paths::path_join(out_dir, crate_unit_name);
    let moved_build_script_path = match crate::outputs::append_moved_build_script_suffix(
        build_script_path.as_str(),
    ) {
        Ok(m) => m,
        Err(e) => {
            return Err(e);
        },
    };
    let symlink_path = crate::paths::path_join(out_dir, real_build_script_link_name());
    Ok(SubstitutionPlan { build_script_path, moved_build_script_path, symlink_path })
}

/// A replayed stdout line survives unless it would tell the driver to
/// watch paths that do not exist in this workspace.
pub open spec fn keep_stdout_line(l: Seq<char>) -> bool {
    !starts_with(l, "cargo:rerun-if-"@)
}

/// The replayed lines, in order.
pub open spec fn kept_stdout_lines(ls: Seq<Seq<char>>) -> Seq<Seq<char>>
    decreases ls.len(),
{
    if ls.len() == 0 {
        Seq::empty()
    } else if keep_stdout_line(ls[0]) {
        seq![ls[0]] + kept_stdout_lines(ls.drop_first())
    } else {
        kept_stdout_lines(ls.drop_first())
    }
}

/// Keeping lines distributes over concatenation.
proof fn lemma_kept_stdout_concat(a: Seq<Seq<char>>, b: Seq<Seq<char>>)
    ensures
        kept_stdout_lines(a + b) == kept_stdout_lines(a) + kept_stdout_lines(b),
    decreases a.len(),
{
    if a.len() == 0 {
        assert(a + b =~= b);
        assert(kept_stdout_lines(a) + kept_stdout_lines(b) =~= kept_stdout_lines(b));
    } else {
        lemma_kept_stdout_concat(a.drop_first(), b);
        assert((a + b).drop_first() =~= a.drop_first() + b);
        assert((a + b)[0] == a[0]);
        if keep_stdout_line(a[0]) {
            assert(seq![a[0]] + (kept_stdout_lines(a.drop_first()) + kept_stdout_lines(b)) =~= (
            seq![a[0]] + kept_stdout_lines(a.drop_first())) + kept_stdout_lines(b));
        }
    }
}

/// Keeping one line on its own.
proof fn lemma_kept_stdout_singleton(l: Seq<char>)
    ensures
        kept_stdout_lines(seq![l]) == if keep_stdout_line(l) {
            seq![l]
        } else {
            Seq::<Seq<char>>::empty()
        },
{
    reveal_with_fuel(kept_stdout_lines, 2);
    assert(seq![l].drop_first() =~= Seq::<Seq<char>>::empty());
    if keep_stdout_line(l) {
        assert(seq![l] + Seq::<Seq<char>>::empty() =~= seq![l]);
    }
}

/// What a cached build-script stdout is replayed as: every line, each
/// newline-terminated, except those beginning `cargo:rerun-if-`, which
/// would make the driver watch files this workspace does not hold.
pub open spec fn spec_filtered_stdout(s: Seq<char>) -> Seq<char> {
    join_terminated(kept_stdout_lines(spec_lines(s)))
}

/// Replays a cached build-script stdout, suppressing every
/// `cargo:rerun-if-` line.
pub fn filter_build_script_stdout(s: &str) -> (r: String)
    ensures
        r@ == spec_filtered_stdout(s@),
{
    let chars = crate::text::to_chars(s);
    let lines = crate::text::split_lines(chars.as_slice());
    let ghost ls = spec_lines(s@);
    let pat = crate::text::to_chars("cargo:rerun-if-");
    let mut out: Vec<char> = Vec::new();
    let ghost mut os = Seq::<Seq<char>>::empty();
    proof {
        assert(ls.take(0) =~= Seq::<Seq<char>>::empty());
        assert(out@ =~= join_terminated(os));
    }
    let mut i: usize = 0;
    let n = lines.len();
    while i < n
        invariant
            n == lines@.len(),
            n == ls.len(),
            i <= n,
            ls == spec_lines(s@),
            pat@ == "cargo:rerun-if-"@,
            forall|k: int| 0 <= k < n ==> lines@[k]@ == ls[k],
            kept_stdout_lines(ls.take(i as int)) == os,
            out@ == join_terminated(os),
        decreases n - i,
    {
        proof {
            assert(lines@[i as int]@ == ls[i as int]);
            assert(ls.take(i + 1 as int) =~= ls.take(i as int) + seq![ls[i as int]]);
            lemma_kept_stdout_concat(ls.take(i as int), seq![ls[i as int]]);
            lemma_kept_stdout_singleton(ls[i as int]);
        }
        if !crate::text::begins_with(lines[i].as_slice(), pat.as_slice()) {
            crate::text::extend_chars(&mut out, lines[i].as_slice());
            out.push('\n');
            proof {
                crate::dep_info::lemma_join_terminated_concat(os, seq![ls[i as int]]);
                crate::dep_info::lemma_join_terminated_singleton(ls[i as int]);
                os = os + seq![ls[i as int]];
                assert(out@ =~= join_terminated(os));
            }
        } else {
            proof {
                assert(os + Seq::<Seq<char>>::empty() =~= os);
            }
        }
        i = i + 1;
    }
    proof {
        assert(ls.take(n as int) =~= ls);
    }
    crate::text::chars_to_string(out.as_slice())
}

} // verus!
