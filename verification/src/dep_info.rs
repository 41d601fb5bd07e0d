//! The per-unit dependency manifest: parsing, and the rewrite that strips
//! references into per-workspace build directories.
//!
//! A manifest is text of comment lines beginning with `#`, empty lines,
//! and data lines of shape `<target>: <space-separated source paths>`.

use vstd::prelude::*;

use crate::Error;
use crate::text::contains_seq;
use crate::text::find_index;
use crate::text::join_terminated;
use crate::text::spec_lines;
use crate::text::spec_trim;
use crate::text::split_char;

verus! {

/// A source path survives the rewrite when it is non-empty and does not
/// point into a build directory.
pub open spec fn keep_dep(d: Seq<char>) -> bool {
    d.len() > 0 && !contains_seq(d, "/build/"@)
}

/// The source paths that survive the rewrite, in order.
pub open spec fn filter_deps(ds: Seq<Seq<char>>) -> Seq<Seq<char>>
    decreases ds.len(),
{
    if ds.len() == 0 {
        Seq::empty()
    } else if keep_dep(ds[0]) {
        seq![ds[0]] + filter_deps(ds.drop_first())
    } else {
        filter_deps(ds.drop_first())
    }
}

/// The non-empty segments, in order.
pub open spec fn filter_nonempty(ds: Seq<Seq<char>>) -> Seq<Seq<char>>
    decreases ds.len(),
{
    if ds.len() == 0 {
        Seq::empty()
    } else if ds[0].len() > 0 {
        seq![ds[0]] + filter_nonempty(ds.drop_first())
    } else {
        filter_nonempty(ds.drop_first())
    }
}

/// Each dependency, preceded by one space.
pub open spec fn join_deps(ds: Seq<Seq<char>>) -> Seq<char>
    decreases ds.len(),
{
    if ds.len() == 0 {
        Seq::empty()
    } else {
        seq![' '] + ds[0] + join_deps(ds.drop_first())
    }
}

/// What the rewrite makes of one manifest line, inspected after trimming
/// as every line is. `None`: the line is a data line without a `:`, which
/// the rewrite rejects. `Some(None)`: the line is dropped because its
/// target lies in a build directory. `Some(Some(o))`: the line is emitted
/// as `o` — comment and empty lines as their trimmed selves, data lines
/// with every build-directory source path removed.
pub open spec fn rewrite_line(l: Seq<char>) -> Option<Option<Seq<char>>> {
    let t = spec_trim(l);
    if t.len() == 0 || t[0] == '#' {
        Some(Some(t))
    } else {
        let idx = find_index(t, ':');
        if idx < 0 {
            None
        } else {
            let target = t.take(idx);
            let rest = t.skip(idx + 1);
            if contains_seq(target, "/build/"@) {
                Some(None)
            } else {
                Some(Some(target + seq![':'] + join_deps(filter_deps(split_char(rest, ' ')))))
            }
        }
    }
}

/// The lines the rewrite emits, in order; `None` if any line is rejected.
pub open spec fn rewritten_lines(ls: Seq<Seq<char>>) -> Option<Seq<Seq<char>>>
    decreases ls.len(),
{
    if ls.len() == 0 {
        Some(Seq::empty())
    } else {
        match rewrite_line(ls[0]) {
            None => None,
            Some(first) => match rewritten_lines(ls.drop_first()) {
                None => None,
                Some(rest) => match first {
                    None => Some(rest),
                    Some(o) => Some(seq![o] + rest),
                },
            },
        }
    }
}

/// The rewritten manifest: every emitted line, newline-terminated; `None`
/// if some data line lacks a `:`.
pub open spec fn spec_rewrite_dep_info(s: Seq<char>) -> Option<Seq<char>> {
    match rewritten_lines(spec_lines(s)) {
        None => None,
        Some(os) => Some(join_terminated(os)),
    }
}

/// Filtering distributes over concatenation.
pub proof fn lemma_filter_deps_concat(a: Seq<Seq<char>>, b: Seq<Seq<char>>)
    ensures
        filter_deps(a + b) == filter_deps(a) + filter_deps(b),
    decreases a.len(),
{
    if a.len() == 0 {
        assert(a + b =~= b);
        assert(filter_deps(a) + filter_deps(b) =~= filter_deps(b));
    } else {
        lemma_filter_deps_concat(a.drop_first(), b);
        assert((a + b).drop_first() =~= a.drop_first() + b);
        assert((a + b)[0] == a[0]);
        if keep_dep(a[0]) {
            assert(seq![a[0]] + (filter_deps(a.drop_first()) + filter_deps(b)) =~= (seq![a[0]]
                + filter_deps(a.drop_first())) + filter_deps(b));
        }
    }
}

/// Filtering non-empty segments distributes over concatenation.
pub proof fn lemma_filter_nonempty_concat(a: Seq<Seq<char>>, b: Seq<Seq<char>>)
    ensures
        filter_nonempty(a + b) == filter_nonempty(a) + filter_nonempty(b),
    decreases a.len(),
{
    if a.len() == 0 {
        assert(a + b =~= b);
        assert(filter_nonempty(a) + filter_nonempty(b) =~= filter_nonempty(b));
    } else {
        lemma_filter_nonempty_concat(a.drop_first(), b);
        assert((a + b).drop_first() =~= a.drop_first() + b);
        assert((a + b)[0] == a[0]);
        if a[0].len() > 0 {
            assert(seq![a[0]] + (filter_nonempty(a.drop_first()) + filter_nonempty(b)) =~= (seq![
                a[0],
            ] + filter_nonempty(a.drop_first())) + filter_nonempty(b));
        }
    }
}

/// Joining dependencies distributes over concatenation.
pub proof fn lemma_join_deps_concat(a: Seq<Seq<char>>, b: Seq<Seq<char>>)
    ensures
        join_deps(a + b) == join_deps(a) + join_deps(b),
    decreases a.len(),
{
    if a.len() == 0 {
        assert(a + b =~= b);
        assert(join_deps(a) + join_deps(b) =~= join_deps(b));
    } else {
        lemma_join_deps_concat(a.drop_first(), b);
        assert((a + b).drop_first() =~= a.drop_first() + b);
        assert((a + b)[0] == a[0]);
        assert(seq![' '] + a[0] + (join_deps(a.drop_first()) + join_deps(b)) =~= (seq![' '] + a[0]
            + join_deps(a.drop_first())) + join_deps(b));
    }
}

/// Joining emitted lines distributes over concatenation.
pub proof fn lemma_join_terminated_concat(a: Seq<Seq<char>>, b: Seq<Seq<char>>)
    ensures
        join_terminated(a + b) == join_terminated(a) + join_terminated(b),
    decreases a.len(),
{
    if a.len() == 0 {
        assert(a + b =~= b);
        assert(join_terminated(a) + join_terminated(b) =~= join_terminated(b));
    } else {
        lemma_join_terminated_concat(a.drop_first(), b);
        assert((a + b).drop_first() =~= a.drop_first() + b);
        assert((a + b)[0] == a[0]);
        assert(a[0] + seq!['\n'] + (join_terminated(a.drop_first()) + join_terminated(b)) =~= (a[0]
            + seq!['\n'] + join_terminated(a.drop_first())) + join_terminated(b));
    }
}

/// Filtering a single dependency keeps or drops it.
pub proof fn lemma_filter_deps_singleton(d: Seq<char>)
    ensures
        filter_deps(seq![d]) == if keep_dep(d) {
            seq![d]
        } else {
            Seq::<Seq<char>>::empty()
        },
{
    reveal_with_fuel(filter_deps, 2);
    assert(seq![d].drop_first() =~= Seq::<Seq<char>>::empty());
    if keep_dep(d) {
        assert(seq![d] + Seq::<Seq<char>>::empty() =~= seq![d]);
    }
}

/// Filtering a single segment keeps or drops it.
pub proof fn lemma_filter_nonempty_singleton(d: Seq<char>)
    ensures
        filter_nonempty(seq![d]) == if d.len() > 0 {
            seq![d]
        } else {
            Seq::<Seq<char>>::empty()
        },
{
    reveal_with_fuel(filter_nonempty, 2);
    assert(seq![d].drop_first() =~= Seq::<Seq<char>>::empty());
    if d.len() > 0 {
        assert(seq![d] + Seq::<Seq<char>>::empty() =~= seq![d]);
    }
}

/// Joining a single dependency yields a space and the dependency.
pub proof fn lemma_join_deps_singleton(d: Seq<char>)
    ensures
        join_deps(seq![d]) == seq![' '] + d,
{
    reveal_with_fuel(join_deps, 2);
    assert(seq![d].drop_first() =~= Seq::<Seq<char>>::empty());
    assert(seq![' '] + d + Seq::<char>::empty() =~= seq![' '] + d);
}

/// Joining a single line yields the line and its terminator.
pub proof fn lemma_join_terminated_singleton(l: Seq<char>)
    ensures
        join_terminated(seq![l]) == l + seq!['\n'],
{
    reveal_with_fuel(join_terminated, 2);
    assert(seq![l].drop_first() =~= Seq::<Seq<char>>::empty());
    assert(l + seq!['\n'] + Seq::<char>::empty() =~= l + seq!['\n']);
}

/// Rewriting distributes over concatenation of line lists.
pub proof fn lemma_rewritten_lines_concat(a: Seq<Seq<char>>, b: Seq<Seq<char>>)
    ensures
        rewritten_lines(a + b) == match (rewritten_lines(a), rewritten_lines(b)) {
            (Some(x), Some(y)) => Some(x + y),
            _ => None::<Seq<Seq<char>>>,
        },
    decreases a.len(),
{
    if a.len() == 0 {
        assert(a + b =~= b);
        if rewritten_lines(b) is Some {
            assert(rewritten_lines(a)->0 + rewritten_lines(b)->0 =~= rewritten_lines(b)->0);
        }
    } else {
        lemma_rewritten_lines_concat(a.drop_first(), b);
        assert((a + b).drop_first() =~= a.drop_first() + b);
        assert((a + b)[0] == a[0]);
        match rewrite_line(a[0]) {
            None => {},
            Some(first) => {
                match (rewritten_lines(a.drop_first()), rewritten_lines(b)) {
                    (Some(x), Some(y)) => {
                        match first {
                            None => {},
                            Some(o) => {
                                assert(seq![o] + (x + y) =~= (seq![o] + x) + y);
                            },
                        }
                    },
                    _ => {},
                }
            },
        }
    }
}

/// A rejected line rejects the whole manifest.
pub proof fn lemma_rewritten_lines_err(ls: Seq<Seq<char>>, j: int)
    requires
        0 <= j < ls.len(),
        rewrite_line(ls[j]) is None,
    ensures
        rewritten_lines(ls) is None,
    decreases j,
{
    if j > 0 {
        lemma_rewritten_lines_err(ls.drop_first(), j - 1);
    }
}

/// Rewriting one line on its own.
pub proof fn lemma_rewritten_lines_singleton(l: Seq<char>)
    ensures
        rewritten_lines(seq![l]) == match rewrite_line(l) {
            None => None::<Seq<Seq<char>>>,
            Some(None) => Some(Seq::<Seq<char>>::empty()),
            Some(Some(o)) => Some(seq![o]),
        },
{
    reveal_with_fuel(rewritten_lines, 2);
    assert(seq![l].drop_first() =~= Seq::<Seq<char>>::empty());
    match rewrite_line(l) {
        None => {},
        Some(first) => match first {
            None => {},
            Some(o) => {
                assert(seq![o] + Seq::<Seq<char>>::empty() =~= seq![o]);
            },
        },
    }
}

/// Rewrites one manifest line, as [`rewrite_line`] describes.
fn rewrite_line_exec(l: &[char]) -> (r: Result<Option<Vec<char>>, Error>)
    ensures
        match r {
            Ok(Some(o)) => rewrite_line(l@) == Some(Some(o@)),
            Ok(None) => rewrite_line(l@) == Some(None::<Seq<char>>),
            Err(e) => rewrite_line(l@) is None && e == Error::MissingColon,
        },
{
    let t = crate::text::trim(l);
    let ghost tv = spec_trim(l@);
    let n = t.len();
    if n == 0 || t[0] == '#' {
        return Ok(Some(t));
    }
    match crate::text::find_char_from(t.as_slice(), ':', 0) {
        None => {
            proof {
                crate::text::lemma_find_index_absent(tv, ':');
            }
            Err(Error::MissingColon)
        },
        Some(i) => {
            proof {
                crate::text::lemma_find_index_at(tv, ':', i as int);
            }
            let target = crate::text::slice_range(t.as_slice(), 0, i);
            let pat = crate::text::to_chars("/build/");
            proof {
                assert(pat@ == "/build/"@);
            }
            if crate::text::has_seq(target.as_slice(), pat.as_slice()) {
                return Ok(None);
            }
            let rest = crate::text::slice_range(t.as_slice(), i + 1, n);
            let deps = crate::text::split_on_char(rest.as_slice(), ' ');
            let ghost dd = split_char(rest@, ' ');
            let mut out: Vec<char> = Vec::new();
            crate::text::extend_chars(&mut out, target.as_slice());
            out.push(':');
            proof {
                assert(filter_deps(dd.take(0)) =~= filter_deps(Seq::empty()));
                assert(out@ =~= tv.take(i as int) + seq![':'] + join_deps(filter_deps(dd.take(0))));
            }
            let mut j: usize = 0;
            let m = deps.len();
            while j < m
                invariant
                    m == deps@.len(),
                    m == dd.len(),
                    j <= m,
                    pat@ == "/build/"@,
                    forall|k: int| 0 <= k < m ==> deps@[k]@ == dd[k],
                    out@ == tv.take(i as int) + seq![':'] + join_deps(filter_deps(dd.take(j as int))),
                decreases m - j,
            {
                let seg_len = deps[j].len();
                let has_build = crate::text::has_seq(deps[j].as_slice(), pat.as_slice());
                let keep = seg_len > 0 && !has_build;
                if keep {
                    out.push(' ');
                    crate::text::extend_chars(&mut out, deps[j].as_slice());
                }
                proof {
                    assert(deps@[j as int]@ == dd[j as int]);
                    assert(keep == keep_dep(dd[j as int]));
                    assert(dd.take(j + 1 as int) =~= dd.take(j as int) + seq![dd[j as int]]);
                    lemma_filter_deps_concat(dd.take(j as int), seq![dd[j as int]]);
                    lemma_filter_deps_singleton(dd[j as int]);
                    if keep {
                        lemma_join_deps_concat(filter_deps(dd.take(j as int)), seq![dd[j as int]]);
                        lemma_join_deps_singleton(dd[j as int]);
                        assert(out@ =~= tv.take(i as int) + seq![':'] + join_deps(
                            filter_deps(dd.take(j + 1 as int)),
                        ));
                    } else {
                        assert(filter_deps(dd.take(j as int)) + Seq::<Seq<char>>::empty()
                            =~= filter_deps(dd.take(j as int)));
                    }
                }
                j = j + 1;
            }
            proof {
                assert(dd.take(m as int) =~= dd);
            }
            Ok(Some(out))
        },
    }
}

/// Rewrites a dependency manifest. Every line is trimmed before it is
/// inspected; comment and empty lines survive as their trimmed selves; a
/// data line whose target lies in a build directory is dropped; on every
/// other data line each source path into a build directory is removed. A
/// data line without a `:` is rejected.
pub fn rewrite_dep_info(s: &str) -> (r: Result<String, Error>)
    ensures
        match r {
            Ok(o) => spec_rewrite_dep_info(s@) == Some(o@),
            Err(e) => spec_rewrite_dep_info(s@) is None && e == Error::MissingColon,
        },
{
    let chars = crate::text::to_chars(s);
    let lines = crate::text::split_lines(chars.as_slice());
    let ghost ls = spec_lines(s@);
    let mut out: Vec<char> = Vec::new();
    let ghost mut os = Seq::<Seq<char>>::empty();
    proof {
        assert(ls.take(0) =~= Seq::<Seq<char>>::empty());
        assert(out@ =~= join_terminated(os));
    }
    let mut i: usize = 0;
    let n = lines.len();
    while i < n
        invariant
            n == lines@.len(),
            n == ls.len(),
            i <= n,
            ls == spec_lines(s@),
            forall|k: int| 0 <= k < n ==> lines@[k]@ == ls[k],
            rewritten_lines(ls.take(i as int)) == Some(os),
            out@ == join_terminated(os),
        decreases n - i,
    {
        let step = rewrite_line_exec(lines[i].as_slice());
        proof {
            assert(ls.take(i + 1 as int) =~= ls.take(i as int) + seq![ls[i as int]]);
            lemma_rewritten_lines_concat(ls.take(i as int), seq![ls[i as int]]);
            lemma_rewritten_lines_singleton(ls[i as int]);
        }
        match step {
            Err(e) => {
                proof {
                    assert(lines@[i as int]@ == ls[i as int]);
                    assert(rewrite_line(ls[i as int]) is None);
                    lemma_rewritten_lines_err(ls, i as int);
                    assert(rewritten_lines(spec_lines(s@)) is None);
                }
                return Err(e);
            },
            Ok(None) => {
                proof {
                    assert(os + Seq::<Seq<char>>::empty() =~= os);
                }
            },
            Ok(Some(o)) => {
                crate::text::extend_chars(&mut out, o.as_slice());
                out.push('\n');
                proof {
                    lemma_join_terminated_concat(os, seq![o@]);
                    lemma_join_terminated_singleton(o@);
                    os = os + seq![o@];
                    assert(out@ =~= join_terminated(os));
                }
            },
        }
        i = i + 1;
    }
    proof {
        assert(ls.take(n as int) =~= ls);
    }
    Ok(crate::text::chars_to_string(out.as_slice()))
}

/// A property that holds of every segment holds of every kept segment.
proof fn lemma_filter_deps_preserves(ds: Seq<Seq<char>>, pred: spec_fn(Seq<char>) -> bool)
    requires
        forall|i: int| 0 <= i < ds.len() ==> pred(ds[i]),
    ensures
        forall|i: int| 0 <= i < filter_deps(ds).len() ==> pred(filter_deps(ds)[i]),
    decreases ds.len(),
{
    if ds.len() == 0 {
    } else {
        assert forall|i: int| 0 <= i < ds.drop_first().len() implies pred(ds.drop_first()[i]) by {
            assert(ds.drop_first()[i] == ds[i + 1]);
        }
        lemma_filter_deps_preserves(ds.drop_first(), pred);
        let sub = filter_deps(ds.drop_first());
        if keep_dep(ds[0]) {
            let r2 = seq![ds[0]] + sub;
            assert forall|i: int| 0 <= i < r2.len() implies pred(r2[i]) by {
                if i > 0 {
                    assert(r2[i] == sub[i - 1]);
                }
            }
        }
    }
}

/// Every kept segment satisfies the keeping condition.
proof fn lemma_filter_deps_kept(ds: Seq<Seq<char>>)
    ensures
        forall|i: int| 0 <= i < filter_deps(ds).len() ==> keep_dep(filter_deps(ds)[i]),
    decreases ds.len(),
{
    if ds.len() == 0 {
    } else {
        lemma_filter_deps_kept(ds.drop_first());
        let sub = filter_deps(ds.drop_first());
        if keep_dep(ds[0]) {
            let r2 = seq![ds[0]] + sub;
            assert forall|i: int| 0 <= i < r2.len() implies keep_dep(r2[i]) by {
                if i > 0 {
                    assert(r2[i] == sub[i - 1]);
                }
            }
        }
    }
}

/// Filtering keeps a list whose segments all satisfy the condition.
proof fn lemma_filter_deps_all_kept(ds: Seq<Seq<char>>)
    requires
        forall|i: int| 0 <= i < ds.len() ==> keep_dep(ds[i]),
    ensures
        filter_deps(ds) == ds,
    decreases ds.len(),
{
    if ds.len() == 0 {
        assert(filter_deps(ds) =~= ds);
    } else {
        assert forall|i: int|
            0 <= i < ds.drop_first().len() implies keep_dep(ds.drop_first()[i]) by {
            assert(ds.drop_first()[i] == ds[i + 1]);
        }
        lemma_filter_deps_all_kept(ds.drop_first());
        assert(keep_dep(ds[0]));
        assert(seq![ds[0]] + ds.drop_first() =~= ds);
    }
}

/// A character property that holds of a space and throughout every
/// dependency holds throughout the joined dependencies.
proof fn lemma_join_deps_chars(ds: Seq<Seq<char>>, pred: spec_fn(char) -> bool)
    requires
        pred(' '),
        forall|i: int, k: int| 0 <= i < ds.len() && 0 <= k < ds[i].len() ==> pred(ds[i][k]),
    ensures
        forall|k: int| 0 <= k < join_deps(ds).len() ==> pred(join_deps(ds)[k]),
    decreases ds.len(),
{
    if ds.len() == 0 {
    } else {
        assert forall|i: int, k: int|
            0 <= i < ds.drop_first().len() && 0 <= k < ds.drop_first()[i].len() implies pred(
            ds.drop_first()[i][k],
        ) by {
            assert(ds.drop_first()[i] == ds[i + 1]);
        }
        lemma_join_deps_chars(ds.drop_first(), pred);
        let j = join_deps(ds);
        let rest = join_deps(ds.drop_first());
        assert forall|k: int| 0 <= k < j.len() implies pred(j[k]) by {
            if k == 0 {
                assert(j[0] == ' ');
            } else if k < 1 + ds[0].len() {
                assert(j[k] == ds[0][k - 1]);
            } else {
                assert(j[k] == rest[k - 1 - ds[0].len()]);
            }
        }
    }
}

/// Splitting joined dependencies on spaces recovers them, behind the
/// empty segment that the leading space opens.
proof fn lemma_split_join_deps(ds: Seq<Seq<char>>)
    requires
        forall|i: int| 0 <= i < ds.len() ==> ds[i].len() > 0,
        forall|i: int, k: int| 0 <= i < ds.len() && 0 <= k < ds[i].len() ==> ds[i][k] != ' ',
    ensures
        split_char(join_deps(ds), ' ') == seq![Seq::<char>::empty()] + ds,
    decreases ds.len(),
{
    if ds.len() == 0 {
        assert(split_char(join_deps(ds), ' ') =~~= seq![Seq::<char>::empty()] + ds);
    } else {
        assert forall|i: int, k: int|
            0 <= i < ds.drop_first().len() && 0 <= k < ds.drop_first()[i].len() implies ds.drop_first()[i][k]
            != ' ' by {
            assert(ds.drop_first()[i] == ds[i + 1]);
        }
        assert forall|i: int|
            0 <= i < ds.drop_first().len() implies ds.drop_first()[i].len() > 0 by {
            assert(ds.drop_first()[i] == ds[i + 1]);
        }
        lemma_split_join_deps(ds.drop_first());
        let d0 = ds[0];
        let tail = join_deps(ds.drop_first());
        let j = join_deps(ds);
        assert(j == seq![' '] + d0 + tail);
        assert(j[0] == ' ');
        assert(j.drop_first() =~= d0 + tail);
        assert(split_char(j, ' ') == seq![Seq::<char>::empty()] + split_char(d0 + tail, ' '));
        if ds.len() == 1 {
            assert(ds.drop_first() =~= Seq::<Seq<char>>::empty());
            assert(tail =~= Seq::<char>::empty());
            assert(d0 + tail =~= d0);
            crate::text::lemma_split_char_absent(d0, ' ');
            assert(seq![Seq::<char>::empty()] + seq![d0] =~= seq![Seq::<char>::empty()] + ds);
        } else {
            crate::text::lemma_split_char_prepend(d0, tail, ' ');
            let st = split_char(tail, ' ');
            assert(st == seq![Seq::<char>::empty()] + ds.drop_first());
            assert(st[0] =~= Seq::<char>::empty());
            assert(d0 + st[0] =~= d0);
            assert(split_char(d0 + tail, ' ') == st.update(0, d0));
            assert(st.update(0, d0) =~= seq![d0] + ds.drop_first());
            assert(seq![Seq::<char>::empty()] + (seq![d0] + ds.drop_first()) =~= seq![
                Seq::<char>::empty(),
            ] + ds);
        }
    }
}

/// The last character of joined dependencies is the last dependency's
/// last character.
proof fn lemma_join_deps_last(ds: Seq<Seq<char>>)
    requires
        ds.len() > 0,
        forall|i: int| 0 <= i < ds.len() ==> ds[i].len() > 0,
    ensures
        join_deps(ds).len() > 0,
        join_deps(ds).last() == ds.last().last(),
    decreases ds.len(),
{
    if ds.len() == 1 {
        assert(ds.drop_first() =~= Seq::<Seq<char>>::empty());
        assert(join_deps(ds.drop_first()) =~= Seq::<char>::empty());
        assert(join_deps(ds) =~= seq![' '] + ds[0]);
    } else {
        assert forall|i: int| 0 <= i < ds.drop_first().len() implies ds.drop_first()[i].len()
            > 0 by {
            assert(ds.drop_first()[i] == ds[i + 1]);
        }
        lemma_join_deps_last(ds.drop_first());
        assert(ds.drop_first().last() == ds.last());
        assert(join_deps(ds).last() == join_deps(ds.drop_first()).last());
    }
}

/// A line is tidy when the dependencies its rewrite would keep do not end
/// in a tab or carriage return. On such a line the emitted form carries
/// no trailing whitespace, so trimming it again changes nothing; a line
/// like `a: b` followed by a tab is not tidy, and its emitted form loses
/// the tab to the second trim.
pub open spec fn line_tidy(l: Seq<char>) -> bool {
    let t = spec_trim(l);
    if t.len() == 0 || t[0] == '#' {
        true
    } else {
        let idx = find_index(t, ':');
        if idx < 0 {
            true
        } else {
            let kept = filter_deps(split_char(t.skip(idx + 1), ' '));
            kept.len() == 0 || !crate::text::is_space(kept.last().last())
        }
    }
}

/// Every line the rewrite emits from a tidy line survives a second
/// rewrite unchanged: the emitted line is its own trim, an emitted data
/// line's target keeps no build-directory reference, and every dependency
/// it still lists is kept again.
pub proof fn lemma_rewrite_line_idempotent(l: Seq<char>, o: Seq<char>)
    requires
        forall|k: int| 0 <= k < l.len() ==> l[k] != '\n',
        line_tidy(l),
        rewrite_line(l) == Some(Some(o)),
    ensures
        rewrite_line(o) == Some(Some(o)),
        forall|k: int| 0 <= k < o.len() ==> o[k] != '\n',
{
    let t = spec_trim(l);
    crate::text::lemma_trim_preserves(l, |c: char| c != '\n');
    crate::text::lemma_trim_props(l);
    if t.len() == 0 || t[0] == '#' {
        assert(o == t);
        crate::text::lemma_trim_idempotent(l);
        assert(spec_trim(o) == t);
    } else {
        crate::text::lemma_find_index_props(t, ':');
        let idx = find_index(t, ':');
        assert(idx >= 0);
        let target = t.take(idx);
        let rest = t.skip(idx + 1);
        let ds = split_char(rest, ' ');
        let kept = filter_deps(ds);
        assert(o == target + seq![':'] + join_deps(kept));
        // Dependencies that survive are non-empty, free of spaces, free of
        // newlines, and free of build-directory references.
        lemma_filter_deps_kept(ds);
        crate::text::lemma_split_char_segments(rest, ' ');
        lemma_filter_deps_preserves(
            ds,
            |d: Seq<char>| forall|k: int| 0 <= k < d.len() ==> d[k] != ' ',
        );
        assert forall|k: int| 0 <= k < rest.len() implies rest[k] != '\n' by {
            assert(rest[k] == t[idx + 1 + k]);
        }
        crate::text::lemma_split_char_preserves(rest, ' ', |c: char| c != '\n');
        lemma_filter_deps_preserves(
            ds,
            |d: Seq<char>| forall|k: int| 0 <= k < d.len() ==> d[k] != '\n',
        );
        lemma_join_deps_chars(kept, |c: char| c != '\n');
        // The rewritten line holds no newline.
        assert forall|k: int| 0 <= k < o.len() implies o[k] != '\n' by {
            if k < idx {
                assert(o[k] == target[k]);
                assert(target[k] == t[k]);
            } else if k == idx {
                assert(o[k] == ':');
            } else {
                assert(o[k] == join_deps(kept)[k - idx - 1]);
            }
        }
        // The rewritten line neither starts nor ends with trimmed
        // whitespace, so it is its own trim.
        assert(o.len() > 0);
        if idx == 0 {
            assert(o[0] == ':');
        } else {
            assert(o[0] == target[0]);
            assert(target[0] == t[0]);
        }
        assert(!crate::text::is_space(o[0]));
        if kept.len() == 0 {
            assert(join_deps(kept) =~= Seq::<char>::empty());
            assert(o.last() == ':');
        } else {
            assert forall|i: int| 0 <= i < kept.len() implies kept[i].len() > 0 by {
                assert(keep_dep(kept[i]));
            }
            lemma_join_deps_last(kept);
            assert(o.last() == join_deps(kept).last());
            assert(o.last() == kept.last().last());
        }
        assert(!crate::text::is_space(o.last()));
        crate::text::lemma_trim_id(o);
        assert(spec_trim(o) == o);
        // The rewritten line parses the same way again.
        assert(o[0] != '#');
        assert forall|k: int| 0 <= k < idx implies o[k] != ':' by {
            assert(o[k] == target[k]);
            assert(target[k] == t[k]);
        }
        assert(o[idx] == ':');
        crate::text::lemma_find_index_at(o, ':', idx);
        let target2 = o.take(idx);
        let rest2 = o.skip(idx + 1);
        assert(target2 =~= target);
        assert(rest2 =~= join_deps(kept));
        lemma_split_join_deps(kept);
        let ds2 = split_char(rest2, ' ');
        assert(ds2 == seq![Seq::<char>::empty()] + kept);
        lemma_filter_deps_concat(seq![Seq::<char>::empty()], kept);
        assert(ds2 =~= seq![Seq::<char>::empty()] + kept);
        lemma_filter_deps_singleton(Seq::<char>::empty());
        lemma_filter_deps_all_kept(kept);
        assert(filter_deps(ds2) == Seq::<Seq<char>>::empty() + kept);
        assert(Seq::<Seq<char>>::empty() + kept =~= kept);
        assert(rewrite_line(o) == Some(Some(target + seq![':'] + join_deps(kept))));
    }
}

/// Every line the rewrite emits from newline-free, tidy input lines is
/// itself newline-free and survives a second rewrite unchanged.
proof fn lemma_outputs_good(ls: Seq<Seq<char>>)
    requires
        forall|i: int, k: int| 0 <= i < ls.len() && 0 <= k < ls[i].len() ==> ls[i][k] != '\n',
        forall|i: int| 0 <= i < ls.len() ==> line_tidy(#[trigger] ls[i]),
    ensures
        match rewritten_lines(ls) {
            Some(os) => (forall|i: int, k: int|
                0 <= i < os.len() && 0 <= k < os[i].len() ==> os[i][k] != '\n') && (forall|i: int|
                0 <= i < os.len() ==> rewrite_line(os[i]) == Some(Some(os[i]))),
            None => true,
        },
    decreases ls.len(),
{
    if ls.len() == 0 {
    } else {
        assert forall|i: int, k: int|
            0 <= i < ls.drop_first().len() && 0 <= k < ls.drop_first()[i].len() implies ls.drop_first()[i][k]
            != '\n' by {
            assert(ls.drop_first()[i] == ls[i + 1]);
        }
        assert forall|i: int| 0 <= i < ls.drop_first().len() implies line_tidy(
            #[trigger] ls.drop_first()[i],
        ) by {
            assert(ls.drop_first()[i] == ls[i + 1]);
        }
        lemma_outputs_good(ls.drop_first());
        match rewrite_line(ls[0]) {
            None => {},
            Some(first) => {
                match rewritten_lines(ls.drop_first()) {
                    None => {},
                    Some(rest) => {
                        match first {
                            None => {},
                            Some(o) => {
                                lemma_rewrite_line_idempotent(ls[0], o);
                                let os = seq![o] + rest;
                                assert forall|i: int, k: int|
                                    0 <= i < os.len() && 0 <= k < os[i].len() implies os[i][k]
                                    != '\n' by {
                                    if i > 0 {
                                        assert(os[i] == rest[i - 1]);
                                    }
                                }
                                assert forall|i: int| 0 <= i < os.len() implies rewrite_line(os[i])
                                    == Some(Some(os[i])) by {
                                    if i > 0 {
                                        assert(os[i] == rest[i - 1]);
                                    }
                                }
                            },
                        }
                    },
                }
            },
        }
    }
}

/// Lines that each survive rewriting unchanged survive it all together.
proof fn lemma_rewritten_lines_fixed(os: Seq<Seq<char>>)
    requires
        forall|i: int| 0 <= i < os.len() ==> rewrite_line(os[i]) == Some(Some(os[i])),
    ensures
        rewritten_lines(os) == Some(os),
    decreases os.len(),
{
    if os.len() == 0 {
        assert(rewritten_lines(os) =~~= Some(os));
    } else {
        assert forall|i: int|
            0 <= i < os.drop_first().len() implies rewrite_line(os.drop_first()[i]) == Some(
            Some(os.drop_first()[i]),
        ) by {
            assert(os.drop_first()[i] == os[i + 1]);
        }
        lemma_rewritten_lines_fixed(os.drop_first());
        assert(seq![os[0]] + os.drop_first() =~= os);
    }
}

/// A data line whose trimmed target lies in a build directory is
/// eliminated by the rewrite.
pub proof fn lemma_build_target_line_eliminated(l: Seq<char>)
    requires
        spec_trim(l).len() > 0,
        spec_trim(l)[0] != '#',
        find_index(spec_trim(l), ':') >= 0,
        contains_seq(spec_trim(l).take(find_index(spec_trim(l), ':')), "/build/"@),
    ensures
        rewrite_line(l) == Some(None::<Seq<char>>),
{
}

/// A manifest is tidy when every line of it is: no data line's kept
/// dependencies end in a tab or carriage return.
pub open spec fn tidy_manifest(s: Seq<char>) -> bool {
    forall|i: int| 0 <= i < spec_lines(s).len() ==> line_tidy(#[trigger] spec_lines(s)[i])
}

/// Rewriter idempotence: applying the rewrite to its own output changes
/// nothing. Lines whose target lies in a build directory are already
/// gone, and every surviving line survives again verbatim. Tidiness is
/// needed: a dependency ending in a tab, as in `a: b` followed by a tab,
/// would lose the tab to the second pass's trim.
pub proof fn lemma_rewrite_dep_info_idempotent(s: Seq<char>, t: Seq<char>)
    requires
        tidy_manifest(s),
        spec_rewrite_dep_info(s) == Some(t),
    ensures
        spec_rewrite_dep_info(t) == Some(t),
{
    let ls = spec_lines(s);
    crate::text::lemma_lines_no_newline(s);
    let os = rewritten_lines(ls)->0;
    assert(t == join_terminated(os));
    lemma_outputs_good(ls);
    crate::text::lemma_lines_of_join(os);
    assert(spec_lines(t) == os);
    lemma_rewritten_lines_fixed(os);
}

/// What parsing makes of one manifest line. `None`: a data line without a
/// `:`, which parsing rejects. `Some(None)`: a comment or empty line,
/// which parsing skips. `Some(Some((target, deps)))`: a data line's target
/// and its non-empty source paths. Lines are trimmed before inspection.
pub open spec fn parse_line(l: Seq<char>) -> Option<Option<(Seq<char>, Seq<Seq<char>>)>> {
    let t = spec_trim(l);
    if t.len() == 0 || t[0] == '#' {
        Some(None)
    } else {
        let idx = find_index(t, ':');
        if idx < 0 {
            None
        } else {
            Some(
                Some(
                    (
                        t.take(idx),
                        filter_nonempty(split_char(spec_trim(t.skip(idx + 1)), ' ')),
                    ),
                ),
            )
        }
    }
}

/// The entries parsed from the manifest's lines, in file order; `None` if
/// some data line lacks a `:`.
pub open spec fn parse_lines(ls: Seq<Seq<char>>) -> Option<Seq<(Seq<char>, Seq<Seq<char>>)>>
    decreases ls.len(),
{
    if ls.len() == 0 {
        Some(Seq::empty())
    } else {
        match parse_line(ls[0]) {
            None => None,
            Some(first) => match parse_lines(ls.drop_first()) {
                None => None,
                Some(rest) => match first {
                    None => Some(rest),
                    Some(e) => Some(seq![e] + rest),
                },
            },
        }
    }
}

/// The entries parsed from a dependency manifest.
pub open spec fn spec_parse_dep_info(s: Seq<char>) -> Option<Seq<(Seq<char>, Seq<Seq<char>>)>> {
    parse_lines(spec_lines(s))
}

/// A rejected line rejects the whole manifest.
proof fn lemma_parse_lines_err(ls: Seq<Seq<char>>, j: int)
    requires
        0 <= j < ls.len(),
        parse_line(ls[j]) is None,
    ensures
        parse_lines(ls) is None,
    decreases j,
{
    if j > 0 {
        lemma_parse_lines_err(ls.drop_first(), j - 1);
    }
}

/// Parsing distributes over concatenation of line lists.
proof fn lemma_parse_lines_concat(a: Seq<Seq<char>>, b: Seq<Seq<char>>)
    ensures
        parse_lines(a + b) == match (parse_lines(a), parse_lines(b)) {
            (Some(x), Some(y)) => Some(x + y),
            _ => None::<Seq<(Seq<char>, Seq<Seq<char>>)>>,
        },
    decreases a.len(),
{
    if a.len() == 0 {
        assert(a + b =~= b);
        if parse_lines(b) is Some {
            assert(parse_lines(a)->0 + parse_lines(b)->0 =~= parse_lines(b)->0);
        }
    } else {
        lemma_parse_lines_concat(a.drop_first(), b);
        assert((a + b).drop_first() =~= a.drop_first() + b);
        assert((a + b)[0] == a[0]);
        match parse_line(a[0]) {
            None => {},
            Some(first) => {
                match (parse_lines(a.drop_first()), parse_lines(b)) {
                    (Some(x), Some(y)) => {
                        match first {
                            None => {},
                            Some(e) => {
                                assert(seq![e] + (x + y) =~= (seq![e] + x) + y);
                            },
                        }
                    },
                    _ => {},
                }
            },
        }
    }
}

/// Parsing one line on its own.
proof fn lemma_parse_lines_singleton(l: Seq<char>)
    ensures
        parse_lines(seq![l]) == match parse_line(l) {
            None => None::<Seq<(Seq<char>, Seq<Seq<char>>)>>,
            Some(None) => Some(Seq::<(Seq<char>, Seq<Seq<char>>)>::empty()),
            Some(Some(e)) => Some(seq![e]),
        },
{
    reveal_with_fuel(parse_lines, 2);
    assert(seq![l].drop_first() =~= Seq::<Seq<char>>::empty());
    match parse_line(l) {
        None => {},
        Some(first) => match first {
            None => {},
            Some(e) => {
                assert(seq![e] + Seq::<(Seq<char>, Seq<Seq<char>>)>::empty() =~= seq![e]);
            },
        },
    }
}

/// The parsed form of a dependency manifest: each data line's target with
/// its non-empty source paths, in file order.
pub struct DepInfo {
    pub files: Vec<(String, Vec<String>)>,
}

impl View for DepInfo {
    type V = Seq<(Seq<char>, Seq<Seq<char>>)>;

    open spec fn view(&self) -> Seq<(Seq<char>, Seq<Seq<char>>)> {
        self.files@.map_values(
            |p: (String, Vec<String>)| (p.0@, p.1@.map_values(|d: String| d@)),
        )
    }
}

/// The value stored for key `k`: the value of the last entry whose key is
/// `k`, as a map built by repeated insertion would hold.
pub open spec fn lookup(m: Seq<(Seq<char>, Seq<Seq<char>>)>, k: Seq<char>) -> Option<
    Seq<Seq<char>>,
>
    decreases m.len(),
{
    if m.len() == 0 {
        None
    } else if m.last().0 == k {
        Some(m.last().1)
    } else {
        lookup(m.drop_last(), k)
    }
}

/// One step of searching entries from the back.
proof fn lemma_lookup_step(m: Seq<(Seq<char>, Seq<Seq<char>>)>, k: Seq<char>, i: int)
    requires
        0 <= i < m.len(),
    ensures
        lookup(m.take(i + 1), k) == if m[i].0 == k {
            Some(m[i].1)
        } else {
            lookup(m.take(i), k)
        },
{
    assert(m.take(i + 1).last() == m[i]);
    assert(m.take(i + 1).drop_last() =~= m.take(i));
}

impl DepInfo {
    /// Parses a dependency manifest: comment and empty lines are skipped,
    /// every data line contributes its target and its non-empty source
    /// paths, and a data line without a `:` is rejected.
    pub fn parse(s: &str) -> (r: Result<DepInfo, Error>)
        ensures
            match r {
                Ok(d) => spec_parse_dep_info(s@) == Some(d@),
                Err(e) => spec_parse_dep_info(s@) is None && e == Error::MissingColon,
            },
    {
        let chars = crate::text::to_chars(s);
        let lines = crate::text::split_lines(chars.as_slice());
        let ghost ls = spec_lines(s@);
        let mut files: Vec<(String, Vec<String>)> = Vec::new();
        let ghost mut es = Seq::<(Seq<char>, Seq<Seq<char>>)>::empty();
        proof {
            assert(ls.take(0) =~= Seq::<Seq<char>>::empty());
            assert(files@.map_values(
                |p: (String, Vec<String>)| (p.0@, p.1@.map_values(|d: String| d@)),
            ) =~= es);
        }
        let mut i: usize = 0;
        let n = lines.len();
        while i < n
            invariant
                n == lines@.len(),
                n == ls.len(),
                i <= n,
                ls == spec_lines(s@),
                forall|k: int| 0 <= k < n ==> lines@[k]@ == ls[k],
                parse_lines(ls.take(i as int)) == Some(es),
                files@.map_values(
                    |p: (String, Vec<String>)| (p.0@, p.1@.map_values(|d: String| d@)),
                ) == es,
            decreases n - i,
        {
            proof {
                assert(ls.take(i + 1 as int) =~= ls.take(i as int) + seq![ls[i as int]]);
                lemma_parse_lines_concat(ls.take(i as int), seq![ls[i as int]]);
                lemma_parse_lines_singleton(ls[i as int]);
                assert(lines@[i as int]@ == ls[i as int]);
            }
            let t = crate::text::trim(lines[i].as_slice());
            if t.len() == 0 || t[0] == '#' {
                proof {
                    assert(es + Seq::<(Seq<char>, Seq<Seq<char>>)>::empty() =~= es);
                }
            } else {
                let tn = t.len();
                match crate::text::find_char_from(t.as_slice(), ':', 0) {
                    None => {
                        proof {
                            crate::text::lemma_find_index_absent(t@, ':');
                            lemma_parse_lines_err(ls, i as int);
                        }
                        return Err(Error::MissingColon);
                    },
                    Some(idx) => {
                        proof {
                            crate::text::lemma_find_index_at(t@, ':', idx as int);
                        }
                        let target = crate::text::slice_range(t.as_slice(), 0, idx);
                        let rest = crate::text::slice_range(t.as_slice(), idx + 1, tn);
                        proof {
                            assert(rest@ =~= t@.skip(idx + 1 as int));
                        }
                        let rt = crate::text::trim(rest.as_slice());
                        let segs = crate::text::split_on_char(rt.as_slice(), ' ');
                        let ghost ss = split_char(rt@, ' ');
                        let mut deps: Vec<String> = Vec::new();
                        proof {
                            assert(ss.take(0) =~= Seq::<Seq<char>>::empty());
                            assert(deps@.map_values(|d: String| d@) =~= filter_nonempty(
                                ss.take(0),
                            ));
                        }
                        let mut j: usize = 0;
                        let m = segs.len();
                        while j < m
                            invariant
                                m == segs@.len(),
                                m == ss.len(),
                                j <= m,
                                forall|k: int| 0 <= k < m ==> segs@[k]@ == ss[k],
                                deps@.map_values(|d: String| d@) == filter_nonempty(
                                    ss.take(j as int),
                                ),
                            decreases m - j,
                        {
                            proof {
                                assert(segs@[j as int]@ == ss[j as int]);
                                assert(ss.take(j + 1 as int) =~= ss.take(j as int) + seq![
                                    ss[j as int],
                                ]);
                                lemma_filter_nonempty_concat(ss.take(j as int), seq![ss[j as int]]);
                                lemma_filter_nonempty_singleton(ss[j as int]);
                            }
                            if segs[j].len() > 0 {
                                let d = crate::text::chars_to_string(segs[j].as_slice());
                                deps.push(d);
                                proof {
                                    assert(deps@.map_values(|d: String| d@) =~= filter_nonempty(
                                        ss.take(j + 1 as int),
                                    ));
                                }
                            } else {
                                proof {
                                    assert(filter_nonempty(ss.take(j as int)) + Seq::<
                                        Seq<char>,
                                    >::empty() =~= filter_nonempty(ss.take(j as int)));
                                }
                            }
                            j = j + 1;
                        }
                        proof {
                            assert(ss.take(m as int) =~= ss);
                        }
                        let tgt = crate::text::chars_to_string(target.as_slice());
                        let ghost entry = (tgt@, deps@.map_values(|d: String| d@));
                        files.push((tgt, deps));
                        proof {
                            assert(target@ =~= spec_trim(ls[i as int]).take(idx as int));
                            assert(parse_line(ls[i as int]) == Some(Some(entry)));
                            assert(files@.map_values(
                                |p: (String, Vec<String>)| (
                                    p.0@,
                                    p.1@.map_values(|d: String| d@),
                                ),
                            ) =~= es + seq![entry]);
                            es = es + seq![entry];
                        }
                    },
                }
            }
            i = i + 1;
        }
        proof {
            assert(ls.take(n as int) =~= ls);
        }
        Ok(DepInfo { files })
    }

    /// The source paths recorded for `key`: the last entry with that
    /// target, as a map built by repeated insertion would hold.
    pub fn get(&self, key: &str) -> (r: Option<&Vec<String>>)
        ensures
            match r {
                Some(v) => lookup(self@, key@) == Some(v@.map_values(|d: String| d@)),
                None => lookup(self@, key@) is None,
            },
    {
        let kc = crate::text::to_chars(key);
        let mut i: usize = self.files.len();
        proof {
            assert(self@.take(self.files@.len() as int) =~= self@);
        }
        while i > 0
            invariant
                i <= self.files@.len(),
                self@.len() == self.files@.len(),
                kc@ == key@,
                lookup(self@, key@) == lookup(self@.take(i as int), key@),
            decreases i,
        {
            i = i - 1;
            proof {
                lemma_lookup_step(self@, key@, i as int);
                assert(self@[i as int] == (
                    self.files@[i as int].0@,
                    self.files@[i as int].1@.map_values(|d: String| d@),
                ));
            }
            if crate::text::str_eq_chars(self.files[i].0.as_str(), kc.as_slice()) {
                return Some(&self.files[i].1);
            }
        }
        proof {
            assert(self@.take(0) =~= Seq::<(Seq<char>, Seq<Seq<char>>)>::empty());
        }
        None
    }
}

} // verus!
