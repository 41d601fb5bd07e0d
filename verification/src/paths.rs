//! Path strings, modelled as `/`-separated components.

use vstd::prelude::*;

use crate::text::contains_seq;
use crate::text::split_char;
use crate::text::starts_with;

verus! {

/// The components of a path: the segments between `/` separators.
pub open spec fn path_components(p: Seq<char>) -> Seq<Seq<char>> {
    split_char(p, '/')
}

/// Some component of `p` begins with `prefix`.
pub open spec fn has_component_with_prefix(p: Seq<char>, prefix: Seq<char>) -> bool {
    exists|i: int|
        0 <= i < path_components(p).len() && starts_with(#[trigger] path_components(p)[i], prefix)
}

/// Some component of `p` is exactly `name`.
pub open spec fn has_component(p: Seq<char>, name: Seq<char>) -> bool {
    exists|i: int| 0 <= i < path_components(p).len() && #[trigger] path_components(p)[i] == name
}

/// Whether some component of the path begins with the given prefix.
pub fn path_has_component_with_prefix(p: &str, prefix: &str) -> (r: bool)
    ensures
        r == has_component_with_prefix(p@, prefix@),
{
    let pc = crate::text::to_chars(p);
    let xc = crate::text::to_chars(prefix);
    let comps = crate::text::split_on_char(pc.as_slice(), '/');
    let n = comps.len();
    let mut i: usize = 0;
    while i < n
        invariant
            n == comps@.len(),
            n == path_components(p@).len(),
            i <= n,
            xc@ == prefix@,
            forall|k: int| 0 <= k < n ==> comps@[k]@ == path_components(p@)[k],
            forall|k: int| 0 <= k < i ==> !starts_with(path_components(p@)[k], prefix@),
        decreases n - i,
    {
        if crate::text::begins_with(comps[i].as_slice(), xc.as_slice()) {
            proof {
                assert(comps@[i as int]@ == path_components(p@)[i as int]);
            }
            return true;
        }
        i = i + 1;
    }
    false
}

/// Whether some component of the path is exactly the given name.
pub fn path_has_component(p: &str, name: &str) -> (r: bool)
    ensures
        r == has_component(p@, name@),
{
    let pc = crate::text::to_chars(p);
    let xc = crate::text::to_chars(name);
    let comps = crate::text::split_on_char(pc.as_slice(), '/');
    let n = comps.len();
    let mut i: usize = 0;
    while i < n
        invariant
            n == comps@.len(),
            n == path_components(p@).len(),
            i <= n,
            xc@ == name@,
            forall|k: int| 0 <= k < n ==> comps@[k]@ == path_components(p@)[k],
            forall|k: int| 0 <= k < i ==> path_components(p@)[k] != name@,
        decreases n - i,
    {
        if crate::text::eq_chars(comps[i].as_slice(), xc.as_slice()) {
            proof {
                assert(comps@[i as int]@ == path_components(p@)[i as int]);
            }
            return true;
        }
        i = i + 1;
    }
    false
}

/// Whether the path holds the given text anywhere.
pub fn path_contains(p: &str, pat: &str) -> (r: bool)
    ensures
        r == contains_seq(p@, pat@),
{
    let pc = crate::text::to_chars(p);
    let xc = crate::text::to_chars(pat);
    crate::text::has_seq(pc.as_slice(), xc.as_slice())
}

/// `dir ⧺ / ⧺ name`.
pub fn path_join(dir: &str, name: &str) -> (r: String)
    ensures
        r@ == dir@ + "/"@ + name@,
{
    let mut s = dir.to_owned();
    s.append("/");
    s.append(name);
    s
}

/// The directory part of `p`: everything before the last `/`, `/` itself
/// for a top-level entry, the empty string for a bare name, and nothing
/// for the root or the empty path.
pub open spec fn spec_parent(p: Seq<char>) -> Option<Seq<char>> {
    if p.len() == 0 || p == "/"@ {
        None
    } else {
        let idx = crate::text::last_index_of(p, '/');
        if idx < 0 {
            Some(Seq::empty())
        } else if idx == 0 {
            Some(seq!['/'])
        } else {
            Some(p.take(idx))
        }
    }
}

/// The directory part of the path, as [`spec_parent`] describes.
pub fn path_parent(p: &str) -> (r: Option<String>)
    ensures
        match r {
            Some(d) => spec_parent(p@) == Some(d@),
            None => spec_parent(p@) is None,
        },
{
    let pc = crate::text::to_chars(p);
    let n = pc.len();
    if n == 0 {
        return None;
    }
    match crate::text::rfind_char(pc.as_slice(), '/') {
        None => {
            proof {
                crate::text::lemma_last_index_absent(p@, '/');
                reveal_strlit("/");
                assert(p@[0] != '/');
                assert(p@ != "/"@);
            }
            Some(String::new())
        },
        Some(idx) => {
            proof {
                crate::text::lemma_last_index_at(p@, '/', idx as int);
            }
            if idx == 0 {
                if n == 1 {
                    proof {
                        reveal_strlit("/");
                        assert(p@ =~= "/"@);
                    }
                    return None;
                }
                proof {
                    reveal_strlit("/");
                    assert(p@ != "/"@);
                    assert("/".view() =~= seq!['/']);
                }
                return Some("/".to_owned());
            }
            proof {
                reveal_strlit("/");
                assert(p@.len() > 1);
                assert(p@ != "/"@);
            }
            let d = crate::text::slice_range(pc.as_slice(), 0, idx);
            Some(crate::text::chars_to_string(d.as_slice()))
        },
    }
}

/// The last component of `p`: everything after the last `/`, or all of
/// `p` when it has none.
pub open spec fn spec_last_component(p: Seq<char>) -> Seq<char> {
    let idx = crate::text::last_index_of(p, '/');
    if idx < 0 {
        p
    } else {
        p.skip(idx + 1)
    }
}

/// The last component of the path.
pub fn path_last_component(p: &str) -> (r: String)
    ensures
        r@ == spec_last_component(p@),
{
    let pc = crate::text::to_chars(p);
    let n = pc.len();
    match crate::text::rfind_char(pc.as_slice(), '/') {
        None => {
            proof {
                crate::text::lemma_last_index_absent(p@, '/');
            }
            p.to_owned()
        },
        Some(idx) => {
            proof {
                crate::text::lemma_last_index_at(p@, '/', idx as int);
            }
            let d = crate::text::slice_range(pc.as_slice(), idx + 1, n);
            crate::text::chars_to_string(d.as_slice())
        },
    }
}

} // verus!
