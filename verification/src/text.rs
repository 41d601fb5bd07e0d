//! Character-level text utilities.
//!
//! Paths, unit names and manifest lines are manipulated as sequences of
//! characters; every helper here states its result over the `Seq<char>`
//! views of its inputs.

use vstd::prelude::*;

verus! {

/// Relies on `String::push`: appends the given character to the end of the string.
pub assume_specification[ String::push ](s: &mut String, ch: char)
    ensures
        final(s)@ == old(s)@.push(ch),
;

/// `p` occurs in `s` starting at position `i`.
pub open spec fn contains_at(s: Seq<char>, p: Seq<char>, i: int) -> bool {
    0 <= i && i + p.len() <= s.len() && s.subrange(i, i + p.len() as int) == p
}

/// `p` occurs somewhere in `s`.
pub open spec fn contains_seq(s: Seq<char>, p: Seq<char>) -> bool {
    exists|i: int| contains_at(s, p, i)
}

/// `s` begins with `p`.
pub open spec fn starts_with(s: Seq<char>, p: Seq<char>) -> bool {
    p.len() <= s.len() && s.subrange(0, p.len() as int) == p
}

/// The characters of `s`, one by one.
pub fn to_chars(s: &str) -> (r: Vec<char>)
    ensures
        r@ == s@,
{
    let n = s.unicode_len();
    let mut r: Vec<char> = Vec::new();
    let mut i: usize = 0;
    while i < n
        invariant
            n == s@.len(),
            i <= n,
            r@ == s@.subrange(0, i as int),
        decreases n - i,
    {
        r.push(s.get_char(i));
        proof {
            assert(r@ =~= s@.subrange(0, i + 1 as int));
        }
        i = i + 1;
    }
    proof {
        assert(r@ =~= s@);
    }
    r
}

/// A string holding exactly the characters of `v`.
pub fn chars_to_string(v: &[char]) -> (r: String)
    ensures
        r@ == v@,
{
    let mut r = String::new();
    let mut i: usize = 0;
    while i < v.len()
        invariant
            i <= v@.len(),
            r@ == v@.subrange(0, i as int),
        decreases v@.len() - i,
    {
        r.push(v[i]);
        proof {
            assert(r@ =~= v@.subrange(0, i + 1 as int));
        }
        i = i + 1;
    }
    proof {
        assert(r@ =~= v@);
    }
    r
}

/// Whether two character slices hold the same characters.
pub fn eq_chars(a: &[char], b: &[char]) -> (r: bool)
    ensures
        r == (a@ == b@),
{
    if a.len() != b.len() {
        return false;
    }
    let mut i: usize = 0;
    while i < a.len()
        invariant
            a@.len() == b@.len(),
            i <= a@.len(),
            forall|j: int| 0 <= j < i ==> a@[j] == b@[j],
        decreases a@.len() - i,
    {
        if a[i] != b[i] {
            return false;
        }
        i = i + 1;
    }
    proof {
        assert(a@ =~= b@);
    }
    true
}

/// Whether the characters of `s` equal those of `p`.
pub fn str_eq_chars(s: &str, p: &[char]) -> (r: bool)
    ensures
        r == (s@ == p@),
{
    let sc = to_chars(s);
    eq_chars(sc.as_slice(), p)
}

/// Whether two string slices hold the same characters.
pub fn str_eq(a: &str, b: &str) -> (r: bool)
    ensures
        r == (a@ == b@),
{
    let ac = to_chars(a);
    let bc = to_chars(b);
    eq_chars(ac.as_slice(), bc.as_slice())
}

/// Whether `p` occurs in `s` starting exactly at `i`.
pub fn matches_at(s: &[char], p: &[char], i: usize) -> (r: bool)
    requires
        i + p@.len() <= s@.len(),
    ensures
        r == contains_at(s@, p@, i as int),
{
    let n = s.len();
    let mut j: usize = 0;
    while j < p.len()
        invariant
            n == s@.len(),
            i + p@.len() <= s@.len(),
            j <= p@.len(),
            forall|k: int| 0 <= k < j ==> s@[i + k] == p@[k],
        decreases p@.len() - j,
    {
        if s[i + j] != p[j] {
            proof {
                assert(s@.subrange(i as int, i + p@.len() as int)[j as int] == s@[i + j]);
            }
            return false;
        }
        j = j + 1;
    }
    proof {
        assert(s@.subrange(i as int, i + p@.len() as int) =~= p@);
    }
    true
}

/// Whether `p` occurs anywhere in `s`.
pub fn find_seq(s: &[char], p: &[char]) -> (r: Option<usize>)
    ensures
        match r {
            Some(i) => contains_at(s@, p@, i as int) && forall|k: int|
                0 <= k < i ==> !contains_at(s@, p@, k),
            None => !contains_seq(s@, p@),
        },
{
    if p.len() > s.len() {
        return None;
    }
    if p.len() == 0 {
        proof {
            assert(s@.subrange(0, 0) =~= p@);
        }
        return Some(0);
    }
    let n = s.len();
    let last = n - p.len();
    let mut i: usize = 0;
    while i <= last
        invariant
            n == s@.len(),
            1 <= p@.len() <= s@.len(),
            last == s@.len() - p@.len(),
            i <= last + 1,
            forall|k: int| 0 <= k < i ==> !contains_at(s@, p@, k),
        decreases last + 1 - i,
    {
        if matches_at(s, p, i) {
            return Some(i);
        }
        i = i + 1;
    }
    None
}

/// Whether `p` occurs anywhere in `s`.
pub fn has_seq(s: &[char], p: &[char]) -> (r: bool)
    ensures
        r == contains_seq(s@, p@),
{
    find_seq(s, p).is_some()
}

/// Whether `s` begins with `p`.
pub fn begins_with(s: &[char], p: &[char]) -> (r: bool)
    ensures
        r == starts_with(s@, p@),
{
    if p.len() > s.len() {
        return false;
    }
    matches_at(s, p, 0)
}

/// The first position of `c` in `s` at or after `from`, if any.
pub fn find_char_from(s: &[char], c: char, from: usize) -> (r: Option<usize>)
    requires
        from <= s@.len(),
    ensures
        match r {
            Some(i) => from <= i < s@.len() && s@[i as int] == c && forall|k: int|
                from <= k < i ==> s@[k] != c,
            None => forall|k: int| from <= k < s@.len() ==> s@[k] != c,
        },
{
    let mut i: usize = from;
    while i < s.len()
        invariant
            from <= i <= s@.len(),
            forall|k: int| from <= k < i ==> s@[k] != c,
        decreases s@.len() - i,
    {
        if s[i] == c {
            return Some(i);
        }
        i = i + 1;
    }
    None
}

/// The last position of `c` in `s`, if any.
pub fn rfind_char(s: &[char], c: char) -> (r: Option<usize>)
    ensures
        match r {
            Some(i) => i < s@.len() && s@[i as int] == c && forall|k: int|
                i < k < s@.len() ==> s@[k] != c,
            None => forall|k: int| 0 <= k < s@.len() ==> s@[k] != c,
        },
{
    let mut i: usize = s.len();
    while i > 0
        invariant
            i <= s@.len(),
            forall|k: int| i <= k < s@.len() ==> s@[k] != c,
        decreases i,
    {
        i = i - 1;
        if s[i] == c {
            return Some(i);
        }
    }
    None
}

/// The sub-slice of `s` from `from` (inclusive) to `to` (exclusive), as a vector.
pub fn slice_range(s: &[char], from: usize, to: usize) -> (r: Vec<char>)
    requires
        from <= to <= s@.len(),
    ensures
        r@ == s@.subrange(from as int, to as int),
{
    let mut r: Vec<char> = Vec::new();
    let mut i: usize = from;
    while i < to
        invariant
            from <= i <= to <= s@.len(),
            r@ == s@.subrange(from as int, i as int),
        decreases to - i,
    {
        r.push(s[i]);
        proof {
            assert(r@ =~= s@.subrange(from as int, i + 1 as int));
        }
        i = i + 1;
    }
    r
}

/// Appends every character of `t` to `s`.
pub fn extend_chars(s: &mut Vec<char>, t: &[char])
    ensures
        final(s)@ == old(s)@ + t@,
{
    let mut i: usize = 0;
    while i < t.len()
        invariant
            i <= t@.len(),
            s@ == old(s)@ + t@.subrange(0, i as int),
        decreases t@.len() - i,
    {
        s.push(t[i]);
        proof {
            assert(s@ =~= old(s)@ + t@.subrange(0, i + 1 as int));
        }
        i = i + 1;
    }
    proof {
        assert(s@ =~= old(s)@ + t@);
    }
}

/// The position of the first `c` in `s`, or `-1` if there is none.
pub open spec fn find_index(s: Seq<char>, c: char) -> int
    decreases s.len(),
{
    if s.len() == 0 {
        -1
    } else if s[0] == c {
        0
    } else {
        let r = find_index(s.drop_first(), c);
        if r < 0 {
            -1
        } else {
            r + 1
        }
    }
}

/// A string without `c` has no first occurrence of it.
pub proof fn lemma_find_index_absent(s: Seq<char>, c: char)
    requires
        forall|k: int| 0 <= k < s.len() ==> s[k] != c,
    ensures
        find_index(s, c) == -1,
    decreases s.len(),
{
    if s.len() > 0 {
        lemma_find_index_absent(s.drop_first(), c);
    }
}

/// The first occurrence of `c` is exactly the position before which `c`
/// does not occur.
pub proof fn lemma_find_index_at(s: Seq<char>, c: char, i: int)
    requires
        0 <= i < s.len(),
        s[i] == c,
        forall|k: int| 0 <= k < i ==> s[k] != c,
    ensures
        find_index(s, c) == i,
    decreases i,
{
    if i > 0 {
        lemma_find_index_at(s.drop_first(), c, i - 1);
    }
}

/// What `find_index` returns is the first occurrence, or `-1` when there
/// is none.
pub proof fn lemma_find_index_props(s: Seq<char>, c: char)
    ensures
        find_index(s, c) == -1 ==> forall|k: int| 0 <= k < s.len() ==> s[k] != c,
        find_index(s, c) >= 0 ==> 0 <= find_index(s, c) < s.len() && s[find_index(s, c)] == c
            && forall|k: int| 0 <= k < find_index(s, c) ==> s[k] != c,
    decreases s.len(),
{
    if s.len() == 0 {
    } else if s[0] == c {
    } else {
        lemma_find_index_props(s.drop_first(), c);
        let r = find_index(s.drop_first(), c);
        if r < 0 {
            assert forall|k: int| 0 <= k < s.len() implies s[k] != c by {
                if k > 0 {
                    assert(s.drop_first()[k - 1] == s[k]);
                }
            }
        } else {
            assert(s.drop_first()[r] == s[r + 1]);
            assert forall|k: int| 0 <= k < r + 1 implies s[k] != c by {
                if k > 0 {
                    assert(s.drop_first()[k - 1] == s[k]);
                }
            }
        }
    }
}

/// A character property that holds throughout `s` holds throughout every
/// segment of a split of `s`.
pub proof fn lemma_split_char_preserves(s: Seq<char>, c: char, pred: spec_fn(char) -> bool)
    requires
        forall|k: int| 0 <= k < s.len() ==> pred(s[k]),
    ensures
        forall|i: int, k: int|
            0 <= i < split_char(s, c).len() && 0 <= k < split_char(s, c)[i].len() ==> pred(
                split_char(s, c)[i][k],
            ),
    decreases s.len(),
{
    if s.len() == 0 {
    } else if s[0] == c {
        lemma_split_char_preserves(s.drop_first(), c, pred);
        let sub = split_char(s.drop_first(), c);
        let r2 = seq![Seq::<char>::empty()] + sub;
        assert forall|i: int, k: int| 0 <= i < r2.len() && 0 <= k < r2[i].len() implies pred(
            r2[i][k],
        ) by {
            if i > 0 {
                assert(r2[i] == sub[i - 1]);
            }
        }
    } else {
        lemma_split_char_preserves(s.drop_first(), c, pred);
        lemma_split_char_len(s.drop_first(), c);
        let sub = split_char(s.drop_first(), c);
        let r2 = sub.update(0, seq![s[0]] + sub[0]);
        assert forall|i: int, k: int| 0 <= i < r2.len() && 0 <= k < r2[i].len() implies pred(
            r2[i][k],
        ) by {
            if i == 0 {
                if k == 0 {
                    assert(r2[0][0] == s[0]);
                } else {
                    assert(r2[0][k] == sub[0][k - 1]);
                }
            } else {
                assert(r2[i] == sub[i]);
            }
        }
    }
}

/// The position of the last `c` in `s`, or `-1` if there is none.
pub open spec fn last_index_of(s: Seq<char>, c: char) -> int
    decreases s.len(),
{
    if s.len() == 0 {
        -1
    } else if s.last() == c {
        s.len() - 1
    } else {
        last_index_of(s.drop_last(), c)
    }
}

/// The last `c` of `s` stands where `c` occurs no later.
pub proof fn lemma_last_index_at(s: Seq<char>, c: char, i: int)
    requires
        0 <= i < s.len(),
        s[i] == c,
        forall|k: int| i < k < s.len() ==> s[k] != c,
    ensures
        last_index_of(s, c) == i,
    decreases s.len(),
{
    if i == s.len() - 1 {
    } else {
        assert forall|k: int| i < k < s.drop_last().len() implies s.drop_last()[k] != c by {
            assert(s.drop_last()[k] == s[k]);
        }
        lemma_last_index_at(s.drop_last(), c, i);
    }
}

/// A string without `c` has no last occurrence of it.
pub proof fn lemma_last_index_absent(s: Seq<char>, c: char)
    requires
        forall|k: int| 0 <= k < s.len() ==> s[k] != c,
    ensures
        last_index_of(s, c) == -1,
    decreases s.len(),
{
    if s.len() > 0 {
        assert forall|k: int| 0 <= k < s.drop_last().len() implies s.drop_last()[k] != c by {
            assert(s.drop_last()[k] == s[k]);
        }
        lemma_last_index_absent(s.drop_last(), c);
    }
}

/// Horizontal whitespace and carriage returns: what gets trimmed from the
/// ends of a manifest line.
pub open spec fn is_space(c: char) -> bool {
    c == ' ' || c == '\t' || c == '\r'
}

/// `s` without its leading spaces.
pub open spec fn trim_front(s: Seq<char>) -> Seq<char>
    decreases s.len(),
{
    if s.len() > 0 && is_space(s[0]) {
        trim_front(s.drop_first())
    } else {
        s
    }
}

/// `s` without its trailing spaces.
pub open spec fn trim_back(s: Seq<char>) -> Seq<char>
    decreases s.len(),
{
    if s.len() > 0 && is_space(s.last()) {
        trim_back(s.drop_last())
    } else {
        s
    }
}

/// `s` without leading and trailing spaces.
pub open spec fn spec_trim(s: Seq<char>) -> Seq<char> {
    trim_back(trim_front(s))
}

/// Dropping a space-only prefix is what `trim_front` does.
proof fn lemma_trim_front_skip(s: Seq<char>, i: int)
    requires
        0 <= i <= s.len(),
        forall|k: int| 0 <= k < i ==> is_space(s[k]),
        i == s.len() || !is_space(s[i]),
    ensures
        trim_front(s) == s.skip(i),
    decreases i,
{
    if i == 0 {
        assert(s.skip(0) =~= s);
    } else {
        lemma_trim_front_skip(s.drop_first(), i - 1);
        assert(s.drop_first().skip(i - 1) =~= s.skip(i));
    }
}

/// Dropping a space-only suffix is what `trim_back` does.
proof fn lemma_trim_back_take(s: Seq<char>, i: int)
    requires
        0 <= i <= s.len(),
        forall|k: int| i <= k < s.len() ==> is_space(s[k]),
        i == 0 || !is_space(s[i - 1]),
    ensures
        trim_back(s) == s.take(i),
    decreases s.len() - i,
{
    if i == s.len() {
        assert(s.take(i) =~= s);
    } else {
        lemma_trim_back_take(s.drop_last(), i);
        assert(s.drop_last().take(i) =~= s.take(i));
    }
}

/// What is left after trimming the front never starts with a space.
pub proof fn lemma_trim_front_props(s: Seq<char>)
    ensures
        trim_front(s).len() == 0 || !is_space(trim_front(s)[0]),
    decreases s.len(),
{
    if s.len() > 0 && is_space(s[0]) {
        lemma_trim_front_props(s.drop_first());
    }
}

/// What is left after trimming the back never ends with a space.
pub proof fn lemma_trim_back_props(s: Seq<char>)
    ensures
        trim_back(s).len() == 0 || !is_space(trim_back(s).last()),
    decreases s.len(),
{
    if s.len() > 0 && is_space(s.last()) {
        lemma_trim_back_props(s.drop_last());
    }
}

/// Trimming the back keeps the first character.
pub proof fn lemma_trim_back_first(s: Seq<char>)
    ensures
        trim_back(s).len() > 0 ==> s.len() > 0 && trim_back(s)[0] == s[0],
    decreases s.len(),
{
    if s.len() > 0 && is_space(s.last()) {
        lemma_trim_back_first(s.drop_last());
    }
}

/// A text that starts with no space is its own front trim.
pub proof fn lemma_trim_front_id(s: Seq<char>)
    requires
        s.len() == 0 || !is_space(s[0]),
    ensures
        trim_front(s) == s,
{
}

/// A text that ends with no space is its own back trim.
pub proof fn lemma_trim_back_id(s: Seq<char>)
    requires
        s.len() == 0 || !is_space(s.last()),
    ensures
        trim_back(s) == s,
{
}

/// A trimmed text neither starts nor ends with a space.
pub proof fn lemma_trim_props(s: Seq<char>)
    ensures
        spec_trim(s).len() == 0 || (!is_space(spec_trim(s)[0]) && !is_space(spec_trim(s).last())),
{
    lemma_trim_front_props(s);
    lemma_trim_back_props(trim_front(s));
    lemma_trim_back_first(trim_front(s));
}

/// A text neither starting nor ending with a space is its own trim.
pub proof fn lemma_trim_id(s: Seq<char>)
    requires
        s.len() == 0 || (!is_space(s[0]) && !is_space(s.last())),
    ensures
        spec_trim(s) == s,
{
    lemma_trim_front_id(s);
    lemma_trim_back_id(s);
}

/// Trimming twice trims once.
pub proof fn lemma_trim_idempotent(s: Seq<char>)
    ensures
        spec_trim(spec_trim(s)) == spec_trim(s),
{
    lemma_trim_props(s);
    lemma_trim_id(spec_trim(s));
}

/// A character property that holds throughout `s` holds throughout its
/// front trim.
proof fn lemma_trim_front_preserves(s: Seq<char>, pred: spec_fn(char) -> bool)
    requires
        forall|k: int| 0 <= k < s.len() ==> pred(s[k]),
    ensures
        forall|k: int| 0 <= k < trim_front(s).len() ==> pred(trim_front(s)[k]),
    decreases s.len(),
{
    if s.len() > 0 && is_space(s[0]) {
        assert forall|k: int| 0 <= k < s.drop_first().len() implies pred(s.drop_first()[k]) by {
            assert(s.drop_first()[k] == s[k + 1]);
        }
        lemma_trim_front_preserves(s.drop_first(), pred);
        assert(trim_front(s) == trim_front(s.drop_first()));
    } else {
        assert(trim_front(s) == s);
        assert forall|k: int| 0 <= k < trim_front(s).len() implies pred(trim_front(s)[k]) by {
            assert(trim_front(s)[k] == s[k]);
        }
    }
}

/// A character property that holds throughout `s` holds throughout its
/// back trim.
proof fn lemma_trim_back_preserves(s: Seq<char>, pred: spec_fn(char) -> bool)
    requires
        forall|k: int| 0 <= k < s.len() ==> pred(s[k]),
    ensures
        forall|k: int| 0 <= k < trim_back(s).len() ==> pred(trim_back(s)[k]),
    decreases s.len(),
{
    if s.len() > 0 && is_space(s.last()) {
        assert forall|k: int| 0 <= k < s.drop_last().len() implies pred(s.drop_last()[k]) by {
            assert(s.drop_last()[k] == s[k]);
        }
        lemma_trim_back_preserves(s.drop_last(), pred);
        assert(trim_back(s) == trim_back(s.drop_last()));
    } else {
        assert(trim_back(s) == s);
        assert forall|k: int| 0 <= k < trim_back(s).len() implies pred(trim_back(s)[k]) by {
            assert(trim_back(s)[k] == s[k]);
        }
    }
}

/// A character property that holds throughout `s` holds throughout its
/// trim.
pub proof fn lemma_trim_preserves(s: Seq<char>, pred: spec_fn(char) -> bool)
    requires
        forall|k: int| 0 <= k < s.len() ==> pred(s[k]),
    ensures
        forall|k: int| 0 <= k < spec_trim(s).len() ==> pred(spec_trim(s)[k]),
{
    lemma_trim_front_preserves(s, pred);
    lemma_trim_back_preserves(trim_front(s), pred);
}

/// Whether `c` is trimmed from line ends.
pub fn is_space_char(c: char) -> (r: bool)
    ensures
        r == is_space(c),
{
    c == ' ' || c == '\t' || c == '\r'
}

/// `s` without leading and trailing spaces, tabs and carriage returns.
pub fn trim(s: &[char]) -> (r: Vec<char>)
    ensures
        r@ == spec_trim(s@),
{
    let n = s.len();
    let mut b: usize = 0;
    while b < n && is_space_char(s[b])
        invariant
            n == s@.len(),
            b <= n,
            forall|k: int| 0 <= k < b ==> is_space(s@[k]),
        decreases n - b,
    {
        b = b + 1;
    }
    let mut e: usize = n;
    while e > b && is_space_char(s[e - 1])
        invariant
            n == s@.len(),
            b <= e <= n,
            forall|k: int| e <= k < n ==> is_space(s@[k]),
        decreases e,
    {
        e = e - 1;
    }
    proof {
        lemma_trim_front_skip(s@, b as int);
        let f = s@.skip(b as int);
        if e == b {
            lemma_trim_back_take(f, 0);
        } else {
            lemma_trim_back_take(f, e - b);
        }
        assert(f.take(e - b) =~= s@.subrange(b as int, e as int));
    }
    slice_range(s, b, e)
}

/// `s` split at every occurrence of `c`: the segments between separators,
/// in order. A separator at the very start or end contributes an empty
/// segment; the result always holds at least one segment.
pub open spec fn split_char(s: Seq<char>, c: char) -> Seq<Seq<char>>
    decreases s.len(),
{
    if s.len() == 0 {
        seq![Seq::<char>::empty()]
    } else if s[0] == c {
        seq![Seq::<char>::empty()] + split_char(s.drop_first(), c)
    } else {
        let r = split_char(s.drop_first(), c);
        r.update(0, seq![s[0]] + r[0])
    }
}

pub proof fn lemma_split_char_len(s: Seq<char>, c: char)
    ensures
        split_char(s, c).len() >= 1,
    decreases s.len(),
{
    if s.len() == 0 {
    } else {
        lemma_split_char_len(s.drop_first(), c);
    }
}

/// No segment of a split contains the separator.
pub proof fn lemma_split_char_segments(s: Seq<char>, c: char)
    ensures
        forall|i: int, k: int|
            0 <= i < split_char(s, c).len() && 0 <= k < split_char(s, c)[i].len() ==> split_char(
                s,
                c,
            )[i][k] != c,
    decreases s.len(),
{
    if s.len() == 0 {
    } else if s[0] == c {
        lemma_split_char_segments(s.drop_first(), c);
        let sub = split_char(s.drop_first(), c);
        let r2 = seq![Seq::<char>::empty()] + sub;
        assert forall|i: int, k: int| 0 <= i < r2.len() && 0 <= k < r2[i].len() implies r2[i][k]
            != c by {
            if i > 0 {
                assert(r2[i] == sub[i - 1]);
            }
        }
    } else {
        lemma_split_char_segments(s.drop_first(), c);
        lemma_split_char_len(s.drop_first(), c);
        let sub = split_char(s.drop_first(), c);
        let r2 = sub.update(0, seq![s[0]] + sub[0]);
        assert forall|i: int, k: int| 0 <= i < r2.len() && 0 <= k < r2[i].len() implies r2[i][k]
            != c by {
            if i == 0 {
                if k == 0 {
                    assert(r2[0][0] == s[0]);
                } else {
                    assert(r2[0][k] == sub[0][k - 1]);
                }
            } else {
                assert(r2[i] == sub[i]);
            }
        }
    }
}

/// Splitting a string without the separator yields that one string.
pub proof fn lemma_split_char_absent(s: Seq<char>, c: char)
    requires
        forall|k: int| 0 <= k < s.len() ==> s[k] != c,
    ensures
        split_char(s, c) == seq![s],
    decreases s.len(),
{
    if s.len() == 0 {
        assert(split_char(s, c) =~~= seq![s]);
    } else {
        lemma_split_char_absent(s.drop_first(), c);
        assert(seq![s[0]] + s.drop_first() =~= s);
        assert(split_char(s, c) =~~= seq![s]);
    }
}

/// Prepending separator-free text extends the first segment of a split.
pub proof fn lemma_split_char_prepend(a: Seq<char>, t: Seq<char>, c: char)
    requires
        forall|k: int| 0 <= k < a.len() ==> a[k] != c,
    ensures
        split_char(a + t, c) == split_char(t, c).update(0, a + split_char(t, c)[0]),
    decreases a.len(),
{
    lemma_split_char_len(t, c);
    if a.len() == 0 {
        assert(a + t =~= t);
        assert(a + split_char(t, c)[0] =~= split_char(t, c)[0]);
        assert(split_char(t, c).update(0, split_char(t, c)[0]) =~= split_char(t, c));
    } else {
        lemma_split_char_prepend(a.drop_first(), t, c);
        let s = a + t;
        assert(s.len() > 0 && s[0] == a[0] && s[0] != c);
        assert(s.drop_first() =~= a.drop_first() + t);
        let r = split_char(a.drop_first() + t, c);
        let rt = split_char(t, c);
        assert(r == rt.update(0, a.drop_first() + rt[0]));
        assert(seq![a[0]] + (a.drop_first() + rt[0]) =~= a + rt[0]);
        assert(r.update(0, seq![s[0]] + r[0]) =~= rt.update(0, a + rt[0]));
    }
}

/// Splitting `a ⧺ c ⧺ t` where `a` is separator-free puts `a` first.
pub proof fn lemma_split_char_cons(a: Seq<char>, t: Seq<char>, c: char)
    requires
        forall|k: int| 0 <= k < a.len() ==> a[k] != c,
    ensures
        split_char(a + seq![c] + t, c) == seq![a] + split_char(t, c),
    decreases a.len(),
{
    lemma_split_char_len(t, c);
    let mid = seq![c] + t;
    assert(mid[0] == c);
    assert(mid.drop_first() =~= t);
    assert(split_char(mid, c) == seq![Seq::<char>::empty()] + split_char(t, c));
    lemma_split_char_prepend(a, mid, c);
    assert(a + seq![c] + t =~= a + mid);
    assert(split_char(mid, c)[0] =~= Seq::<char>::empty());
    assert(a + split_char(mid, c)[0] =~= a);
    assert(split_char(mid, c).update(0, a) =~= seq![a] + split_char(t, c));
}

/// The lines of `s`: segments between `'\n'` characters, where a final
/// newline terminates the last line rather than opening an empty one.
pub open spec fn spec_lines(s: Seq<char>) -> Seq<Seq<char>> {
    if s.len() == 0 {
        Seq::empty()
    } else {
        let p = split_char(s, '\n');
        if p.last().len() == 0 {
            p.drop_last()
        } else {
            p
        }
    }
}

/// Every line, followed by a `'\n'` terminator.
pub open spec fn join_terminated(ls: Seq<Seq<char>>) -> Seq<char>
    decreases ls.len(),
{
    if ls.len() == 0 {
        Seq::empty()
    } else {
        ls[0] + seq!['\n'] + join_terminated(ls.drop_first())
    }
}

/// Splitting newline-terminated lines recovers the lines, plus the empty
/// segment after the final terminator.
pub proof fn lemma_split_join(ls: Seq<Seq<char>>)
    requires
        forall|i: int, k: int| 0 <= i < ls.len() && 0 <= k < ls[i].len() ==> ls[i][k] != '\n',
    ensures
        split_char(join_terminated(ls), '\n') == ls + seq![Seq::<char>::empty()],
    decreases ls.len(),
{
    if ls.len() == 0 {
        assert(split_char(join_terminated(ls), '\n') =~~= ls + seq![Seq::<char>::empty()]);
    } else {
        lemma_split_join(ls.drop_first());
        lemma_split_char_cons(ls[0], join_terminated(ls.drop_first()), '\n');
        assert(seq![ls[0]] + (ls.drop_first() + seq![Seq::<char>::empty()]) =~~= ls + seq![
            Seq::<char>::empty(),
        ]);
    }
}

/// Reading back the lines of newline-terminated text gives those lines.
pub proof fn lemma_lines_of_join(ls: Seq<Seq<char>>)
    requires
        forall|i: int, k: int| 0 <= i < ls.len() && 0 <= k < ls[i].len() ==> ls[i][k] != '\n',
    ensures
        spec_lines(join_terminated(ls)) == ls,
{
    lemma_split_join(ls);
    if ls.len() == 0 {
    } else {
        let t = join_terminated(ls);
        assert(t.len() > 0);
        let p = split_char(t, '\n');
        assert(p == ls + seq![Seq::<char>::empty()]);
        assert(p.last() =~= Seq::<char>::empty());
        assert(p.drop_last() =~= ls);
    }
}

/// No line of a text contains a newline.
pub proof fn lemma_lines_no_newline(s: Seq<char>)
    ensures
        forall|i: int, k: int|
            0 <= i < spec_lines(s).len() && 0 <= k < spec_lines(s)[i].len() ==> spec_lines(
                s,
            )[i][k] != '\n',
{
    if s.len() == 0 {
    } else {
        lemma_split_char_segments(s, '\n');
        lemma_split_char_len(s, '\n');
        let p = split_char(s, '\n');
        if p.last().len() == 0 {
            assert(forall|i: int| 0 <= i < p.drop_last().len() ==> p.drop_last()[i] == p[i]);
        }
    }
}

/// Peeling one terminated line off the front of a text.
pub proof fn lemma_lines_cons(a: Seq<char>, t: Seq<char>)
    requires
        forall|k: int| 0 <= k < a.len() ==> a[k] != '\n',
    ensures
        spec_lines(a + seq!['\n'] + t) == seq![a] + spec_lines(t),
{
    lemma_split_char_cons(a, t, '\n');
    lemma_split_char_len(t, '\n');
    let s = a + seq!['\n'] + t;
    assert(s.len() > 0);
    let p = split_char(s, '\n');
    assert(p == seq![a] + split_char(t, '\n'));
    if t.len() == 0 {
        assert(split_char(t, '\n') =~~= seq![Seq::<char>::empty()]);
        assert(p.last().len() == 0);
        assert(p.drop_last() =~= seq![a]);
        assert(seq![a] + spec_lines(t) =~= seq![a]);
    } else {
        let q = split_char(t, '\n');
        assert(p.last() =~= q.last());
        if q.last().len() == 0 {
            assert(p.drop_last() =~= seq![a] + q.drop_last());
        } else {
            assert(p =~= seq![a] + q);
        }
    }
}

/// `s` split at every occurrence of `c`.
pub fn split_on_char(s: &[char], c: char) -> (r: Vec<Vec<char>>)
    ensures
        r@.len() == split_char(s@, c).len(),
        forall|i: int| 0 <= i < r@.len() ==> r@[i]@ == split_char(s@, c)[i],
    decreases s@.len(),
{
    let n = s.len();
    match find_char_from(s, c, 0) {
        None => {
            proof {
                lemma_split_char_absent(s@, c);
            }
            let mut r: Vec<Vec<char>> = Vec::new();
            r.push(slice_range(s, 0, n));
            proof {
                assert(s@.subrange(0, s@.len() as int) =~= s@);
            }
            r
        },
        Some(i) => {
            let first = slice_range(s, 0, i);
            let rest = slice_range(s, i + 1, n);
            let mut r: Vec<Vec<char>> = Vec::new();
            r.push(first);
            let mut tail = split_on_char(rest.as_slice(), c);
            proof {
                lemma_split_char_cons(s@.subrange(0, i as int), rest@, c);
                assert(s@.subrange(0, i as int) + seq![c] + s@.subrange(
                    i + 1 as int,
                    s@.len() as int,
                ) =~= s@);
            }
            r.append(&mut tail);
            r
        },
    }
}

/// The lines of `s`, split at newline characters; a final newline closes
/// the last line instead of starting an empty one.
pub fn split_lines(s: &[char]) -> (r: Vec<Vec<char>>)
    ensures
        r@.len() == spec_lines(s@).len(),
        forall|i: int| 0 <= i < r@.len() ==> r@[i]@ == spec_lines(s@)[i],
    decreases s@.len(),
{
    if s.len() == 0 {
        Vec::new()
    } else {
        let n = s.len();
        match find_char_from(s, '\n', 0) {
            None => {
                proof {
                    lemma_split_char_absent(s@, '\n');
                }
                let mut r: Vec<Vec<char>> = Vec::new();
                r.push(slice_range(s, 0, n));
                proof {
                    assert(s@.subrange(0, s@.len() as int) =~= s@);
                }
                r
            },
            Some(i) => {
                let first = slice_range(s, 0, i);
                let rest = slice_range(s, i + 1, n);
                let mut r: Vec<Vec<char>> = Vec::new();
                r.push(first);
                let mut tail = split_lines(rest.as_slice());
                proof {
                    lemma_lines_cons(s@.subrange(0, i as int), rest@);
                    assert(s@.subrange(0, i as int) + seq!['\n'] + s@.subrange(
                        i + 1 as int,
                        s@.len() as int,
                    ) =~= s@);
                }
                r.append(&mut tail);
                r
            },
        }
    }
}

} // verus!
