//! The append-only audit trail of cache operations: the event records and
//! the JSON line each one is written as.

use vstd::prelude::*;

verus! {

/// A unit's outputs were copied out of the store.
#[derive(Debug, Clone)]
pub struct PullCrateOutputsEvent {
    pub crate_unit_name: String,
    pub copied_at: String,
    pub copied_from: String,
    pub duration_millis: u64,
}

/// A unit's outputs were copied into the store.
#[derive(Debug, Clone)]
pub struct PushCrateOutputsEvent {
    pub crate_unit_name: String,
    pub copied_at: String,
    pub copied_from: String,
    pub duration_millis: u64,
}

/// The wrapper ran in a build script's place.
#[derive(Debug, Clone)]
pub struct BuildScriptWrapperRunEvent {
    pub crate_name: String,
    pub ran_at: String,
}

/// The real build script was run.
#[derive(Debug, Clone)]
pub struct BuildScriptRunEvent {
    pub crate_name: String,
    pub ran_at: String,
}

/// One line of the event log.
#[derive(Debug, Clone)]
pub enum CacheLogLine {
    PulledCrateOutputs(PullCrateOutputsEvent),
    PushedCrateOutputs(PushCrateOutputsEvent),
    RanBuildScriptWrapper(BuildScriptWrapperRunEvent),
    RanBuildScript(BuildScriptRunEvent),
}

/// The log's file name under the store root.
pub fn log_file_name() -> (r: &'static str)
    ensures
        r@ == "hope-log.jsonl"@,
{
    "hope-log.jsonl"
}

/// The hexadecimal digit for `n`.
pub open spec fn hex_char(n: int) -> char {
    if n == 0 {
        '0'
    } else if n == 1 {
        '1'
    } else if n == 2 {
        '2'
    } else if n == 3 {
        '3'
    } else if n == 4 {
        '4'
    } else if n == 5 {
        '5'
    } else if n == 6 {
        '6'
    } else if n == 7 {
        '7'
    } else if n == 8 {
        '8'
    } else if n == 9 {
        '9'
    } else if n == 10 {
        'a'
    } else if n == 11 {
        'b'
    } else if n == 12 {
        'c'
    } else if n == 13 {
        'd'
    } else if n == 14 {
        'e'
    } else {
        'f'
    }
}

/// How one character is written inside a JSON string: quotes, backslashes
/// and the common control characters get their short escapes, the other
/// control characters a `\u00..` escape, everything else stands as is.
pub open spec fn esc_char(c: char) -> Seq<char> {
    if c == '"' {
        seq!['\\', '"']
    } else if c == '\\' {
        seq!['\\', '\\']
    } else if c == '\n' {
        seq!['\\', 'n']
    } else if c == '\r' {
        seq!['\\', 'r']
    } else if c == '\t' {
        seq!['\\', 't']
    } else if (c as u32) < 32 {
        seq!['\\', 'u', '0', '0', hex_char((c as u32) as int / 16), hex_char((c as u32) as int % 16)]
    } else {
        seq![c]
    }
}

/// A text, escaped for a JSON string.
pub open spec fn json_escaped(s: Seq<char>) -> Seq<char>
    decreases s.len(),
{
    if s.len() == 0 {
        Seq::empty()
    } else {
        esc_char(s[0]) + json_escaped(s.drop_first())
    }
}

/// Escaping distributes over concatenation.
proof fn lemma_json_escaped_concat(a: Seq<char>, b: Seq<char>)
    ensures
        json_escaped(a + b) == json_escaped(a) + json_escaped(b),
    decreases a.len(),
{
    if a.len() == 0 {
        assert(a + b =~= b);
        assert(json_escaped(a) + json_escaped(b) =~= json_escaped(b));
    } else {
        lemma_json_escaped_concat(a.drop_first(), b);
        assert((a + b).drop_first() =~= a.drop_first() + b);
        assert((a + b)[0] == a[0]);
        assert(esc_char(a[0]) + (json_escaped(a.drop_first()) + json_escaped(b)) =~= (esc_char(a[0])
            + json_escaped(a.drop_first())) + json_escaped(b));
    }
}

/// Escaping one character on its own.
proof fn lemma_json_escaped_singleton(c: char)
    ensures
        json_escaped(seq![c]) == esc_char(c),
{
    reveal_with_fuel(json_escaped, 2);
    assert(seq![c].drop_first() =~= Seq::<char>::empty());
    assert(esc_char(c) + Seq::<char>::empty() =~= esc_char(c));
}

/// A JSON string: the escaped text between double quotes.
pub open spec fn json_string(s: Seq<char>) -> Seq<char> {
    seq!['"'] + json_escaped(s) + seq!['"']
}

/// The decimal digit for `n`.
pub open spec fn digit_char(n: int) -> char {
    hex_char(if 0 <= n < 10 {
        n
    } else {
        0
    })
}

/// The decimal digits of `n`, most significant first.
pub open spec fn dec_digits(n: nat) -> Seq<char>
    decreases n,
{
    if n < 10 {
        seq![digit_char(n as int)]
    } else {
        dec_digits(n / 10).push(digit_char((n % 10) as int))
    }
}

/// A duration in milliseconds written as seconds: the whole seconds, a
/// dot, and exactly three fractional digits.
pub open spec fn duration_secs_text(millis: u64) -> Seq<char> {
    dec_digits(millis as nat / 1000) + seq!['.'] + seq![
        digit_char(millis as int % 1000 / 100),
        digit_char(millis as int % 100 / 10),
        digit_char(millis as int % 10),
    ]
}

/// The decimal digit for `n`.
fn digit_char_exec(n: u64) -> (r: char)
    requires
        n < 10,
    ensures
        r == digit_char(n as int),
{
    if n == 0 {
        '0'
    } else if n == 1 {
        '1'
    } else if n == 2 {
        '2'
    } else if n == 3 {
        '3'
    } else if n == 4 {
        '4'
    } else if n == 5 {
        '5'
    } else if n == 6 {
        '6'
    } else if n == 7 {
        '7'
    } else if n == 8 {
        '8'
    } else {
        '9'
    }
}

/// The hexadecimal digit for `n`.
fn hex_char_exec(n: u32) -> (r: char)
    requires
        n < 16,
    ensures
        r == hex_char(n as int),
{
    if n == 0 {
        '0'
    } else if n == 1 {
        '1'
    } else if n == 2 {
        '2'
    } else if n == 3 {
        '3'
    } else if n == 4 {
        '4'
    } else if n == 5 {
        '5'
    } else if n == 6 {
        '6'
    } else if n == 7 {
        '7'
    } else if n == 8 {
        '8'
    } else if n == 9 {
        '9'
    } else if n == 10 {
        'a'
    } else if n == 11 {
        'b'
    } else if n == 12 {
        'c'
    } else if n == 13 {
        'd'
    } else if n == 14 {
        'e'
    } else {
        'f'
    }
}

/// The decimal digits of `n`, most significant first.
fn u64_to_decimal(n: u64) -> (r: String)
    ensures
        r@ == dec_digits(n as nat),
    decreases n,
{
    if n < 10 {
        let mut s = String::new();
        s.push(digit_char_exec(n));
        proof {
            assert(s@ =~= seq![digit_char(n as int)]);
        }
        s
    } else {
        let mut s = u64_to_decimal(n / 10);
        s.push(digit_char_exec(n % 10));
        s
    }
}

/// A duration in milliseconds written as seconds with three decimals.
pub fn format_duration_secs(millis: u64) -> (r: String)
    ensures
        r@ == duration_secs_text(millis),
{
    let mut s = u64_to_decimal(millis / 1000);
    s.push('.');
    s.push(digit_char_exec(millis % 1000 / 100));
    s.push(digit_char_exec(millis % 100 / 10));
    s.push(digit_char_exec(millis % 10));
    proof {
        assert(s@ =~= duration_secs_text(millis));
    }
    s
}

/// Appends `s` as a JSON string, quotes and escapes included.
pub fn push_json_string(out: &mut String, s: &str)
    ensures
        final(out)@ == old(out)@ + json_string(s@),
{
    let chars = crate::text::to_chars(s);
    out.push('"');
    proof {
        assert(json_escaped(s@.take(0)) =~= Seq::<char>::empty());
        assert(out@ =~= old(out)@ + seq!['"'] + json_escaped(s@.take(0)));
    }
    let n = chars.len();
    let mut i: usize = 0;
    while i < n
        invariant
            n == chars@.len(),
            chars@ == s@,
            i <= n,
            out@ == old(out)@ + seq!['"'] + json_escaped(s@.take(i as int)),
        decreases n - i,
    {
        let c = chars[i];
        proof {
            assert(s@.take(i + 1 as int) =~= s@.take(i as int) + seq![c]);
            lemma_json_escaped_concat(s@.take(i as int), seq![c]);
            lemma_json_escaped_singleton(c);
        }
        if c == '"' {
            out.push('\\');
            out.push('"');
        } else if c == '\\' {
            out.push('\\');
            out.push('\\');
        } else if c == '\n' {
            out.push('\\');
            out.push('n');
        } else if c == '\r' {
            out.push('\\');
            out.push('r');
        } else if c == '\t' {
            out.push('\\');
            out.push('t');
        } else {
            let u = c as u32;
            if u < 32 {
                out.push('\\');
                out.push('u');
                out.push('0');
                out.push('0');
                out.push(hex_char_exec(u / 16));
                out.push(hex_char_exec(u % 16));
            } else {
                out.push(c);
            }
        }
        proof {
            assert(out@ =~= old(out)@ + seq!['"'] + json_escaped(s@.take(i + 1 as int)));
        }
        i = i + 1;
    }
    out.push('"');
    proof {
        assert(s@.take(n as int) =~= s@);
        assert(out@ =~= old(out)@ + json_string(s@));
    }
}

/// The JSON object written for a pull or push event, under the given tag.
pub open spec fn copy_event_json(
    tag: Seq<char>,
    unit: Seq<char>,
    at: Seq<char>,
    from: Seq<char>,
    millis: u64,
) -> Seq<char> {
    seq!['{'] + json_string(tag) + ":{\"crate_unit_name\":"@ + json_string(unit)
        + ",\"copied_at\":"@ + json_string(at) + ",\"copied_from\":"@ + json_string(from)
        + ",\"duration_secs\":"@ + duration_secs_text(millis) + "}}"@
}

/// The JSON object written for a build-script event, under the given tag.
pub open spec fn run_event_json(tag: Seq<char>, name: Seq<char>, at: Seq<char>) -> Seq<char> {
    seq!['{'] + json_string(tag) + ":{\"crate_name\":"@ + json_string(name) + ",\"ran_at\":"@
        + json_string(at) + "}}"@
}

/// The JSON line written for one event, without its newline.
pub open spec fn spec_log_line_json(l: CacheLogLine) -> Seq<char> {
    match l {
        CacheLogLine::PulledCrateOutputs(e) => copy_event_json(
            "PulledCrateOutputs"@,
            e.crate_unit_name@,
            e.copied_at@,
            e.copied_from@,
            e.duration_millis,
        ),
        CacheLogLine::PushedCrateOutputs(e) => copy_event_json(
            "PushedCrateOutputs"@,
            e.crate_unit_name@,
            e.copied_at@,
            e.copied_from@,
            e.duration_millis,
        ),
        CacheLogLine::RanBuildScriptWrapper(e) => run_event_json(
            "RanBuildScriptWrapper"@,
            e.crate_name@,
            e.ran_at@,
        ),
        CacheLogLine::RanBuildScript(e) => run_event_json("RanBuildScript"@, e.crate_name@, e.ran_at@),
    }
}

/// Writes a pull or push event's JSON object under the given tag.
fn copy_event_to_json(tag: &str, unit: &str, at: &str, from: &str, millis: u64) -> (r: String)
    ensures
        r@ == copy_event_json(tag@, unit@, at@, from@, millis),
{
    let mut out = String::new();
    out.push('{');
    push_json_string(&mut out, tag);
    out.append(":{\"crate_unit_name\":");
    push_json_string(&mut out, unit);
    out.append(",\"copied_at\":");
    push_json_string(&mut out, at);
    out.append(",\"copied_from\":");
    push_json_string(&mut out, from);
    out.append(",\"duration_secs\":");
    let d = format_duration_secs(millis);
    out.append(d.as_str());
    out.append("}}");
    proof {
        assert(out@ =~= copy_event_json(tag@, unit@, at@, from@, millis));
    }
    out
}

/// Writes a build-script event's JSON object under the given tag.
fn run_event_to_json(tag: &str, name: &str, at: &str) -> (r: String)
    ensures
        r@ == run_event_json(tag@, name@, at@),
{
    let mut out = String::new();
    out.push('{');
    push_json_string(&mut out, tag);
    out.append(":{\"crate_name\":");
    push_json_string(&mut out, name);
    out.append(",\"ran_at\":");
    push_json_string(&mut out, at);
    out.append("}}");
    proof {
        assert(out@ =~= run_event_json(tag@, name@, at@));
    }
    out
}

impl CacheLogLine {
    /// The JSON line this event is appended to the log as, without its
    /// newline.
    pub fn to_json_line(&self) -> (r: String)
        ensures
            r@ == spec_log_line_json(*self),
    {
        match self {
            CacheLogLine::PulledCrateOutputs(e) => copy_event_to_json(
                "PulledCrateOutputs",
                e.crate_unit_name.as_str(),
                e.copied_at.as_str(),
                e.copied_from.as_str(),
                e.duration_millis,
            ),
            CacheLogLine::PushedCrateOutputs(e) => copy_event_to_json(
                "PushedCrateOutputs",
                e.crate_unit_name.as_str(),
                e.copied_at.as_str(),
                e.copied_from.as_str(),
                e.duration_millis,
            ),
            CacheLogLine::RanBuildScriptWrapper(e) => run_event_to_json(
                "RanBuildScriptWrapper",
                e.crate_name.as_str(),
                e.ran_at.as_str(),
            ),
            CacheLogLine::RanBuildScript(e) => run_event_to_json(
                "RanBuildScript",
                e.crate_name.as_str(),
                e.ran_at.as_str(),
            ),
        }
    }
}

/// The wall-clock instant an event is recorded at, as an RFC 3339 text.
/// Relies on `chrono::Utc::now` and `chrono::DateTime::to_rfc3339`; the
/// value depends on the clock, so nothing is promised of it.
#[verifier::external_body]
pub fn now_utc_rfc3339() -> String {
    chrono::Utc::now().to_rfc3339()
}

/// Builds the record of one pull at the present instant.
pub fn make_pull_event(unit: &str, copied_from: &str, duration_millis: u64) -> (r:
    PullCrateOutputsEvent)
    ensures
        r.crate_unit_name@ == unit@,
        r.copied_from@ == copied_from@,
        r.duration_millis == duration_millis,
{
    PullCrateOutputsEvent {
        crate_unit_name: unit.to_owned(),
        copied_at: now_utc_rfc3339(),
        copied_from: copied_from.to_owned(),
        duration_millis,
    }
}

/// Builds the record of one push at the present instant.
pub fn make_push_event(unit: &str, copied_from: &str, duration_millis: u64) -> (r:
    PushCrateOutputsEvent)
    ensures
        r.crate_unit_name@ == unit@,
        r.copied_from@ == copied_from@,
        r.duration_millis == duration_millis,
{
    PushCrateOutputsEvent {
        crate_unit_name: unit.to_owned(),
        copied_at: now_utc_rfc3339(),
        copied_from: copied_from.to_owned(),
        duration_millis,
    }
}

} // verus!
