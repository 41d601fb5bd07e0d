//! The argument classifier: reads the argv the wrapper was handed with a
//! permissive schema that accepts every documented compiler flag but only
//! records the fields the cache needs.

use vstd::prelude::*;

use crate::Error;
use crate::text::find_index;
use crate::text::split_char;

verus! {

/// A `key=value` codegen option.
#[derive(Clone, Debug)]
pub struct KeyValuePair {
    pub key: String,
    pub value: String,
}

impl View for KeyValuePair {
    type V = (Seq<char>, Seq<char>);

    open spec fn view(&self) -> (Seq<char>, Seq<char>) {
        (self.key@, self.value@)
    }
}

/// A codegen option: a bare flag, or a `key=value` pair.
#[derive(Clone, Debug)]
pub enum FlagOrKvPair {
    Flag(String),
    KvPair(KeyValuePair),
}

/// The mathematical shape of a codegen option.
pub enum FlagOrKvView {
    Flag(Seq<char>),
    Kv(Seq<char>, Seq<char>),
}

impl View for FlagOrKvPair {
    type V = FlagOrKvView;

    open spec fn view(&self) -> FlagOrKvView {
        match self {
            FlagOrKvPair::Flag(s) => FlagOrKvView::Flag(s@),
            FlagOrKvPair::KvPair(kv) => FlagOrKvView::Kv(kv.key@, kv.value@),
        }
    }
}

/// What a codegen option string denotes: split at the first `=` if there
/// is one, a bare flag otherwise.
pub open spec fn spec_flag_or_kv(s: Seq<char>) -> FlagOrKvView {
    let e = find_index(s, '=');
    if e >= 0 {
        FlagOrKvView::Kv(s.take(e), s.skip(e + 1))
    } else {
        FlagOrKvView::Flag(s)
    }
}

impl FlagOrKvPair {
    /// Reads one codegen option: `key=value` around the first `=`, or a
    /// bare flag when there is none.
    pub fn from_str(s: &str) -> (r: FlagOrKvPair)
        ensures
            r@ == spec_flag_or_kv(s@),
    {
        let chars = crate::text::to_chars(s);
        let n = chars.len();
        match crate::text::find_char_from(chars.as_slice(), '=', 0) {
            Some(i) => {
                proof {
                    crate::text::lemma_find_index_at(s@, '=', i as int);
                }
                let key = crate::text::chars_to_string(
                    crate::text::slice_range(chars.as_slice(), 0, i).as_slice(),
                );
                let value = crate::text::chars_to_string(
                    crate::text::slice_range(chars.as_slice(), i + 1, n).as_slice(),
                );
                FlagOrKvPair::KvPair(KeyValuePair { key, value })
            },
            None => {
                proof {
                    crate::text::lemma_find_index_absent(s@, '=');
                }
                FlagOrKvPair::Flag(crate::text::chars_to_string(chars.as_slice()))
            },
        }
    }
}

/// The fields of a compiler invocation that the cache inspects. Every
/// other argument is accepted and passed through untouched.
#[derive(Debug)]
pub struct ParsedArgs {
    pub input: Option<String>,
    pub crate_types: Vec<String>,
    pub crate_name: Option<String>,
    pub emit: Vec<String>,
    pub out_dir: Option<String>,
    pub codegen_options: Vec<FlagOrKvPair>,
}

/// The mathematical shape of the inspected fields.
#[verifier::ext_equal]
pub struct ArgsView {
    pub input: Option<Seq<char>>,
    pub crate_types: Seq<Seq<char>>,
    pub crate_name: Option<Seq<char>>,
    pub emit: Seq<Seq<char>>,
    pub out_dir: Option<Seq<char>>,
    pub codegen: Seq<FlagOrKvView>,
}

impl View for ParsedArgs {
    type V = ArgsView;

    open spec fn view(&self) -> ArgsView {
        ArgsView {
            input: match self.input {
                Some(s) => Some(s@),
                None => None,
            },
            crate_types: self.crate_types@.map_values(|s: String| s@),
            crate_name: match self.crate_name {
                Some(s) => Some(s@),
                None => None,
            },
            emit: self.emit@.map_values(|s: String| s@),
            out_dir: match self.out_dir {
                Some(s) => Some(s@),
                None => None,
            },
            codegen: self.codegen_options@.map_values(|o: FlagOrKvPair| o@),
        }
    }
}

/// The empty record that parsing starts from.
pub open spec fn empty_args() -> ArgsView {
    ArgsView {
        input: None,
        crate_types: Seq::empty(),
        crate_name: None,
        emit: Seq::empty(),
        out_dir: None,
        codegen: Seq::empty(),
    }
}

/// Long options that carry a value.
pub open spec fn is_long_value_opt(name: Seq<char>) -> bool {
    ||| name == "cfg"@
    ||| name == "crate-type"@
    ||| name == "crate-name"@
    ||| name == "edition"@
    ||| name == "emit"@
    ||| name == "print"@
    ||| name == "out-dir"@
    ||| name == "warn"@
    ||| name == "force-warn"@
    ||| name == "allow"@
    ||| name == "deny"@
    ||| name == "forbid"@
    ||| name == "cap-lints"@
    ||| name == "codegen"@
    ||| name == "extern"@
    ||| name == "sysroot"@
    ||| name == "error-format"@
    ||| name == "color"@
    ||| name == "diagnostic-width"@
    ||| name == "remap-path-prefix"@
    ||| name == "json"@
}

/// Long options that stand alone.
pub open spec fn is_long_flag_opt(name: Seq<char>) -> bool {
    ||| name == "explain"@
    ||| name == "test"@
    ||| name == "version"@
    ||| name == "verbose"@
}

/// Short options that carry a value.
pub open spec fn is_short_value_opt(c: char) -> bool {
    c == 'L' || c == 'l' || c == 'o' || c == 'W' || c == 'A' || c == 'D' || c == 'F' || c == 'Z'
        || c == 'C'
}

/// Short options that stand alone.
pub open spec fn is_short_flag_opt(c: char) -> bool {
    c == 'g' || c == 'O' || c == 'V' || c == 'v'
}

/// The record after absorbing a long option with its value. Only the
/// inspected options change the record; the rest are skipped.
pub open spec fn apply_long(acc: ArgsView, name: Seq<char>, value: Seq<char>) -> ArgsView {
    if name == "crate-type"@ {
        ArgsView { crate_types: acc.crate_types.push(value), ..acc }
    } else if name == "crate-name"@ {
        ArgsView { crate_name: Some(value), ..acc }
    } else if name == "emit"@ {
        ArgsView { emit: acc.emit + split_char(value, ','), ..acc }
    } else if name == "out-dir"@ {
        ArgsView { out_dir: Some(value), ..acc }
    } else if name == "codegen"@ {
        ArgsView {
            codegen: acc.codegen + split_char(value, ',').map_values(
                |p: Seq<char>| spec_flag_or_kv(p),
            ),
            ..acc
        }
    } else {
        acc
    }
}

/// The record after absorbing a short option with its value.
pub open spec fn apply_short(acc: ArgsView, c: char, value: Seq<char>) -> ArgsView {
    if c == 'C' {
        ArgsView {
            codegen: acc.codegen + split_char(value, ',').map_values(
                |p: Seq<char>| spec_flag_or_kv(p),
            ),
            ..acc
        }
    } else {
        acc
    }
}

/// What parsing the remaining arguments onto `acc` yields: the record
/// with every recognised option absorbed, or the error on the first
/// argument the schema rejects.
pub open spec fn spec_parse_args(acc: ArgsView, argv: Seq<Seq<char>>) -> Result<ArgsView, Error>
    decreases argv.len(),
{
    if argv.len() == 0 {
        Ok(acc)
    } else {
        let a = argv[0];
        if a.len() >= 2 && a[0] == '-' && a[1] == '-' {
            let body = a.skip(2);
            let e = find_index(body, '=');
            if e < 0 && is_long_flag_opt(body) {
                spec_parse_args(acc, argv.drop_first())
            } else {
                let name = if e >= 0 {
                    body.take(e)
                } else {
                    body
                };
                if is_long_value_opt(name) {
                    if e >= 0 {
                        spec_parse_args(apply_long(acc, name, body.skip(e + 1)), argv.drop_first())
                    } else if argv.len() >= 2 {
                        spec_parse_args(apply_long(acc, name, argv[1]), argv.skip(2))
                    } else {
                        Err(Error::MissingArgValue)
                    }
                } else {
                    Err(Error::UnrecognisedFlag)
                }
            }
        } else if a.len() >= 2 && a[0] == '-' {
            let c = a[1];
            if is_short_value_opt(c) {
                if a.len() > 2 {
                    spec_parse_args(apply_short(acc, c, a.skip(2)), argv.drop_first())
                } else if argv.len() >= 2 {
                    spec_parse_args(apply_short(acc, c, argv[1]), argv.skip(2))
                } else {
                    Err(Error::MissingArgValue)
                }
            } else if is_short_flag_opt(c) && a.len() == 2 {
                spec_parse_args(acc, argv.drop_first())
            } else {
                Err(Error::UnrecognisedFlag)
            }
        } else {
            if acc.input is None {
                spec_parse_args(ArgsView { input: Some(a), ..acc }, argv.drop_first())
            } else {
                Err(Error::UnexpectedArgument)
            }
        }
    }
}

/// Absorbs a long option and its value into the record.
fn apply_long_exec(pa: &mut ParsedArgs, name: &[char], value: &[char])
    ensures
        final(pa)@ == apply_long(old(pa)@, name@, value@),
{
    if crate::text::str_eq_chars("crate-type", name) {
        let v = crate::text::chars_to_string(value);
        pa.crate_types.push(v);
        proof {
            assert(pa@.crate_types =~= old(pa)@.crate_types.push(value@));
            assert(pa@ =~= apply_long(old(pa)@, name@, value@));
        }
    } else if crate::text::str_eq_chars("crate-name", name) {
        pa.crate_name = Some(crate::text::chars_to_string(value));
        proof {
            assert(pa@ =~= apply_long(old(pa)@, name@, value@));
        }
    } else if crate::text::str_eq_chars("emit", name) {
        let pieces = crate::text::split_on_char(value, ',');
        let ghost pp = split_char(value@, ',');
        let mut j: usize = 0;
        let m = pieces.len();
        proof {
            assert(pa@.emit =~= old(pa)@.emit + pp.take(0));
        }
        while j < m
            invariant
                m == pieces@.len(),
                m == pp.len(),
                j <= m,
                forall|k: int| 0 <= k < m ==> pieces@[k]@ == pp[k],
                pa.input == old(pa).input,
                pa.crate_types == old(pa).crate_types,
                pa.crate_name == old(pa).crate_name,
                pa.out_dir == old(pa).out_dir,
                pa.codegen_options == old(pa).codegen_options,
                pa@.emit == old(pa)@.emit + pp.take(j as int),
            decreases m - j,
        {
            let ghost pre = pa@.emit;
            let v = crate::text::chars_to_string(pieces[j].as_slice());
            pa.emit.push(v);
            proof {
                assert(pieces@[j as int]@ == pp[j as int]);
                assert(v@ == pp[j as int]);
                assert(pa@.emit =~= pre.push(pp[j as int]));
                assert(pp.take(j + 1 as int) =~= pp.take(j as int).push(pp[j as int]));
                assert(pa@.emit =~= old(pa)@.emit + pp.take(j + 1 as int));
            }
            j = j + 1;
        }
        proof {
            assert(pp.take(m as int) =~= pp);
            assert(pa@ =~= apply_long(old(pa)@, name@, value@));
        }
    } else if crate::text::str_eq_chars("out-dir", name) {
        pa.out_dir = Some(crate::text::chars_to_string(value));
        proof {
            assert(pa@ =~= apply_long(old(pa)@, name@, value@));
        }
    } else if crate::text::str_eq_chars("codegen", name) {
        push_codegen(pa, value);
        proof {
            assert(pa@ =~= apply_long(old(pa)@, name@, value@));
        }
    } else {
        proof {
            assert(pa@ =~= apply_long(old(pa)@, name@, value@));
        }
    }
}

/// Splits a codegen value at commas and records each piece.
fn push_codegen(pa: &mut ParsedArgs, value: &[char])
    ensures
        final(pa)@ == (ArgsView {
            codegen: old(pa)@.codegen + split_char(value@, ',').map_values(
                |p: Seq<char>| spec_flag_or_kv(p),
            ),
            ..old(pa)@
        }),
{
    let pieces = crate::text::split_on_char(value, ',');
    let ghost pp = split_char(value@, ',');
    let mut j: usize = 0;
    let m = pieces.len();
    proof {
        assert(pa@.codegen =~= old(pa)@.codegen + pp.take(0).map_values(
            |p: Seq<char>| spec_flag_or_kv(p),
        ));
    }
    while j < m
        invariant
            m == pieces@.len(),
            m == pp.len(),
            j <= m,
            forall|k: int| 0 <= k < m ==> pieces@[k]@ == pp[k],
            pa.input == old(pa).input,
            pa.crate_types == old(pa).crate_types,
            pa.crate_name == old(pa).crate_name,
            pa.emit == old(pa).emit,
            pa.out_dir == old(pa).out_dir,
            pa@.codegen == old(pa)@.codegen + pp.take(j as int).map_values(
                |p: Seq<char>| spec_flag_or_kv(p),
            ),
        decreases m - j,
    {
        let ghost pre = pa@.codegen;
        let piece = crate::text::chars_to_string(pieces[j].as_slice());
        let o = FlagOrKvPair::from_str(piece.as_str());
        pa.codegen_options.push(o);
        proof {
            assert(pieces@[j as int]@ == pp[j as int]);
            assert(o@ == spec_flag_or_kv(pp[j as int]));
            assert(pa@.codegen =~= pre.push(o@));
            assert(pp.take(j + 1 as int).map_values(|p: Seq<char>| spec_flag_or_kv(p)) =~= pp.take(
                j as int,
            ).map_values(|p: Seq<char>| spec_flag_or_kv(p)).push(spec_flag_or_kv(pp[j as int])));
            assert(pa@.codegen =~= old(pa)@.codegen + pp.take(j + 1 as int).map_values(
                |p: Seq<char>| spec_flag_or_kv(p),
            ));
        }
        j = j + 1;
    }
    proof {
        assert(pp.take(m as int) =~= pp);
        assert(pa@ =~= (ArgsView {
            codegen: old(pa)@.codegen + pp.map_values(|p: Seq<char>| spec_flag_or_kv(p)),
            ..old(pa)@
        }));
    }
}

/// Whether `name` is a long option that stands alone.
fn is_long_flag_exec(name: &[char]) -> (r: bool)
    ensures
        r == is_long_flag_opt(name@),
{
    crate::text::str_eq_chars("explain", name) || crate::text::str_eq_chars("test", name)
        || crate::text::str_eq_chars("version", name) || crate::text::str_eq_chars("verbose", name)
}

/// Whether `name` is a long option that carries a value.
fn is_long_value_exec(name: &[char]) -> (r: bool)
    ensures
        r == is_long_value_opt(name@),
{
    crate::text::str_eq_chars("cfg", name) || crate::text::str_eq_chars("crate-type", name)
        || crate::text::str_eq_chars("crate-name", name) || crate::text::str_eq_chars(
        "edition",
        name,
    ) || crate::text::str_eq_chars("emit", name) || crate::text::str_eq_chars("print", name)
        || crate::text::str_eq_chars("out-dir", name) || crate::text::str_eq_chars("warn", name)
        || crate::text::str_eq_chars("force-warn", name) || crate::text::str_eq_chars(
        "allow",
        name,
    ) || crate::text::str_eq_chars("deny", name) || crate::text::str_eq_chars("forbid", name)
        || crate::text::str_eq_chars("cap-lints", name) || crate::text::str_eq_chars(
        "codegen",
        name,
    ) || crate::text::str_eq_chars("extern", name) || crate::text::str_eq_chars("sysroot", name)
        || crate::text::str_eq_chars("error-format", name) || crate::text::str_eq_chars(
        "color",
        name,
    ) || crate::text::str_eq_chars("diagnostic-width", name) || crate::text::str_eq_chars(
        "remap-path-prefix",
        name,
    ) || crate::text::str_eq_chars("json", name)
}

/// Reads a compiler argument list with the permissive schema: recognised
/// options are absorbed, the one positional argument becomes the input,
/// and the first argument outside the schema is reported.
pub fn parse_args(args: &Vec<String>) -> (r: Result<ParsedArgs, Error>)
    ensures
        match r {
            Ok(pa) => spec_parse_args(empty_args(), args@.map_values(|s: String| s@)) == Ok::<
                ArgsView,
                Error,
            >(pa@),
            Err(e) => spec_parse_args(empty_args(), args@.map_values(|s: String| s@)) == Err::<
                ArgsView,
                Error,
            >(e),
        },
{
    let ghost av = args@.map_values(|s: String| s@);
    let mut pa = ParsedArgs {
        input: None,
        crate_types: Vec::new(),
        crate_name: None,
        emit: Vec::new(),
        out_dir: None,
        codegen_options: Vec::new(),
    };
    proof {
        assert(pa@ =~= empty_args());
        assert(av.skip(0) =~= av);
    }
    let mut i: usize = 0;
    let n = args.len();
    while i < n
        invariant
            n == args@.len(),
            n == av.len(),
            i <= n,
            av == args@.map_values(|s: String| s@),
            spec_parse_args(empty_args(), av) == spec_parse_args(pa@, av.skip(i as int)),
        decreases n - i,
    {
        let ac = crate::text::to_chars(args[i].as_str());
        proof {
            assert(ac@ == av[i as int]);
            assert(av.skip(i as int)[0] == av[i as int]);
            assert(av.skip(i as int).drop_first() =~= av.skip(i + 1 as int));
            assert(av.skip(i as int).len() == n - i);
        }
        let alen = ac.len();
        if alen >= 2 && ac[0] == '-' && ac[1] == '-' {
            let body = crate::text::slice_range(ac.as_slice(), 2, alen);
            proof {
                assert(body@ =~= ac@.skip(2));
            }
            let efound = crate::text::find_char_from(ac.as_slice(), '=', 2);
            proof {
                match efound {
                    None => {
                        assert forall|k: int| 0 <= k < body@.len() implies body@[k] != '=' by {
                            assert(body@[k] == ac@[k + 2]);
                        }
                        crate::text::lemma_find_index_absent(body@, '=');
                    },
                    Some(p) => {
                        assert(body@[p - 2] == ac@[p as int]);
                        assert forall|k: int| 0 <= k < p - 2 implies body@[k] != '=' by {
                            assert(body@[k] == ac@[k + 2]);
                        }
                        crate::text::lemma_find_index_at(body@, '=', p - 2);
                    },
                }
            }
            match efound {
                None => {
                    if is_long_flag_exec(body.as_slice()) {
                        proof {
                            assert(spec_parse_args(pa@, av.skip(i as int)) == spec_parse_args(
                                pa@,
                                av.skip(i + 1 as int),
                            ));
                        }
                        i = i + 1;
                    } else if is_long_value_exec(body.as_slice()) {
                        if i + 1 < n {
                            let value = crate::text::to_chars(args[i + 1].as_str());
                            proof {
                                assert(value@ == av[i + 1 as int]);
                                assert(av.skip(i as int)[1] == av[i + 1 as int]);
                                assert(av.skip(i as int).skip(2) =~= av.skip(i + 2 as int));
                            }
                            apply_long_exec(&mut pa, body.as_slice(), value.as_slice());
                            proof {
                                assert(spec_parse_args(empty_args(), av) == spec_parse_args(
                                    pa@,
                                    av.skip(i + 2 as int),
                                ));
                            }
                            i = i + 2;
                        } else {
                            proof {
                                assert(spec_parse_args(pa@, av.skip(i as int)) == Err::<
                                    ArgsView,
                                    Error,
                                >(Error::MissingArgValue));
                            }
                            return Err(Error::MissingArgValue);
                        }
                    } else {
                        proof {
                            assert(spec_parse_args(pa@, av.skip(i as int)) == Err::<
                                ArgsView,
                                Error,
                            >(Error::UnrecognisedFlag));
                        }
                        return Err(Error::UnrecognisedFlag);
                    }
                },
                Some(p) => {
                    let name = crate::text::slice_range(ac.as_slice(), 2, p);
                    let value = crate::text::slice_range(ac.as_slice(), p + 1, alen);
                    proof {
                        assert(name@ =~= body@.take(p - 2));
                        assert(value@ =~= body@.skip(p - 2 + 1));
                    }
                    if is_long_value_exec(name.as_slice()) {
                        apply_long_exec(&mut pa, name.as_slice(), value.as_slice());
                        proof {
                            assert(spec_parse_args(empty_args(), av) == spec_parse_args(
                                pa@,
                                av.skip(i + 1 as int),
                            ));
                        }
                        i = i + 1;
                    } else {
                        proof {
                            assert(spec_parse_args(pa@, av.skip(i as int)) == Err::<
                                ArgsView,
                                Error,
                            >(Error::UnrecognisedFlag));
                        }
                        return Err(Error::UnrecognisedFlag);
                    }
                },
            }
        } else if alen >= 2 && ac[0] == '-' {
            let c = ac[1];
            let short_value = c == 'L' || c == 'l' || c == 'o' || c == 'W' || c == 'A' || c == 'D'
                || c == 'F' || c == 'Z' || c == 'C';
            let short_flag = c == 'g' || c == 'O' || c == 'V' || c == 'v';
            if short_value {
                if alen > 2 {
                    let value = crate::text::slice_range(ac.as_slice(), 2, alen);
                    proof {
                        assert(value@ =~= ac@.skip(2));
                    }
                    apply_short_exec(&mut pa, c, value.as_slice());
                    proof {
                        assert(spec_parse_args(empty_args(), av) == spec_parse_args(
                            pa@,
                            av.skip(i + 1 as int),
                        ));
                    }
                    i = i + 1;
                } else if i + 1 < n {
                    let value = crate::text::to_chars(args[i + 1].as_str());
                    proof {
                        assert(value@ == av[i + 1 as int]);
                        assert(av.skip(i as int)[1] == av[i + 1 as int]);
                        assert(av.skip(i as int).skip(2) =~= av.skip(i + 2 as int));
                    }
                    apply_short_exec(&mut pa, c, value.as_slice());
                    proof {
                        assert(spec_parse_args(empty_args(), av) == spec_parse_args(
                            pa@,
                            av.skip(i + 2 as int),
                        ));
                    }
                    i = i + 2;
                } else {
                    proof {
                        assert(spec_parse_args(pa@, av.skip(i as int)) == Err::<ArgsView, Error>(
                            Error::MissingArgValue,
                        ));
                    }
                    return Err(Error::MissingArgValue);
                }
            } else if short_flag && alen == 2 {
                proof {
                    assert(spec_parse_args(pa@, av.skip(i as int)) == spec_parse_args(
                        pa@,
                        av.skip(i + 1 as int),
                    ));
                }
                i = i + 1;
            } else {
                proof {
                    assert(spec_parse_args(pa@, av.skip(i as int)) == Err::<ArgsView, Error>(
                        Error::UnrecognisedFlag,
                    ));
                }
                return Err(Error::UnrecognisedFlag);
            }
        } else {
            if pa.input.is_none() {
                let ghost before = pa@;
                pa.input = Some(crate::text::chars_to_string(ac.as_slice()));
                proof {
                    assert(pa@ =~= (ArgsView { input: Some(ac@), ..before }));
                    assert(spec_parse_args(empty_args(), av) == spec_parse_args(
                        pa@,
                        av.skip(i + 1 as int),
                    ));
                }
                i = i + 1;
            } else {
                proof {
                    assert(spec_parse_args(pa@, av.skip(i as int)) == Err::<ArgsView, Error>(
                        Error::UnexpectedArgument,
                    ));
                }
                return Err(Error::UnexpectedArgument);
            }
        }
    }
    proof {
        assert(av.skip(n as int) =~= Seq::<Seq<char>>::empty());
    }
    Ok(pa)
}

/// The role the wrapper is to play, read off the argv shape alone: a lone
/// argv whose path runs through a build directory is the build-script
/// role; otherwise the first argument names the real compiler and the
/// rest are its arguments.
#[derive(Debug)]
pub enum Invocation {
    BuildScript { called_as: String },
    Compiler { rustc_path: String, compiler_args: Vec<String> },
}

/// The mathematical shape of an invocation.
pub enum InvocationView {
    BuildScript(Seq<char>),
    Compiler(Seq<char>, Seq<Seq<char>>),
}

impl View for Invocation {
    type V = InvocationView;

    open spec fn view(&self) -> InvocationView {
        match self {
            Invocation::BuildScript { called_as } => InvocationView::BuildScript(called_as@),
            Invocation::Compiler { rustc_path, compiler_args } => InvocationView::Compiler(
                rustc_path@,
                compiler_args@.map_values(|s: String| s@),
            ),
        }
    }
}

/// Which role an argv selects: the build-script role needs exactly one
/// element whose path runs through `/build/`; every other shape is a
/// compiler invocation and needs the real compiler's path second.
pub open spec fn spec_classify(argv: Seq<Seq<char>>) -> Result<InvocationView, Error> {
    if argv.len() == 0 {
        Err(Error::MissingExeArg)
    } else if argv.len() == 1 && crate::text::contains_seq(argv[0], "/build/"@) {
        Ok(InvocationView::BuildScript(argv[0]))
    } else if argv.len() == 1 {
        Err(Error::MissingRustcPath)
    } else {
        Ok(InvocationView::Compiler(argv[1], argv.skip(2)))
    }
}

/// Reads the role off the argv, as [`spec_classify`] describes.
pub fn classify(argv: &Vec<String>) -> (r: Result<Invocation, Error>)
    ensures
        match r {
            Ok(inv) => spec_classify(argv@.map_values(|s: String| s@)) == Ok::<
                InvocationView,
                Error,
            >(inv@),
            Err(e) => spec_classify(argv@.map_values(|s: String| s@)) == Err::<
                InvocationView,
                Error,
            >(e),
        },
{
    let ghost av = argv@.map_values(|s: String| s@);
    let n = argv.len();
    if n == 0 {
        return Err(Error::MissingExeArg);
    }
    if n == 1 {
        if crate::paths::path_contains(argv[0].as_str(), "/build/") {
            return Ok(Invocation::BuildScript { called_as: argv[0].clone() });
        }
        return Err(Error::MissingRustcPath);
    }
    let rustc_path = argv[1].clone();
    let mut compiler_args: Vec<String> = Vec::new();
    let mut i: usize = 2;
    proof {
        assert(compiler_args@.map_values(|s: String| s@) =~= av.subrange(2, 2));
    }
    while i < n
        invariant
            n == argv@.len(),
            n == av.len(),
            n >= 2,
            2 <= i <= n,
            av == argv@.map_values(|s: String| s@),
            compiler_args@.map_values(|s: String| s@) == av.subrange(2, i as int),
        decreases n - i,
    {
        let ghost pre = compiler_args@.map_values(|s: String| s@);
        compiler_args.push(argv[i].clone());
        proof {
            assert(compiler_args@.map_values(|s: String| s@) =~= pre.push(av[i as int]));
            assert(pre.push(av[i as int]) =~= av.subrange(2, i + 1 as int));
        }
        i = i + 1;
    }
    proof {
        assert(av.subrange(2, n as int) =~= av.skip(2));
    }
    Ok(Invocation::Compiler { rustc_path, compiler_args })
}

/// The value of the first `key=value` codegen option with the given key.
pub open spec fn spec_find_kv(opts: Seq<FlagOrKvView>, key: Seq<char>) -> Option<Seq<char>>
    decreases opts.len(),
{
    if opts.len() == 0 {
        None
    } else {
        match opts[0] {
            FlagOrKvView::Kv(k, v) => if k == key {
                Some(v)
            } else {
                spec_find_kv(opts.drop_first(), key)
            },
            FlagOrKvView::Flag(_) => spec_find_kv(opts.drop_first(), key),
        }
    }
}

/// One step of the search through the codegen options.
proof fn lemma_find_kv_step(opts: Seq<FlagOrKvView>, key: Seq<char>, i: int)
    requires
        0 <= i < opts.len(),
    ensures
        spec_find_kv(opts.skip(i), key) == match opts[i] {
            FlagOrKvView::Kv(k, v) => if k == key {
                Some(v)
            } else {
                spec_find_kv(opts.skip(i + 1), key)
            },
            FlagOrKvView::Flag(_) => spec_find_kv(opts.skip(i + 1), key),
        },
{
    assert(opts.skip(i)[0] == opts[i]);
    assert(opts.skip(i).drop_first() =~= opts.skip(i + 1));
}

/// The value of the first `key=value` codegen option with the given key,
/// if any option carries it.
pub fn find_codegen_value(opts: &Vec<FlagOrKvPair>, key: &str) -> (r: Option<String>)
    ensures
        match r {
            Some(v) => spec_find_kv(opts@.map_values(|o: FlagOrKvPair| o@), key@) == Some(v@),
            None => spec_find_kv(opts@.map_values(|o: FlagOrKvPair| o@), key@) is None,
        },
{
    let ghost ov = opts@.map_values(|o: FlagOrKvPair| o@);
    let n = opts.len();
    let mut i: usize = 0;
    proof {
        assert(ov.skip(0) =~= ov);
    }
    while i < n
        invariant
            n == opts@.len(),
            n == ov.len(),
            i <= n,
            ov == opts@.map_values(|o: FlagOrKvPair| o@),
            spec_find_kv(ov, key@) == spec_find_kv(ov.skip(i as int), key@),
        decreases n - i,
    {
        proof {
            lemma_find_kv_step(ov, key@, i as int);
            assert(ov[i as int] == opts@[i as int]@);
        }
        match &opts[i] {
            FlagOrKvPair::KvPair(kv) => {
                if crate::text::str_eq(kv.key.as_str(), key) {
                    return Some(kv.value.clone());
                }
            },
            FlagOrKvPair::Flag(_) => {},
        }
        i = i + 1;
    }
    None
}

/// A sequence with each value's later repeats dropped: every value keeps
/// its first occurrence only.
pub open spec fn spec_dedup<T>(s: Seq<T>) -> Seq<T>
    decreases s.len(),
{
    if s.len() == 0 {
        Seq::empty()
    } else {
        let d = spec_dedup(s.drop_last());
        if d.contains(s.last()) {
            d
        } else {
            d.push(s.last())
        }
    }
}

/// Everything the pull and push paths need about one cacheable compiler
/// invocation.
#[derive(Debug)]
pub struct CacheablePlan {
    pub crate_name: String,
    pub extra_filename: String,
    pub metadata_hash: String,
    pub crate_unit_name: String,
    pub out_dir: String,
    pub crate_types: Vec<crate::outputs::CrateType>,
    pub output_types: Vec<crate::outputs::OutputType>,
}

/// The mathematical shape of a cacheable plan.
#[verifier::ext_equal]
pub struct PlanView {
    pub crate_name: Seq<char>,
    pub extra_filename: Seq<char>,
    pub metadata_hash: Seq<char>,
    pub crate_unit_name: Seq<char>,
    pub out_dir: Seq<char>,
    pub crate_types: Seq<crate::outputs::CrateType>,
    pub output_types: Seq<crate::outputs::OutputType>,
}

impl View for CacheablePlan {
    type V = PlanView;

    open spec fn view(&self) -> PlanView {
        PlanView {
            crate_name: self.crate_name@,
            extra_filename: self.extra_filename@,
            metadata_hash: self.metadata_hash@,
            crate_unit_name: self.crate_unit_name@,
            out_dir: self.out_dir@,
            crate_types: self.crate_types@,
            output_types: self.output_types@,
        }
    }
}

/// What a compiler invocation is to do: fall through to the real
/// compiler untouched, or go through the cache with the given plan.
#[derive(Debug)]
pub enum CompilerDecision {
    PassThrough,
    Cacheable(CacheablePlan),
}

/// The mathematical shape of a compiler decision.
pub enum DecisionView {
    PassThrough,
    Cacheable(PlanView),
}

impl View for CompilerDecision {
    type V = DecisionView;

    open spec fn view(&self) -> DecisionView {
        match self {
            CompilerDecision::PassThrough => DecisionView::PassThrough,
            CompilerDecision::Cacheable(p) => DecisionView::Cacheable(p@),
        }
    }
}

/// Whether every `--crate-type` value is recognised.
pub open spec fn crate_types_valid(ss: Seq<Seq<char>>) -> bool {
    forall|i: int|
        0 <= i < ss.len() ==> crate::outputs::crate_type_of(#[trigger] ss[i]) is Some
}

/// Whether every `--emit` value is recognised.
pub open spec fn output_types_valid(ss: Seq<Seq<char>>) -> bool {
    forall|i: int|
        0 <= i < ss.len() ==> crate::outputs::output_type_of(#[trigger] ss[i]) is Some
}

/// What a compiler invocation with the given inspected fields is to do.
/// No input, or an input outside the immutable registry source tree,
/// passes through. A registry input must carry an output directory, a
/// crate name, the `extra-filename` and `metadata` codegen options, and
/// recognised crate and output types; each is demanded in that order.
pub open spec fn spec_decide(a: ArgsView) -> Result<DecisionView, Error> {
    match a.input {
        None => Ok(DecisionView::PassThrough),
        Some(input) => {
            if !crate::paths::has_component_with_prefix(input, "index.crates.io-"@) {
                Ok(DecisionView::PassThrough)
            } else {
                match a.out_dir {
                    None => Err(Error::MissingOutDir),
                    Some(out_dir) => match a.crate_name {
                        None => Err(Error::MissingCrateName),
                        Some(cn) => match spec_find_kv(a.codegen, "extra-filename"@) {
                            None => Err(Error::MissingExtraFilename),
                            Some(extra) => match spec_find_kv(a.codegen, "metadata"@) {
                                None => Err(Error::MissingMetadata),
                                Some(meta) => if !crate_types_valid(a.crate_types) {
                                    Err(Error::UnrecognisedCrateType)
                                } else if !output_types_valid(a.emit) {
                                    Err(Error::UnrecognisedOutputType)
                                } else {
                                    Ok(
                                        DecisionView::Cacheable(
                                            PlanView {
                                                crate_name: cn,
                                                extra_filename: extra,
                                                metadata_hash: meta,
                                                crate_unit_name: cn + extra,
                                                out_dir,
                                                crate_types: spec_dedup(
                                                    a.crate_types.map_values(
                                                        |s: Seq<char>| crate::outputs::crate_type_of(
                                                            s,
                                                        )->0,
                                                    ),
                                                ),
                                                output_types: spec_dedup(
                                                    a.emit.map_values(
                                                        |s: Seq<char>| crate::outputs::output_type_of(
                                                            s,
                                                        )->0,
                                                    ),
                                                ),
                                            },
                                        ),
                                    )
                                },
                            },
                        },
                    },
                }
            }
        },
    }
}

/// One step of removing repeats.
proof fn lemma_dedup_step<T>(s: Seq<T>, i: int)
    requires
        0 <= i < s.len(),
    ensures
        spec_dedup(s.take(i + 1)) == if spec_dedup(s.take(i)).contains(s[i]) {
            spec_dedup(s.take(i))
        } else {
            spec_dedup(s.take(i)).push(s[i])
        },
{
    assert(s.take(i + 1).drop_last() =~= s.take(i));
    assert(s.take(i + 1).last() == s[i]);
}

/// Parses and deduplicates the `--crate-type` values, rejecting the list
/// as soon as one is unrecognised.
fn parse_crate_types(v: &Vec<String>) -> (r: Result<Vec<crate::outputs::CrateType>, Error>)
    ensures
        match r {
            Ok(ts) => crate_types_valid(v@.map_values(|s: String| s@)) && ts@ == spec_dedup(
                v@.map_values(|s: String| s@).map_values(
                    |s: Seq<char>| crate::outputs::crate_type_of(s)->0,
                ),
            ),
            Err(e) => !crate_types_valid(v@.map_values(|s: String| s@)) && e
                == Error::UnrecognisedCrateType,
        },
{
    let ghost sv = v@.map_values(|s: String| s@);
    let ghost tv = sv.map_values(|s: Seq<char>| crate::outputs::crate_type_of(s)->0);
    let n = v.len();
    let mut r: Vec<crate::outputs::CrateType> = Vec::new();
    proof {
        assert(tv.take(0) =~= Seq::<crate::outputs::CrateType>::empty());
        assert(r@ =~= spec_dedup(tv.take(0)));
    }
    let mut i: usize = 0;
    while i < n
        invariant
            n == v@.len(),
            n == sv.len(),
            n == tv.len(),
            i <= n,
            sv == v@.map_values(|s: String| s@),
            tv == sv.map_values(|s: Seq<char>| crate::outputs::crate_type_of(s)->0),
            forall|k: int| 0 <= k < i ==> crate::outputs::crate_type_of(#[trigger] sv[k]) is Some,
            r@ == spec_dedup(tv.take(i as int)),
        decreases n - i,
    {
        let t = match crate::outputs::CrateType::from_str(v[i].as_str()) {
            Ok(t) => t,
            Err(e) => {
                proof {
                    assert(crate::outputs::crate_type_of(sv[i as int]) is None);
                }
                return Err(e);
            },
        };
        proof {
            assert(crate::outputs::crate_type_of(sv[i as int]) == Some(t));
            assert(tv[i as int] == t);
            lemma_dedup_step(tv, i as int);
        }
        let mut seen = false;
        let m = r.len();
        let mut j: usize = 0;
        while j < m
            invariant
                m == r@.len(),
                j <= m,
                seen == exists|k: int| 0 <= k < j && r@[k] == t,
            decreases m - j,
        {
            if r[j] == t {
                seen = true;
            }
            j = j + 1;
        }
        proof {
            assert(seen == r@.contains(t));
        }
        if !seen {
            r.push(t);
        }
        i = i + 1;
    }
    proof {
        assert(tv.take(n as int) =~= tv);
    }
    Ok(r)
}

/// Parses and deduplicates the `--emit` values, rejecting the list as
/// soon as one is unrecognised.
fn parse_output_types(v: &Vec<String>) -> (r: Result<Vec<crate::outputs::OutputType>, Error>)
    ensures
        match r {
            Ok(ts) => output_types_valid(v@.map_values(|s: String| s@)) && ts@ == spec_dedup(
                v@.map_values(|s: String| s@).map_values(
                    |s: Seq<char>| crate::outputs::output_type_of(s)->0,
                ),
            ),
            Err(e) => !output_types_valid(v@.map_values(|s: String| s@)) && e
                == Error::UnrecognisedOutputType,
        },
{
    let ghost sv = v@.map_values(|s: String| s@);
    let ghost tv = sv.map_values(|s: Seq<char>| crate::outputs::output_type_of(s)->0);
    let n = v.len();
    let mut r: Vec<crate::outputs::OutputType> = Vec::new();
    proof {
        assert(tv.take(0) =~= Seq::<crate::outputs::OutputType>::empty());
        assert(r@ =~= spec_dedup(tv.take(0)));
    }
    let mut i: usize = 0;
    while i < n
        invariant
            n == v@.len(),
            n == sv.len(),
            n == tv.len(),
            i <= n,
            sv == v@.map_values(|s: String| s@),
            tv == sv.map_values(|s: Seq<char>| crate::outputs::output_type_of(s)->0),
            forall|k: int| 0 <= k < i ==> crate::outputs::output_type_of(#[trigger] sv[k]) is Some,
            r@ == spec_dedup(tv.take(i as int)),
        decreases n - i,
    {
        let t = match crate::outputs::OutputType::from_str(v[i].as_str()) {
            Ok(t) => t,
            Err(e) => {
                proof {
                    assert(crate::outputs::output_type_of(sv[i as int]) is None);
                }
                return Err(e);
            },
        };
        proof {
            assert(crate::outputs::output_type_of(sv[i as int]) == Some(t));
            assert(tv[i as int] == t);
            lemma_dedup_step(tv, i as int);
        }
        let mut seen = false;
        let m = r.len();
        let mut j: usize = 0;
        while j < m
            invariant
                m == r@.len(),
                j <= m,
                seen == exists|k: int| 0 <= k < j && r@[k] == t,
            decreases m - j,
        {
            if r[j] == t {
                seen = true;
            }
            j = j + 1;
        }
        proof {
            assert(seen == r@.contains(t));
        }
        if !seen {
            r.push(t);
        }
        i = i + 1;
    }
    proof {
        assert(tv.take(n as int) =~= tv);
    }
    Ok(r)
}

/// Decides what a compiler invocation is to do, as [`spec_decide`]
/// describes: pass through, fail for a missing field, or go through the
/// cache under the returned plan.
pub fn decide_compiler_role(args: &ParsedArgs) -> (r: Result<CompilerDecision, Error>)
    ensures
        match r {
            Ok(d) => spec_decide(args@) == Ok::<DecisionView, Error>(d@),
            Err(e) => spec_decide(args@) == Err::<DecisionView, Error>(e),
        },
{
    let input = match &args.input {
        None => {
            return Ok(CompilerDecision::PassThrough);
        },
        Some(p) => p,
    };
    if !crate::paths::path_has_component_with_prefix(input.as_str(), "index.crates.io-") {
        return Ok(CompilerDecision::PassThrough);
    }
    let out_dir = match &args.out_dir {
        None => {
            return Err(Error::MissingOutDir);
        },
        Some(d) => d.clone(),
    };
    let crate_name = match &args.crate_name {
        None => {
            return Err(Error::MissingCrateName);
        },
        Some(c) => c.clone(),
    };
    let extra_filename = match find_codegen_value(&args.codegen_options, "extra-filename") {
        None => {
            return Err(Error::MissingExtraFilename);
        },
        Some(v) => v,
    };
    let metadata_hash = match find_codegen_value(&args.codegen_options, "metadata") {
        None => {
            return Err(Error::MissingMetadata);
        },
        Some(v) => v,
    };
    let crate_types = match parse_crate_types(&args.crate_types) {
        Ok(ts) => ts,
        Err(e) => {
            return Err(e);
        },
    };
    let output_types = match parse_output_types(&args.emit) {
        Ok(ts) => ts,
        Err(e) => {
            return Err(e);
        },
    };
    let crate_unit_name = crate::unit_name(crate_name.as_str(), extra_filename.as_str());
    let plan = CacheablePlan {
        crate_name,
        extra_filename,
        metadata_hash,
        crate_unit_name,
        out_dir,
        crate_types,
        output_types,
    };
    let r = CompilerDecision::Cacheable(plan);
    proof {
        assert(spec_decide(args@) == Ok::<DecisionView, Error>(r@)) by {
            let pv = r@->Cacheable_0;
            let sv = spec_decide(args@)->Ok_0->Cacheable_0;
            assert(pv =~= sv);
        }
    }
    Ok(r)
}

/// Absorbs a short option and its value into the record.
fn apply_short_exec(pa: &mut ParsedArgs, c: char, value: &[char])
    ensures
        final(pa)@ == apply_short(old(pa)@, c, value@),
{
    if c == 'C' {
        push_codegen(pa, value);
        proof {
            assert(pa@ =~= apply_short(old(pa)@, c, value@));
        }
    } else {
        proof {
            assert(pa@ =~= apply_short(old(pa)@, c, value@));
        }
    }
}

} // verus!
