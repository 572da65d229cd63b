//! Normalizes Python-interpreter-style command lines for the sandbox.
//!
//! The grammar is the Python interpreter's short-flag syntax: clustered
//! short flags, flags taking a value from the rest of the token or the
//! next one, and a first non-flag token that ends flag processing and
//! passes itself and everything after through untouched.  On top of the
//! reparse, three rules hold: the "no user site" flag is always emitted,
//! the "ignore environment" flag is consumed and never re-emitted, and
//! the "isolate" flag is translated into the always-present "no user
//! site" flag alone.
use vstd::prelude::*;

use crate::strutil::str_eq;

verus! {

/// Why a command line was rejected.
#[derive(Debug, PartialEq, Eq)]
pub enum ArgError {
    /// A flag that takes a value stood last with nothing after it.
    MissingValue,
    /// The "run a command" and "run a module" flags were both given.
    ConflictingFlags,
    /// Help was requested; the caller shows usage instead of running.
    HelpRequested,
}

/// The parsed form of a Python-style command line (program name and
/// trailing arguments included).
pub struct ArgState {
    pub bytes_warning_level: u8,
    pub dont_write_bytecode: bool,
    pub command: Option<String>,
    pub debug_parser: bool,
    pub ignore_env: bool,
    pub help: bool,
    pub inspect: bool,
    pub isolate: bool,
    pub module: Option<String>,
    pub optimize_level: u8,
    pub quiet: bool,
    pub no_user_site: bool,
    pub no_import_site: bool,
    pub unbuffered: bool,
    pub verbosity: u8,
    pub version: u8,
    pub warnings: Vec<String>,
    pub skip_first_line: bool,
    pub extended_options: Vec<String>,
    pub remaining_args: Vec<String>,
}

/// The mathematical image of an `ArgState`.
#[verifier::ext_equal]
pub ghost struct ArgModel {
    pub bytes_warning_level: nat,
    pub dont_write_bytecode: bool,
    pub command: Option<Seq<char>>,
    pub debug_parser: bool,
    pub ignore_env: bool,
    pub help: bool,
    pub inspect: bool,
    pub isolate: bool,
    pub module: Option<Seq<char>>,
    pub optimize_level: nat,
    pub quiet: bool,
    pub no_user_site: bool,
    pub no_import_site: bool,
    pub unbuffered: bool,
    pub verbosity: nat,
    pub version: nat,
    pub warnings: Seq<Seq<char>>,
    pub skip_first_line: bool,
    pub extended_options: Seq<Seq<char>>,
    pub remaining_args: Seq<Seq<char>>,
}

impl ArgState {
    pub open spec fn model(&self) -> ArgModel {
        ArgModel {
            bytes_warning_level: self.bytes_warning_level as nat,
            dont_write_bytecode: self.dont_write_bytecode,
            command: self.command.deep_view(),
            debug_parser: self.debug_parser,
            ignore_env: self.ignore_env,
            help: self.help,
            inspect: self.inspect,
            isolate: self.isolate,
            module: self.module.deep_view(),
            optimize_level: self.optimize_level as nat,
            quiet: self.quiet,
            no_user_site: self.no_user_site,
            no_import_site: self.no_import_site,
            unbuffered: self.unbuffered,
            verbosity: self.verbosity as nat,
            version: self.version as nat,
            warnings: self.warnings.deep_view(),
            skip_first_line: self.skip_first_line,
            extended_options: self.extended_options.deep_view(),
            remaining_args: self.remaining_args.deep_view(),
        }
    }

    /// The state every parse starts from: everything off and empty.
    pub fn start() -> (r: ArgState)
        ensures
            r.model() == init_model(),
    {
        let r = ArgState {
            bytes_warning_level: 0,
            dont_write_bytecode: false,
            command: None,
            debug_parser: false,
            ignore_env: false,
            help: false,
            inspect: false,
            isolate: false,
            module: None,
            optimize_level: 0,
            quiet: false,
            no_user_site: false,
            no_import_site: false,
            unbuffered: false,
            verbosity: 0,
            version: 0,
            warnings: Vec::new(),
            skip_first_line: false,
            extended_options: Vec::new(),
            remaining_args: Vec::new(),
        };
        proof {
            assert(r.model() =~= init_model());
        }
        r
    }
}

/// The model of `ArgState::start`.
pub open spec fn init_model() -> ArgModel {
    ArgModel {
        bytes_warning_level: 0,
        dont_write_bytecode: false,
        command: None,
        debug_parser: false,
        ignore_env: false,
        help: false,
        inspect: false,
        isolate: false,
        module: None,
        optimize_level: 0,
        quiet: false,
        no_user_site: false,
        no_import_site: false,
        unbuffered: false,
        verbosity: 0,
        version: 0,
        warnings: Seq::empty(),
        skip_first_line: false,
        extended_options: Seq::empty(),
        remaining_args: Seq::empty(),
    }
}

/// A repetition count bumped by one, capped so it stays a byte.
pub open spec fn sat_inc(n: nat) -> nat {
    if n < 255 {
        n + 1
    } else {
        n
    }
}

/// What one flag cluster does: it updates the state (telling whether it
/// swallowed the following token as a value), it turns out not to be a
/// flag token at all, or it fails.
#[verifier::ext_equal]
pub ghost enum ClusterOut {
    Flags(ArgModel, bool),
    NotFlag,
    Fail(ArgError),
}

/// Processes the characters of one `-xyz` token from position `j` on.
/// A value-taking flag takes the rest of the token if any, else the next
/// token; a character that is no known flag makes the whole token a
/// non-flag.
pub open spec fn spec_cluster(
    st: ArgModel,
    tok: Seq<char>,
    j: int,
    next: Option<Seq<char>>,
) -> ClusterOut
    decreases tok.len() - j,
{
    if j >= tok.len() {
        ClusterOut::Flags(st, false)
    } else {
        let c = tok[j];
        if c == 'c' || c == 'm' || c == 'W' || c == 'X' {
            if j + 1 < tok.len() {
                ClusterOut::Flags(apply_value(st, c, tok.skip(j + 1)), false)
            } else {
                match next {
                    Some(v) => ClusterOut::Flags(apply_value(st, c, v), true),
                    None => ClusterOut::Fail(ArgError::MissingValue),
                }
            }
        } else if is_simple_flag(c) {
            spec_cluster(simple_step(st, c), tok, j + 1, next)
        } else {
            ClusterOut::NotFlag
        }
    }
}

/// The flags that take no value.
pub open spec fn is_simple_flag(c: char) -> bool {
    c == 'b' || c == 'O' || c == 'v' || c == 'V' || c == 'B' || c == 'd' || c == 'E' || c
        == 'h' || c == 'i' || c == 'I' || c == 'q' || c == 's' || c == 'S' || c == 'u' || c
        == 'x'
}

/// The state change of one flag that takes no value.
pub open spec fn simple_step(st: ArgModel, c: char) -> ArgModel {
    if c == 'b' {
        ArgModel { bytes_warning_level: sat_inc(st.bytes_warning_level), ..st }
    } else if c == 'O' {
        ArgModel { optimize_level: sat_inc(st.optimize_level), ..st }
    } else if c == 'v' {
        ArgModel { verbosity: sat_inc(st.verbosity), ..st }
    } else if c == 'V' {
        ArgModel { version: sat_inc(st.version), ..st }
    } else if c == 'B' {
        ArgModel { dont_write_bytecode: true, ..st }
    } else if c == 'd' {
        ArgModel { debug_parser: true, ..st }
    } else if c == 'E' {
        ArgModel { ignore_env: true, ..st }
    } else if c == 'h' {
        ArgModel { help: true, ..st }
    } else if c == 'i' {
        ArgModel { inspect: true, ..st }
    } else if c == 'I' {
        ArgModel { isolate: true, ..st }
    } else if c == 'q' {
        ArgModel { quiet: true, ..st }
    } else if c == 's' {
        ArgModel { no_user_site: true, ..st }
    } else if c == 'S' {
        ArgModel { no_import_site: true, ..st }
    } else if c == 'u' {
        ArgModel { unbuffered: true, ..st }
    } else {
        ArgModel { skip_first_line: true, ..st }
    }
}

/// The state change of one value-taking flag.
pub open spec fn apply_value(st: ArgModel, c: char, v: Seq<char>) -> ArgModel {
    if c == 'c' {
        ArgModel { command: Some(v), ..st }
    } else if c == 'm' {
        ArgModel { module: Some(v), ..st }
    } else if c == 'W' {
        ArgModel { warnings: st.warnings.push(v), ..st }
    } else {
        ArgModel { extended_options: st.extended_options.push(v), ..st }
    }
}

/// The checks made once flag processing ends: help wins, then the
/// command/module conflict; otherwise the state stands.
pub open spec fn finalize(st: ArgModel) -> Result<ArgModel, ArgError> {
    if st.help {
        Err(ArgError::HelpRequested)
    } else if st.command is Some && st.module is Some {
        Err(ArgError::ConflictingFlags)
    } else {
        Ok(st)
    }
}

/// Parses the tokens of `argv` from position `i` on: flag tokens update
/// the state, `--` ends flag processing and is dropped, `--help` and
/// `--version` are the only long flags, and the first non-flag token puts
/// itself and everything after into the trailing arguments.
pub open spec fn spec_parse_from(argv: Seq<Seq<char>>, i: int, st: ArgModel) -> Result<
    ArgModel,
    ArgError,
>
    decreases argv.len() - i,
{
    if i >= argv.len() {
        finalize(st)
    } else {
        let tok = argv[i];
        if tok.len() >= 2 && tok[0] == '-' {
            if tok[1] == '-' {
                if tok.len() == 2 {
                    finalize(ArgModel { remaining_args: argv.skip(i + 1), ..st })
                } else if tok == "--help"@ {
                    finalize(ArgModel { help: true, ..st })
                } else if tok == "--version"@ {
                    spec_parse_from(argv, i + 1, ArgModel { version: sat_inc(st.version), ..st })
                } else {
                    finalize(ArgModel { remaining_args: argv.skip(i), ..st })
                }
            } else {
                let next = if i + 1 < argv.len() {
                    Some(argv[i + 1])
                } else {
                    None
                };
                match spec_cluster(st, tok, 1, next) {
                    ClusterOut::Flags(st2, consumed) => {
                        let ni = if consumed {
                            i + 2
                        } else {
                            i + 1
                        };
                        if ni > argv.len() {
                            finalize(st2)
                        } else {
                            spec_parse_from(argv, ni, st2)
                        }
                    },
                    ClusterOut::NotFlag => finalize(
                        ArgModel { remaining_args: argv.skip(i), ..st },
                    ),
                    ClusterOut::Fail(e) => Err(e),
                }
            }
        } else {
            finalize(ArgModel { remaining_args: argv.skip(i), ..st })
        }
    }
}

/// The parse of a full command line (the leading program name is not a
/// flag token).
pub open spec fn spec_parse(argv: Seq<Seq<char>>) -> Result<ArgModel, ArgError> {
    spec_parse_from(argv, 1, init_model())
}

impl ArgState {
    /// A copy with the same model.
    fn duplicate(&self) -> (r: ArgState)
        ensures
            r.model() == self.model(),
    {
        let r = ArgState {
            bytes_warning_level: self.bytes_warning_level,
            dont_write_bytecode: self.dont_write_bytecode,
            command: match &self.command {
                Some(s) => Some(s.clone()),
                None => None,
            },
            debug_parser: self.debug_parser,
            ignore_env: self.ignore_env,
            help: self.help,
            inspect: self.inspect,
            isolate: self.isolate,
            module: match &self.module {
                Some(s) => Some(s.clone()),
                None => None,
            },
            optimize_level: self.optimize_level,
            quiet: self.quiet,
            no_user_site: self.no_user_site,
            no_import_site: self.no_import_site,
            unbuffered: self.unbuffered,
            verbosity: self.verbosity,
            version: self.version,
            warnings: self.warnings.clone(),
            skip_first_line: self.skip_first_line,
            extended_options: self.extended_options.clone(),
            remaining_args: self.remaining_args.clone(),
        };
        proof {
            assert(r.model() =~~= self.model());
        }
        r
    }
}

/// Exec-side outcome of one cluster token.
enum ClusterRes {
    Flags(bool),
    NotFlag,
    Fail(ArgError),
}

fn sat_inc_exec(n: u8) -> (r: u8)
    ensures
        r as nat == sat_inc(n as nat),
{
    if n < 255 {
        n + 1
    } else {
        n
    }
}

/// Applies one `-xyz` cluster token to the state.
#[verifier::rlimit(100)]
fn apply_cluster(st: &mut ArgState, tok: &str, next: Option<&str>) -> (r: ClusterRes)
    requires
        tok@.len() >= 2,
    ensures
        match r {
            ClusterRes::Flags(consumed) => spec_cluster(
                old(st).model(),
                tok@,
                1,
                next.deep_view(),
            ) == ClusterOut::Flags(final(st).model(), consumed),
            ClusterRes::NotFlag => spec_cluster(old(st).model(), tok@, 1, next.deep_view())
                == ClusterOut::NotFlag,
            ClusterRes::Fail(e) => spec_cluster(old(st).model(), tok@, 1, next.deep_view())
                == ClusterOut::Fail(e),
        },
{
    let ghost nv = next.deep_view();
    let n = tok.unicode_len();
    let mut j: usize = 1;
    while j < n
        invariant
            1 <= j <= n,
            n == tok@.len(),
            nv == next.deep_view(),
            spec_cluster(old(st).model(), tok@, 1, nv) == spec_cluster(
                st.model(),
                tok@,
                j as int,
                nv,
            ),
        decreases n - j,
    {
        let ghost pre = st.model();
        let c = tok.get_char(j);
        if c == 'c' || c == 'm' || c == 'W' || c == 'X' {
            let consumed: bool;
            let value: String;
            if j + 1 < n {
                value = String::from_str(tok.substring_char(j + 1, n));
                consumed = false;
            } else {
                match next {
                    Some(v) => {
                        value = String::from_str(v);
                        consumed = true;
                    },
                    None => {
                        return ClusterRes::Fail(ArgError::MissingValue);
                    },
                }
            }
            apply_value_flag(st, c, value);
            return ClusterRes::Flags(consumed);
        } else if is_simple_flag_exec(c) {
            apply_simple_flag(st, c);
        } else {
            return ClusterRes::NotFlag;
        }
        j = j + 1;
    }
    ClusterRes::Flags(false)
}

/// Applies one flag that takes a value.
#[verifier::rlimit(100)]
fn apply_value_flag(st: &mut ArgState, c: char, value: String)
    requires
        c == 'c' || c == 'm' || c == 'W' || c == 'X',
    ensures
        final(st).model() == apply_value(old(st).model(), c, value@),
{
    let ghost pre = st.model();
    let ghost vv = value@;
    if c == 'c' {
        st.command = Some(value);
    } else if c == 'm' {
        st.module = Some(value);
    } else if c == 'W' {
        st.warnings.push(value);
    } else {
        st.extended_options.push(value);
    }
    proof {
        assert(st.model() =~~= apply_value(pre, c, vv));
    }
}

fn is_simple_flag_exec(c: char) -> (r: bool)
    ensures
        r == is_simple_flag(c),
{
    c == 'b' || c == 'O' || c == 'v' || c == 'V' || c == 'B' || c == 'd' || c == 'E' || c
        == 'h' || c == 'i' || c == 'I' || c == 'q' || c == 's' || c == 'S' || c == 'u' || c
        == 'x'
}

/// Applies one flag that takes no value.
#[verifier::rlimit(100)]
fn apply_simple_flag(st: &mut ArgState, c: char)
    requires
        is_simple_flag(c),
    ensures
        final(st).model() == simple_step(old(st).model(), c),
{
    let ghost pre = st.model();
    if c == 'b' {
        st.bytes_warning_level = sat_inc_exec(st.bytes_warning_level);
        proof {
            assert(st.model() =~~= simple_step(pre, c));
        }
    } else if c == 'O' {
        st.optimize_level = sat_inc_exec(st.optimize_level);
        proof {
            assert(st.model() =~~= simple_step(pre, c));
        }
    } else if c == 'v' {
        st.verbosity = sat_inc_exec(st.verbosity);
        proof {
            assert(st.model() =~~= simple_step(pre, c));
        }
    } else if c == 'V' {
        st.version = sat_inc_exec(st.version);
        proof {
            assert(st.model() =~~= simple_step(pre, c));
        }
    } else if c == 'B' {
        st.dont_write_bytecode = true;
        proof {
            assert(st.model() =~~= simple_step(pre, c));
        }
    } else if c == 'd' {
        st.debug_parser = true;
        proof {
            assert(st.model() =~~= simple_step(pre, c));
        }
    } else if c == 'E' {
        st.ignore_env = true;
        proof {
            assert(st.model() =~~= simple_step(pre, c));
        }
    } else if c == 'h' {
        st.help = true;
        proof {
            assert(st.model() =~~= simple_step(pre, c));
        }
    } else if c == 'i' {
        st.inspect = true;
        proof {
            assert(st.model() =~~= simple_step(pre, c));
        }
    } else if c == 'I' {
        st.isolate = true;
        proof {
            assert(st.model() =~~= simple_step(pre, c));
        }
    } else if c == 'q' {
        st.quiet = true;
        proof {
            assert(st.model() =~~= simple_step(pre, c));
        }
    } else if c == 's' {
        st.no_user_site = true;
        proof {
            assert(st.model() =~~= simple_step(pre, c));
        }
    } else if c == 'S' {
        st.no_import_site = true;
        proof {
            assert(st.model() =~~= simple_step(pre, c));
        }
    } else if c == 'u' {
        st.unbuffered = true;
        proof {
            assert(st.model() =~~= simple_step(pre, c));
        }
    } else {
        st.skip_first_line = true;
        proof {
            assert(st.model() =~~= simple_step(pre, c));
        }
    }
}

/// The trailing tokens of `argv` from position `from` on, as owned
/// strings.
fn collect_rest(argv: &Vec<&str>, from: usize) -> (r: Vec<String>)
    ensures
        from <= argv@.len() ==> r.deep_view() == argv.deep_view().skip(from as int),
        from > argv@.len() ==> r.deep_view() == Seq::<Seq<char>>::empty(),
{
    let mut r: Vec<String> = Vec::new();
    if from > argv.len() {
        proof {
            assert(r.deep_view() =~~= Seq::<Seq<char>>::empty());
        }
        return r;
    }
    let mut k: usize = from;
    proof {
        assert(r.deep_view() =~~= argv.deep_view().subrange(from as int, from as int));
    }
    while k < argv.len()
        invariant
            from <= k <= argv@.len(),
            argv@.len() == argv.deep_view().len(),
            r.deep_view() == argv.deep_view().subrange(from as int, k as int),
        decreases argv@.len() - k,
    {
        let ghost old_dv = r.deep_view();
        r.push(String::from_str(argv[k]));
        proof {
            assert(r.deep_view() =~~= old_dv.push(argv.deep_view()[k as int]));
            assert(r.deep_view() =~~= argv.deep_view().subrange(from as int, k + 1));
        }
        k = k + 1;
    }
    proof {
        assert(argv.deep_view().subrange(from as int, argv.deep_view().len() as int)
            =~= argv.deep_view().skip(from as int));
    }
    r
}

/// Ends flag processing: the trailing tokens from `from` on become the
/// remaining arguments, then the post-parse checks run.
#[verifier::rlimit(100)]
fn finish_with_rest(st: ArgState, argv: &Vec<&str>, from: usize) -> (r: Result<
    ArgState,
    ArgError,
>)
    requires
        from <= argv@.len(),
    ensures
        match r {
            Ok(out) => finalize(
                ArgModel { remaining_args: argv.deep_view().skip(from as int), ..st.model() },
            ) == Ok::<ArgModel, ArgError>(out.model()),
            Err(e) => finalize(
                ArgModel { remaining_args: argv.deep_view().skip(from as int), ..st.model() },
            ) == Err::<ArgModel, ArgError>(e),
        },
{
    let ghost pre = st.model();
    let mut out = st;
    out.remaining_args = collect_rest(argv, from);
    proof {
        assert(out.model() =~~= (ArgModel {
            remaining_args: argv.deep_view().skip(from as int),
            ..pre
        }));
    }
    finalize_exec(out)
}

/// The post-parse checks, on the executable state.
fn finalize_exec(st: ArgState) -> (r: Result<ArgState, ArgError>)
    ensures
        match r {
            Ok(out) => finalize(st.model()) == Ok::<ArgModel, ArgError>(out.model()),
            Err(e) => finalize(st.model()) == Err::<ArgModel, ArgError>(e),
        },
{
    if st.help {
        Err(ArgError::HelpRequested)
    } else if st.command.is_some() && st.module.is_some() {
        Err(ArgError::ConflictingFlags)
    } else {
        Ok(st)
    }
}

/// Parses a Python-style command line into an `ArgState`.  The first
/// token is the program name and is never treated as a flag.
#[verifier::rlimit(100)]
pub fn parse_args(argv: &Vec<&str>) -> (r: Result<ArgState, ArgError>)
    requires
        argv@.len() >= 1,
    ensures
        match r {
            Ok(st) => spec_parse(argv.deep_view()) == Ok::<ArgModel, ArgError>(st.model()),
            Err(e) => spec_parse(argv.deep_view()) == Err::<ArgModel, ArgError>(e),
        },
{
    let ghost v = argv.deep_view();
    let mut st = ArgState::start();
    let mut i: usize = 1;
    while i < argv.len()
        invariant
            1 <= i <= argv@.len(),
            v == argv.deep_view(),
            v.len() == argv@.len(),
            spec_parse_from(v, 1, init_model()) == spec_parse_from(v, i as int, st.model()),
        decreases argv@.len() - i,
    {
        let ghost pre = st.model();
        let tok = argv[i];
        proof {
            assert(tok@ == v[i as int]);
        }
        let n = tok.unicode_len();
        if n >= 2 && tok.get_char(0) == '-' {
            if tok.get_char(1) == '-' {
                if n == 2 {
                    return finish_with_rest(st, argv, i + 1);
                } else if str_eq(tok, "--help") {
                    st.help = true;
                    proof {
                        assert(st.model() =~~= (ArgModel { help: true, ..pre }));
                    }
                    return finalize_exec(st);
                } else if str_eq(tok, "--version") {
                    st.version = sat_inc_exec(st.version);
                    proof {
                        assert(st.model() =~~= (ArgModel {
                            version: sat_inc(pre.version),
                            ..pre
                        }));
                    }
                    i = i + 1;
                } else {
                    proof {
                        reveal_strlit("--help");
                        reveal_strlit("--version");
                    }
                    return finish_with_rest(st, argv, i);
                }
            } else {
                let next: Option<&str> = if i + 1 < argv.len() {
                    Some(argv[i + 1])
                } else {
                    None
                };
                proof {
                    if i + 1 < v.len() {
                        assert(next.deep_view() == Some(v[i as int + 1]));
                    } else {
                        assert(next.deep_view() == Option::<Seq<char>>::None);
                    }
                }
                let saved = st.duplicate();
                match apply_cluster(&mut st, tok, next) {
                    ClusterRes::Flags(consumed) => {
                        if consumed {
                            if argv.len() - i >= 2 {
                                i = i + 2;
                            } else {
                                return finalize_exec(st);
                            }
                        } else {
                            i = i + 1;
                        }
                    },
                    ClusterRes::NotFlag => {
                        return finish_with_rest(saved, argv, i);
                    },
                    ClusterRes::Fail(e) => {
                        return Err(e);
                    },
                }
            }
        } else {
            return finish_with_rest(st, argv, i);
        }
    }
    finalize_exec(st)
}

/// A counted flag's spelling: nothing, its single form, or its doubled
/// form.
pub open spec fn count_flag(one: Seq<char>, two: Seq<char>, n: nat) -> Seq<Seq<char>> {
    if n == 0 {
        Seq::empty()
    } else if n == 1 {
        seq![one]
    } else {
        seq![two]
    }
}

/// A boolean flag's spelling.
pub open spec fn opt_flag(f: Seq<char>, b: bool) -> Seq<Seq<char>> {
    if b {
        seq![f]
    } else {
        Seq::empty()
    }
}

/// A value-taking flag's spelling: the flag and its value, or nothing.
pub open spec fn opt_value(f: Seq<char>, v: Option<Seq<char>>) -> Seq<Seq<char>> {
    match v {
        Some(x) => seq![f, x],
        None => Seq::empty(),
    }
}

/// A flag repeated `n` times.
pub open spec fn repeat_flag(f: Seq<char>, n: nat) -> Seq<Seq<char>> {
    Seq::new(n, |i: int| f)
}

/// A value-taking flag spelled once per collected value, in order.
pub open spec fn pair_flags(f: Seq<char>, vals: Seq<Seq<char>>) -> Seq<Seq<char>>
    decreases vals.len(),
{
    if vals.len() == 0 {
        Seq::empty()
    } else {
        pair_flags(f, vals.drop_last()) + seq![f, vals.last()]
    }
}

/// The normalized command line written back from a parsed state: the
/// program name, the flags in canonical order with the "no user site"
/// flag always present, the command/module values, and the trailing
/// arguments byte for byte.  The "ignore environment" and "isolate"
/// flags are never written.
pub open spec fn spec_emit(argv0: Seq<char>, m: ArgModel) -> Seq<Seq<char>> {
    seq![argv0] + count_flag("-b"@, "-bb"@, m.bytes_warning_level) + opt_flag(
        "-B"@,
        m.dont_write_bytecode,
    ) + opt_flag("-d"@, m.debug_parser) + opt_flag("-h"@, m.help) + opt_flag(
        "-i"@,
        m.inspect,
    ) + seq!["-s"@] + opt_flag("-S"@, m.no_import_site) + opt_flag(
        "-u"@,
        m.unbuffered,
    ) + opt_flag("-q"@, m.quiet) + opt_flag("-x"@, m.skip_first_line) + opt_value(
        "-c"@,
        m.command,
    ) + opt_value("-m"@, m.module) + count_flag("-O"@, "-OO"@, m.optimize_level)
        + repeat_flag("-v"@, m.verbosity) + count_flag("-V"@, "-VV"@, m.version) + pair_flags(
        "-W"@,
        m.warnings,
    ) + pair_flags("-X"@, m.extended_options) + m.remaining_args
}

fn push_count_flag(r: &mut Vec<String>, one: &str, two: &str, n: u8)
    ensures
        final(r).deep_view() == old(r).deep_view() + count_flag(one@, two@, n as nat),
{
    let ghost old_dv = r.deep_view();
    if n == 1 {
        r.push(String::from_str(one));
        proof {
            assert(r.deep_view() =~~= old_dv + count_flag(one@, two@, n as nat));
        }
    } else if n >= 2 {
        r.push(String::from_str(two));
        proof {
            assert(r.deep_view() =~~= old_dv + count_flag(one@, two@, n as nat));
        }
    } else {
        proof {
            assert(r.deep_view() =~~= old_dv + count_flag(one@, two@, n as nat));
        }
    }
}

fn push_opt_flag(r: &mut Vec<String>, f: &str, b: bool)
    ensures
        final(r).deep_view() == old(r).deep_view() + opt_flag(f@, b),
{
    let ghost old_dv = r.deep_view();
    if b {
        r.push(String::from_str(f));
    }
    proof {
        assert(r.deep_view() =~~= old_dv + opt_flag(f@, b));
    }
}

fn push_opt_value(r: &mut Vec<String>, f: &str, v: &Option<String>)
    ensures
        final(r).deep_view() == old(r).deep_view() + opt_value(f@, v.deep_view()),
{
    let ghost old_dv = r.deep_view();
    match v {
        Some(x) => {
            r.push(String::from_str(f));
            r.push(x.clone());
        },
        None => {},
    }
    proof {
        assert(r.deep_view() =~~= old_dv + opt_value(f@, v.deep_view()));
    }
}

fn push_repeat_flag(r: &mut Vec<String>, f: &str, n: u8)
    ensures
        final(r).deep_view() == old(r).deep_view() + repeat_flag(f@, n as nat),
{
    let ghost old_dv = r.deep_view();
    let mut k: u8 = 0;
    while k < n
        invariant
            k <= n,
            r.deep_view() =~= old_dv + repeat_flag(f@, k as nat),
        decreases n - k,
    {
        let ghost dv = r.deep_view();
        r.push(String::from_str(f));
        proof {
            assert(r.deep_view() =~~= dv.push(f@));
            assert(dv.push(f@) =~~= old_dv + repeat_flag(f@, (k + 1) as nat));
        }
        k = k + 1;
    }
    proof {
        assert(r.deep_view() =~~= old_dv + repeat_flag(f@, n as nat));
    }
}

fn push_pair_flags(r: &mut Vec<String>, f: &str, vals: &Vec<String>)
    ensures
        final(r).deep_view() == old(r).deep_view() + pair_flags(f@, vals.deep_view()),
{
    let ghost old_dv = r.deep_view();
    let ghost vv = vals.deep_view();
    let mut k: usize = 0;
    proof {
        assert(vv.take(0) =~= Seq::<Seq<char>>::empty());
    }
    while k < vals.len()
        invariant
            k <= vals.len(),
            vv == vals.deep_view(),
            r.deep_view() =~= old_dv + pair_flags(f@, vv.take(k as int)),
        decreases vals.len() - k,
    {
        let ghost dv = r.deep_view();
        r.push(String::from_str(f));
        r.push(vals[k].clone());
        proof {
            assert(r.deep_view() =~~= dv.push(f@).push(vv[k as int]));
            assert(vv.take(k + 1).drop_last() =~= vv.take(k as int));
            assert(dv.push(f@).push(vv[k as int]) =~~= old_dv + pair_flags(
                f@,
                vv.take(k + 1),
            ));
        }
        k = k + 1;
    }
    proof {
        assert(vv.take(vals.len() as int) =~= vv);
    }
}

fn push_strings(r: &mut Vec<String>, vals: &Vec<String>)
    ensures
        final(r).deep_view() == old(r).deep_view() + vals.deep_view(),
{
    let ghost old_dv = r.deep_view();
    let ghost vv = vals.deep_view();
    let mut k: usize = 0;
    proof {
        assert(r.deep_view() =~~= old_dv + vv.take(0));
    }
    while k < vals.len()
        invariant
            k <= vals.len(),
            vv == vals.deep_view(),
            r.deep_view() =~= old_dv + vv.take(k as int),
        decreases vals.len() - k,
    {
        let ghost dv = r.deep_view();
        r.push(vals[k].clone());
        proof {
            assert(r.deep_view() =~~= dv.push(vv[k as int]));
            assert(dv.push(vv[k as int]) =~~= old_dv + vv.take(k + 1));
        }
        k = k + 1;
    }
    proof {
        assert(r.deep_view() =~~= old_dv + vv);
    }
}

/// Writes the parsed state back out as a normalized command line.
#[verifier::rlimit(100)]
pub fn emit_args(argv0: &str, st: &ArgState) -> (r: Vec<String>)
    ensures
        r.deep_view() == spec_emit(argv0@, st.model()),
{
    let mut r: Vec<String> = Vec::new();
    r.push(String::from_str(argv0));
    proof {
        assert(r.deep_view() =~~= seq![argv0@]);
    }
    push_count_flag(&mut r, "-b", "-bb", st.bytes_warning_level);
    push_opt_flag(&mut r, "-B", st.dont_write_bytecode);
    push_opt_flag(&mut r, "-d", st.debug_parser);
    push_opt_flag(&mut r, "-h", st.help);
    push_opt_flag(&mut r, "-i", st.inspect);
    let ghost before_s = r.deep_view();
    r.push(String::from_str("-s"));
    proof {
        assert(r.deep_view() =~~= before_s + seq!["-s"@]);
    }
    push_opt_flag(&mut r, "-S", st.no_import_site);
    push_opt_flag(&mut r, "-u", st.unbuffered);
    push_opt_flag(&mut r, "-q", st.quiet);
    push_opt_flag(&mut r, "-x", st.skip_first_line);
    push_opt_value(&mut r, "-c", &st.command);
    push_opt_value(&mut r, "-m", &st.module);
    push_count_flag(&mut r, "-O", "-OO", st.optimize_level);
    push_repeat_flag(&mut r, "-v", st.verbosity);
    push_count_flag(&mut r, "-V", "-VV", st.version);
    push_pair_flags(&mut r, "-W", &st.warnings);
    push_pair_flags(&mut r, "-X", &st.extended_options);
    push_strings(&mut r, &st.remaining_args);
    proof {
        assert(r.deep_view() =~~= spec_emit(argv0@, st.model()));
    }
    r
}

/// Normalizes a Python-interpreter-style command line: parses it and
/// writes it back with the sandbox rules applied.  The program name is
/// kept verbatim; the result is pinned to `spec_emit` of `spec_parse`.
pub fn reparse_args(original_argv: &Vec<&str>) -> (r: Result<Vec<String>, ArgError>)
    requires
        original_argv@.len() >= 1,
    ensures
        match r {
            Ok(out) => spec_parse(original_argv.deep_view()) matches Ok(m) && out.deep_view()
                == spec_emit(original_argv.deep_view()[0], m),
            Err(e) => spec_parse(original_argv.deep_view()) == Err::<ArgModel, ArgError>(e),
        },
{
    match parse_args(original_argv) {
        Ok(st) => {
            let out = emit_args(original_argv[0], &st);
            proof {
                assert(original_argv.deep_view()[0] == original_argv@[0]@);
            }
            Ok(out)
        },
        Err(e) => Err(e),
    }
}

/// The normalized "no user site" flag is present in every emitted
/// command line, whatever was asked for.
pub proof fn lemma_no_user_site_always_emitted(argv0: Seq<char>, m: ArgModel)
    ensures
        spec_emit(argv0, m).contains("-s"@),
{
    let e = spec_emit(argv0, m);
    let p = seq![argv0] + count_flag("-b"@, "-bb"@, m.bytes_warning_level) + opt_flag(
        "-B"@,
        m.dont_write_bytecode,
    ) + opt_flag("-d"@, m.debug_parser) + opt_flag("-h"@, m.help) + opt_flag("-i"@, m.inspect);
    assert(e[p.len() as int] == "-s"@);
    assert(0 <= p.len() < e.len());
}

/// The "ignore environment" flag is consumed: what is emitted does not
/// depend on it.
pub proof fn lemma_ignore_env_consumed(argv0: Seq<char>, m: ArgModel)
    ensures
        spec_emit(argv0, ArgModel { ignore_env: true, ..m }) == spec_emit(
            argv0,
            ArgModel { ignore_env: false, ..m },
        ),
{
    assert(spec_emit(argv0, ArgModel { ignore_env: true, ..m }) =~= spec_emit(
        argv0,
        ArgModel { ignore_env: false, ..m },
    ));
}

/// The "isolate" flag translates into nothing beyond the always-present
/// "no user site" flag: what is emitted does not depend on it.
pub proof fn lemma_isolate_translated(argv0: Seq<char>, m: ArgModel)
    ensures
        spec_emit(argv0, ArgModel { isolate: true, ..m }) == spec_emit(
            argv0,
            ArgModel { isolate: false, ..m },
        ),
{
    assert(spec_emit(argv0, ArgModel { isolate: true, ..m }) =~= spec_emit(
        argv0,
        ArgModel { isolate: false, ..m },
    ));
}

} // verus!
