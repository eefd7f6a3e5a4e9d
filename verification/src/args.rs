use vstd::prelude::*;
use vstd::string::*;

use crate::kernel::{kernel_name, kernel_named, lemma_kernel_name_round_trip, MuskingumCungeKernel};
use crate::text::{
    decimal, first_index_of, index_of_char, is_digit, lemma_decimal_digits, lemma_parse_decimal, parse_unsigned,
    parse_usize, str_eq,
};

verus! {

/// The options of the command line that take a value, and the positional route directory.
#[derive(Clone, Copy, Debug, PartialEq, Eq, Structural)]
pub enum ArgOption {
    RouteDir,
    Hf,
    InputDir,
    OutputDir,
    InternalTimestepSeconds,
    Kernel,
    NumThreads,
}

/// The command line of the router, read.
#[derive(Debug)]
pub struct Args {
    /// Route directory path
    pub route_dir: String,
    /// Path to the GeoPackage (.gpkg) hydrofabric file
    pub hf: Option<String>,
    /// Path to the input directory containing CSV files
    pub input_dir: Option<String>,
    /// Path to the output directory
    pub output_dir: Option<String>,
    /// Internal timestep in seconds
    pub internal_timestep_seconds: usize,
    pub kernel: MuskingumCungeKernel,
    pub num_threads: usize,
}

/// Why a command line was not accepted (or, for help and version, not run).
#[derive(Debug)]
pub enum ArgsError {
    HelpRequested,
    VersionRequested,
    /// A flag that the command does not know, as it is reported: `--name` or `-c`.
    UnknownArgument(String),
    /// A second positional argument.
    UnexpectedArgument(String),
    /// `--help` or `--version` with a value attached: the flag, and the value.
    FlagWithValue(String, String),
    /// An option without a value: at the end of the line, or before another flag.
    MissingValue(ArgOption),
    InvalidValue(ArgOption, String),
    /// An option given twice.
    RepeatedOption(ArgOption),
    MissingRouteDir,
}

/// `Args` as values.
pub struct ArgsModel {
    pub route_dir: Seq<char>,
    pub hf: Option<Seq<char>>,
    pub input_dir: Option<Seq<char>>,
    pub output_dir: Option<Seq<char>>,
    pub internal_timestep_seconds: nat,
    pub kernel: MuskingumCungeKernel,
    pub num_threads: nat,
}

/// `ArgsError` as values.
pub enum ArgsFailure {
    HelpRequested,
    VersionRequested,
    UnknownArgument(Seq<char>),
    UnexpectedArgument(Seq<char>),
    FlagWithValue(Seq<char>, Seq<char>),
    MissingValue(ArgOption),
    InvalidValue(ArgOption, Seq<char>),
    RepeatedOption(ArgOption),
    MissingRouteDir,
}

pub open spec fn opt_chars(o: Option<String>) -> Option<Seq<char>> {
    match o {
        Some(s) => Some(s@),
        None => None,
    }
}

impl View for Args {
    type V = ArgsModel;

    open spec fn view(&self) -> ArgsModel {
        ArgsModel {
            route_dir: self.route_dir@,
            hf: opt_chars(self.hf),
            input_dir: opt_chars(self.input_dir),
            output_dir: opt_chars(self.output_dir),
            internal_timestep_seconds: self.internal_timestep_seconds as nat,
            kernel: self.kernel,
            num_threads: self.num_threads as nat,
        }
    }
}

impl View for ArgsError {
    type V = ArgsFailure;

    open spec fn view(&self) -> ArgsFailure {
        match self {
            ArgsError::HelpRequested => ArgsFailure::HelpRequested,
            ArgsError::VersionRequested => ArgsFailure::VersionRequested,
            ArgsError::UnknownArgument(a) => ArgsFailure::UnknownArgument(a@),
            ArgsError::UnexpectedArgument(a) => ArgsFailure::UnexpectedArgument(a@),
            ArgsError::FlagWithValue(f, v) => ArgsFailure::FlagWithValue(f@, v@),
            ArgsError::MissingValue(o) => ArgsFailure::MissingValue(*o),
            ArgsError::InvalidValue(o, v) => ArgsFailure::InvalidValue(*o, v@),
            ArgsError::RepeatedOption(o) => ArgsFailure::RepeatedOption(*o),
            ArgsError::MissingRouteDir => ArgsFailure::MissingRouteDir,
        }
    }
}

pub open spec fn args_result_view(r: Result<Args, ArgsError>) -> Result<ArgsModel, ArgsFailure> {
    match r {
        Ok(a) => Ok(a@),
        Err(e) => Err(e@),
    }
}

/// What the command line has given so far, while it is read from left to right.
/// An option's value and the route directory are first held as `pending`: they are
/// checked and recorded only when the next flag, the next positional argument or
/// the end of the line is reached.
pub struct ScanModel {
    pub route_dir: Option<Seq<char>>,
    pub hf: Option<Seq<char>>,
    pub input_dir: Option<Seq<char>>,
    pub output_dir: Option<Seq<char>>,
    pub timestep: Option<nat>,
    pub kernel: Option<MuskingumCungeKernel>,
    pub threads: Option<nat>,
    /// The option (or the route directory) read last and not yet recorded, with its
    /// value once one has come.
    pub pending: Option<(ArgOption, Option<Seq<char>>)>,
    /// The one positional argument, the route directory, has been read.
    pub positional_taken: bool,
    /// A `--` has been read: every later argument is positional.
    pub positional_only: bool,
}

pub open spec fn scan_start() -> ScanModel {
    ScanModel {
        route_dir: None,
        hf: None,
        input_dir: None,
        output_dir: None,
        timestep: None,
        kernel: None,
        threads: None,
        pending: None,
        positional_taken: false,
        positional_only: false,
    }
}

/// How a single argument reads.
pub enum TokenModel {
    Help,
    Version,
    /// A flag that the command does not know, as it is reported.
    Unknown(Seq<char>),
    /// `--help` or `--version` with a value attached: the flag and the value.
    FlagWithValue(Seq<char>, Seq<char>),
    Positional,
    DoubleDash,
    /// An option with its value in the same argument (`--kernel=x`, `-kx`, `-k=x`).
    WithValue(ArgOption, Seq<char>),
    /// An option whose value is the next argument.
    NeedsValue(ArgOption),
}

/// The option that a long name (after `--`) stands for.
pub open spec fn long_option(name: Seq<char>) -> Option<ArgOption> {
    if name == "hf"@ {
        Some(ArgOption::Hf)
    } else if name == "input-dir"@ {
        Some(ArgOption::InputDir)
    } else if name == "output-dir"@ {
        Some(ArgOption::OutputDir)
    } else if name == "internal-timestep-seconds"@ {
        Some(ArgOption::InternalTimestepSeconds)
    } else if name == "kernel"@ {
        Some(ArgOption::Kernel)
    } else if name == "num-threads"@ {
        Some(ArgOption::NumThreads)
    } else {
        None
    }
}

/// The option that a short letter (after `-`) stands for.
pub open spec fn short_option(c: char) -> Option<ArgOption> {
    if c == 'i' {
        Some(ArgOption::InputDir)
    } else if c == 'o' {
        Some(ArgOption::OutputDir)
    } else if c == 't' {
        Some(ArgOption::InternalTimestepSeconds)
    } else if c == 'k' {
        Some(ArgOption::Kernel)
    } else if c == 'n' {
        Some(ArgOption::NumThreads)
    } else {
        None
    }
}

/// A long flag is named by what stands between `--` and the first `=`; a value after
/// that `=` is attached to it. A group of short flags is read letter by letter: `h`
/// and `V` act at once, whatever follows them, and an option letter takes the rest of
/// the group (less one leading `=`) as its value, or the next argument where the
/// group ends with it. `-` alone is a positional argument.
pub open spec fn classify(a: Seq<char>) -> TokenModel {
    if a == seq!['-', '-'] {
        TokenModel::DoubleDash
    } else if a.len() > 2 && a[0] == '-' && a[1] == '-' {
        let body = a.skip(2);
        let k = first_index_of(body, '=');
        let name = body.take(k as int);
        let flag = a.take(k + 2 as int);
        let attached = k < body.len();
        if name == "help"@ || name == "version"@ {
            if attached {
                TokenModel::FlagWithValue(flag, body.skip(k + 1 as int))
            } else if name == "help"@ {
                TokenModel::Help
            } else {
                TokenModel::Version
            }
        } else {
            match long_option(name) {
                Some(o) => if attached {
                    TokenModel::WithValue(o, body.skip(k + 1 as int))
                } else {
                    TokenModel::NeedsValue(o)
                },
                None => TokenModel::Unknown(flag),
            }
        }
    } else if a.len() >= 2 && a[0] == '-' {
        let c = a[1];
        let rest = a.skip(2);
        if c == 'h' {
            TokenModel::Help
        } else if c == 'V' {
            TokenModel::Version
        } else {
            match short_option(c) {
                Some(o) => if rest.len() == 0 {
                    TokenModel::NeedsValue(o)
                } else if rest[0] == '=' {
                    TokenModel::WithValue(o, rest.drop_first())
                } else {
                    TokenModel::WithValue(o, rest)
                },
                None => TokenModel::Unknown(a.take(2)),
            }
        }
    } else {
        TokenModel::Positional
    }
}

pub open spec fn option_given(st: ScanModel, o: ArgOption) -> bool {
    match o {
        ArgOption::RouteDir => st.route_dir is Some,
        ArgOption::Hf => st.hf is Some,
        ArgOption::InputDir => st.input_dir is Some,
        ArgOption::OutputDir => st.output_dir is Some,
        ArgOption::InternalTimestepSeconds => st.timestep is Some,
        ArgOption::Kernel => st.kernel is Some,
        ArgOption::NumThreads => st.threads is Some,
    }
}

/// Records the value of an option: a path must not be empty, a count must be a `usize`,
/// and a kernel must be named by its name.
pub open spec fn set_option(st: ScanModel, o: ArgOption, v: Seq<char>) -> Result<ScanModel, ArgsFailure> {
    if option_given(st, o) {
        Err(ArgsFailure::RepeatedOption(o))
    } else {
        match o {
            ArgOption::InternalTimestepSeconds => match parse_unsigned(v, usize::MAX as nat) {
                Some(n) => Ok(ScanModel { timestep: Some(n), ..st }),
                None => Err(ArgsFailure::InvalidValue(o, v)),
            },
            ArgOption::NumThreads => match parse_unsigned(v, usize::MAX as nat) {
                Some(n) => Ok(ScanModel { threads: Some(n), ..st }),
                None => Err(ArgsFailure::InvalidValue(o, v)),
            },
            ArgOption::Kernel => match kernel_named(v) {
                Some(k) => Ok(ScanModel { kernel: Some(k), ..st }),
                None => Err(ArgsFailure::InvalidValue(o, v)),
            },
            _ => if v.len() == 0 {
                Err(ArgsFailure::InvalidValue(o, v))
            } else {
                match o {
                    ArgOption::RouteDir => Ok(ScanModel { route_dir: Some(v), ..st }),
                    ArgOption::Hf => Ok(ScanModel { hf: Some(v), ..st }),
                    ArgOption::InputDir => Ok(ScanModel { input_dir: Some(v), ..st }),
                    _ => Ok(ScanModel { output_dir: Some(v), ..st }),
                }
            },
        }
    }
}

/// Records what is pending: an option that is still without a value is refused.
pub open spec fn resolve(st: ScanModel) -> Result<ScanModel, ArgsFailure> {
    match st.pending {
        None => Ok(st),
        Some((o, None)) => Err(ArgsFailure::MissingValue(o)),
        Some((o, Some(v))) => set_option(ScanModel { pending: None, ..st }, o, v),
    }
}

/// A positional argument: the route directory, which may be given once. A second
/// one is refused before anything pending is looked at.
pub open spec fn positional(st: ScanModel, a: Seq<char>) -> Result<ScanModel, ArgsFailure> {
    if st.positional_taken {
        Err(ArgsFailure::UnexpectedArgument(a))
    } else {
        match resolve(st) {
            Ok(s1) => Ok(
                ScanModel {
                    pending: Some((ArgOption::RouteDir, Some(a))),
                    positional_taken: true,
                    ..s1
                },
            ),
            Err(e) => Err(e),
        }
    }
}

/// Reads one argument. A flag that is not known, or that carries a value it does not
/// take, is refused before anything pending is looked at; any other flag first
/// records what is pending.
pub open spec fn step(st: ScanModel, a: Seq<char>) -> Result<ScanModel, ArgsFailure> {
    if st.positional_only {
        positional(st, a)
    } else {
        match classify(a) {
            TokenModel::DoubleDash => Ok(ScanModel { positional_only: true, ..st }),
            TokenModel::Help => match resolve(st) {
                Ok(_) => Err(ArgsFailure::HelpRequested),
                Err(e) => Err(e),
            },
            TokenModel::Version => match resolve(st) {
                Ok(_) => Err(ArgsFailure::VersionRequested),
                Err(e) => Err(e),
            },
            TokenModel::Unknown(t) => Err(ArgsFailure::UnknownArgument(t)),
            TokenModel::FlagWithValue(f, v) => Err(ArgsFailure::FlagWithValue(f, v)),
            TokenModel::WithValue(o, v) => match resolve(st) {
                Ok(s1) => set_option(s1, o, v),
                Err(e) => Err(e),
            },
            TokenModel::NeedsValue(o) => match resolve(st) {
                Ok(s1) => Ok(ScanModel { pending: Some((o, None)), ..s1 }),
                Err(e) => Err(e),
            },
            TokenModel::Positional => match st.pending {
                Some((o, None)) => Ok(ScanModel { pending: Some((o, Some(a))), ..st }),
                _ => positional(st, a),
            },
        }
    }
}

/// Reads the arguments from position `i` on, from left to right; the first
/// step that fails decides the failure.
pub open spec fn scan(argv: Seq<Seq<char>>, i: nat, st: ScanModel) -> Result<ScanModel, ArgsFailure>
    decreases argv.len() - i,
{
    if i >= argv.len() {
        Ok(st)
    } else {
        match step(st, argv[i as int]) {
            Ok(s2) => scan(argv, i + 1, s2),
            Err(e) => Err(e),
        }
    }
}

/// The arguments once all are read: the route directory is required, and the
/// timestep is 300 s, the kernel `TRouteModernized` and the thread count
/// `default_threads` where the line does not give them.
pub open spec fn finish(st: ScanModel, default_threads: nat) -> Result<ArgsModel, ArgsFailure> {
    match st.route_dir {
        None => Err(ArgsFailure::MissingRouteDir),
        Some(r) => Ok(
            ArgsModel {
                route_dir: r,
                hf: st.hf,
                input_dir: st.input_dir,
                output_dir: st.output_dir,
                internal_timestep_seconds: match st.timestep {
                    Some(t) => t,
                    None => 300,
                },
                kernel: match st.kernel {
                    Some(k) => k,
                    None => MuskingumCungeKernel::TRouteModernized,
                },
                num_threads: match st.threads {
                    Some(n) => n,
                    None => default_threads,
                },
            },
        ),
    }
}

/// The command line `argv` (whose first element names the program) read: every
/// argument, then what is still pending, then the defaults.
pub open spec fn parse_args(argv: Seq<Seq<char>>, default_threads: nat) -> Result<ArgsModel, ArgsFailure> {
    match scan(argv, 1, scan_start()) {
        Ok(st) => match resolve(st) {
            Ok(s2) => finish(s2, default_threads),
            Err(e) => Err(e),
        },
        Err(e) => Err(e),
    }
}

pub open spec fn argv_chars(argv: Seq<&str>) -> Seq<Seq<char>> {
    argv.map_values(|s: &str| s@)
}

pub open spec fn opt_nat(o: Option<usize>) -> Option<nat> {
    match o {
        Some(n) => Some(n as nat),
        None => None,
    }
}

pub open spec fn pending_chars(p: Option<(ArgOption, Option<String>)>) -> Option<(ArgOption, Option<Seq<char>>)> {
    match p {
        Some((o, v)) => Some((o, opt_chars(v))),
        None => None,
    }
}

/// The exec form of `ScanModel`.
struct Scan {
    route_dir: Option<String>,
    hf: Option<String>,
    input_dir: Option<String>,
    output_dir: Option<String>,
    timestep: Option<usize>,
    kernel: Option<MuskingumCungeKernel>,
    threads: Option<usize>,
    pending: Option<(ArgOption, Option<String>)>,
    positional_taken: bool,
    positional_only: bool,
}

impl View for Scan {
    type V = ScanModel;

    closed spec fn view(&self) -> ScanModel {
        ScanModel {
            route_dir: opt_chars(self.route_dir),
            hf: opt_chars(self.hf),
            input_dir: opt_chars(self.input_dir),
            output_dir: opt_chars(self.output_dir),
            timestep: opt_nat(self.timestep),
            kernel: self.kernel,
            threads: opt_nat(self.threads),
            pending: pending_chars(self.pending),
            positional_taken: self.positional_taken,
            positional_only: self.positional_only,
        }
    }
}

/// The exec form of `TokenModel`.
enum Token {
    Help,
    Version,
    Unknown(String),
    FlagWithValue(String, String),
    Positional,
    DoubleDash,
    WithValue(ArgOption, String),
    NeedsValue(ArgOption),
}

impl View for Token {
    type V = TokenModel;

    closed spec fn view(&self) -> TokenModel {
        match self {
            Token::Help => TokenModel::Help,
            Token::Version => TokenModel::Version,
            Token::Unknown(t) => TokenModel::Unknown(t@),
            Token::FlagWithValue(f, v) => TokenModel::FlagWithValue(f@, v@),
            Token::Positional => TokenModel::Positional,
            Token::DoubleDash => TokenModel::DoubleDash,
            Token::WithValue(o, v) => TokenModel::WithValue(*o, v@),
            Token::NeedsValue(o) => TokenModel::NeedsValue(*o),
        }
    }
}

fn long_option_of(name: &str) -> (r: Option<ArgOption>)
    ensures
        r == long_option(name@),
{
    if str_eq(name, "hf") {
        Some(ArgOption::Hf)
    } else if str_eq(name, "input-dir") {
        Some(ArgOption::InputDir)
    } else if str_eq(name, "output-dir") {
        Some(ArgOption::OutputDir)
    } else if str_eq(name, "internal-timestep-seconds") {
        Some(ArgOption::InternalTimestepSeconds)
    } else if str_eq(name, "kernel") {
        Some(ArgOption::Kernel)
    } else if str_eq(name, "num-threads") {
        Some(ArgOption::NumThreads)
    } else {
        None
    }
}

fn short_option_of(c: char) -> (r: Option<ArgOption>)
    ensures
        r == short_option(c),
{
    if c == 'i' {
        Some(ArgOption::InputDir)
    } else if c == 'o' {
        Some(ArgOption::OutputDir)
    } else if c == 't' {
        Some(ArgOption::InternalTimestepSeconds)
    } else if c == 'k' {
        Some(ArgOption::Kernel)
    } else if c == 'n' {
        Some(ArgOption::NumThreads)
    } else {
        None
    }
}

fn classify_arg(a: &str) -> (t: Token)
    ensures
        t@ == classify(a@),
{
    let n = a.unicode_len();
    if n == 2 && a.get_char(0) == '-' && a.get_char(1) == '-' {
        assert(a@ =~= seq!['-', '-']);
        return Token::DoubleDash;
    }
    assert(a@ != seq!['-', '-']);
    if n > 2 && a.get_char(0) == '-' && a.get_char(1) == '-' {
        let body = a.substring_char(2, n);
        let bn = body.unicode_len();
        let k = index_of_char(body, '=');
        let name = body.substring_char(0, k);
        assert(name@ =~= body@.take(k as int));
        let flag = a.substring_char(0, k + 2);
        assert(flag@ =~= a@.take(k + 2));
        let is_help = str_eq(name, "help");
        let is_version = str_eq(name, "version");
        if is_help || is_version {
            if k < bn {
                let v = body.substring_char(k + 1, bn);
                assert(v@ =~= body@.skip(k + 1));
                Token::FlagWithValue(String::from_str(flag), String::from_str(v))
            } else if is_help {
                Token::Help
            } else {
                Token::Version
            }
        } else {
            match long_option_of(name) {
                Some(o) => if k < bn {
                    let v = body.substring_char(k + 1, bn);
                    assert(v@ =~= body@.skip(k + 1));
                    Token::WithValue(o, String::from_str(v))
                } else {
                    Token::NeedsValue(o)
                },
                None => Token::Unknown(String::from_str(flag)),
            }
        }
    } else if n >= 2 && a.get_char(0) == '-' {
        let c = a.get_char(1);
        if c == 'h' {
            return Token::Help;
        } else if c == 'V' {
            return Token::Version;
        }
        let rest = a.substring_char(2, n);
        let rn = rest.unicode_len();
        match short_option_of(c) {
            Some(o) => if rn == 0 {
                Token::NeedsValue(o)
            } else if rest.get_char(0) == '=' {
                let v = rest.substring_char(1, rn);
                assert(v@ =~= rest@.drop_first());
                Token::WithValue(o, String::from_str(v))
            } else {
                Token::WithValue(o, String::from_str(rest))
            },
            None => {
                let flag = a.substring_char(0, 2);
                assert(flag@ =~= a@.take(2));
                Token::Unknown(String::from_str(flag))
            },
        }
    } else {
        Token::Positional
    }
}

fn set_option_value(st: &mut Scan, o: ArgOption, v: &str) -> (r: Result<(), ArgsError>)
    ensures
        match set_option(old(st)@, o, v@) {
            Ok(s2) => r is Ok && final(st)@ == s2,
            Err(e) => (r matches Err(x) && x@ == e),
        },
{
    let given = match o {
        ArgOption::RouteDir => st.route_dir.is_some(),
        ArgOption::Hf => st.hf.is_some(),
        ArgOption::InputDir => st.input_dir.is_some(),
        ArgOption::OutputDir => st.output_dir.is_some(),
        ArgOption::InternalTimestepSeconds => st.timestep.is_some(),
        ArgOption::Kernel => st.kernel.is_some(),
        ArgOption::NumThreads => st.threads.is_some(),
    };
    if given {
        return Err(ArgsError::RepeatedOption(o));
    }
    match o {
        ArgOption::InternalTimestepSeconds => match parse_usize(v) {
            Some(n) => {
                st.timestep = Some(n);
                Ok(())
            },
            None => Err(ArgsError::InvalidValue(o, String::from_str(v))),
        },
        ArgOption::NumThreads => match parse_usize(v) {
            Some(n) => {
                st.threads = Some(n);
                Ok(())
            },
            None => Err(ArgsError::InvalidValue(o, String::from_str(v))),
        },
        ArgOption::Kernel => match MuskingumCungeKernel::from_name(v) {
            Some(k) => {
                st.kernel = Some(k);
                Ok(())
            },
            None => Err(ArgsError::InvalidValue(o, String::from_str(v))),
        },
        _ => {
            if v.unicode_len() == 0 {
                return Err(ArgsError::InvalidValue(o, String::from_str(v)));
            }
            let s = String::from_str(v);
            match o {
                ArgOption::RouteDir => {
                    st.route_dir = Some(s);
                },
                ArgOption::Hf => {
                    st.hf = Some(s);
                },
                ArgOption::InputDir => {
                    st.input_dir = Some(s);
                },
                _ => {
                    st.output_dir = Some(s);
                },
            }
            Ok(())
        },
    }
}

fn resolve_pending(st: &mut Scan) -> (r: Result<(), ArgsError>)
    ensures
        match resolve(old(st)@) {
            Ok(s2) => r is Ok && final(st)@ == s2,
            Err(e) => (r matches Err(x) && x@ == e),
        },
{
    let p = st.pending.take();
    match p {
        None => Ok(()),
        Some((o, None)) => Err(ArgsError::MissingValue(o)),
        Some((o, Some(v))) => set_option_value(st, o, v.as_str()),
    }
}

fn positional_arg(st: &mut Scan, a: &str) -> (r: Result<(), ArgsError>)
    ensures
        match positional(old(st)@, a@) {
            Ok(s2) => r is Ok && final(st)@ == s2,
            Err(e) => (r matches Err(x) && x@ == e),
        },
{
    if st.positional_taken {
        return Err(ArgsError::UnexpectedArgument(String::from_str(a)));
    }
    match resolve_pending(st) {
        Ok(()) => {},
        Err(e) => {
            return Err(e);
        },
    }
    st.pending = Some((ArgOption::RouteDir, Some(String::from_str(a))));
    st.positional_taken = true;
    Ok(())
}

fn step_arg(st: &mut Scan, a: &str) -> (r: Result<(), ArgsError>)
    ensures
        match step(old(st)@, a@) {
            Ok(s2) => r is Ok && final(st)@ == s2,
            Err(e) => (r matches Err(x) && x@ == e),
        },
{
    if st.positional_only {
        return positional_arg(st, a);
    }
    match classify_arg(a) {
        Token::DoubleDash => {
            st.positional_only = true;
            Ok(())
        },
        Token::Help => match resolve_pending(st) {
            Ok(()) => Err(ArgsError::HelpRequested),
            Err(e) => Err(e),
        },
        Token::Version => match resolve_pending(st) {
            Ok(()) => Err(ArgsError::VersionRequested),
            Err(e) => Err(e),
        },
        Token::Unknown(t) => Err(ArgsError::UnknownArgument(t)),
        Token::FlagWithValue(f, v) => Err(ArgsError::FlagWithValue(f, v)),
        Token::WithValue(o, v) => match resolve_pending(st) {
            Ok(()) => set_option_value(st, o, v.as_str()),
            Err(e) => Err(e),
        },
        Token::NeedsValue(o) => match resolve_pending(st) {
            Ok(()) => {
                st.pending = Some((o, None));
                Ok(())
            },
            Err(e) => Err(e),
        },
        Token::Positional => {
            let awaiting: Option<ArgOption> = match &st.pending {
                Some((o, None)) => Some(*o),
                _ => None,
            };
            match awaiting {
                Some(o) => {
                    st.pending = Some((o, Some(String::from_str(a))));
                    Ok(())
                },
                None => positional_arg(st, a),
            }
        },
    }
}

/// `num_cpus::get`: the number of CPUs that this process may use, which the crate
/// documents to be at least 1. Nothing else is promised of it: it depends on the machine.
#[verifier::external_body]
fn available_cpus() -> (n: usize)
    ensures
        n >= 1,
{
    num_cpus::get()
}

impl Args {
    /// Reads the command line `argv` (its first element names the program) with
    /// `default_threads` as the thread count where the line does not give one.
    pub fn parse_with_default_threads(argv: &[&str], default_threads: usize) -> (r: Result<Args, ArgsError>)
        ensures
            args_result_view(r) == parse_args(argv_chars(argv@), default_threads as nat),
    {
        let ghost v = argv_chars(argv@);
        let mut st = Scan {
            route_dir: None,
            hf: None,
            input_dir: None,
            output_dir: None,
            timestep: None,
            kernel: None,
            threads: None,
            pending: None,
            positional_taken: false,
            positional_only: false,
        };
        assert(st@ == scan_start());
        let n = argv.len();
        let mut i: usize = 1;
        while i < n
            invariant
                n == argv@.len(),
                v == argv_chars(argv@),
                v.len() == n,
                1 <= i,
                scan(v, 1, scan_start()) == scan(v, i as nat, st@),
            decreases n - i,
        {
            let a: &str = argv[i];
            assert(v[i as int] == a@);
            match step_arg(&mut st, a) {
                Ok(()) => {},
                Err(e) => {
                    return Err(e);
                },
            }
            i = i + 1;
        }
        match resolve_pending(&mut st) {
            Ok(()) => {},
            Err(e) => {
                return Err(e);
            },
        }
        match st.route_dir {
            None => Err(ArgsError::MissingRouteDir),
            Some(r) => Ok(
                Args {
                    route_dir: r,
                    hf: st.hf,
                    input_dir: st.input_dir,
                    output_dir: st.output_dir,
                    internal_timestep_seconds: match st.timestep {
                        Some(t) => t,
                        None => 300,
                    },
                    kernel: match st.kernel {
                        Some(k) => k,
                        None => MuskingumCungeKernel::TRouteModernized,
                    },
                    num_threads: match st.threads {
                        Some(t) => t,
                        None => default_threads,
                    },
                },
            ),
        }
    }

    /// Reads the command line `argv` (its first element names the program); where the
    /// line gives no thread count, the number of CPUs available to the process is taken.
    pub fn parse_from(argv: &[&str]) -> (r: Result<Args, ArgsError>)
        ensures
            exists|t: nat| t >= 1 && args_result_view(r) == parse_args(argv_chars(argv@), t),
    {
        let t = available_cpus();
        let r = Self::parse_with_default_threads(argv, t);
        assert(t as nat >= 1 && args_result_view(r) == parse_args(argv_chars(argv@), t as nat));
        r
    }
}

/// How each option flag reads: its long name and its letter both stand for that option,
/// and wait for a value in the next argument.
pub proof fn lemma_option_flags()
    ensures
        classify("--hf"@) == TokenModel::NeedsValue(ArgOption::Hf),
        classify("--input-dir"@) == TokenModel::NeedsValue(ArgOption::InputDir),
        classify("-i"@) == TokenModel::NeedsValue(ArgOption::InputDir),
        classify("--output-dir"@) == TokenModel::NeedsValue(ArgOption::OutputDir),
        classify("-o"@) == TokenModel::NeedsValue(ArgOption::OutputDir),
        classify("--internal-timestep-seconds"@) == TokenModel::NeedsValue(ArgOption::InternalTimestepSeconds),
        classify("-t"@) == TokenModel::NeedsValue(ArgOption::InternalTimestepSeconds),
        classify("--kernel"@) == TokenModel::NeedsValue(ArgOption::Kernel),
        classify("-k"@) == TokenModel::NeedsValue(ArgOption::Kernel),
        classify("--num-threads"@) == TokenModel::NeedsValue(ArgOption::NumThreads),
        classify("-n"@) == TokenModel::NeedsValue(ArgOption::NumThreads),
{
    lemma_long_names();
    lemma_flag_hf();
    lemma_flag_input_dir();
    lemma_flag_output_dir();
    lemma_flag_timestep();
    lemma_flag_kernel();
    lemma_flag_threads();
    reveal_strlit("-i");
    reveal_strlit("-o");
    reveal_strlit("-t");
    reveal_strlit("-k");
    reveal_strlit("-n");
    assert("-i"@ != seq!['-', '-']);
    assert("-o"@ != seq!['-', '-']);
    assert("-t"@ != seq!['-', '-']);
    assert("-k"@ != seq!['-', '-']);
    assert("-n"@ != seq!['-', '-']);
}

proof fn lemma_long_names()
    ensures
        long_option("hf"@) == Some(ArgOption::Hf),
        long_option("input-dir"@) == Some(ArgOption::InputDir),
        long_option("output-dir"@) == Some(ArgOption::OutputDir),
        long_option("internal-timestep-seconds"@) == Some(ArgOption::InternalTimestepSeconds),
        long_option("kernel"@) == Some(ArgOption::Kernel),
        long_option("num-threads"@) == Some(ArgOption::NumThreads),
{
    reveal_strlit("hf");
    reveal_strlit("input-dir");
    reveal_strlit("output-dir");
    reveal_strlit("internal-timestep-seconds");
    reveal_strlit("kernel");
    reveal_strlit("num-threads");
    assert("hf"@.len() == 2);
    assert("input-dir"@.len() == 9);
    assert("output-dir"@.len() == 10);
    assert("internal-timestep-seconds"@.len() == 25);
    assert("kernel"@.len() == 6);
    assert("num-threads"@.len() == 11);
}

/// A name with no `=` in it is read whole.
proof fn lemma_no_equals(name: Seq<char>)
    requires
        forall|j: int| 0 <= j < name.len() ==> #[trigger] name[j] != '=',
    ensures
        first_index_of(name, '=') == name.len(),
{
    crate::text::lemma_first_index_of_bound(name, '=');
}

proof fn lemma_flag_hf()
    ensures
        classify("--hf"@) == TokenModel::NeedsValue(ArgOption::Hf),
{
    lemma_long_names();
    reveal_strlit("hf");
    reveal_strlit("--hf");
    lemma_no_equals("hf"@);
    lemma_long_flag("--hf"@, "hf"@);
}

proof fn lemma_flag_input_dir()
    ensures
        classify("--input-dir"@) == TokenModel::NeedsValue(ArgOption::InputDir),
{
    lemma_long_names();
    reveal_strlit("input-dir");
    reveal_strlit("--input-dir");
    lemma_no_equals("input-dir"@);
    lemma_long_flag("--input-dir"@, "input-dir"@);
}

proof fn lemma_flag_output_dir()
    ensures
        classify("--output-dir"@) == TokenModel::NeedsValue(ArgOption::OutputDir),
{
    lemma_long_names();
    reveal_strlit("output-dir");
    reveal_strlit("--output-dir");
    lemma_no_equals("output-dir"@);
    lemma_long_flag("--output-dir"@, "output-dir"@);
}

proof fn lemma_flag_timestep()
    ensures
        classify("--internal-timestep-seconds"@) == TokenModel::NeedsValue(ArgOption::InternalTimestepSeconds),
{
    lemma_long_names();
    reveal_strlit("internal-timestep-seconds");
    reveal_strlit("--internal-timestep-seconds");
    lemma_no_equals("internal-timestep-seconds"@);
    lemma_long_flag("--internal-timestep-seconds"@, "internal-timestep-seconds"@);
}

proof fn lemma_flag_kernel()
    ensures
        classify("--kernel"@) == TokenModel::NeedsValue(ArgOption::Kernel),
{
    lemma_long_names();
    reveal_strlit("kernel");
    reveal_strlit("--kernel");
    lemma_no_equals("kernel"@);
    lemma_long_flag("--kernel"@, "kernel"@);
}

proof fn lemma_flag_threads()
    ensures
        classify("--num-threads"@) == TokenModel::NeedsValue(ArgOption::NumThreads),
{
    lemma_long_names();
    reveal_strlit("num-threads");
    reveal_strlit("--num-threads");
    lemma_no_equals("num-threads"@);
    lemma_long_flag("--num-threads"@, "num-threads"@);
}

/// A long flag `--name` without `=`, whose name is neither `help` nor `version`.
proof fn lemma_long_flag(a: Seq<char>, name: Seq<char>)
    requires
        name.len() > 0,
        a.len() == name.len() + 2,
        a[0] == '-',
        a[1] == '-',
        forall|j: int| 0 <= j < name.len() ==> a[j + 2] == #[trigger] name[j],
        first_index_of(name, '=') == name.len(),
        name.len() != 4,
        name.len() != 7,
    ensures
        classify(a) == match long_option(name) {
            Some(o) => TokenModel::NeedsValue(o),
            None => TokenModel::Unknown(a),
        },
{
    reveal_strlit("help");
    reveal_strlit("version");
    assert(a.skip(2) =~= name);
    assert(name.take(name.len() as int) =~= name);
    assert(a.take(name.len() + 2 as int) =~= a);
    assert(a != seq!['-', '-']);
}

/// The command line `prog r flag v`, where `flag` is an option waiting for a value:
/// `r` is the route directory and `v` the option's value.
proof fn lemma_parse_one_option(p: Seq<char>, r: Seq<char>, flag: Seq<char>, v: Seq<char>, o: ArgOption, t: nat)
    requires
        classify(flag) == TokenModel::NeedsValue(o),
        r.len() > 0,
        r[0] != '-',
        v.len() > 0,
        v[0] != '-',
    ensures
        parse_args(seq![p, r, flag, v], t) == match set_option(
            ScanModel { route_dir: Some(r), positional_taken: true, ..scan_start() },
            o,
            v,
        ) {
            Ok(s2) => finish(s2, t),
            Err(e) => Err(e),
        },
{
    let argv = seq![p, r, flag, v];
    assert(r != seq!['-', '-']);
    assert(v != seq!['-', '-']);
    assert(classify(r) == TokenModel::Positional);
    assert(classify(v) == TokenModel::Positional);
    let s0 = scan_start();
    let sa = ScanModel { pending: Some((ArgOption::RouteDir, Some(r))), positional_taken: true, ..s0 };
    assert(step(s0, r) == Ok::<ScanModel, ArgsFailure>(sa));
    let s1 = ScanModel { route_dir: Some(r), positional_taken: true, ..s0 };
    assert(resolve(sa) == Ok::<ScanModel, ArgsFailure>(s1));
    let sb = ScanModel { pending: Some((o, None)), ..s1 };
    assert(step(sa, flag) == Ok::<ScanModel, ArgsFailure>(sb));
    let sc = ScanModel { pending: Some((o, Some(v))), ..s1 };
    assert(step(sb, v) == Ok::<ScanModel, ArgsFailure>(sc));
    assert(scan(argv, 4, sc) == Ok::<ScanModel, ArgsFailure>(sc));
    assert(scan(argv, 3, sb) == scan(argv, 4, sc));
    assert(scan(argv, 2, sa) == scan(argv, 3, sb));
    assert(scan(argv, 1, s0) == scan(argv, 2, sa));
    assert(ScanModel { pending: None, ..sc } == s1);
}

/// A command line with the route directory alone takes every default: no paths, a
/// timestep of 300 s, the kernel `t-route-modernized` and the thread count given;
/// without a route directory nothing is read.
pub proof fn lemma_parse_defaults(p: Seq<char>, r: Seq<char>, t: nat)
    requires
        r.len() > 0,
        r[0] != '-',
    ensures
        parse_args(seq![p, r], t) == Ok::<ArgsModel, ArgsFailure>(
            ArgsModel {
                route_dir: r,
                hf: None,
                input_dir: None,
                output_dir: None,
                internal_timestep_seconds: 300,
                kernel: MuskingumCungeKernel::TRouteModernized,
                num_threads: t,
            },
        ),
        parse_args(seq![p], t) == Err::<ArgsModel, ArgsFailure>(ArgsFailure::MissingRouteDir),
{
    let argv = seq![p, r];
    assert(r != seq!['-', '-']);
    assert(classify(r) == TokenModel::Positional);
    let s0 = scan_start();
    let sa = ScanModel { pending: Some((ArgOption::RouteDir, Some(r))), positional_taken: true, ..s0 };
    assert(step(s0, r) == Ok::<ScanModel, ArgsFailure>(sa));
    assert(scan(argv, 2, sa) == Ok::<ScanModel, ArgsFailure>(sa));
    assert(scan(argv, 1, s0) == scan(argv, 2, sa));
    assert(scan(seq![p], 1, s0) == Ok::<ScanModel, ArgsFailure>(s0));
}

/// Each path option, given by its long name or by its letter, sets that path to the
/// value after it and leaves the other paths and every default as they are.
pub proof fn lemma_path_options(p: Seq<char>, r: Seq<char>, v: Seq<char>, t: nat)
    requires
        r.len() > 0,
        r[0] != '-',
        v.len() > 0,
        v[0] != '-',
    ensures
        parse_args(seq![p, r, "--hf"@, v], t) == Ok::<ArgsModel, ArgsFailure>(
            ArgsModel {
                route_dir: r,
                hf: Some(v),
                input_dir: None,
                output_dir: None,
                internal_timestep_seconds: 300,
                kernel: MuskingumCungeKernel::TRouteModernized,
                num_threads: t,
            },
        ),
        parse_args(seq![p, r, "--input-dir"@, v], t) == parse_args(seq![p, r, "-i"@, v], t),
        parse_args(seq![p, r, "-i"@, v], t) == Ok::<ArgsModel, ArgsFailure>(
            ArgsModel {
                route_dir: r,
                hf: None,
                input_dir: Some(v),
                output_dir: None,
                internal_timestep_seconds: 300,
                kernel: MuskingumCungeKernel::TRouteModernized,
                num_threads: t,
            },
        ),
        parse_args(seq![p, r, "--output-dir"@, v], t) == parse_args(seq![p, r, "-o"@, v], t),
        parse_args(seq![p, r, "-o"@, v], t) == Ok::<ArgsModel, ArgsFailure>(
            ArgsModel {
                route_dir: r,
                hf: None,
                input_dir: None,
                output_dir: Some(v),
                internal_timestep_seconds: 300,
                kernel: MuskingumCungeKernel::TRouteModernized,
                num_threads: t,
            },
        ),
{
    lemma_option_flags();
    lemma_parse_one_option(p, r, "--hf"@, v, ArgOption::Hf, t);
    lemma_parse_one_option(p, r, "--input-dir"@, v, ArgOption::InputDir, t);
    lemma_parse_one_option(p, r, "-i"@, v, ArgOption::InputDir, t);
    lemma_parse_one_option(p, r, "--output-dir"@, v, ArgOption::OutputDir, t);
    lemma_parse_one_option(p, r, "-o"@, v, ArgOption::OutputDir, t);
}

/// The timestep and thread-count options, given by long name or by letter, set that
/// count to the number written after them and leave the other at its default.
pub proof fn lemma_count_options(p: Seq<char>, r: Seq<char>, n: nat, t: nat)
    requires
        r.len() > 0,
        r[0] != '-',
        n <= usize::MAX,
    ensures
        parse_args(seq![p, r, "--internal-timestep-seconds"@, decimal(n)], t)
            == parse_args(seq![p, r, "-t"@, decimal(n)], t),
        parse_args(seq![p, r, "-t"@, decimal(n)], t) == Ok::<ArgsModel, ArgsFailure>(
            ArgsModel {
                route_dir: r,
                hf: None,
                input_dir: None,
                output_dir: None,
                internal_timestep_seconds: n,
                kernel: MuskingumCungeKernel::TRouteModernized,
                num_threads: t,
            },
        ),
        parse_args(seq![p, r, "--num-threads"@, decimal(n)], t) == parse_args(seq![p, r, "-n"@, decimal(n)], t),
        parse_args(seq![p, r, "-n"@, decimal(n)], t) == Ok::<ArgsModel, ArgsFailure>(
            ArgsModel {
                route_dir: r,
                hf: None,
                input_dir: None,
                output_dir: None,
                internal_timestep_seconds: 300,
                kernel: MuskingumCungeKernel::TRouteModernized,
                num_threads: n,
            },
        ),
{
    lemma_option_flags();
    lemma_decimal_digits(n);
    lemma_parse_decimal(n, usize::MAX as nat);
    let v = decimal(n);
    assert(is_digit(v[0]));
    lemma_parse_one_option(p, r, "--internal-timestep-seconds"@, v, ArgOption::InternalTimestepSeconds, t);
    lemma_parse_one_option(p, r, "-t"@, v, ArgOption::InternalTimestepSeconds, t);
    lemma_parse_one_option(p, r, "--num-threads"@, v, ArgOption::NumThreads, t);
    lemma_parse_one_option(p, r, "-n"@, v, ArgOption::NumThreads, t);
}

/// The kernel option, given by long name or by letter, chooses the kernel named after it.
pub proof fn lemma_kernel_option(p: Seq<char>, r: Seq<char>, k: MuskingumCungeKernel, t: nat)
    requires
        r.len() > 0,
        r[0] != '-',
    ensures
        parse_args(seq![p, r, "--kernel"@, kernel_name(k)], t) == parse_args(seq![p, r, "-k"@, kernel_name(k)], t),
        parse_args(seq![p, r, "-k"@, kernel_name(k)], t) == Ok::<ArgsModel, ArgsFailure>(
            ArgsModel {
                route_dir: r,
                hf: None,
                input_dir: None,
                output_dir: None,
                internal_timestep_seconds: 300,
                kernel: k,
                num_threads: t,
            },
        ),
{
    lemma_option_flags();
    lemma_kernel_name_round_trip(k);
    reveal_strlit("route-rs");
    reveal_strlit("t-route-modernized");
    reveal_strlit("t-route-legacy");
    reveal_strlit("c-muskingum-cunge");
    let v = kernel_name(k);
    assert(v.len() > 0 && v[0] != '-');
    lemma_parse_one_option(p, r, "--kernel"@, v, ArgOption::Kernel, t);
    lemma_parse_one_option(p, r, "-k"@, v, ArgOption::Kernel, t);
}

} // verus!
