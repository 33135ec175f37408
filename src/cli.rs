//! The command line: `logify [-v|--verbose] [-c|--config FILE] <command> [options]`.
//!
//! Commands and their options, each option given at most once and followed by
//! its value:
//! - `analyze`: `-i/--input` (required), `-w/--window` (minutes, default 60),
//!   `-m/--min-occurrences` (default 5), `-f/--format` (default `text`),
//!   `-o/--output`;
//! - `filter`: `-i/--input` (required), `-l/--level`, `-t/--time-range`,
//!   `-s/--source`, `-o/--output`;
//! - `export`: `-i/--input`, `-f/--format`, `-o/--output` (all required).
use vstd::prelude::*;
use crate::error::prefixed;
use crate::text::{decimal_value, is_decimal, parse_u64, same_text};

verus! {

/// Why a command line was refused.
#[derive(Clone, Copy, Debug, PartialEq, Eq, Structural)]
pub enum CliError {
    MissingCommand,
    UnknownCommand,
    UnknownOption,
    MissingValue,
    DuplicateOption,
    MissingOption,
    InvalidNumber,
}

/// A parsed command line.
#[derive(Clone, Debug)]
pub struct Cli {
    pub command: Commands,
    /// Optional config file path.
    pub config: Option<String>,
    /// Verbose output mode.
    pub verbose: bool,
}

#[derive(Clone, Debug)]
pub enum Commands {
    /// Parse and analyze a log file.
    Analyze {
        input: String,
        /// Time window for analysis, in minutes.
        window: u64,
        /// Minimum occurrences for pattern detection.
        min_occurrences: usize,
        /// Output format (json, csv, text).
        format: String,
        output: Option<String>,
    },
    /// Filter log entries.
    Filter {
        input: String,
        level: Option<String>,
        /// Time range, `start,end` in ISO format.
        time_range: Option<String>,
        source: Option<String>,
        output: Option<String>,
    },
    /// Export logs to another format.
    Export { input: String, format: String, output: String },
}

/// What the options of a command line say, before defaults and numbers.
pub struct ParsedArgs {
    /// 0 for `analyze`, 1 for `filter`, 2 for `export`.
    pub command: nat,
    pub config: Option<Seq<char>>,
    pub verbose: bool,
    /// The value given to each option of the command, by option number.
    pub values: Seq<Option<Seq<char>>>,
}

/// The number of options of command `cmd`.
pub open spec fn option_count(cmd: nat) -> nat {
    if cmd == 2 {
        3
    } else {
        5
    }
}

/// The number of the option that `flag` names for command `cmd`.
pub open spec fn option_number(cmd: nat, flag: Seq<char>) -> Option<nat> {
    if flag == "-i"@ || flag == "--input"@ {
        Some(0)
    } else if cmd == 0 {
        if flag == "-w"@ || flag == "--window"@ {
            Some(1)
        } else if flag == "-m"@ || flag == "--min-occurrences"@ {
            Some(2)
        } else if flag == "-f"@ || flag == "--format"@ {
            Some(3)
        } else if flag == "-o"@ || flag == "--output"@ {
            Some(4)
        } else {
            None
        }
    } else if cmd == 1 {
        if flag == "-l"@ || flag == "--level"@ {
            Some(1)
        } else if flag == "-t"@ || flag == "--time-range"@ {
            Some(2)
        } else if flag == "-s"@ || flag == "--source"@ {
            Some(3)
        } else if flag == "-o"@ || flag == "--output"@ {
            Some(4)
        } else {
            None
        }
    } else {
        if flag == "-f"@ || flag == "--format"@ {
            Some(1)
        } else if flag == "-o"@ || flag == "--output"@ {
            Some(2)
        } else {
            None
        }
    }
}

/// The number of the command that `name` names.
pub open spec fn command_number(name: Seq<char>) -> Option<nat> {
    if name == "analyze"@ {
        Some(0)
    } else if name == "filter"@ {
        Some(1)
    } else if name == "export"@ {
        Some(2)
    } else {
        None
    }
}

/// Reads the options of command `cmd` from position `i` on, into `values`.
pub open spec fn read_options(
    cmd: nat,
    args: Seq<Seq<char>>,
    i: int,
    values: Seq<Option<Seq<char>>>,
) -> Result<Seq<Option<Seq<char>>>, CliError>
    decreases args.len() - i,
{
    if i >= args.len() || i < 0 {
        Ok(values)
    } else {
        match option_number(cmd, args[i]) {
            None => Err(CliError::UnknownOption),
            Some(k) => if i + 1 >= args.len() {
                Err(CliError::MissingValue)
            } else if values[k as int] is Some {
                Err(CliError::DuplicateOption)
            } else {
                read_options(cmd, args, i + 2, values.update(k as int, Some(args[i + 1])))
            },
        }
    }
}

/// Reads the global options from position `i` on, up to the command name.
/// The result is the command name's position, the config path and the
/// verbose flag.
pub open spec fn read_globals(
    args: Seq<Seq<char>>,
    i: int,
    config: Option<Seq<char>>,
    verbose: bool,
) -> Result<(int, Option<Seq<char>>, bool), CliError>
    decreases args.len() - i,
{
    if i >= args.len() || i < 0 {
        Err(CliError::MissingCommand)
    } else if args[i] == "-v"@ || args[i] == "--verbose"@ {
        if verbose {
            Err(CliError::DuplicateOption)
        } else {
            read_globals(args, i + 1, config, true)
        }
    } else if args[i] == "-c"@ || args[i] == "--config"@ {
        if i + 1 >= args.len() {
            Err(CliError::MissingValue)
        } else if config is Some {
            Err(CliError::DuplicateOption)
        } else {
            read_globals(args, i + 1 + 1, Some(args[i + 1]), verbose)
        }
    } else if args[i].len() > 0 && args[i][0] == '-' {
        Err(CliError::UnknownOption)
    } else {
        Ok((i, config, verbose))
    }
}

/// The options of a command line whose first word is the program's name.
pub open spec fn parse_args(args: Seq<Seq<char>>) -> Result<ParsedArgs, CliError> {
    match read_globals(args, 1, None, false) {
        Err(e) => Err(e),
        Ok((at, config, verbose)) => match command_number(args[at]) {
            None => Err(CliError::UnknownCommand),
            Some(cmd) => match read_options(
                cmd,
                args,
                at + 1,
                Seq::new(option_count(cmd), |k: int| None::<Seq<char>>),
            ) {
                Err(e) => Err(e),
                Ok(values) => Ok(ParsedArgs { command: cmd, config, verbose, values }),
            },
        },
    }
}

/// A numeric option's value: its default where it is absent.
pub open spec fn number_or(v: Option<Seq<char>>, default: int) -> int {
    match v {
        Some(t) => decimal_value(t),
        None => default,
    }
}

/// A numeric option that is present is a decimal number below `limit`.
pub open spec fn number_ok(v: Option<Seq<char>>, limit: int) -> bool {
    match v {
        Some(t) => is_decimal(t) && decimal_value(t) <= limit,
        None => true,
    }
}

/// Whether the options give every required option and well-formed numbers;
/// the error otherwise.
pub open spec fn check_args(p: ParsedArgs) -> Option<CliError> {
    if p.values[0] is None || (p.command == 2 && (p.values[1] is None || p.values[2] is None)) {
        Some(CliError::MissingOption)
    } else if p.command == 0 && !(number_ok(p.values[1], u64::MAX as int) && number_ok(
        p.values[2],
        usize::MAX as int,
    )) {
        Some(CliError::InvalidNumber)
    } else {
        None
    }
}

/// An optional string, as characters.
pub open spec fn opt_text(o: Option<String>) -> Option<Seq<char>> {
    match o {
        Some(s) => Some(s@),
        None => None,
    }
}

/// `cli` is what the options `p` describe, defaults filled in.
pub open spec fn describes(p: ParsedArgs, cli: Cli) -> bool {
    &&& opt_text(cli.config) == p.config
    &&& cli.verbose == p.verbose
    &&& match cli.command {
        Commands::Analyze { input, window, min_occurrences, format, output } => p.command == 0
            && Some(input@) == p.values[0] && window == number_or(p.values[1], 60)
            && min_occurrences == number_or(p.values[2], 5) && format@ == match p.values[3] {
            Some(t) => t,
            None => "text"@,
        } && opt_text(output) == p.values[4],
        Commands::Filter { input, level, time_range, source, output } => p.command == 1 && Some(
            input@,
        ) == p.values[0] && opt_text(level) == p.values[1] && opt_text(time_range) == p.values[2]
            && opt_text(source) == p.values[3] && opt_text(output) == p.values[4],
        Commands::Export { input, format, output } => p.command == 2 && Some(input@)
            == p.values[0] && Some(format@) == p.values[1] && Some(output@) == p.values[2],
    }
}

/// The words of a command line, as characters.
pub open spec fn words(args: Seq<&str>) -> Seq<Seq<char>> {
    args.map_values(|a: &str| a@)
}

fn option_number_of(cmd: usize, flag: &str) -> (r: Option<usize>)
    requires
        cmd < 3,
    ensures
        match option_number(cmd as nat, flag@) {
            Some(k) => r == Some(k as usize),
            None => r is None,
        },
{
    if same_text(flag, "-i") || same_text(flag, "--input") {
        Some(0)
    } else if cmd == 0 {
        if same_text(flag, "-w") || same_text(flag, "--window") {
            Some(1)
        } else if same_text(flag, "-m") || same_text(flag, "--min-occurrences") {
            Some(2)
        } else if same_text(flag, "-f") || same_text(flag, "--format") {
            Some(3)
        } else if same_text(flag, "-o") || same_text(flag, "--output") {
            Some(4)
        } else {
            None
        }
    } else if cmd == 1 {
        if same_text(flag, "-l") || same_text(flag, "--level") {
            Some(1)
        } else if same_text(flag, "-t") || same_text(flag, "--time-range") {
            Some(2)
        } else if same_text(flag, "-s") || same_text(flag, "--source") {
            Some(3)
        } else if same_text(flag, "-o") || same_text(flag, "--output") {
            Some(4)
        } else {
            None
        }
    } else {
        if same_text(flag, "-f") || same_text(flag, "--format") {
            Some(1)
        } else if same_text(flag, "-o") || same_text(flag, "--output") {
            Some(2)
        } else {
            None
        }
    }
}

fn command_number_of(name: &str) -> (r: Option<usize>)
    ensures
        match command_number(name@) {
            Some(k) => r == Some(k as usize),
            None => r is None,
        },
{
    if same_text(name, "analyze") {
        Some(0)
    } else if same_text(name, "filter") {
        Some(1)
    } else if same_text(name, "export") {
        Some(2)
    } else {
        None
    }
}

/// The values of the options, as characters.
pub open spec fn values_view(v: Seq<Option<String>>) -> Seq<Option<Seq<char>>> {
    v.map_values(|o: Option<String>| opt_text(o))
}

fn take_value(values: &Vec<Option<String>>, k: usize) -> (r: Option<String>)
    requires
        k < values@.len(),
    ensures
        opt_text(r) == opt_text(values@[k as int]),
{
    match &values[k] {
        Some(s) => Some(s.clone()),
        None => None,
    }
}

fn number_value(v: &Option<String>, default: u64) -> (r: Option<u64>)
    ensures
        match r {
            Some(n) => number_ok(opt_text(*v), u64::MAX as int) && n == number_or(opt_text(*v), default as int),
            None => !number_ok(opt_text(*v), u64::MAX as int),
        },
{
    match v {
        Some(s) => parse_u64(s.as_str()),
        None => Some(default),
    }
}

impl Cli {
    /// Parses a command line whose first word is the program's name.
    pub fn parse_from(args: Vec<&str>) -> (r: Result<Cli, CliError>)
        ensures
            match r {
                Ok(cli) => parse_args(words(args@)) matches Ok(p) && check_args(p) is None
                    && describes(p, cli),
                Err(e) => match parse_args(words(args@)) {
                    Err(e2) => e == e2,
                    Ok(p) => check_args(p) == Some(e),
                },
            },
    {
        let ghost ws = words(args@);
        let n = args.len();
        // global options
        let mut i: usize = 1;
        let mut config: Option<String> = None;
        let mut verbose = false;
        assert(ws.len() == n);
        let mut at: usize = 0;
        let mut found = false;
        while i < n && !found
            invariant
                ws == words(args@),
                ws.len() == n,
                1 <= i,
                found ==> at < n && read_globals(ws, 1, None, false) == Ok::<(int, Option<Seq<char>>, bool), CliError>((at as int, opt_text(config), verbose)),
                !found ==> read_globals(ws, 1, None, false) == read_globals(ws, i as int, opt_text(config), verbose),
            decreases n - i + if found { 0int } else { 1int },
        {
            let a = args[i];
            assert(ws[i as int] == a@);
            if same_text(a, "-v") || same_text(a, "--verbose") {
                if verbose {
                    return Err(CliError::DuplicateOption);
                }
                verbose = true;
                i = i + 1;
            } else if same_text(a, "-c") || same_text(a, "--config") {
                if i + 1 >= n {
                    return Err(CliError::MissingValue);
                }
                if config.is_some() {
                    return Err(CliError::DuplicateOption);
                }
                assert(ws[i + 1] == args@[i + 1]@);
                config = Some(args[i + 1].to_owned());
                i = i + 2;
            } else if a.unicode_len() > 0 && a.get_char(0) == '-' {
                return Err(CliError::UnknownOption);
            } else {
                at = i;
                found = true;
            }
        }
        if !found {
            return Err(CliError::MissingCommand);
        }
        assert(ws[at as int] == args@[at as int]@);
        let cmd = match command_number_of(args[at]) {
            Some(c) => c,
            None => {
                return Err(CliError::UnknownCommand);
            },
        };
        let count: usize = if cmd == 2 {
            3
        } else {
            5
        };
        let mut values: Vec<Option<String>> = Vec::new();
        while values.len() < count
            invariant
                values@.len() <= count,
                forall|k: int| 0 <= k < values@.len() ==> #[trigger] values@[k] is None,
            decreases count - values@.len(),
        {
            values.push(None);
        }
        let ghost start = Seq::new(option_count(cmd as nat), |k: int| None::<Seq<char>>);
        assert(values_view(values@) =~= start);
        let mut j: usize = at + 1;
        while j < n
            invariant
                ws == words(args@),
                ws.len() == n,
                cmd < 3,
                count == option_count(cmd as nat),
                values@.len() == count,
                at < j,
                at < n,
                read_globals(ws, 1, None, false) == Ok::<(int, Option<Seq<char>>, bool), CliError>((at as int, opt_text(config), verbose)),
                command_number(ws[at as int]) == Some(cmd as nat),
                start == Seq::new(option_count(cmd as nat), |k: int| None::<Seq<char>>),
                read_options(cmd as nat, ws, at + 1, start) == read_options(cmd as nat, ws, j as int, values_view(values@)),
            decreases n - j,
        {
            let flag = args[j];
            assert(ws[j as int] == flag@);
            let k = match option_number_of(cmd, flag) {
                Some(k) => k,
                None => {
                    return Err(CliError::UnknownOption);
                },
            };
            if j + 1 >= n {
                return Err(CliError::MissingValue);
            }
            if values[k].is_some() {
                assert(values_view(values@)[k as int] is Some);
                return Err(CliError::DuplicateOption);
            }
            assert(values_view(values@)[k as int] is None);
            assert(ws[j + 1] == args@[j + 1]@);
            let v = args[j + 1].to_owned();
            let ghost before = values_view(values@);
            values.set(k, Some(v));
            assert(values_view(values@) =~= before.update(k as int, Some(ws[j + 1])));
            j = j + 2;
        }
        let ghost p = ParsedArgs {
            command: cmd as nat,
            config: opt_text(config),
            verbose,
            values: values_view(values@),
        };
        assert(parse_args(ws) == Ok::<ParsedArgs, CliError>(p));
        let input = match take_value(&values, 0) {
            Some(s) => s,
            None => {
                return Err(CliError::MissingOption);
            },
        };
        if cmd == 0 {
            let window = match number_value(&values[1], 60) {
                Some(w) => w,
                None => {
                    return Err(CliError::InvalidNumber);
                },
            };
            let min_occurrences = match number_value(&values[2], 5) {
                Some(m) => {
                    if m > usize::MAX as u64 {
                        return Err(CliError::InvalidNumber);
                    }
                    m as usize
                },
                None => {
                    return Err(CliError::InvalidNumber);
                },
            };
            let format = match take_value(&values, 3) {
                Some(f) => f,
                None => "text".to_owned(),
            };
            let output = take_value(&values, 4);
            Ok(
                Cli {
                    command: Commands::Analyze { input, window, min_occurrences, format, output },
                    config,
                    verbose,
                },
            )
        } else if cmd == 1 {
            let level = take_value(&values, 1);
            let time_range = take_value(&values, 2);
            let source = take_value(&values, 3);
            let output = take_value(&values, 4);
            Ok(
                Cli {
                    command: Commands::Filter { input, level, time_range, source, output },
                    config,
                    verbose,
                },
            )
        } else {
            let format = match take_value(&values, 1) {
                Some(f) => f,
                None => {
                    return Err(CliError::MissingOption);
                },
            };
            let output = match take_value(&values, 2) {
                Some(o) => o,
                None => {
                    return Err(CliError::MissingOption);
                },
            };
            Ok(Cli { command: Commands::Export { input, format, output }, config, verbose })
        }
    }
}

/// The line a command prints in verbose mode, before the input path.
pub open spec fn verbose_heading(cmd: nat) -> Seq<char> {
    if cmd == 0 {
        "Analyzing log file: "@
    } else if cmd == 1 {
        "Filtering log file: "@
    } else {
        "Exporting log file: "@
    }
}

/// Runs a command line whose first word is the program's name: parses it
/// and gives back the line to print, which in verbose mode names the command
/// and its input file.
pub fn run(args: Vec<&str>) -> (r: Result<Option<String>, CliError>)
    ensures
        match parse_args(words(args@)) {
            Err(e) => r == Err::<Option<String>, CliError>(e),
            Ok(p) => match check_args(p) {
                Some(e) => r == Err::<Option<String>, CliError>(e),
                None => r matches Ok(m) && opt_text(m) == if p.verbose {
                    Some(verbose_heading(p.command) + p.values[0]->0)
                } else {
                    None::<Seq<char>>
                },
            },
        },
{
    let cli = Cli::parse_from(args)?;
    if !cli.verbose {
        return Ok(None);
    }
    let line = match &cli.command {
        Commands::Analyze { input, .. } => prefixed("Analyzing log file: ", input),
        Commands::Filter { input, .. } => prefixed("Filtering log file: ", input),
        Commands::Export { input, .. } => prefixed("Exporting log file: ", input),
    };
    Ok(Some(line))
}

} // verus!
