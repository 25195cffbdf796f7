//! The options of the program: the length of the time window, and whether
//! the extrema start afresh with each window.

use crate::cli::{
    all_well_named, declared_options, default_mode, fail_message, matches_opt_present,
    matches_opt_str, option_names, options_new, options_optflag, options_optopt, options_parse,
    options_usage, parse_result, table_mode, usage_text, Declared, Occurrence, TakesArgument,
};
use crate::registry::name_views;
use crate::text::{chars_of, unsigned_in, unsigned_of};
use getopts::Options;
use vstd::prelude::*;
use vstd::std_specs::cmp::PartialEqSpecImpl;
use vstd::string::StringExecFns;

verus! {

/// The number of samples that a window holds.
pub const CAPACITY: usize = 4;

/// The time window, in seconds, where none is asked for.
pub const DEFAULT_WINDOW: u32 = 60 * 60;

/// The shortest time window, in seconds.
pub const MIN_WINDOW: u32 = 8;

/// The longest time window, in seconds.
pub const MAX_WINDOW: u32 = 24 * 60 * 60;

/// The options that the sampler runs with.
#[derive(Default, Debug)]
pub struct SysinfoOpts {
    /// Seconds between two samples.
    pub sampling_freq: u32,
    /// Seconds that a full window spans.
    pub time_window: u32,
    /// Whether the extrema start afresh with each window.
    pub reset_flag: bool,
}

impl PartialEq for SysinfoOpts {
    /// Options are equal where they sample alike; the reset flag does not
    /// count.
    fn eq(&self, other: &Self) -> (equal: bool) {
        self.sampling_freq == other.sampling_freq && self.time_window == other.time_window
    }
}

impl PartialEqSpecImpl for SysinfoOpts {
    open spec fn obeys_eq_spec() -> bool {
        true
    }

    open spec fn eq_spec(&self, other: &Self) -> bool {
        self.sampling_freq == other.sampling_freq && self.time_window == other.time_window
    }
}

/// Why a command line gives no options to run with.
#[derive(Debug)]
pub enum OptsError {
    /// The command line is empty: not even the program's name.
    NoArguments,
    /// The command line does not fit the options; the message says why.
    Rejected(String),
    /// The help was asked for.
    HelpRequested,
    /// The time window is not a number.
    InvalidWindow,
}

/// `window` brought between the shortest and the longest time window.
pub open spec fn clamped(window: u32) -> u32 {
    if window > MAX_WINDOW {
        MAX_WINDOW
    } else if window < MIN_WINDOW {
        MIN_WINDOW
    } else {
        window
    }
}

/// The options for a time window of `window` seconds: one sample every
/// `CAPACITY`th part of it.
pub open spec fn opts_for(window: u32, reset: bool) -> SysinfoOpts {
    SysinfoOpts { sampling_freq: window / (CAPACITY as u32), time_window: window, reset_flag: reset }
}

/// What the flags of a command line decide: no options where the help is
/// asked for; else the time window given, brought within its bounds, or the
/// default where none is given; no options where the window is not a
/// number.
pub open spec fn decided(help: bool, reset: bool, time: Option<Seq<char>>) -> Result<
    SysinfoOpts,
    OptsError,
> {
    if help {
        Err(OptsError::HelpRequested)
    } else {
        match time {
            Some(text) => match unsigned_of(text, u32::MAX as nat) {
                Some(window) => Ok(opts_for(clamped(window as u32), reset)),
                None => Err(OptsError::InvalidWindow),
            },
            None => Ok(opts_for(DEFAULT_WINDOW, reset)),
        }
    }
}

/// The options that the program declares: each may be left out; the time
/// window takes an argument, the two flags take none.
pub open spec fn cli_table() -> Seq<Declared> {
    seq![
        Declared {
            short_name: "t"@,
            long_name: "time"@,
            desc: "time window period"@,
            hint: "MINUTES"@,
            has_arg: TakesArgument::Yes,
            occur: Occurrence::Optional,
        },
        Declared {
            short_name: "r"@,
            long_name: "reset"@,
            desc: "reset max and min upon new time window"@,
            hint: Seq::<char>::empty(),
            has_arg: TakesArgument::No,
            occur: Occurrence::Optional,
        },
        Declared {
            short_name: "h"@,
            long_name: "help"@,
            desc: "print this help menu"@,
            hint: Seq::<char>::empty(),
            has_arg: TakesArgument::No,
            occur: Occurrence::Optional,
        },
    ]
}

/// The argument of the first occurrence of an option.
pub open spec fn first_argument(occurrences: Seq<Option<Seq<char>>>) -> Option<Seq<char>> {
    if occurrences.len() > 0 {
        occurrences[0]
    } else {
        None
    }
}

/// What a command line decides. The first argument is the program's name;
/// the rest is read under the options of the program.
pub open spec fn outcome_of(args: Seq<Seq<char>>) -> Option<Result<SysinfoOpts, OptsError>> {
    if args.len() == 0 {
        Some(Err(OptsError::NoArguments))
    } else {
        match parse_result(cli_table(), default_mode(), args.skip(1)) {
            Some(matched) => Some(
                decided(
                    matched["h"@].len() > 0,
                    matched["r"@].len() > 0,
                    first_argument(matched["t"@]),
                ),
            ),
            None => None,
        }
    }
}

/// The options that a command line gives, if it gives any.
pub open spec fn opts_of(args: Seq<Seq<char>>) -> Option<SysinfoOpts> {
    match outcome_of(args) {
        Some(Ok(opts)) => Some(opts),
        _ => None,
    }
}

/// Decides the options from the flags of a command line.
pub fn decide(help: bool, reset: bool, time: Option<String>) -> (decision: Result<
    SysinfoOpts,
    OptsError,
>)
    ensures
        decision == decided(
            help,
            reset,
            match time {
                Some(text) => Some(text@),
                None => None,
            },
        ),
{
    if help {
        return Err(OptsError::HelpRequested);
    }
    let window: u32 = match time {
        Some(text) => {
            let chars = chars_of(text.as_str());
            let len: usize = chars.len();
            assert(chars@.subrange(0, len as int) =~= text@);
            match unsigned_in(chars.as_slice(), 0, len, u32::MAX as u64) {
                Some(value) => {
                    let value: u32 = value as u32;
                    if value > MAX_WINDOW {
                        MAX_WINDOW
                    } else if value < MIN_WINDOW {
                        MIN_WINDOW
                    } else {
                        value
                    }
                },
                None => {
                    return Err(OptsError::InvalidWindow);
                },
            }
        },
        None => DEFAULT_WINDOW,
    };
    Ok(
        SysinfoOpts {
            sampling_freq: window / (CAPACITY as u32),
            time_window: window,
            reset_flag: reset,
        },
    )
}

/// The table of the options that the program declares.
fn cli_options() -> (options: Options)
    ensures
        declared_options(options) == cli_table(),
        table_mode(options) == default_mode(),
        all_well_named(cli_table()),
        option_names(cli_table()).contains("t"@),
        option_names(cli_table()).contains("r"@),
        option_names(cli_table()).contains("h"@),
{
    proof {
        reveal_strlit("t");
        reveal_strlit("r");
        reveal_strlit("h");
        reveal_strlit("time");
        reveal_strlit("reset");
        reveal_strlit("help");
    }
    let mut options = options_new();
    options_optopt(&mut options, "t", "time", "time window period", "MINUTES");
    options_optflag(&mut options, "r", "reset", "reset max and min upon new time window");
    options_optflag(&mut options, "h", "help", "print this help menu");
    proof {
        assert(declared_options(options) =~= cli_table());
        assert(cli_table()[0].short_name == "t"@);
        assert(cli_table()[1].short_name == "r"@);
        assert(cli_table()[2].short_name == "h"@);
    }
    options
}

/// Reads the options from a command line, or says why it gives none.
pub fn parse_opts(args: &[String]) -> (outcome: Result<SysinfoOpts, OptsError>)
    ensures
        match outcome_of(name_views(args@)) {
            Some(decision) => outcome == decision,
            None => outcome matches Err(OptsError::Rejected(_)),
        },
{
    if args.len() == 0 {
        return Err(OptsError::NoArguments);
    }
    let options = cli_options();
    let (_, rest) = args.split_at(1);
    assert(name_views(rest@) =~= name_views(args@).skip(1));
    match options_parse(&options, rest) {
        Ok(matches) => {
            let help = matches_opt_present(&matches, "h");
            let reset = matches_opt_present(&matches, "r");
            let time = matches_opt_str(&matches, "t");
            decide(help, reset, time)
        },
        Err(failure) => Err(OptsError::Rejected(fail_message(&failure))),
    }
}

/// Reads the options from a command line. `None` where the command line
/// is empty or does not fit the options, where the help is asked for, and
/// where the time window is not a number.
pub fn init_opts(args: &[String]) -> (opts: Option<SysinfoOpts>)
    ensures
        opts == opts_of(name_views(args@)),
{
    match parse_opts(args) {
        Ok(opts) => Some(opts),
        Err(_) => None,
    }
}

/// The usage message of `program`.
pub fn usage(program: &str) -> (text: String)
    ensures
        text@ == usage_text(cli_table(), default_mode(), "Usage: "@ + program@ + " [options]"@),
{
    let options = cli_options();
    let mut brief = String::from_str("Usage: ");
    brief.append(program);
    brief.append(" [options]");
    options_usage(&options, brief.as_str())
}

} // verus!
