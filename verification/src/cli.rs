//! The command-line reader of the `getopts` crate, behind contracts.
//!
//! Nothing here is proved: each contract says what the crate's source shows
//! of one of its functions. What a table declares, the mode of a table and
//! what a command line matched are named, not computed.

use crate::registry::name_views;
use getopts::{Fail, Matches, Options};
use vstd::prelude::*;

verus! {

/// `getopts::Options`, the table of the options that a program declares:
/// carried through, never looked into.
#[verifier::external_type_specification]
#[verifier::external_body]
pub struct ExOptions(Options);

/// `getopts::Matches`, what a command line matched: carried through, never
/// looked into.
#[verifier::external_type_specification]
#[verifier::external_body]
pub struct ExMatches(Matches);

/// `getopts::Fail`, why a command line does not fit the options: carried
/// through, never looked into.
#[verifier::external_type_specification]
#[verifier::external_body]
pub struct ExFail(Fail);

/// Whether an option takes an argument, as `getopts::HasArg` tells it.
pub enum TakesArgument {
    /// The option takes an argument.
    Yes,
    /// The option takes none.
    No,
    /// The option may have an argument.
    Maybe,
}

/// How often an option may occur, as `getopts::Occur` tells it.
pub enum Occurrence {
    /// The option occurs once.
    Required,
    /// The option occurs once at most.
    Optional,
    /// The option occurs any number of times.
    Multiple,
}

/// One option as a table declares it: all that the table keeps of it.
pub struct Declared {
    pub short_name: Seq<char>,
    pub long_name: Seq<char>,
    pub desc: Seq<char>,
    pub hint: Seq<char>,
    pub has_arg: TakesArgument,
    pub occur: Occurrence,
}

/// The options that a table declares, in the order of their declaration.
pub uninterp spec fn declared_options(options: Options) -> Seq<Declared>;

/// The mode of a table: whether reading stops at the first free argument,
/// and whether every option is taken for a long one.
pub uninterp spec fn table_mode(options: Options) -> (bool, bool);

/// What a command line matched: under each name of a declared option, the
/// occurrences of the option in their order, each with its argument where
/// it has one.
pub uninterp spec fn matched_options(matches: Matches) -> Map<Seq<char>, Seq<Option<Seq<char>>>>;

/// What `Options::parse` makes of the arguments `args` under a table of
/// the options `declared` and of the mode `mode`: what was matched, or
/// `None` where it fails.
pub uninterp spec fn parse_result(
    declared: Seq<Declared>,
    mode: (bool, bool),
    args: Seq<Seq<char>>,
) -> Option<Map<Seq<char>, Seq<Option<Seq<char>>>>>;

/// The usage message that `Options::usage` derives from a table of the
/// options `declared` and of the mode `mode` under the heading `brief`.
pub uninterp spec fn usage_text(
    declared: Seq<Declared>,
    mode: (bool, bool),
    brief: Seq<char>,
) -> Seq<char>;

/// The mode of a new table: free arguments may stand anywhere, and
/// options are short or long.
pub open spec fn default_mode() -> (bool, bool) {
    (false, false)
}

/// Names that the crate takes for an option: a short name of one ASCII
/// character or none, a long name of more than one character or none, and
/// one of the two at least.
pub open spec fn well_named(short_name: Seq<char>, long_name: Seq<char>) -> bool {
    &&& short_name.len() == 0 || (short_name.len() == 1 && (short_name[0] as u32) < 128)
    &&& long_name.len() != 1
    &&& short_name.len() + long_name.len() > 0
}

/// Every option of `declared` is well named.
pub open spec fn all_well_named(declared: Seq<Declared>) -> bool {
    forall|i: int|
        0 <= i < declared.len() ==> well_named(
            (#[trigger] declared[i]).short_name,
            declared[i].long_name,
        )
}

/// The names under which the options of `declared` can be asked for.
pub open spec fn option_names(declared: Seq<Declared>) -> Set<Seq<char>> {
    Set::new(
        |name: Seq<char>|
            name.len() > 0 && exists|i: int|
                0 <= i < declared.len() && ((#[trigger] declared[i]).short_name == name
                    || declared[i].long_name == name),
    )
}

/// `Options::new`: a table that declares no option, in the default mode.
#[verifier::external_body]
pub(crate) fn options_new() -> (options: Options)
    ensures
        declared_options(options).len() == 0,
        table_mode(options) == default_mode(),
{
    Options::new()
}

/// `Options::optopt`: declares, as the last of the table, an option that
/// may be left out and takes an argument; the mode of the table stays. The
/// crate panics on names that are not well formed; they are left out here.
#[verifier::external_body]
pub(crate) fn options_optopt(
    options: &mut Options,
    short_name: &str,
    long_name: &str,
    desc: &str,
    hint: &str,
)
    requires
        well_named(short_name@, long_name@),
    ensures
        declared_options(*final(options)) == declared_options(*old(options)).push(
            (Declared {
                short_name: short_name@,
                long_name: long_name@,
                desc: desc@,
                hint: hint@,
                has_arg: TakesArgument::Yes,
                occur: Occurrence::Optional,
            }),
        ),
        table_mode(*final(options)) == table_mode(*old(options)),
{
    options.optopt(short_name, long_name, desc, hint);
}

/// `Options::optflag`: declares, as the last of the table, an option that
/// may be left out and takes no argument; its hint is empty; the mode of
/// the table stays. The crate panics on names that are not well formed;
/// they are left out here.
#[verifier::external_body]
pub(crate) fn options_optflag(options: &mut Options, short_name: &str, long_name: &str, desc: &str)
    requires
        well_named(short_name@, long_name@),
    ensures
        declared_options(*final(options)) == declared_options(*old(options)).push(
            (Declared {
                short_name: short_name@,
                long_name: long_name@,
                desc: desc@,
                hint: Seq::<char>::empty(),
                has_arg: TakesArgument::No,
                occur: Occurrence::Optional,
            }),
        ),
        table_mode(*final(options)) == table_mode(*old(options)),
{
    options.optflag(short_name, long_name, desc);
}

/// `Options::parse`: reads `args` under the options of the table. The
/// outcome depends on the declared options, the mode of the table and the
/// arguments, and on nothing else; on success every name of a declared
/// option can be asked for.
#[verifier::external_body]
pub(crate) fn options_parse(options: &Options, args: &[String]) -> (outcome: Result<Matches, Fail>)
    requires
        all_well_named(declared_options(*options)),
    ensures
        match outcome {
            Ok(matches) => parse_result(
                declared_options(*options),
                table_mode(*options),
                name_views(args@),
            ) == Some(matched_options(matches)) && matched_options(matches).dom() == option_names(
                declared_options(*options),
            ),
            Err(_) => parse_result(
                declared_options(*options),
                table_mode(*options),
                name_views(args@),
            ) is None,
        },
{
    options.parse(args)
}

/// `Options::usage`: the usage message of the table under the heading
/// `brief`. It depends on the declared options, the mode of the table and
/// the heading, and on nothing else.
#[verifier::external_body]
pub(crate) fn options_usage(options: &Options, brief: &str) -> (text: String)
    requires
        all_well_named(declared_options(*options)),
    ensures
        text@ == usage_text(declared_options(*options), table_mode(*options), brief@),
{
    options.usage(brief)
}

/// `Matches::opt_present`: whether the option `name` occurred. The crate
/// panics on a name that no option has; such names are left out here.
#[verifier::external_body]
pub(crate) fn matches_opt_present(matches: &Matches, name: &str) -> (present: bool)
    requires
        matched_options(*matches).dom().contains(name@),
    ensures
        present == (matched_options(*matches)[name@].len() > 0),
{
    matches.opt_present(name)
}

/// `Matches::opt_str`: the argument of the first occurrence of the option
/// `name`, if the option occurred and that occurrence has an argument. The
/// crate panics on a name that no option has; such names are left out
/// here.
#[verifier::external_body]
pub(crate) fn matches_opt_str(matches: &Matches, name: &str) -> (value: Option<String>)
    requires
        matched_options(*matches).dom().contains(name@),
    ensures
        match value {
            Some(text) => matched_options(*matches)[name@].len() > 0 && matched_options(
                *matches,
            )[name@][0] == Some(text@),
            None => matched_options(*matches)[name@].len() == 0 || matched_options(
                *matches,
            )[name@][0] is None,
        },
{
    matches.opt_str(name)
}

/// The message that the `Display` impl of `Fail` writes for a failure.
#[verifier::external_body]
pub(crate) fn fail_message(failure: &Fail) -> (message: String) {
    failure.to_string()
}

} // verus!
