//! Command-line flags.
use vstd::prelude::*;

verus! {

/// What a flag does when it is given.
#[derive(Debug, PartialEq, Eq, Structural, Clone, Copy)]
pub enum FlagFunc {
    /// Sets a key of the settings file.
    SetHandle,
    /// Records `force`.
    ShoveForce,
    /// Records `yes`.
    ShoveYes,
    /// Records `specific`.
    ShoveSpecific,
}

impl FlagFunc {
    /// The state a flag records as set, if it only records one.
    pub fn state_key(&self) -> (k: Option<&'static str>)
        ensures
            k == match *self {
                FlagFunc::SetHandle => None,
                FlagFunc::ShoveForce => Some("force"),
                FlagFunc::ShoveYes => Some("yes"),
                FlagFunc::ShoveSpecific => Some("specific"),
            },
    {
        match self {
            FlagFunc::SetHandle => None,
            FlagFunc::ShoveForce => Some("force"),
            FlagFunc::ShoveYes => Some("yes"),
            FlagFunc::ShoveSpecific => Some("specific"),
        }
    }
}

/// A command-line flag.
#[derive(Debug)]
pub struct Flag {
    pub short: Option<char>,
    pub long: String,
    pub about: String,
    /// Whether the flag takes the next argument.
    pub consumer: bool,
    /// Whether the flag ends the parsing of arguments.
    pub breakpoint: bool,
    pub flag_func: FlagFunc,
}

/// The help line of a flag: `-s,` (or three spaces without a short form),
/// then ` --long`, a tab and the description.
pub open spec fn flag_help(short: Option<char>, long: Seq<char>, about: Seq<char>) -> Seq<char> {
    (match short {
        Some(c) => seq!['-', c, ','],
        None => seq![' ', ' ', ' '],
    }) + seq![' ', '-', '-'] + long + seq!['\t'] + about
}

impl Flag {
    pub fn new(
        short: Option<char>,
        long: &str,
        about: &str,
        consumer: bool,
        breakpoint: bool,
        flag_func: FlagFunc,
    ) -> (f: Flag)
        ensures
            f.short == short,
            f.long@ == long@,
            f.about@ == about@,
            f.consumer == consumer,
            f.breakpoint == breakpoint,
            f.flag_func == flag_func,
    {
        Flag {
            short,
            long: long.to_owned(),
            about: about.to_owned(),
            consumer,
            breakpoint,
            flag_func,
        }
    }

    /// The flag's help line (see [`flag_help`]).
    pub fn help(&self) -> (s: String)
        ensures
            s@ == flag_help(self.short, self.long@, self.about@),
    {
        let mut help = String::new();
        match self.short {
            Some(c) => {
                crate::text::push_char(&mut help, '-');
                crate::text::push_char(&mut help, c);
                crate::text::push_char(&mut help, ',');
            },
            None => {
                crate::text::push_char(&mut help, ' ');
                crate::text::push_char(&mut help, ' ');
                crate::text::push_char(&mut help, ' ');
            },
        }
        crate::text::push_char(&mut help, ' ');
        crate::text::push_char(&mut help, '-');
        crate::text::push_char(&mut help, '-');
        crate::text::append_str(&mut help, self.long.as_str());
        crate::text::push_char(&mut help, '\t');
        crate::text::append_str(&mut help, self.about.as_str());
        assert(help@ =~= flag_help(self.short, self.long@, self.about@));
        help
    }
}

/// The `--yes` flag, field for field.
pub open spec fn is_yes_flag(f: Flag) -> bool {
    &&& f.short == Some('y')
    &&& f.long@ == "yes"@
    &&& f.about@ == "Bypasses applicable confirmation dialogs."@
    &&& !f.consumer
    &&& !f.breakpoint
    &&& f.flag_func == FlagFunc::ShoveYes
}

/// The `--specific` flag, field for field.
pub open spec fn is_specific_flag(f: Flag) -> bool {
    &&& f.short == Some('s')
    &&& f.long@ == "specific"@
    &&& f.about@ == "Makes every second argument the target version for the argument prior."@
    &&& !f.consumer
    &&& !f.breakpoint
    &&& f.flag_func == FlagFunc::ShoveSpecific
}

/// The `--yes` flag: skips confirmations.
pub fn yes_flag() -> (f: Flag)
    ensures
        is_yes_flag(f),
{
    Flag::new(
        Some('y'),
        "yes",
        "Bypasses applicable confirmation dialogs.",
        false,
        false,
        FlagFunc::ShoveYes,
    )
}

/// The `--specific` flag: arguments come as name and version pairs.
pub fn specific_flag() -> (f: Flag)
    ensures
        is_specific_flag(f),
{
    Flag::new(
        Some('s'),
        "specific",
        "Makes every second argument the target version for the argument prior.",
        false,
        false,
        FlagFunc::ShoveSpecific,
    )
}

} // verus!
