//! `install`: installs packages.
use vstd::prelude::*;
use crate::commands::{Command, CommandFunc};
use crate::flags::{specific_flag, yes_flag};
use crate::text::string_views;

verus! {

/// The `install` command (alias `i`), with the `specific` and `yes` flags.
pub fn build(hierarchy: &[String]) -> (c: Command)
    ensures
        c.name@ == "install"@,
        string_views(c.aliases@) == seq!["i"@],
        c.about@ == "Install the application from a specified path"@,
        c.flags@.len() == 2,
        crate::flags::is_specific_flag(c.flags@[0]),
        crate::flags::is_yes_flag(c.flags@[1]),
        c.subcommands is None,
        c.run_func == CommandFunc::Install,
        string_views(c.hierarchy@) == string_views(hierarchy@),
{
    let aliases = vec!["i".to_owned()];
    assert(string_views(aliases@) =~= seq!["i"@]);
    Command::new(
        "install",
        aliases,
        "Install the application from a specified path",
        vec![specific_flag(), yes_flag()],
        None,
        CommandFunc::Install,
        hierarchy,
    )
}

} // verus!
