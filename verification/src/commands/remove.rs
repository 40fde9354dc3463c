//! `remove` and `purge`: remove packages, keeping or dropping their
//! configuration.
use vstd::prelude::*;
use crate::commands::{Command, CommandFunc};
use crate::flags::{specific_flag, yes_flag};
use crate::text::string_views;

verus! {

/// The `remove` command (alias `r`), with the `specific` and `yes` flags.
pub fn build_remove(hierarchy: &[String]) -> (c: Command)
    ensures
        c.name@ == "remove"@,
        string_views(c.aliases@) == seq!["r"@],
        c.about@ == "Removes a package, whilst maintaining any user-made configurations"@,
        c.flags@.len() == 2,
        crate::flags::is_specific_flag(c.flags@[0]),
        crate::flags::is_yes_flag(c.flags@[1]),
        c.subcommands is None,
        c.run_func == CommandFunc::Remove,
        string_views(c.hierarchy@) == string_views(hierarchy@),
{
    let aliases = vec!["r".to_owned()];
    assert(string_views(aliases@) =~= seq!["r"@]);
    Command::new(
        "remove",
        aliases,
        "Removes a package, whilst maintaining any user-made configurations",
        vec![specific_flag(), yes_flag()],
        None,
        CommandFunc::Remove,
        hierarchy,
    )
}

/// The `purge` command (alias `p`), with the `specific` and `yes` flags.
pub fn build_purge(hierarchy: &[String]) -> (c: Command)
    ensures
        c.name@ == "purge"@,
        string_views(c.aliases@) == seq!["p"@],
        c.about@ == "Removes a package, WITHOUT maintaining any user-made configurations"@,
        c.flags@.len() == 2,
        crate::flags::is_specific_flag(c.flags@[0]),
        crate::flags::is_yes_flag(c.flags@[1]),
        c.subcommands is None,
        c.run_func == CommandFunc::Purge,
        string_views(c.hierarchy@) == string_views(hierarchy@),
{
    let aliases = vec!["p".to_owned()];
    assert(string_views(aliases@) =~= seq!["p"@]);
    Command::new(
        "purge",
        aliases,
        "Removes a package, WITHOUT maintaining any user-made configurations",
        vec![specific_flag(), yes_flag()],
        None,
        CommandFunc::Purge,
        hierarchy,
    )
}

} // verus!
