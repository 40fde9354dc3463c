//! `unbind`: marks dependent packages as independent.
use vstd::prelude::*;
use crate::commands::{Command, CommandFunc};
use crate::flags::specific_flag;
use crate::text::string_views;

verus! {

/// The `unbind` command (alias `e`), with the `specific` flag.
pub fn build(hierarchy: &[String]) -> (c: Command)
    ensures
        c.name@ == "unbind"@,
        string_views(c.aliases@) == seq!["e"@],
        c.about@ == "Marks a dependent package as independent."@,
        c.flags@.len() == 1,
        crate::flags::is_specific_flag(c.flags@[0]),
        c.subcommands is None,
        c.run_func == CommandFunc::Unbind,
        string_views(c.hierarchy@) == string_views(hierarchy@),
{
    let aliases = vec!["e".to_owned()];
    assert(string_views(aliases@) =~= seq!["e"@]);
    Command::new(
        "unbind",
        aliases,
        "Marks a dependent package as independent.",
        vec![specific_flag()],
        None,
        CommandFunc::Unbind,
        hierarchy,
    )
}

} // verus!
