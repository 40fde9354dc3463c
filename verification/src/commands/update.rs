//! `update`: downloads upgrade metadata.
use vstd::prelude::*;
use crate::commands::{Command, CommandFunc};
use crate::text::string_views;

verus! {

/// The `update` command (alias `d`), without flags.
pub fn build(hierarchy: &[String]) -> (c: Command)
    ensures
        c.name@ == "update"@,
        string_views(c.aliases@) == seq!["d"@],
        c.about@ == "Downloads the upgrade metadata for non-phased packages."@,
        c.flags@.len() == 0,
        c.subcommands is None,
        c.run_func == CommandFunc::Update,
        string_views(c.hierarchy@) == string_views(hierarchy@),
{
    let aliases = vec!["d".to_owned()];
    assert(string_views(aliases@) =~= seq!["d"@]);
    Command::new(
        "update",
        aliases,
        "Downloads the upgrade metadata for non-phased packages.",
        Vec::new(),
        None,
        CommandFunc::Update,
        hierarchy,
    )
}

} // verus!
