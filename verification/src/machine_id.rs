//! Argument check of the machine id setup tool.

use vstd::prelude::*;
use crate::rules::eq_lit;
use crate::text::chars_of;

verus! {

/// The options the tool knows.
pub open spec fn known_option(a: Seq<char>) -> bool {
    a == "--commit"@ || a == "--print"@
}

/// The arguments are accepted: every one after the program's name is
/// `--commit` or `--print`.
pub open spec fn args_accepted(args: Seq<Seq<char>>) -> bool {
    forall|k: int| 1 <= k < args.len() ==> known_option(#[trigger] args[k])
}

/// Checks the arguments (the first being the program's name): each one
/// after the name must be `--commit` or `--print`.
pub fn check_args(args: &Vec<String>) -> (r: bool)
    ensures
        r == args_accepted(args@.map_values(|a: String| a@)),
{
    let ghost av = args@.map_values(|a: String| a@);
    let mut i: usize = 1;
    while i < args.len()
        invariant
            av == args@.map_values(|a: String| a@),
            1 <= i,
            forall|k: int| 1 <= k < i && k < args@.len() ==> known_option(#[trigger] av[k]),
        decreases args@.len() - i,
    {
        let a = chars_of(args[i].as_str());
        assert(av[i as int] == a@);
        if !(eq_lit(&a, "--commit") || eq_lit(&a, "--print")) {
            return false;
        }
        i += 1;
    }
    true
}

} // verus!
