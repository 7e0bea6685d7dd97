//! The command line of the songbook tool.
use vstd::prelude::*;

verus! {

/// The usage line of the tool.
pub open spec fn usage_spec(prog: Seq<char>) -> Seq<char> {
    "usage : "@ + prog + " <srcdir> <bookdir> <builddir>"@
}

/// The usage line of the tool, for the program `prog`.
pub fn usage(prog: &str) -> (r: String)
    ensures
        r@ == usage_spec(prog@),
{
    String::from_str("usage : ").concat(prog).concat(" <srcdir> <bookdir> <builddir>")
}

/// The song, book and build directories given on the command line (after
/// the program name), when all three are there.
pub fn dirs_of_args(args: &Vec<String>) -> (r: Option<(String, String, String)>)
    ensures
        args@.len() >= 4 ==> (r matches Some((a, b, c)) && a@ == args@[1]@ && b@ == args@[2]@ && c@ == args@[3]@),
        args@.len() < 4 ==> r is None,
{
    if args.len() >= 4 {
        Some((args[1].clone(), args[2].clone(), args[3].clone()))
    } else {
        None
    }
}

} // verus!
