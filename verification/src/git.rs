//! The `git diff` invocation.

use vstd::prelude::*;

verus! {

/// The arguments of the `git diff` run: plain text, no external diff tool, and the
/// staged changes rather than the working tree's when `staged` is set.
pub fn diff_args(staged: bool) -> (args: Vec<&'static str>)
    ensures
        args@.len() == if staged { 4nat } else { 3nat },
        args@[0]@ == "diff"@,
        args@[1]@ == "--no-color"@,
        args@[2]@ == "--no-ext-diff"@,
        staged ==> args@[3]@ == "--staged"@,
{
    let mut args: Vec<&'static str> = Vec::new();
    args.push("diff");
    args.push("--no-color");
    args.push("--no-ext-diff");
    if staged {
        args.push("--staged");
    }
    args
}

} // verus!
