//! The command line of the dashboard program.
use vstd::prelude::*;

verus! {

/// The flag that asks for a single console reading instead of the window.
pub open spec fn once_flag() -> Seq<char> {
    seq!['-', '-', 'o', 'n', 'c', 'e']
}

/// Whether any argument is `--once`.
pub fn once_requested(args: &Vec<String>) -> (b: bool)
    ensures
        b == exists|i: int| 0 <= i < args@.len() && (#[trigger] args@[i])@ == once_flag(),
{
    let flag = String::from_str("--once");
    proof {
        reveal_strlit("--once");
        assert(flag@ =~= once_flag());
    }
    let n = args.len();
    for i in 0..n
        invariant
            n == args@.len(),
            flag@ == once_flag(),
            forall|k: int| 0 <= k < i ==> (#[trigger] args@[k])@ != once_flag(),
    {
        if args[i] == flag {
            return true;
        }
    }
    false
}

} // verus!
