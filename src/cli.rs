//! The two command-line options.

use vstd::prelude::*;
use vstd::string::StringExecFns;

verus! {

/// The texts of the arguments.
pub open spec fn arg_texts(args: Seq<String>) -> Seq<Seq<char>> {
    args.map_values(|s: String| s@)
}

/// The argument after the first `--exclude`; none where there is no
/// `--exclude` or nothing follows it.
pub open spec fn exclude_arg(args: Seq<Seq<char>>) -> Option<Seq<char>>
    decreases args.len(),
{
    if args.len() == 0 {
        None
    } else if args[0] == "--exclude"@ {
        if args.len() > 1 {
            Some(args[1])
        } else {
            None
        }
    } else {
        exclude_arg(args.drop_first())
    }
}

/// Some argument is `--help`.
pub open spec fn asks_help(args: Seq<Seq<char>>) -> bool {
    exists|i: int| 0 <= i < args.len() && args[i] == "--help"@
}

/// The directory to exclude, as the arguments give it.
pub fn get_exclude_dir(args: &[String]) -> (r: Option<String>)
    ensures
        r is Some == exclude_arg(arg_texts(args@)) is Some,
        r matches Some(d) ==> exclude_arg(arg_texts(args@)) == Some(d@),
{
    let ghost a = arg_texts(args@);
    let flag = String::from_str("--exclude");
    let mut i: usize = 0;
    assert(a.subrange(0, a.len() as int) =~= a);
    while i < args.len()
        invariant
            a == arg_texts(args@),
            flag@ == "--exclude"@,
            i <= args@.len(),
            exclude_arg(a) == exclude_arg(a.subrange(i as int, a.len() as int)),
        decreases args@.len() - i,
    {
        let ghost rest = a.subrange(i as int, a.len() as int);
        assert(rest[0] == args@[i as int]@);
        if args[i] == flag {
            if i + 1 < args.len() {
                assert(rest[1] == args@[i + 1]@);
                return Some(args[i + 1].clone());
            }
            return None;
        }
        assert(rest.drop_first() =~= a.subrange(i + 1, a.len() as int));
        i = i + 1;
    }
    None
}

/// Whether some argument is `--help`.
pub fn wants_help(args: &[String]) -> (r: bool)
    ensures
        r == asks_help(arg_texts(args@)),
{
    let ghost a = arg_texts(args@);
    let flag = String::from_str("--help");
    let mut i: usize = 0;
    while i < args.len()
        invariant
            a == arg_texts(args@),
            flag@ == "--help"@,
            i <= args@.len(),
            forall|j: int| 0 <= j < i ==> a[j] != "--help"@,
        decreases args@.len() - i,
    {
        if args[i] == flag {
            assert(a[i as int] == "--help"@);
            return true;
        }
        i = i + 1;
    }
    false
}

} // verus!
