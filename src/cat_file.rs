//! Argument handling of `cat-file`.
use vstd::prelude::*;

verus! {

/// The hash that `cat-file -p <hash>` asks to print, or `None` for another
/// option.
pub fn cat_file(args: &[String]) -> (r: Option<String>)
    requires
        args@.len() >= 1,
        args@[0]@ == "-p"@ ==> args@.len() >= 2,
    ensures
        args@[0]@ == "-p"@ ==> r is Some && r.unwrap()@ == args@[1]@,
        args@[0]@ != "-p"@ ==> r is None,
{
    let flag = "-p".to_owned();
    if args[0] == flag {
        Some(args[1].clone())
    } else {
        None
    }
}

} // verus!
