use vstd::prelude::*;

verus! {

/// The arguments of the replace utility: what to find, what to replace
/// it with, the file to read and the file to write.
#[derive(Debug)]
pub struct Arguments {
    pub target: String,
    pub replacement: String,
    pub filename: String,
    pub output: String,
}

/// Parse the utility's arguments (program name already skipped):
/// exactly four are accepted, in order.
pub fn parse_args(args: &[String]) -> (r: Option<Arguments>)
    ensures
        args@.len() == 4 ==> (r matches Some(a) && a.target@ == args@[0]@ && a.replacement@
            == args@[1]@ && a.filename@ == args@[2]@ && a.output@ == args@[3]@),
        args@.len() != 4 ==> r is None,
{
    if args.len() != 4 {
        return None;
    }
    Some(
        Arguments {
            target: args[0].clone(),
            replacement: args[1].clone(),
            filename: args[2].clone(),
            output: args[3].clone(),
        },
    )
}

} // verus!
