use vstd::prelude::*;

verus! {

/// The command line: the path of the gateway's settings file.
#[derive(Clone, Debug)]
pub struct Command {
    pub config: String,
}

} // verus!
