//! Process options, as plain data. Command-line parsing lives with the
//! binary; the library only carries the resulting flags.

use vstd::prelude::*;

verus! {

pub struct RunOptions {
    pub debug: bool,
}

impl RunOptions {
    pub fn new(debug: bool) -> (r: Self)
        ensures
            r.debug == debug,
    {
        Self { debug }
    }
}

} // verus!
