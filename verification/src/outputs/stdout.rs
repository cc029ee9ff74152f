//! # Stdout output
//!
//! - sends output to stdout
//!
//! ### catapult.conf
//!
//! ```text
//! output {
//!   stdout
//! }
//! ```
//! ### Parameters
//!
//! - none

use vstd::prelude::*;

use crate::processor::{str_views, Processor};

verus! {

/// Prints every line on the standard output.
pub struct Stdout {
    name: String,
}

impl Stdout {
    pub fn new(name: String) -> (res: Stdout)
        ensures
            res.name_view() == name@,
    {
        Stdout { name }
    }
}

impl Processor for Stdout {
    closed spec fn name_view(&self) -> Seq<char> {
        self.name@
    }

    open spec fn mandatory_view(&self) -> Seq<Seq<char>> {
        Seq::empty()
    }

    fn human_name(&self) -> (res: &str) {
        self.name.as_str()
    }

    fn mandatory_fields(&self) -> (res: Vec<&'static str>) {
        let res = Vec::new();
        assert(str_views(res@) =~= Seq::empty());
        res
    }
}

} // verus!
