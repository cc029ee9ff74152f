//! The standard input: every line read is sent on as it is.

use vstd::prelude::*;

use crate::processor::{str_views, Common, Processor};

verus! {

/// Reads lines from the standard input.
pub struct Stdin {
    common: Common,
}

impl Stdin {
    pub fn new(configuration_directive: String) -> (res: Stdin)
        ensures
            res.name_view() == configuration_directive@,
            res.mandatory_view() == Seq::<Seq<char>>::empty(),
    {
        Stdin { common: Common::new(configuration_directive) }
    }
}

impl Processor for Stdin {
    closed spec fn name_view(&self) -> Seq<char> {
        self.common.name_view()
    }

    open spec fn mandatory_view(&self) -> Seq<Seq<char>> {
        Seq::empty()
    }

    fn human_name(&self) -> (res: &str) {
        self.common.human_name()
    }

    fn mandatory_fields(&self) -> (res: Vec<&'static str>) {
        let res = Vec::new();
        assert(str_views(res@) =~= Seq::empty());
        res
    }
}

} // verus!
