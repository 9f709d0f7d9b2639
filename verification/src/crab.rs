//! The crab marker: the named cursor figure a host scene attaches to a
//! pen, showing an arrow indicator while drawing.

use vstd::prelude::*;

verus! {

/// Settings for the crab figure attached to a pen.
#[derive(Debug, Clone)]
pub struct Crab {
    pub name: String,
    pub show_arrow: bool,
}

impl Default for Crab {
    /// An unnamed crab that shows its arrow.
    fn default() -> (r: Crab)
        ensures
            r.name@ == Seq::<char>::empty(),
            r.show_arrow,
    {
        Crab { name: String::new(), show_arrow: true }
    }
}

/// The display name a host scene attaches to a crab's entity.
#[derive(Debug)]
pub struct CrabName(pub String);

} // verus!
