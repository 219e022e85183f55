//! A clock as the library sees it: the readings taken from it so far.

use vstd::prelude::*;

verus! {

/// A clock. `readings` holds every reading taken from it, oldest first;
/// only the functions that read the time add to it.
pub struct Clock {
    readings: Ghost<Seq<i64>>,
}

impl Clock {
    /// The readings taken from this clock, oldest first.
    pub closed spec fn readings(&self) -> Seq<i64> {
        self.readings@
    }

    /// A clock from which nothing was read yet.
    pub fn new() -> (c: Self)
        ensures
            c.readings() == Seq::<i64>::empty(),
    {
        Clock { readings: Ghost(Seq::empty()) }
    }
}

} // verus!
