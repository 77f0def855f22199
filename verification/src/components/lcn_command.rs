use vstd::prelude::*;

verus! {

/// The action to perform when a task fires: the identifier of a button.
#[derive(Copy, Clone, PartialEq, Eq, Structural, Debug)]
pub struct LcnCommand {
    pub id: i32,
}

impl Default for LcnCommand {
    fn default() -> (c: LcnCommand)
        ensures
            c.id == 0,
    {
        LcnCommand { id: 0 }
    }
}

} // verus!
