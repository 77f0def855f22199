//! The component types and the store that keeps one column of each.

use vstd::prelude::*;

pub mod activation_state;
pub mod lcn_command;
pub mod schedule;

pub use activation_state::ActivationState;
pub use lcn_command::LcnCommand;
pub use schedule::Schedule;

verus! {

/// One column per component type. Slot `i` of every column belongs to the
/// same entity, so the columns always have the same length.
pub struct Components {
    pub schedules: Vec<Option<Schedule>>,
    pub activation_states: Vec<Option<ActivationState>>,
    pub lcn_commands: Vec<Option<LcnCommand>>,
}

/// The mathematical content of a [`Components`] store.
pub struct Columns {
    pub schedules: Seq<Option<Schedule>>,
    pub activation_states: Seq<Option<ActivationState>>,
    pub lcn_commands: Seq<Option<LcnCommand>>,
}

impl Columns {
    /// Every column has exactly `n` slots.
    pub open spec fn aligned(self, n: nat) -> bool {
        &&& self.schedules.len() == n
        &&& self.activation_states.len() == n
        &&& self.lcn_commands.len() == n
    }

    /// The store with no slot.
    pub open spec fn empty() -> Columns {
        Columns {
            schedules: Seq::empty(),
            activation_states: Seq::empty(),
            lcn_commands: Seq::empty(),
        }
    }

    /// One absent slot appended to every column.
    pub open spec fn push_none(self) -> Columns {
        Columns {
            schedules: self.schedules.push(None),
            activation_states: self.activation_states.push(None),
            lcn_commands: self.lcn_commands.push(None),
        }
    }

    /// Slot `index` taken out of every column.
    pub open spec fn remove(self, index: int) -> Columns {
        Columns {
            schedules: self.schedules.remove(index),
            activation_states: self.activation_states.remove(index),
            lcn_commands: self.lcn_commands.remove(index),
        }
    }
}

impl View for Components {
    type V = Columns;

    open spec fn view(&self) -> Columns {
        Columns {
            schedules: self.schedules@,
            activation_states: self.activation_states@,
            lcn_commands: self.lcn_commands@,
        }
    }
}

impl Default for Components {
    fn default() -> (c: Components)
        ensures
            c@ == Columns::empty(),
    {
        Components {
            schedules: Vec::new(),
            activation_states: Vec::new(),
            lcn_commands: Vec::new(),
        }
    }
}

impl Components {
    /// Appends an absent slot to every column.
    pub fn push(&mut self)
        ensures
            final(self)@ == old(self)@.push_none(),
    {
        self.activation_states.push(None);
        self.schedules.push(None);
        self.lcn_commands.push(None);
    }

    /// Removes slot `index` from every column.
    pub fn remove(&mut self, index: usize)
        requires
            index < old(self).schedules.len(),
            index < old(self).activation_states.len(),
            index < old(self).lcn_commands.len(),
        ensures
            final(self)@ == old(self)@.remove(index as int),
    {
        self.activation_states.remove(index);
        self.schedules.remove(index);
        self.lcn_commands.remove(index);
    }
}

/// Access to the column of one component type.
pub trait ComponentVec: Sized {
    /// This type's column of the store.
    spec fn column(c: Columns) -> Seq<Option<Self>>;

    /// The store with this type's column replaced by `col`.
    spec fn with_column(c: Columns, col: Seq<Option<Self>>) -> Columns;

    /// Reading back a replaced column gives what was put in, and putting a
    /// column back where it came from changes nothing.
    proof fn lemma_column_roundtrip(c: Columns, col: Seq<Option<Self>>)
        ensures
            Self::column(Self::with_column(c, col)) == col,
            Self::with_column(c, Self::column(c)) == c,
    ;

    /// Replacing a column by one of the same length keeps the store aligned.
    proof fn lemma_column_aligned(c: Columns, col: Seq<Option<Self>>, n: nat)
        requires
            c.aligned(n),
        ensures
            Self::column(c).len() == n,
            col.len() == n ==> Self::with_column(c, col).aligned(n),
    ;

    fn get_vec(c: &mut Components) -> (v: &mut Vec<Option<Self>>)
        ensures
            v@ == Self::column(old(c)@),
            final(c)@ == Self::with_column(old(c)@, final(v)@),
    ;

    /// Read-only access to this type's column.
    fn get_column(c: &Components) -> (v: &Vec<Option<Self>>)
        ensures
            v@ == Self::column(c@),
    ;
}

impl ComponentVec for ActivationState {
    open spec fn column(c: Columns) -> Seq<Option<Self>> {
        c.activation_states
    }

    open spec fn with_column(c: Columns, col: Seq<Option<Self>>) -> Columns {
        Columns { activation_states: col, ..c }
    }

    proof fn lemma_column_roundtrip(c: Columns, col: Seq<Option<Self>>) {
    }

    proof fn lemma_column_aligned(c: Columns, col: Seq<Option<Self>>, n: nat) {
    }

    fn get_vec(c: &mut Components) -> (v: &mut Vec<Option<Self>>) {
        &mut c.activation_states
    }

    fn get_column(c: &Components) -> (v: &Vec<Option<Self>>) {
        &c.activation_states
    }
}

impl ComponentVec for Schedule {
    open spec fn column(c: Columns) -> Seq<Option<Self>> {
        c.schedules
    }

    open spec fn with_column(c: Columns, col: Seq<Option<Self>>) -> Columns {
        Columns { schedules: col, ..c }
    }

    proof fn lemma_column_roundtrip(c: Columns, col: Seq<Option<Self>>) {
    }

    proof fn lemma_column_aligned(c: Columns, col: Seq<Option<Self>>, n: nat) {
    }

    fn get_vec(c: &mut Components) -> (v: &mut Vec<Option<Self>>) {
        &mut c.schedules
    }

    fn get_column(c: &Components) -> (v: &Vec<Option<Self>>) {
        &c.schedules
    }
}

impl ComponentVec for LcnCommand {
    open spec fn column(c: Columns) -> Seq<Option<Self>> {
        c.lcn_commands
    }

    open spec fn with_column(c: Columns, col: Seq<Option<Self>>) -> Columns {
        Columns { lcn_commands: col, ..c }
    }

    proof fn lemma_column_roundtrip(c: Columns, col: Seq<Option<Self>>) {
    }

    proof fn lemma_column_aligned(c: Columns, col: Seq<Option<Self>>, n: nat) {
    }

    fn get_vec(c: &mut Components) -> (v: &mut Vec<Option<Self>>) {
        &mut c.lcn_commands
    }

    fn get_column(c: &Components) -> (v: &Vec<Option<Self>>) {
        &c.lcn_commands
    }
}

} // verus!
