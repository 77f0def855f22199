//! The entity registry and the component store it owns.

use crate::components::{Columns, ComponentVec, Components};
use crate::marked::{
    drop_marked, drop_marked_from, lemma_drop_marked_from_ends, lemma_drop_marked_from_step,
};
use vstd::prelude::*;

verus! {

/// An opaque task identifier with no payload of its own.
#[derive(Copy, Clone, PartialEq, Eq, Structural, Debug)]
pub struct Entity {
    id: i64,
}

impl Entity {
    /// The number that identifies the entity.
    pub closed spec fn ident(self) -> int {
        self.id as int
    }

    /// Entities with the same identifier are the same entity.
    pub proof fn lemma_same_ident(a: Entity, b: Entity)
        requires
            a.ident() == b.ident(),
        ensures
            a == b,
    {
    }

    /// The entity with the identifier `id`.
    pub fn new(id: i64) -> (e: Entity)
        ensures
            e.ident() == id,
    {
        Entity { id }
    }

    /// The identifier of the entity.
    pub fn id(&self) -> (id: i64)
        ensures
            id == self.ident(),
    {
        self.id
    }
}

/// The mathematical content of a [`World`].
pub struct WorldView {
    /// The identifier that the next new entity gets.
    pub next_id: int,
    /// The live entities, in slot order.
    pub entities: Seq<Entity>,
    /// The components, slot `i` of each column belonging to `entities[i]`.
    pub columns: Columns,
}

impl WorldView {
    /// Every column has one slot per live entity, no two live entities share
    /// an identifier, and every identifier handed out is below `next_id`.
    pub open spec fn wf(self) -> bool {
        &&& 0 <= self.next_id <= i64::MAX
        &&& self.columns.aligned(self.entities.len())
        &&& forall|i: int|
            0 <= i < self.entities.len() ==> 0 <= (#[trigger] self.entities[i]).ident()
                < self.next_id
        &&& forall|i: int, j: int|
            0 <= i < j < self.entities.len() ==> self.entities[i].ident()
                != self.entities[j].ident()
    }

    /// The world before any entity was created.
    pub open spec fn empty() -> WorldView {
        WorldView { next_id: 0, entities: Seq::empty(), columns: Columns::empty() }
    }

    /// Whether the entity is alive.
    pub open spec fn is_alive(self, entity: Entity) -> bool {
        self.entities.contains(entity)
    }

    /// The slot of a live entity.
    pub open spec fn slot_of(self, entity: Entity) -> int {
        self.entities.index_of(entity)
    }

    /// A new entity `entity` with an absent slot in every column.
    pub open spec fn create(self, entity: Entity) -> WorldView {
        WorldView {
            next_id: self.next_id + 1,
            entities: self.entities.push(entity),
            columns: self.columns.push_none(),
        }
    }

    /// Slot `index` removed from the entity list and from every column.
    pub open spec fn remove_slot(self, index: int) -> WorldView {
        WorldView {
            next_id: self.next_id,
            entities: self.entities.remove(index),
            columns: self.columns.remove(index),
        }
    }

    /// The world without the slots whose mark is set: every column and the
    /// entity list lose the same slots.
    pub open spec fn drop_marked(self, marks: Seq<bool>) -> WorldView {
        WorldView {
            next_id: self.next_id,
            entities: drop_marked(self.entities, marks),
            columns: Columns {
                schedules: drop_marked(self.columns.schedules, marks),
                activation_states: drop_marked(self.columns.activation_states, marks),
                lcn_commands: drop_marked(self.columns.lcn_commands, marks),
            },
        }
    }

    /// The world without the marked slots among those from `cut` on.
    pub open spec fn drop_marked_from(self, marks: Seq<bool>, cut: int) -> WorldView {
        WorldView {
            next_id: self.next_id,
            entities: drop_marked_from(self.entities, marks, cut),
            columns: Columns {
                schedules: drop_marked_from(self.columns.schedules, marks, cut),
                activation_states: drop_marked_from(self.columns.activation_states, marks, cut),
                lcn_commands: drop_marked_from(self.columns.lcn_commands, marks, cut),
            },
        }
    }

    /// The entity removed with all its components, if it is alive.
    pub open spec fn remove_entity(self, entity: Entity) -> WorldView {
        if self.is_alive(entity) {
            self.remove_slot(self.slot_of(entity))
        } else {
            self
        }
    }

    /// The component of type `C` that `entity` carries, if any.
    pub open spec fn component<C: ComponentVec>(self, entity: Entity) -> Option<C> {
        if self.is_alive(entity) {
            C::column(self.columns)[self.slot_of(entity)]
        } else {
            None
        }
    }

    /// The slot of type `C` at `index` replaced by `value`.
    pub open spec fn set_slot<C: ComponentVec>(self, index: int, value: Option<C>) -> WorldView {
        WorldView {
            columns: C::with_column(self.columns, C::column(self.columns).update(index, value)),
            ..self
        }
    }

    /// The component of type `C` of `entity` replaced by `value`, if the
    /// entity is alive.
    pub open spec fn set_component<C: ComponentVec>(
        self,
        entity: Entity,
        value: Option<C>,
    ) -> WorldView {
        if self.is_alive(entity) {
            self.set_slot(self.slot_of(entity), value)
        } else {
            self
        }
    }

    /// Writing one slot of one column keeps the world well-formed.
    pub proof fn lemma_set_slot_wf<C: ComponentVec>(self, index: int, value: Option<C>)
        requires
            self.wf(),
            0 <= index < self.entities.len(),
        ensures
            self.set_slot(index, value).wf(),
            C::column(self.set_slot(index, value).columns) == C::column(self.columns).update(
                index,
                value,
            ),
    {
        let col = C::column(self.columns).update(index, value);
        C::lemma_column_aligned(self.columns, col, self.entities.len());
        C::lemma_column_roundtrip(self.columns, col);
    }

    /// Removing a slot keeps the world well-formed.
    pub proof fn lemma_remove_slot_wf(self, index: int)
        requires
            self.wf(),
            0 <= index < self.entities.len(),
        ensures
            self.remove_slot(index).wf(),
    {
        let after = self.remove_slot(index);
        assert forall|i: int| 0 <= i < after.entities.len() implies 0 <= (
        #[trigger] after.entities[i]).ident() < after.next_id by {
            if i < index {
                assert(after.entities[i] == self.entities[i]);
            } else {
                assert(after.entities[i] == self.entities[i + 1]);
            }
        }
        assert forall|i: int, j: int| 0 <= i < j < after.entities.len() implies after.entities[i].ident()
            != after.entities[j].ident() by {
            let oi = if i < index {
                i
            } else {
                i + 1
            };
            let oj = if j < index {
                j
            } else {
                j + 1
            };
            assert(after.entities[i] == self.entities[oi]);
            assert(after.entities[j] == self.entities[oj]);
        }
    }

    /// Dropping the marked slots keeps the world well-formed.
    pub proof fn lemma_drop_marked_wf(self, marks: Seq<bool>)
        requires
            self.wf(),
            marks.len() == self.entities.len(),
        ensures
            self.drop_marked(marks).wf(),
            self.drop_marked(marks) == self.drop_marked_from(marks, 0),
    {
        lemma_drop_marked_from_ends(self.entities, marks);
        lemma_drop_marked_from_ends(self.columns.schedules, marks);
        lemma_drop_marked_from_ends(self.columns.activation_states, marks);
        lemma_drop_marked_from_ends(self.columns.lcn_commands, marks);
        self.lemma_drop_marked_from_wf(marks, 0);
    }

    /// Dropping the marked slots from `cut` on keeps the world well-formed.
    pub proof fn lemma_drop_marked_from_wf(self, marks: Seq<bool>, cut: int)
        requires
            self.wf(),
            marks.len() == self.entities.len(),
            0 <= cut <= self.entities.len(),
        ensures
            self.drop_marked_from(marks, cut).wf(),
        decreases self.entities.len() - cut,
    {
        lemma_drop_marked_from_ends(self.entities, marks);
        lemma_drop_marked_from_ends(self.columns.schedules, marks);
        lemma_drop_marked_from_ends(self.columns.activation_states, marks);
        lemma_drop_marked_from_ends(self.columns.lcn_commands, marks);
        if cut < self.entities.len() {
            self.lemma_drop_marked_from_wf(marks, cut + 1);
            lemma_drop_marked_from_step(self.entities, marks, cut + 1);
            lemma_drop_marked_from_step(self.columns.schedules, marks, cut + 1);
            lemma_drop_marked_from_step(self.columns.activation_states, marks, cut + 1);
            lemma_drop_marked_from_step(self.columns.lcn_commands, marks, cut + 1);
            let above = self.drop_marked_from(marks, cut + 1);
            if marks[cut] {
                above.lemma_remove_slot_wf(cut);
                assert(self.drop_marked_from(marks, cut) == above.remove_slot(cut));
            } else {
                assert(self.drop_marked_from(marks, cut) == above);
            }
        } else {
            assert(self.drop_marked_from(marks, cut) == self);
        }
    }

    /// In a well-formed world an entity occupies exactly one slot.
    pub proof fn lemma_slot_unique(self, entity: Entity, index: int)
        requires
            self.wf(),
            0 <= index < self.entities.len(),
            self.entities[index] == entity,
        ensures
            self.is_alive(entity),
            self.slot_of(entity) == index,
    {
        let k = self.slot_of(entity);
        assert(self.entities.contains(entity));
        assert(0 <= k < self.entities.len() && self.entities[k] == entity);
        if k < index {
            assert(self.entities[k].ident() != self.entities[index].ident());
        } else if index < k {
            assert(self.entities[index].ident() != self.entities[k].ident());
        }
    }
}

/// The entity registry together with the component store.
///
/// Identifiers are handed out in increasing order and never reused. Every
/// column of the store has one slot per live entity.
pub struct World {
    entity_count: i64,
    entities: Vec<Entity>,
    components: Components,
}

/// The registry under the name the systems know it by.
pub type Ecs = World;

impl View for World {
    type V = WorldView;

    closed spec fn view(&self) -> WorldView {
        WorldView {
            next_id: self.entity_count as int,
            entities: self.entities@,
            columns: self.components@,
        }
    }
}

impl World {
    /// The world with no entity.
    pub fn new() -> (w: World)
        ensures
            w@ == WorldView::empty(),
            w@.wf(),
    {
        World { entity_count: 0, entities: Vec::new(), components: Components::default() }
    }

    /// Whether the supply of identifiers is used up.
    pub fn is_full(&self) -> (b: bool)
        ensures
            b == (self@.next_id >= i64::MAX),
    {
        self.entity_count == i64::MAX
    }

    /// The number of live entities, which is the number of slots.
    pub fn len(&self) -> (n: usize)
        ensures
            n == self@.entities.len(),
    {
        self.entities.len()
    }

    /// The entity that owns slot `index`.
    pub fn entity_at(&self, index: usize) -> (e: Entity)
        requires
            index < self@.entities.len(),
        ensures
            e == self@.entities[index as int],
    {
        self.entities[index]
    }

    /// The component store, for reading.
    pub fn components(&self) -> (c: &Components)
        ensures
            c@ == self@.columns,
    {
        &self.components
    }

    /// Creates an entity with a fresh identifier and an absent slot in every
    /// column.
    pub fn new_entity(&mut self) -> (e: Entity)
        requires
            old(self)@.wf(),
            old(self)@.next_id < i64::MAX,
        ensures
            e.ident() == old(self)@.next_id,
            !old(self)@.is_alive(e),
            final(self)@ == old(self)@.create(e),
            final(self)@.wf(),
    {
        let id = self.entity_count;
        let e = Entity { id };
        self.entity_count += 1;
        self.components.push();
        self.entities.push(e);
        proof {
            let before = old(self)@;
            if before.is_alive(e) {
                let k = before.slot_of(e);
                assert(before.entities[k].ident() < before.next_id);
            }
            assert(self@.entities =~= before.entities.push(e));
        }
        e
    }

    /// Removes the entity and all its components. Does nothing if the entity
    /// is not alive.
    pub fn remove_entity(&mut self, entity: Entity)
        requires
            old(self)@.wf(),
        ensures
            final(self)@ == old(self)@.remove_entity(entity),
            final(self)@.wf(),
            !final(self)@.is_alive(entity),
    {
        if let Some(index) = self.get_index(entity) {
            self.entities.remove(index);
            self.components.remove(index);
            proof {
                let before = old(self)@;
                let after = self@;
                assert(after.entities =~= before.entities.remove(index as int));
                assert forall|i: int| 0 <= i < after.entities.len() implies after.entities[i]
                    != entity by {
                    if i < index {
                        assert(after.entities[i] == before.entities[i]);
                    } else {
                        assert(after.entities[i] == before.entities[i + 1]);
                    }
                }
            }
        }
    }

    /// The slot of the entity, if it is alive.
    pub fn get_index(&self, entity: Entity) -> (r: Option<usize>)
        requires
            self@.wf(),
        ensures
            r is Some <==> self@.is_alive(entity),
            r is Some ==> r->0 == self@.slot_of(entity),
    {
        let mut i: usize = 0;
        while i < self.entities.len()
            invariant
                self@.wf(),
                i <= self.entities.len(),
                forall|j: int| 0 <= j < i ==> self.entities@[j] != entity,
            decreases self.entities.len() - i,
        {
            if self.entities[i].id == entity.id {
                proof {
                    self@.lemma_slot_unique(entity, i as int);
                }
                return Some(i);
            }
            i += 1;
        }
        None
    }

    /// The slot of type `C` that belongs to the entity, for reading and
    /// writing; an error if the entity is not alive.
    pub fn get_component_option<C: ComponentVec>(&mut self, entity: Entity) -> (r: Result<
        &mut Option<C>,
        (),
    >)
        requires
            old(self)@.wf(),
        ensures
            r is Ok <==> old(self)@.is_alive(entity),
            match r {
                Ok(slot) => *slot == old(self)@.component::<C>(entity) && final(self)@ == old(
                    self,
                )@.set_component(entity, *final(slot)),
                Err(_) => final(self)@ == old(self)@,
            },
            final(self)@.wf(),
    {
        let index = self.get_index(entity);
        match index {
            Some(i) => {
                proof {
                    let n = self@.entities.len();
                    C::lemma_column_aligned(self@.columns, C::column(self@.columns), n);
                    assert forall|col: Seq<Option<C>>| col.len() == n implies (
                    #[trigger] C::with_column(self@.columns, col)).aligned(n) by {
                        C::lemma_column_aligned(self@.columns, col, n);
                    }
                }
                Ok(&mut C::get_vec(&mut self.components)[i])
            },
            None => Err(()),
        }
    }

    /// The component of type `C` that the entity carries, for reading and
    /// writing; `None` if the entity is not alive or carries none.
    pub fn get_component<C: ComponentVec>(&mut self, entity: Entity) -> (r: Option<&mut C>)
        requires
            old(self)@.wf(),
        ensures
            match r {
                Some(c) => old(self)@.component::<C>(entity) == Some(*c) && final(self)@ == old(
                    self,
                )@.set_component(entity, Some(*final(c))),
                None => old(self)@.component::<C>(entity) is None && final(self)@ == old(self)@,
            },
            final(self)@.wf(),
    {
        proof {
            let w = self@;
            if w.is_alive(entity) {
                let k = w.slot_of(entity);
                C::lemma_column_aligned(w.columns, C::column(w.columns), w.entities.len());
                C::lemma_column_roundtrip(w.columns, C::column(w.columns));
                assert(C::column(w.columns).update(k, C::column(w.columns)[k]) =~= C::column(
                    w.columns,
                ));
            }
        }
        match self.get_component_option::<C>(entity) {
            Ok(opt) => opt.as_mut(),
            Err(_) => None,
        }
    }

    /// The component of type `C` that the entity carries, for reading.
    pub fn read_component<C: ComponentVec>(&self, entity: Entity) -> (r: Option<&C>)
        requires
            self@.wf(),
        ensures
            match r {
                Some(c) => self@.component::<C>(entity) == Some(*c),
                None => self@.component::<C>(entity) is None,
            },
    {
        match self.get_index(entity) {
            Some(i) => {
                proof {
                    C::lemma_column_aligned(
                        self@.columns,
                        C::column(self@.columns),
                        self@.entities.len(),
                    );
                }
                C::get_column(&self.components)[i].as_ref()
            },
            None => None,
        }
    }

    /// Gives the entity the component, in place of any it had of that type,
    /// and says whether the entity was found. An entity that is not alive
    /// gets nothing, and the world stays as it was.
    pub fn add_component<C: ComponentVec>(&mut self, entity: Entity, component: C) -> (found: bool)
        requires
            old(self)@.wf(),
        ensures
            found == old(self)@.is_alive(entity),
            final(self)@ == old(self)@.set_component(entity, Some(component)),
            found ==> final(self)@.component::<C>(entity) == Some(component),
            !found ==> final(self)@ == old(self)@,
            final(self)@.wf(),
    {
        proof {
            let w = self@;
            if w.is_alive(entity) {
                C::lemma_column_aligned(w.columns, C::column(w.columns), w.entities.len());
                w.lemma_set_slot_wf(w.slot_of(entity), Some(component));
            }
        }
        match self.get_component_option::<C>(entity) {
            Ok(opt) => {
                *opt = Some(component);
                true
            },
            Err(_) => false,
        }
    }

    /// Takes the component of type `C` from the entity. Does nothing if the
    /// entity is not alive.
    pub fn remove_component<C: ComponentVec>(&mut self, entity: Entity)
        requires
            old(self)@.wf(),
        ensures
            final(self)@ == old(self)@.set_component(entity, None::<C>),
            final(self)@.component::<C>(entity) is None,
            final(self)@.wf(),
    {
        proof {
            let w = self@;
            if w.is_alive(entity) {
                C::lemma_column_aligned(w.columns, C::column(w.columns), w.entities.len());
                w.lemma_set_slot_wf(w.slot_of(entity), None::<C>);
            }
        }
        if let Ok(opt) = self.get_component_option::<C>(entity) {
            *opt = None;
        }
    }

    /// The slot of type `C` at `index`, for reading and writing.
    pub fn slot_mut<C: ComponentVec>(&mut self, index: usize) -> (slot: &mut Option<C>)
        requires
            old(self)@.wf(),
            index < old(self)@.entities.len(),
        ensures
            *slot == C::column(old(self)@.columns)[index as int],
            final(self)@ == old(self)@.set_slot(index as int, *final(slot)),
            final(self)@.wf(),
    {
        proof {
            let n = self@.entities.len();
            C::lemma_column_aligned(self@.columns, C::column(self@.columns), n);
            assert forall|col: Seq<Option<C>>| col.len() == n implies (
            #[trigger] C::with_column(self@.columns, col)).aligned(n) by {
                C::lemma_column_aligned(self@.columns, col, n);
            }
        }
        &mut C::get_vec(&mut self.components)[index]
    }

    /// Whether the entity is alive.
    pub fn is_alive(&self, entity: Entity) -> (b: bool)
        requires
            self@.wf(),
        ensures
            b == self@.is_alive(entity),
    {
        self.get_index(entity).is_some()
    }
}

} // verus!
