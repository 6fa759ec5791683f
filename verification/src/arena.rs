use crate::handle::Handle;
use generational_arena::{Arena, Index};
use vstd::prelude::*;

verus! {

/// `generational_arena::Arena`, taken as it is: nothing is known of a value
/// of it but what the functions below say.
#[verifier::external_type_specification]
#[verifier::external_body]
#[verifier::reject_recursive_types(T)]
pub struct ExArena<T>(Arena<T>);

/// The live entries of a slot arena: each `(index, generation)` pair that
/// currently resolves, with the number stored under it.
pub uninterp spec fn arena_rows(arena: Arena<usize>) -> Map<(usize, u64), usize>;

/// The generation counter of a slot arena: the generation that the next
/// inserted entry is stamped with.
pub uninterp spec fn arena_generation(arena: Arena<usize>) -> u64;

/// `Arena::new`: an arena with no entries, whose generation counter is zero.
#[verifier::external_body]
pub(crate) fn arena_new() -> (arena: Arena<usize>)
    ensures
        arena_rows(arena).is_empty(),
        arena_generation(arena) == 0,
{
    Arena::new()
}

/// `Arena::insert`: stores `row` in a free slot and returns that slot's index
/// together with the current generation. The pair did not resolve before, no
/// other entry changes, and the generation counter stays as it was.
#[verifier::external_body]
pub(crate) fn arena_insert(arena: &mut Arena<usize>, row: usize) -> (handle: Handle)
    ensures
        !arena_rows(*old(arena)).contains_key((handle.index, handle.generation)),
        handle.generation == arena_generation(*old(arena)),
        arena_rows(*final(arena)) == arena_rows(*old(arena)).insert(
            (handle.index, handle.generation),
            row,
        ),
        arena_generation(*final(arena)) == arena_generation(*old(arena)),
{
    let (index, generation) = arena.insert(row).into_raw_parts();
    Handle { index, generation }
}

/// `Arena::get`: the number stored under `handle`, if the handle resolves.
#[verifier::external_body]
pub(crate) fn arena_get(arena: &Arena<usize>, handle: Handle) -> (row: Option<usize>)
    ensures
        row == (if arena_rows(*arena).contains_key((handle.index, handle.generation)) {
            Some(arena_rows(*arena)[(handle.index, handle.generation)])
        } else {
            None
        }),
{
    arena.get(Index::from_raw_parts(handle.index, handle.generation)).copied()
}

/// `Arena::remove`: takes the entry under `handle` out, if the handle
/// resolves, and then advances the generation counter by one. A handle that
/// does not resolve leaves the arena as it was. The counter is advanced with
/// `+=`, so a resolving handle must meet it below `u64::MAX`.
#[verifier::external_body]
pub(crate) fn arena_remove(arena: &mut Arena<usize>, handle: Handle) -> (row: Option<usize>)
    requires
        arena_rows(*old(arena)).contains_key((handle.index, handle.generation))
            ==> arena_generation(*old(arena)) < u64::MAX,
    ensures
        arena_rows(*final(arena)) == arena_rows(*old(arena)).remove(
            (handle.index, handle.generation),
        ),
        arena_rows(*old(arena)).contains_key((handle.index, handle.generation)) ==> {
            &&& row == Some(arena_rows(*old(arena))[(handle.index, handle.generation)])
            &&& arena_generation(*final(arena)) == arena_generation(*old(arena)) + 1
        },
        !arena_rows(*old(arena)).contains_key((handle.index, handle.generation)) ==> {
            &&& row is None
            &&& arena_generation(*final(arena)) == arena_generation(*old(arena))
        },
{
    arena.remove(Index::from_raw_parts(handle.index, handle.generation))
}

/// `IndexMut::index_mut` of `Arena`: overwrites the number stored under a
/// handle that resolves. It panics on a handle that does not, which the
/// precondition leaves out.
#[verifier::external_body]
pub(crate) fn arena_set(arena: &mut Arena<usize>, handle: Handle, row: usize)
    requires
        arena_rows(*old(arena)).contains_key((handle.index, handle.generation)),
    ensures
        arena_rows(*final(arena)) == arena_rows(*old(arena)).insert(
            (handle.index, handle.generation),
            row,
        ),
        arena_generation(*final(arena)) == arena_generation(*old(arena)),
{
    arena[Index::from_raw_parts(handle.index, handle.generation)] = row;
}



/// The key under which the slot arena holds a handle.
pub open spec fn slot(handle: Handle) -> (usize, u64) {
    (handle.index, handle.generation)
}

/// A store of values of one kind, addressed by generation-tagged handles.
///
/// The values lie densely in a table; a slot arena maps each live handle to
/// the row of its value. A handle resolves from the moment `insert` returns
/// it until it is removed, and never again after that: a slot may be filled
/// anew, but the handle for the new value carries a later generation.
pub struct Registry<T> {
    slots: Arena<usize>,
    handles: Vec<Handle>,
    values: Vec<T>,
}

impl<T> View for Registry<T> {
    type V = Map<Handle, T>;

    /// The stored values, by the handles that resolve to them.
    closed spec fn view(&self) -> Map<Handle, T> {
        Map::new(
            |h: Handle| arena_rows(self.slots).contains_key(slot(h)),
            |h: Handle| self.values[arena_rows(self.slots)[slot(h)] as int],
        )
    }
}

impl<T> Registry<T> {
    /// The table and the slot arena agree: row `r` belongs to the handle
    /// whose entry holds `r`, and no live handle is newer than the counter.
    pub closed spec fn wf(&self) -> bool {
        &&& self.handles.len() == self.values.len()
        &&& forall|r: int|
            0 <= r < self.handles.len() ==> {
                &&& arena_rows(self.slots).contains_key(slot(#[trigger] self.handles[r]))
                &&& arena_rows(self.slots)[slot(self.handles[r])] == r
            }
        &&& forall|k: (usize, u64)| #[trigger]
            arena_rows(self.slots).contains_key(k) ==> {
                &&& arena_rows(self.slots)[k] < self.handles.len()
                &&& slot(self.handles[arena_rows(self.slots)[k] as int]) == k
                &&& k.1 <= arena_generation(self.slots)
            }
    }

    /// The generation that the next inserted value is stamped with. It grows
    /// by one with each value removed.
    pub closed spec fn generation(&self) -> u64 {
        arena_generation(self.slots)
    }

    /// The registry as its callers know it.
    pub open spec fn state(&self) -> RegistryState<T> {
        RegistryState { live: self@, generation: self.generation() as int }
    }

    /// The live handles in the order of their rows.
    pub closed spec fn order(&self) -> Seq<Handle> {
        self.handles@
    }

    /// The row at which the value of a live handle lies.
    pub closed spec fn row_of(&self, handle: Handle) -> int {
        arena_rows(self.slots)[slot(handle)] as int
    }

    /// The rows list the live handles, each once, and no live handle is
    /// newer than the generation counter.
    pub proof fn lemma_order(&self)
        requires
            self.wf(),
        ensures
            self.order().no_duplicates(),
            forall|h: Handle| self.order().contains(h) <==> self@.contains_key(h),
            forall|h: Handle| #[trigger]
                self@.contains_key(h) ==> {
                    &&& 0 <= self.row_of(h) < self.order().len()
                    &&& self.order()[self.row_of(h)] == h
                    &&& h.generation <= self.generation()
                },
            forall|r: int|
                0 <= r < self.order().len() ==> self.row_of(#[trigger] self.order()[r]) == r,
    {
        assert forall|h: Handle| self.order().contains(h) <==> self@.contains_key(h) by {
            if self@.contains_key(h) {
                let r = self.row_of(h);
                assert(self.order()[r] == h);
            }
        }
    }

    /// An empty registry.
    pub fn new() -> (registry: Registry<T>)
        ensures
            registry.wf(),
            registry@.dom().is_empty(),
            registry.generation() == 0,
            registry.order().len() == 0,
    {
        let registry = Registry { slots: arena_new(), handles: Vec::new(), values: Vec::new() };
        registry
    }

    /// The number of stored values.
    pub fn len(&self) -> (len: usize)
        requires
            self.wf(),
        ensures
            len == self.order().len(),
    {
        self.handles.len()
    }

    /// The handle whose value lies at `row`, where there is such a row.
    pub fn handle_at(&self, row: usize) -> (handle: Option<Handle>)
        requires
            self.wf(),
        ensures
            handle == (if row < self.order().len() {
                Some(self.order()[row as int])
            } else {
                None
            }),
    {
        if row < self.handles.len() {
            Some(self.handles[row])
        } else {
            None
        }
    }

    /// Whether `handle` resolves.
    pub fn contains(&self, handle: Handle) -> (live: bool)
        requires
            self.wf(),
        ensures
            live == self@.contains_key(handle),
    {
        arena_get(&self.slots, handle).is_some()
    }

    /// The value that `handle` resolves to, or `None` for a handle that was
    /// never issued here or whose value was removed.
    pub fn get(&self, handle: Handle) -> (value: Option<&T>)
        requires
            self.wf(),
        ensures
            match value {
                Some(v) => self@.contains_key(handle) && *v == self@[handle],
                None => !self@.contains_key(handle),
            },
    {
        match arena_get(&self.slots, handle) {
            Some(row) => Some(&self.values[row]),
            None => None,
        }
    }

    /// Stores `value` and returns a fresh handle for it. The handle did not
    /// resolve before and carries the current generation; every other handle
    /// resolves as it did.
    pub fn insert(&mut self, value: T) -> (handle: Handle)
        requires
            old(self).wf(),
        ensures
            final(self).wf(),
            !old(self)@.contains_key(handle),
            handle.generation == old(self).generation(),
            final(self)@ == old(self)@.insert(handle, value),
            final(self).generation() == old(self).generation(),
            final(self).order() == old(self).order().push(handle),
            old(self).state().admits(RegistryOp::Insert { handle, value }),
            final(self).state() == old(self).state().apply(RegistryOp::Insert { handle, value }),
    {
        let row = self.handles.len();
        let handle = arena_insert(&mut self.slots, row);
        self.handles.push(handle);
        self.values.push(value);
        proof {
            assert forall|k: (usize, u64)| #[trigger]
                arena_rows(self.slots).contains_key(k) implies {
                &&& arena_rows(self.slots)[k] < self.handles.len()
                &&& slot(self.handles[arena_rows(self.slots)[k] as int]) == k
                &&& k.1 <= arena_generation(self.slots)
            } by {
                if k != slot(handle) {
                    assert(arena_rows(old(self).slots).contains_key(k));
                }
            }
            assert forall|r: int| 0 <= r < self.handles.len() implies {
                &&& arena_rows(self.slots).contains_key(slot(#[trigger] self.handles[r]))
                &&& arena_rows(self.slots)[slot(self.handles[r])] == r
            } by {
                if r < row {
                    assert(old(self).handles[r] == self.handles[r]);
                }
            }
        }
        handle
    }

    /// Mutable access to the value that `handle` resolves to. What the caller
    /// leaves behind the reference is what the handle resolves to afterwards;
    /// nothing else changes.
    pub fn get_mut(&mut self, handle: Handle) -> (value: Option<&mut T>)
        requires
            old(self).wf(),
        ensures
            final(self).wf(),
            final(self).generation() == old(self).generation(),
            final(self).order() == old(self).order(),
            match value {
                Some(v) => {
                    &&& old(self)@.contains_key(handle)
                    &&& *v == old(self)@[handle]
                    &&& final(self)@ == old(self)@.insert(handle, *final(v))
                },
                None => !old(self)@.contains_key(handle) && final(self)@ == old(self)@,
            },
    {
        match arena_get(&self.slots, handle) {
            Some(row) => {
                let value = &mut self.values[row];
                Some(value)
            },
            None => None,
        }
    }

    /// Takes the value of `handle` out. The handle stops resolving for good,
    /// and the generation advances, so that no later `insert` returns it
    /// again. A handle that does not resolve leaves the registry as it was.
    /// The last row moves into the freed one.
    pub fn remove(&mut self, handle: Handle) -> (value: Option<T>)
        requires
            old(self).wf(),
            old(self).generation() < u64::MAX,
        ensures
            final(self).wf(),
            final(self)@ == old(self)@.remove(handle),
            final(self).state() == old(self).state().apply(RegistryOp::Remove { handle }),
            old(self)@.contains_key(handle) ==> {
                &&& value == Some(old(self)@[handle])
                &&& final(self).generation() == old(self).generation() + 1
                &&& 0 <= old(self).row_of(handle) < old(self).order().len()
                &&& final(self).order() == swap_removed(
                    old(self).order(),
                    old(self).row_of(handle),
                )
            },
            !old(self)@.contains_key(handle) ==> {
                &&& value is None
                &&& final(self).generation() == old(self).generation()
                &&& final(self).order() == old(self).order()
            },
    {
        match arena_remove(&mut self.slots, handle) {
            None => {
                assert(self@ =~= old(self)@);
                assert(self@ =~= old(self)@.remove(handle));
                None
            },
            Some(row) => {
                let last = self.handles.len() - 1;
                let ghost before = arena_rows(old(self).slots);
                assert(slot(old(self).handles[row as int]) == slot(handle));
                self.handles.swap_remove(row);
                let value = self.values.swap_remove(row);
                if row < last {
                    let moved = self.handles[row];
                    assert(moved == old(self).handles[last as int]);
                    assert(before.contains_key(slot(moved)) && before[slot(moved)] == last);
                    arena_set(&mut self.slots, moved, row);
                }
                proof {
                    let rows = arena_rows(self.slots);
                    assert forall|r: int| 0 <= r < self.handles.len() implies {
                        &&& rows.contains_key(slot(#[trigger] self.handles[r]))
                        &&& rows[slot(self.handles[r])] == r
                    } by {
                        if r != row {
                            assert(self.handles[r] == old(self).handles[r]);
                            assert(before.contains_key(slot(old(self).handles[r])));
                        }
                    }
                    assert forall|k: (usize, u64)| #[trigger] rows.contains_key(k) implies {
                        &&& rows[k] < self.handles.len()
                        &&& slot(self.handles[rows[k] as int]) == k
                        &&& k.1 <= arena_generation(self.slots)
                    } by {
                        assert(before.contains_key(k));
                        assert(slot(old(self).handles[before[k] as int]) == k);
                    }
                    assert forall|h: Handle| #[trigger]
                        old(self)@.remove(handle).contains_key(h) implies self@.contains_key(h)
                        && self@[h] == old(self)@[h] by {
                        assert(before.contains_key(slot(h)));
                        assert(slot(old(self).handles[before[slot(h)] as int]) == slot(h));
                    }
                    assert(self@ =~= old(self)@.remove(handle));
                }
                Some(value)
            },
        }
    }
}

/// A sequence after its entry at `row` was replaced by the last one and the
/// last one dropped.
pub open spec fn swap_removed<A>(s: Seq<A>, row: int) -> Seq<A> {
    s.update(row, s.last()).drop_last()
}

/// What the callers of a registry know of it: the values by the handles that
/// resolve, and the generation counter.
pub struct RegistryState<T> {
    pub live: Map<Handle, T>,
    pub generation: int,
}

/// One change to a registry. An insertion is named with the handle that it
/// returned.
pub enum RegistryOp<T> {
    Insert { handle: Handle, value: T },
    Remove { handle: Handle },
}

impl<T> RegistryState<T> {
    /// No live handle is newer than the counter.
    pub open spec fn valid(self) -> bool {
        forall|h: Handle| #[trigger] self.live.contains_key(h) ==> h.generation <= self.generation
    }

    /// Whether `op` can be the next change: an insertion returns a handle
    /// that does not resolve yet and carries the current generation.
    pub open spec fn admits(self, op: RegistryOp<T>) -> bool {
        match op {
            RegistryOp::Insert { handle, value } => {
                !self.live.contains_key(handle) && handle.generation == self.generation
            },
            RegistryOp::Remove { handle } => true,
        }
    }

    /// The state after `op`.
    pub open spec fn apply(self, op: RegistryOp<T>) -> RegistryState<T> {
        match op {
            RegistryOp::Insert { handle, value } => RegistryState {
                live: self.live.insert(handle, value),
                generation: self.generation,
            },
            RegistryOp::Remove { handle } => if self.live.contains_key(handle) {
                RegistryState { live: self.live.remove(handle), generation: self.generation + 1 }
            } else {
                self
            },
        }
    }

    /// The state after all of `ops`, in order.
    pub open spec fn apply_all(self, ops: Seq<RegistryOp<T>>) -> RegistryState<T>
        decreases ops.len(),
    {
        if ops.len() == 0 {
            self
        } else {
            self.apply_all(ops.drop_last()).apply(ops.last())
        }
    }

    /// Whether each of `ops` can follow those before it.
    pub open spec fn admits_all(self, ops: Seq<RegistryOp<T>>) -> bool
        decreases ops.len(),
    {
        ops.len() == 0 || {
            &&& self.admits_all(ops.drop_last())
            &&& self.apply_all(ops.drop_last()).admits(ops.last())
        }
    }
}

/// Whether one of the changes strictly between positions `i` and `j` removes
/// `handle`.
pub open spec fn removed_between<T>(ops: Seq<RegistryOp<T>>, handle: Handle, i: int, j: int) -> bool {
    exists|k: int| i < k < j && #[trigger] ops[k] == (RegistryOp::<T>::Remove { handle })
}

proof fn lemma_prefix_admitted<T>(start: RegistryState<T>, ops: Seq<RegistryOp<T>>, j: int)
    requires
        start.admits_all(ops),
        0 <= j <= ops.len(),
    ensures
        start.admits_all(ops.take(j)),
        j < ops.len() ==> start.apply_all(ops.take(j)).admits(ops[j]),
        j < ops.len() ==> start.apply_all(ops.take(j + 1)) == start.apply_all(ops.take(j)).apply(
            ops[j],
        ),
    decreases ops.len() - j,
{
    if j == ops.len() {
        assert(ops.take(j) =~= ops);
    } else {
        lemma_prefix_admitted(start, ops, j + 1);
        assert(ops.take(j + 1).drop_last() =~= ops.take(j));
    }
}

proof fn lemma_prefix_valid<T>(start: RegistryState<T>, ops: Seq<RegistryOp<T>>, j: int)
    requires
        start.valid(),
        start.admits_all(ops),
        0 <= j <= ops.len(),
    ensures
        start.apply_all(ops.take(j)).valid(),
    decreases j,
{
    if j > 0 {
        lemma_prefix_valid(start, ops, j - 1);
        lemma_prefix_admitted(start, ops, j - 1);
    }
}

proof fn lemma_discrimination_at<T>(
    start: RegistryState<T>,
    ops: Seq<RegistryOp<T>>,
    i: int,
    handle: Handle,
    value: T,
    j: int,
)
    requires
        start.valid(),
        start.admits_all(ops),
        0 <= i < j <= ops.len(),
        ops[i] == (RegistryOp::Insert { handle, value }),
    ensures
        removed_between(ops, handle, i, j) ==> {
            &&& !start.apply_all(ops.take(j)).live.contains_key(handle)
            &&& start.apply_all(ops.take(j)).generation > handle.generation
        },
        !removed_between(ops, handle, i, j) ==> {
            &&& start.apply_all(ops.take(j)).live.contains_key(handle)
            &&& start.apply_all(ops.take(j)).live[handle] == value
        },
    decreases j - i,
{
    lemma_prefix_admitted(start, ops, j - 1);
    lemma_prefix_valid(start, ops, j - 1);
    if j > i + 1 {
        lemma_discrimination_at(start, ops, i, handle, value, j - 1);
    }
}

/// Generation discrimination. Take any run of insertions and removals on a
/// registry, and an insertion in it that returned `handle` for `value`. At
/// every later point of the run the handle resolves to `value`, unless a
/// removal of the handle lies in between; from that removal on the handle
/// never resolves again, whatever is inserted afterwards.
pub proof fn lemma_generation_discrimination<T>(
    start: RegistryState<T>,
    ops: Seq<RegistryOp<T>>,
    i: int,
    handle: Handle,
    value: T,
)
    requires
        start.valid(),
        start.admits_all(ops),
        0 <= i < ops.len(),
        ops[i] == (RegistryOp::Insert { handle, value }),
    ensures
        forall|j: int|
            i < j <= ops.len() ==> #[trigger] start.apply_all(ops.take(j)).live.contains_key(handle)
                == !removed_between(ops, handle, i, j),
        forall|j: int|
            i < j <= ops.len() && !removed_between(ops, handle, i, j) ==> #[trigger] start.apply_all(
                ops.take(j),
            ).live[handle] == value,
{
    assert forall|j: int| i < j <= ops.len() implies #[trigger] start.apply_all(
        ops.take(j),
    ).live.contains_key(handle) == !removed_between(ops, handle, i, j) by {
        lemma_discrimination_at(start, ops, i, handle, value, j);
    }
    assert forall|j: int|
        i < j <= ops.len() && !removed_between(ops, handle, i, j) implies #[trigger] start.apply_all(
        ops.take(j),
    ).live[handle] == value by {
        lemma_discrimination_at(start, ops, i, handle, value, j);
    }
}

} // verus!
