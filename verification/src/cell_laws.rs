//! What holds of the cell arena whatever is done with it: a handle whose
//! cell was dropped stays stale, borrows exclude each other, and every
//! live cell has one owner.
//!
//! - Use after teardown: `lemma_dropped_cell_stays_stale`,
//!   `lemma_drop_owner_makes_stale`.
//! - Exclusion of borrows: `lemma_borrows_exclude`.
//! - Ownership: the lemmas that each operation of the runtime keeps it
//!   in order; `lemma_new_cells_keep_owners` and
//!   `lemma_teardown_keeps_owners`; `lemma_write_marks_owner_dirty`.

use crate::runtime::{RuntimeView, ScopeId};
use crate::storage::{
    BorrowError, BorrowKey, BorrowState, CellOp, GenerationalBoxId, StorageView,
};
use vstd::prelude::*;

verus! {

/// The empty arena is in order.
pub proof fn lemma_empty_is_wf<T>()
    ensures
        StorageView::<T>::empty().wf(),
{
}

/// Every operation keeps the arena in order.
pub proof fn lemma_apply_keeps_wf<T>(s: StorageView<T>, op: CellOp<T>)
    requires
        s.wf(),
    ensures
        s.apply(op).wf(),
{
    let next = s.apply(op);
    match op {
        CellOp::Insert(value) => {
            if s.reusable() {
                let taken = s.free.last();
                assert forall|k: int| 0 <= k < next.free.len() implies (#[trigger] next.free[k])
                    < next.slots.len() && next.slots[next.free[k] as int].payload is None by {
                    assert(next.free[k] == s.free[k]);
                    assert(s.free[k] != s.free[s.free.len() - 1]);
                }
            } else {
                assert(s.free.len() == 0) by {
                    if s.free.len() > 0 {
                        assert(s.free[s.free.len() - 1] == s.free.last());
                    }
                }
            }
        },
        CellOp::Invalidate(id) => {
            if s.live(id) && s.slots[id.slot as int].generation < u64::MAX {
                assert(!s.free.contains(id.slot));
                assert forall|i: int, j: int|
                    0 <= i < next.free.len() && 0 <= j < next.free.len() && i != j implies next.free[i]
                    != next.free[j] by {
                    if i < s.free.len() {
                        assert(s.free.contains(s.free[i]));
                    }
                    if j < s.free.len() {
                        assert(s.free.contains(s.free[j]));
                    }
                }
            }
        },
        _ => {},
    }
}

/// Dropping a live cell makes its handle stale for good.
pub proof fn lemma_invalidate_is_final<T>(s: StorageView<T>, id: GenerationalBoxId)
    requires
        s.wf(),
        s.live(id),
    ensures
        s.invalidate(id).gone(id),
{
    if s.slots[id.slot as int].generation == u64::MAX {
        assert(!s.free.contains(id.slot));
    }
}

/// A handle that is stale for good is so after any operation.
pub proof fn lemma_apply_keeps_gone<T>(s: StorageView<T>, op: CellOp<T>, id: GenerationalBoxId)
    requires
        s.wf(),
        s.gone(id),
    ensures
        s.apply(op).gone(id),
{
    let next = s.apply(op);
    match op {
        CellOp::Insert(value) => {
            if s.reusable() {
                assert(s.free.contains(s.free.last())) by {
                    assert(s.free[s.free.len() - 1] == s.free.last());
                }
                if !s.free.contains(id.slot) && next.free.contains(id.slot) {
                    let k = choose|k: int| 0 <= k < next.free.len() && next.free[k] == id.slot;
                    assert(s.free[k] == id.slot);
                }
            } else {
                if !s.free.contains(id.slot) && next.free.contains(id.slot) {
                    let k = choose|k: int| 0 <= k < next.free.len() && next.free[k] == id.slot;
                    assert(s.free[k] == id.slot);
                }
            }
        },
        CellOp::Invalidate(other) => {
            if s.live(other) && other.slot != id.slot && next.free.contains(id.slot)
                && !s.free.contains(id.slot) {
                let k = choose|k: int| 0 <= k < next.free.len() && next.free[k] == id.slot;
                assert(s.free[k] == id.slot);
            }
        },
        _ => {},
    }
}

/// Use after teardown. Once a cell is dropped, every access through a
/// handle to it is refused as stale, whatever was done with the arena in
/// between: other cells made, among them one that took over the slot,
/// borrowed, written and dropped.
pub proof fn lemma_dropped_cell_stays_stale<T>(
    s: StorageView<T>,
    id: GenerationalBoxId,
    ops: Seq<CellOp<T>>,
)
    requires
        s.wf(),
        s.live(id),
    ensures
        s.invalidate(id).run(ops).wf(),
        s.invalidate(id).run(ops).gone(id),
        !s.invalidate(id).run(ops).live(id),
        s.invalidate(id).run(ops).read_error(id) == Some(BorrowError::StaleHandle),
        s.invalidate(id).run(ops).write_error(id) == Some(BorrowError::StaleHandle),
        s.invalidate(id).run(ops).set_error(id) == Some(BorrowError::StaleHandle),
    decreases ops.len(),
{
    if ops.len() == 0 {
        lemma_apply_keeps_wf(s, CellOp::Invalidate(id));
        lemma_invalidate_is_final(s, id);
    } else {
        lemma_dropped_cell_stays_stale(s, id, ops.drop_last());
        let before = s.invalidate(id).run(ops.drop_last());
        lemma_apply_keeps_wf(before, ops.last());
        lemma_apply_keeps_gone(before, ops.last(), id);
    }
}

/// A handle that is stale for good is so after any run of operations,
/// and the arena stays in order.
pub proof fn lemma_run_keeps_gone<T>(s: StorageView<T>, ops: Seq<CellOp<T>>, id: GenerationalBoxId)
    requires
        s.wf(),
        s.gone(id),
    ensures
        s.run(ops).wf(),
        s.run(ops).gone(id),
    decreases ops.len(),
{
    if ops.len() > 0 {
        lemma_run_keeps_gone(s, ops.drop_last(), id);
        lemma_apply_keeps_wf(s.run(ops.drop_last()), ops.last());
        lemma_apply_keeps_gone(s.run(ops.drop_last()), ops.last(), id);
    }
}

/// Dropping the cells `ids[i..]` keeps the arena in order, leaves stale
/// for good what was, and makes stale for good each of them that was
/// live.
pub proof fn lemma_invalidate_from<T>(
    s: StorageView<T>,
    ids: Seq<GenerationalBoxId>,
    i: int,
    id: GenerationalBoxId,
)
    requires
        s.wf(),
        0 <= i <= ids.len(),
        s.gone(id) || (s.live(id) && exists|k: int| i <= k < ids.len() && ids[k] == id),
    ensures
        crate::runtime::invalidate_from(s, ids, i).wf(),
        crate::runtime::invalidate_from(s, ids, i).gone(id),
    decreases ids.len() - i,
{
    if i < ids.len() {
        let next = s.invalidate(ids[i]);
        lemma_apply_keeps_wf(s, CellOp::Invalidate(ids[i]));
        if s.gone(id) {
            lemma_apply_keeps_gone(s, CellOp::Invalidate(ids[i]), id);
        } else if ids[i] == id {
            lemma_invalidate_is_final(s, id);
        } else {
            let k = choose|k: int| i <= k < ids.len() && ids[k] == id;
            assert(i + 1 <= k < ids.len());
            assert(next.live(id)) by {
                if ids[i].slot == id.slot {
                    assert(!s.live(ids[i]));
                }
            }
        }
        lemma_invalidate_from(next, ids, i + 1, id);
    }
}

/// Teardown of an owner. After `drop_owner`, every access through a
/// handle to a cell that the owner held is refused as stale, whatever
/// is done with the arena afterwards, also when another value has taken
/// over the slot.
pub proof fn lemma_drop_owner_makes_stale<T>(
    rt: RuntimeView<T>,
    scope: ScopeId,
    k: int,
    ops: Seq<CellOp<T>>,
)
    requires
        rt.wf(),
        rt.has_owner(scope),
        0 <= k < rt.owned(scope).len(),
    ensures
        ({
            let id = rt.owned(scope)[k];
            let later = rt.drop_owner(scope).storage.run(ops);
            &&& !later.live(id)
            &&& later.read_error(id) == Some(BorrowError::StaleHandle)
            &&& later.write_error(id) == Some(BorrowError::StaleHandle)
            &&& later.set_error(id) == Some(BorrowError::StaleHandle)
        }),
{
    let id = rt.owned(scope)[k];
    assert(rt.lists(scope.0 as int, k) && rt.listed(scope.0 as int, k) == id);
    lemma_invalidate_from(rt.storage, rt.owned(scope), 0, id);
    lemma_run_keeps_gone(rt.drop_owner(scope).storage, ops, id);
}

/// One step in the life of a cell's borrows.
pub enum BorrowOp<T> {
    /// A shared borrow is asked for.
    Read,
    /// The exclusive borrow is asked for.
    Write,
    /// The shared borrow handed out as number `k` of those not yet given
    /// back is given back.
    ReleaseRead(int),
    /// The same, of the exclusive borrows.
    ReleaseWrite(int),
    /// A value is written through exclusive borrow number `k`.
    Update(int, T),
    /// The value is replaced outright.
    Replace(T),
}

/// A cell's arena, with the borrows handed out on the cell and not yet
/// given back.
pub struct Ledger<T> {
    pub storage: StorageView<T>,
    pub readers: Seq<BorrowKey>,
    pub writers: Seq<BorrowKey>,
}

/// How many of the borrows `keys` hold in `storage`.
pub open spec fn holding<T>(storage: StorageView<T>, keys: Seq<BorrowKey>) -> nat
    decreases keys.len(),
{
    if keys.len() == 0 {
        0
    } else {
        holding(storage, keys.drop_last()) + if storage.holds(keys.last()) {
            1nat
        } else {
            0nat
        }
    }
}

impl<T> Ledger<T> {
    /// The ledger of a cell on which nothing is borrowed yet.
    pub open spec fn open(storage: StorageView<T>) -> Self {
        Ledger { storage, readers: Seq::empty(), writers: Seq::empty() }
    }

    /// The ledger after one step on the cell `id`. A borrow that is
    /// granted is entered; one that is given back is struck out.
    pub open spec fn step(self, id: GenerationalBoxId, op: BorrowOp<T>) -> Self {
        match op {
            BorrowOp::Read => if self.storage.read_error(id) is None {
                Ledger {
                    storage: self.storage.read(id),
                    readers: self.readers.push(self.storage.key_of(id)),
                    ..self
                }
            } else {
                self
            },
            BorrowOp::Write => if self.storage.write_error(id) is None {
                Ledger {
                    storage: self.storage.write(id),
                    writers: self.writers.push(self.storage.key_of(id)),
                    ..self
                }
            } else {
                self
            },
            BorrowOp::ReleaseRead(k) => if 0 <= k < self.readers.len() {
                Ledger {
                    storage: self.storage.release_read(self.readers[k]),
                    readers: self.readers.remove(k),
                    ..self
                }
            } else {
                self
            },
            BorrowOp::ReleaseWrite(k) => if 0 <= k < self.writers.len() {
                Ledger {
                    storage: self.storage.release_write(self.writers[k]),
                    writers: self.writers.remove(k),
                    ..self
                }
            } else {
                self
            },
            BorrowOp::Update(k, value) => if 0 <= k < self.writers.len() {
                Ledger { storage: self.storage.update(self.writers[k], value), ..self }
            } else {
                self
            },
            BorrowOp::Replace(value) => Ledger { storage: self.storage.set(id, value), ..self },
        }
    }

    /// The ledger after the steps `ops` on the cell `id`, in order.
    pub open spec fn run(self, id: GenerationalBoxId, ops: Seq<BorrowOp<T>>) -> Self
        decreases ops.len(),
    {
        if ops.len() == 0 {
            self
        } else {
            self.run(id, ops.drop_last()).step(id, ops.last())
        }
    }

    /// Shared borrows that are live: handed out, not given back, and not
    /// displaced.
    pub open spec fn live_readers(self) -> nat {
        holding(self.storage, self.readers)
    }

    /// Exclusive borrows that are live.
    pub open spec fn live_writers(self) -> nat {
        holding(self.storage, self.writers)
    }

    /// The borrows entered were taken on the cell `id`, none of them at
    /// a later epoch than the cell's.
    pub open spec fn entered_on(self, id: GenerationalBoxId, keys: Seq<BorrowKey>) -> bool {
        forall|k: int|
            0 <= k < keys.len() ==> (#[trigger] keys[k]).slot == id.slot && keys[k].generation
                == id.generation && keys[k].epoch <= self.storage.slots[id.slot as int].epoch
    }

    /// The cell `id` is live and its borrow state counts the live borrows:
    /// idle with none, shared with that many readers and no writer (a
    /// count that has stopped at the greatest number tells only that
    /// there is no writer), exclusive with one writer and no reader.
    pub open spec fn balanced(self, id: GenerationalBoxId) -> bool {
        &&& self.storage.live(id)
        &&& self.entered_on(id, self.readers)
        &&& self.entered_on(id, self.writers)
        &&& match self.storage.slots[id.slot as int].borrow {
            BorrowState::Idle => self.live_readers() == 0 && self.live_writers() == 0,
            BorrowState::Shared(n) => n >= 1 && self.live_writers() == 0 && (n < usize::MAX
                ==> self.live_readers() == n),
            BorrowState::Exclusive => self.live_readers() == 0 && self.live_writers() == 1,
        }
    }
}

/// Entering a borrow counts it if it holds.
pub proof fn lemma_holding_push<T>(storage: StorageView<T>, keys: Seq<BorrowKey>, key: BorrowKey)
    ensures
        holding(storage, keys.push(key)) == holding(storage, keys) + if storage.holds(key) {
            1nat
        } else {
            0nat
        },
{
    assert(keys.push(key).drop_last() =~= keys);
}

/// A borrow that holds is counted.
pub proof fn lemma_holding_counts<T>(storage: StorageView<T>, keys: Seq<BorrowKey>, k: int)
    requires
        0 <= k < keys.len(),
        storage.holds(keys[k]),
    ensures
        holding(storage, keys) >= 1,
    decreases keys.len(),
{
    if k < keys.len() - 1 {
        lemma_holding_counts(storage, keys.drop_last(), k);
    }
}

/// Striking a borrow out discounts it if it held.
pub proof fn lemma_holding_remove<T>(storage: StorageView<T>, keys: Seq<BorrowKey>, k: int)
    requires
        0 <= k < keys.len(),
    ensures
        holding(storage, keys.remove(k)) + (if storage.holds(keys[k]) {
            1nat
        } else {
            0nat
        }) == holding(storage, keys),
    decreases keys.len(),
{
    if k == keys.len() - 1 {
        assert(keys.remove(k) =~= keys.drop_last());
    } else {
        assert(keys.remove(k).drop_last() =~= keys.drop_last().remove(k));
        assert(keys.remove(k).last() == keys.last());
        lemma_holding_remove(storage, keys.drop_last(), k);
    }
}

/// The count goes by which borrows hold, and by nothing else.
pub proof fn lemma_holding_same<T>(a: StorageView<T>, b: StorageView<T>, keys: Seq<BorrowKey>)
    requires
        forall|k: int| 0 <= k < keys.len() ==> a.holds(#[trigger] keys[k]) == b.holds(keys[k]),
    ensures
        holding(a, keys) == holding(b, keys),
    decreases keys.len(),
{
    if keys.len() > 0 {
        assert(keys.drop_last().len() == keys.len() - 1);
        assert forall|k: int| 0 <= k < keys.drop_last().len() implies a.holds(
            #[trigger] keys.drop_last()[k],
        ) == b.holds(keys.drop_last()[k]) by {
            assert(keys.drop_last()[k] == keys[k]);
        }
        lemma_holding_same(a, b, keys.drop_last());
        assert(keys.last() == keys[keys.len() - 1]);
    }
}

/// Where no borrow holds, none is counted.
pub proof fn lemma_holding_none<T>(storage: StorageView<T>, keys: Seq<BorrowKey>)
    requires
        forall|k: int| 0 <= k < keys.len() ==> !storage.holds(#[trigger] keys[k]),
    ensures
        holding(storage, keys) == 0,
    decreases keys.len(),
{
    if keys.len() > 0 {
        assert forall|k: int| 0 <= k < keys.drop_last().len() implies !storage.holds(
            #[trigger] keys.drop_last()[k],
        ) by {
            assert(keys.drop_last()[k] == keys[k]);
        }
        lemma_holding_none(storage, keys.drop_last());
        assert(keys.last() == keys[keys.len() - 1]);
    }
}

/// Every step keeps the ledger balanced.
pub proof fn lemma_step_keeps_balance<T>(ledger: Ledger<T>, id: GenerationalBoxId, op: BorrowOp<T>)
    requires
        ledger.balanced(id),
    ensures
        ledger.step(id, op).balanced(id),
{
    let next = ledger.step(id, op);
    let s = ledger.storage;
    let slot = s.slots[id.slot as int];
    match op {
        BorrowOp::Read => {
            if s.read_error(id) is None {
                let key = s.key_of(id);
                lemma_holding_push(next.storage, ledger.readers, key);
                lemma_holding_same(s, next.storage, ledger.readers);
                lemma_holding_same(s, next.storage, ledger.writers);
            }
        },
        BorrowOp::Write => {
            if s.write_error(id) is None {
                let key = s.key_of(id);
                lemma_holding_push(next.storage, ledger.writers, key);
                lemma_holding_same(s, next.storage, ledger.readers);
                lemma_holding_same(s, next.storage, ledger.writers);
            }
        },
        BorrowOp::ReleaseRead(k) => {
            if 0 <= k < ledger.readers.len() {
                let key = ledger.readers[k];
                lemma_holding_remove(next.storage, ledger.readers, k);
                lemma_holding_same(s, next.storage, ledger.readers);
                lemma_holding_same(s, next.storage, ledger.writers);
                if s.holds(key) {
                    lemma_holding_counts(s, ledger.readers, k);
                }
                assert forall|j: int| 0 <= j < next.readers.len() implies (
                #[trigger] next.readers[j]).slot == id.slot && next.readers[j].generation
                    == id.generation && next.readers[j].epoch
                    <= next.storage.slots[id.slot as int].epoch by {
                    if j < k {
                        assert(next.readers[j] == ledger.readers[j]);
                    } else {
                        assert(next.readers[j] == ledger.readers[j + 1]);
                    }
                }
            }
        },
        BorrowOp::ReleaseWrite(k) => {
            if 0 <= k < ledger.writers.len() {
                let key = ledger.writers[k];
                lemma_holding_remove(next.storage, ledger.writers, k);
                lemma_holding_same(s, next.storage, ledger.readers);
                lemma_holding_same(s, next.storage, ledger.writers);
                if s.holds(key) {
                    lemma_holding_counts(s, ledger.writers, k);
                }
                assert forall|j: int| 0 <= j < next.writers.len() implies (
                #[trigger] next.writers[j]).slot == id.slot && next.writers[j].generation
                    == id.generation && next.writers[j].epoch
                    <= next.storage.slots[id.slot as int].epoch by {
                    if j < k {
                        assert(next.writers[j] == ledger.writers[j]);
                    } else {
                        assert(next.writers[j] == ledger.writers[j + 1]);
                    }
                }
            }
        },
        BorrowOp::Update(k, value) => {
            if 0 <= k < ledger.writers.len() {
                lemma_holding_same(s, next.storage, ledger.readers);
                lemma_holding_same(s, next.storage, ledger.writers);
            }
        },
        BorrowOp::Replace(value) => {
            if s.set_error(id) is None {
                if s.displaces(id) {
                    lemma_holding_none(next.storage, ledger.readers);
                    lemma_holding_none(next.storage, ledger.writers);
                } else {
                    lemma_holding_same(s, next.storage, ledger.readers);
                    lemma_holding_same(s, next.storage, ledger.writers);
                }
            }
        },
    }
}

/// Exclusion of borrows. Take a cell on which nothing is borrowed, and
/// any sequence of borrows taken, borrows given back, writes and
/// replacements on it. At every time at most one exclusive borrow is
/// live, and none beside a shared one; any number of shared borrows may
/// be live together. A shared borrow is refused exactly when the
/// exclusive borrow is live, and then as a conflict; granted beside n
/// live shared borrows it makes them n + 1, all on the same value. The
/// exclusive borrow is refused, as a conflict, whenever a borrow is
/// live, and only then (unless the count of shared borrows has stopped
/// at the greatest number it can hold: from then on the cell counts as
/// read until its value is replaced or dropped).
pub proof fn lemma_borrows_exclude<T>(
    storage: StorageView<T>,
    id: GenerationalBoxId,
    ops: Seq<BorrowOp<T>>,
)
    requires
        storage.live(id),
        storage.slots[id.slot as int].borrow == BorrowState::Idle,
    ensures
        ({
            let now = Ledger::open(storage).run(id, ops);
            &&& now.balanced(id)
            &&& now.live_writers() <= 1
            &&& now.live_writers() == 1 ==> now.live_readers() == 0
            &&& now.storage.read_error(id) == (if now.live_writers() == 1 {
                Some(BorrowError::BorrowConflict)
            } else {
                None
            })
            &&& now.live_writers() + now.live_readers() > 0 ==> now.storage.write_error(id)
                == Some(BorrowError::BorrowConflict)
            &&& now.storage.write_error(id) is Some ==> now.storage.write_error(id) == Some(
                BorrowError::BorrowConflict,
            )
            &&& now.storage.write_error(id) is Some && now.storage.slots[id.slot as int].borrow
                != BorrowState::Shared(usize::MAX) ==> now.live_writers() + now.live_readers()
                > 0
            &&& now.live_writers() == 0 ==> now.storage.read(id).slots[id.slot as int].payload
                == now.storage.slots[id.slot as int].payload && holding(
                now.storage.read(id),
                now.readers.push(now.storage.key_of(id)),
            ) == now.live_readers() + 1
        }),
    decreases ops.len(),
{
    if ops.len() > 0 {
        lemma_borrows_exclude(storage, id, ops.drop_last());
        lemma_step_keeps_balance(Ledger::open(storage).run(id, ops.drop_last()), id, ops.last());
    }
    let now = Ledger::open(storage).run(id, ops);
    if now.live_writers() == 0 {
        let read = now.storage.read(id);
        lemma_holding_push(read, now.readers, now.storage.key_of(id));
        lemma_holding_same(now.storage, read, now.readers);
    }
}

/// A cell that was just stored is live, and nothing is borrowed on it.
pub proof fn lemma_inserted_is_idle<T>(storage: StorageView<T>, value: T)
    requires
        storage.slots.len() <= usize::MAX,
    ensures
        storage.insert(value).live(storage.next_id()),
        storage.insert(value).slots[storage.next_id().slot as int].borrow == BorrowState::Idle,
{
}

/// Dropping cells keeps the arena in order.
pub proof fn lemma_invalidate_from_keeps_wf<T>(
    s: StorageView<T>,
    ids: Seq<GenerationalBoxId>,
    i: int,
)
    requires
        s.wf(),
        0 <= i <= ids.len(),
    ensures
        crate::runtime::invalidate_from(s, ids, i).wf(),
    decreases ids.len() - i,
{
    if i < ids.len() {
        lemma_apply_keeps_wf(s, CellOp::Invalidate(ids[i]));
        lemma_invalidate_from_keeps_wf(s.invalidate(ids[i]), ids, i + 1);
    }
}

/// Dropping cells brings none to life, and spares every live cell that is
/// not among them.
pub proof fn lemma_invalidate_from_spares<T>(
    s: StorageView<T>,
    ids: Seq<GenerationalBoxId>,
    i: int,
    id: GenerationalBoxId,
)
    requires
        0 <= i <= ids.len(),
    ensures
        crate::runtime::invalidate_from(s, ids, i).live(id) ==> s.live(id),
        s.live(id) && (forall|k: int| i <= k < ids.len() ==> ids[k] != id)
            ==> crate::runtime::invalidate_from(s, ids, i).live(id),
    decreases ids.len() - i,
{
    if i < ids.len() {
        lemma_invalidate_from_spares(s.invalidate(ids[i]), ids, i + 1, id);
    }
}

/// A write marks the owning scope dirty. In a runtime in order, setting
/// the value of a cell that the owner of `scope` lists goes through,
/// whatever is borrowed on the cell, and asks for one diff pass of
/// `scope`: the dirty set is the old one with `scope` in it, under its
/// depth, once, and no other scope is marked. Taking the exclusive
/// borrow, where it is granted, marks `scope` in the same way.
pub proof fn lemma_write_marks_owner_dirty<T>(
    rt: RuntimeView<T>,
    scope: ScopeId,
    k: int,
    value: T,
)
    requires
        rt.wf(),
        rt.lists(scope.0 as int, k),
    ensures
        ({
            let id = rt.listed(scope.0 as int, k);
            let entry = (rt.height_of(scope)->0, scope.0);
            &&& rt.storage.live(id)
            &&& rt.storage.set_error(id) is None
            &&& rt.set(id, scope, value).storage.slots[id.slot as int].payload == Some(value)
            &&& rt.set(id, scope, value).dirty == rt.dirty.insert(entry)
            &&& rt.set(id, scope, value).is_dirty(scope)
            &&& forall|other: ScopeId|
                other != scope ==> rt.set(id, scope, value).is_dirty(other) == rt.is_dirty(other)
            &&& rt.storage.write_error(id) is None ==> rt.write(id, scope).dirty
                == rt.dirty.insert(entry) && rt.write(id, scope).is_dirty(scope)
        }),
{
}

/// Looking the owner of a scope up again finds the owner made the first
/// time, and changes nothing.
pub proof fn lemma_ensure_owner_is_idempotent<T>(rt: RuntimeView<T>, scope: ScopeId)
    ensures
        rt.ensure_owner(scope).ensure_owner(scope) == rt.ensure_owner(scope),
        rt.has_scope(scope) ==> rt.ensure_owner(scope).has_owner(scope),
        rt.has_owner(scope) ==> rt.ensure_owner(scope) == rt,
{
}

/// Giving a scope an owner record keeps the ownership in order.
pub proof fn lemma_ensure_owner_keeps_wf<T>(rt: RuntimeView<T>, scope: ScopeId)
    requires
        rt.wf(),
    ensures
        rt.ensure_owner(scope).wf(),
{
    let next = rt.ensure_owner(scope);
    assert forall|s: int, k: int| #[trigger] next.lists(s, k) implies rt.lists(s, k)
        && next.listed(s, k) == rt.listed(s, k) by {}
    assert forall|id: GenerationalBoxId| #[trigger] next.storage.live(id) implies exists|
        s: int,
        k: int,
    | #[trigger] next.lists(s, k) && next.listed(s, k) == id by {
        let (s, k) = choose|s: int, k: int| #[trigger] rt.lists(s, k) && rt.listed(s, k) == id;
        assert(next.lists(s, k) && next.listed(s, k) == id);
    }
}

/// Storing a value in a cell of an owner keeps the ownership in order.
pub proof fn lemma_insert_owned_keeps_wf<T>(rt: RuntimeView<T>, scope: ScopeId, value: T)
    requires
        rt.wf(),
        rt.storage.insert(value).slots.len() <= usize::MAX,
    ensures
        rt.insert_owned(scope, value).wf(),
{
    if rt.has_owner(scope) {
        let next = rt.insert_owned(scope, value);
        let new = rt.storage.next_id();
        let at = rt.owned(scope).len() as int;
        lemma_apply_keeps_wf(rt.storage, CellOp::Insert(value));
        assert(!rt.storage.live(new));
        assert(next.storage.live(new));
        assert(next.lists(scope.0 as int, at) && next.listed(scope.0 as int, at) == new);
        assert forall|id: GenerationalBoxId| rt.storage.live(id) implies next.storage.live(id) by {}
        assert forall|s: int, k: int| #[trigger] next.lists(s, k) implies next.storage.live(
            next.listed(s, k),
        ) && (if s == scope.0 && k == at {
            next.listed(s, k) == new
        } else {
            rt.lists(s, k) && next.listed(s, k) == rt.listed(s, k)
        }) by {
            if !(s == scope.0 && k == at) {
                assert(rt.lists(s, k));
                assert(rt.storage.live(rt.listed(s, k)));
            }
        }
        assert forall|id: GenerationalBoxId| #[trigger] next.storage.live(id) implies exists|
            s: int,
            k: int,
        | #[trigger] next.lists(s, k) && next.listed(s, k) == id by {
            if id == new {
                assert(next.lists(scope.0 as int, at));
            } else {
                assert(rt.storage.live(id));
                let (s, k) = choose|s: int, k: int| #[trigger]
                    rt.lists(s, k) && rt.listed(s, k) == id;
                assert(next.lists(s, k) && next.listed(s, k) == id);
            }
        }
    }
}

/// Dropping an owner keeps the ownership in order: the cells of the
/// other owners are as live as before, and no live cell is left without
/// an owner.
pub proof fn lemma_drop_owner_keeps_wf<T>(rt: RuntimeView<T>, scope: ScopeId)
    requires
        rt.wf(),
    ensures
        rt.drop_owner(scope).wf(),
{
    if rt.has_owner(scope) {
        let next = rt.drop_owner(scope);
        let ids = rt.owned(scope);
        lemma_invalidate_from_keeps_wf(rt.storage, ids, 0);
        assert forall|s: int, k: int| #[trigger] next.lists(s, k) implies rt.lists(s, k)
            && s != scope.0 && next.listed(s, k) == rt.listed(s, k) && next.storage.live(
            next.listed(s, k),
        ) by {
            assert(rt.lists(s, k));
            assert(s != scope.0);
            let id = rt.listed(s, k);
            assert(rt.storage.live(id));
            assert forall|j: int| 0 <= j < ids.len() implies ids[j] != id by {
                assert(rt.lists(scope.0 as int, j));
                assert(rt.listed(scope.0 as int, j) == ids[j]);
            }
            lemma_invalidate_from_spares(rt.storage, ids, 0, id);
        }
        assert forall|id: GenerationalBoxId| #[trigger] next.storage.live(id) implies exists|
            s: int,
            k: int,
        | #[trigger] next.lists(s, k) && next.listed(s, k) == id by {
            lemma_invalidate_from_spares(rt.storage, ids, 0, id);
            let (s, k) = choose|s: int, k: int| #[trigger] rt.lists(s, k) && rt.listed(s, k) == id;
            if s == scope.0 {
                lemma_invalidate_from(rt.storage, ids, 0, id);
            }
            assert(next.lists(s, k) && next.listed(s, k) == id);
        }
    }
}

/// Removing a scope keeps the ownership in order.
pub proof fn lemma_remove_scope_keeps_wf<T>(rt: RuntimeView<T>, scope: ScopeId)
    requires
        rt.wf(),
    ensures
        rt.remove_scope(scope).wf(),
{
    if rt.has_scope(scope) {
        let dropped = rt.drop_owner(scope);
        let next = rt.remove_scope(scope);
        lemma_drop_owner_keeps_wf(rt, scope);
        assert forall|s: int, k: int| #[trigger] next.lists(s, k) implies dropped.lists(s, k)
            && next.listed(s, k) == dropped.listed(s, k) by {}
        assert forall|id: GenerationalBoxId| #[trigger] next.storage.live(id) implies exists|
            s: int,
            k: int,
        | #[trigger] next.lists(s, k) && next.listed(s, k) == id by {
            let (s, k) = choose|s: int, k: int| #[trigger]
                dropped.lists(s, k) && dropped.listed(s, k) == id;
            assert(next.lists(s, k) && next.listed(s, k) == id);
        }
    }
}

/// Registering a scope keeps the ownership in order.
pub proof fn lemma_create_scope_at_keeps_wf<T>(rt: RuntimeView<T>, scope: ScopeId, height: usize)
    requires
        rt.wf(),
    ensures
        rt.create_scope_at(scope, height).wf(),
{
    let base = rt.remove_scope(scope);
    let next = rt.create_scope_at(scope, height);
    lemma_remove_scope_keeps_wf(rt, scope);
    assert forall|s: int, k: int| #[trigger] next.lists(s, k) implies base.lists(s, k)
        && next.listed(s, k) == base.listed(s, k) by {}
    assert forall|id: GenerationalBoxId| #[trigger] next.storage.live(id) implies exists|
        s: int,
        k: int,
    | #[trigger] next.lists(s, k) && next.listed(s, k) == id by {
        let (s, k) = choose|s: int, k: int| #[trigger] base.lists(s, k) && base.listed(s, k) == id;
        assert(next.lists(s, k) && next.listed(s, k) == id);
    }
}

/// Borrowing, giving back, writing and replacing keep the ownership in
/// order: they make no cell and drop none.
pub proof fn lemma_access_keeps_wf<T>(rt: RuntimeView<T>, op: CellOp<T>, next: RuntimeView<T>)
    requires
        rt.wf(),
        !(op is Insert),
        !(op is Invalidate),
        next.storage == rt.storage.apply(op),
        next.contexts == rt.contexts,
    ensures
        next.wf(),
{
    lemma_apply_keeps_wf(rt.storage, op);
    assert forall|id: GenerationalBoxId| rt.storage.live(id) == next.storage.live(id) by {}
    assert forall|s: int, k: int| #[trigger] next.lists(s, k) implies rt.lists(s, k)
        && next.listed(s, k) == rt.listed(s, k) by {}
    assert forall|id: GenerationalBoxId| #[trigger] next.storage.live(id) implies exists|
        s: int,
        k: int,
    | #[trigger] next.lists(s, k) && next.listed(s, k) == id by {
        assert(rt.storage.live(id));
        let (s, k) = choose|s: int, k: int| #[trigger] rt.lists(s, k) && rt.listed(s, k) == id;
        assert(next.lists(s, k) && next.listed(s, k) == id);
    }
}

/// The ownership goes by the arena and the owner records, and by nothing
/// else.
pub proof fn lemma_same_cells_keep_wf<T>(rt: RuntimeView<T>, next: RuntimeView<T>)
    requires
        rt.wf(),
        next.storage == rt.storage,
        next.contexts == rt.contexts,
    ensures
        next.wf(),
{
    assert forall|s: int, k: int| #[trigger] next.lists(s, k) implies rt.lists(s, k)
        && next.listed(s, k) == rt.listed(s, k) by {}
    assert forall|id: GenerationalBoxId| #[trigger] next.storage.live(id) implies exists|
        s: int,
        k: int,
    | #[trigger] next.lists(s, k) && next.listed(s, k) == id by {
        let (s, k) = choose|s: int, k: int| #[trigger] rt.lists(s, k) && rt.listed(s, k) == id;
        assert(next.lists(s, k) && next.listed(s, k) == id);
    }
}

/// A cell stays with its owner. Giving a scope an owner record, and
/// storing a value in a cell of an owner, leave every cell with the scope
/// whose owner lists it.
pub proof fn lemma_new_cells_keep_owners<T>(
    rt: RuntimeView<T>,
    scope: ScopeId,
    value: T,
    holder: ScopeId,
    id: GenerationalBoxId,
)
    requires
        rt.owns(holder, id),
    ensures
        rt.ensure_owner(scope).owns(holder, id),
        rt.insert_owned(scope, value).owns(holder, id),
{
    let k = choose|k: int| #[trigger] rt.lists(holder.0 as int, k) && rt.listed(holder.0 as int, k) == id;
    let ensured = rt.ensure_owner(scope);
    assert(ensured.lists(holder.0 as int, k) && ensured.listed(holder.0 as int, k) == id);
    let stored = rt.insert_owned(scope, value);
    assert(stored.lists(holder.0 as int, k) && stored.listed(holder.0 as int, k) == id);
}

/// A cell stays with its owner while it lives. Dropping an owner,
/// removing a scope and registering a scope leave every cell that is
/// live afterwards with the scope whose owner listed it.
pub proof fn lemma_teardown_keeps_owners<T>(
    rt: RuntimeView<T>,
    scope: ScopeId,
    height: usize,
    holder: ScopeId,
    id: GenerationalBoxId,
)
    requires
        rt.wf(),
        rt.owns(holder, id),
    ensures
        rt.drop_owner(scope).storage.live(id) ==> rt.drop_owner(scope).owns(holder, id),
        rt.remove_scope(scope).storage.live(id) ==> rt.remove_scope(scope).owns(holder, id),
        rt.create_scope_at(scope, height).storage.live(id) ==> rt.create_scope_at(
            scope,
            height,
        ).owns(holder, id),
{
    let k = choose|k: int| #[trigger] rt.lists(holder.0 as int, k) && rt.listed(holder.0 as int, k) == id;
    assert(rt.storage.live(id));
    if rt.has_owner(scope) && holder.0 == scope.0 {
        lemma_invalidate_from(rt.storage, rt.owned(scope), 0, id);
    }
    let dropped = rt.drop_owner(scope);
    if dropped.storage.live(id) {
        assert(dropped.lists(holder.0 as int, k) && dropped.listed(holder.0 as int, k) == id);
    }
    let removed = rt.remove_scope(scope);
    if removed.storage.live(id) {
        assert(removed.lists(holder.0 as int, k) && removed.listed(holder.0 as int, k) == id);
    }
    let made = rt.create_scope_at(scope, height);
    if made.storage.live(id) {
        assert(made.lists(holder.0 as int, k) && made.listed(holder.0 as int, k) == id);
    }
}

/// The empty runtime is in order.
pub proof fn lemma_empty_runtime_is_wf<T>()
    ensures
        RuntimeView::<T>::empty().wf(),
{
}

} // verus!
