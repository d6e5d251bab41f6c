//! Generational arena of reactive cells with run-time checked borrowing.

use vstd::prelude::*;

verus! {

/// Why an access to a cell was refused.
#[derive(Clone, Copy, Debug, PartialEq, Eq, Structural)]
pub enum BorrowError {
    /// The access would alias an active borrow of the cell.
    BorrowConflict,
    /// The handle's generation is not the slot's: the cell it named is gone.
    StaleHandle,
}

/// Address of a cell: a slot index and the generation the slot had when the
/// cell was stored.
#[derive(Clone, Copy, Debug, PartialEq, Eq, Structural)]
pub struct GenerationalBoxId {
    pub slot: usize,
    pub generation: u64,
}

/// Borrows currently held on a slot.
#[derive(Clone, Copy, Debug, PartialEq, Eq, Structural)]
pub enum BorrowState {
    Idle,
    Shared(usize),
    Exclusive,
}

/// One slot of the arena.
pub struct Slot<T> {
    pub generation: u64,
    pub epoch: u64,
    pub borrow: BorrowState,
    pub payload: Option<T>,
}

/// What a borrow was taken on: slot, generation and the slot's borrow epoch.
#[derive(Clone, Copy, Debug, PartialEq, Eq, Structural)]
pub struct BorrowKey {
    pub slot: usize,
    pub generation: u64,
    pub epoch: u64,
}

/// Token for one shared borrow. It is given back with `release_read`;
/// dropping it does not give the borrow back, and leaves the cell
/// borrowed.
#[derive(Debug)]
#[must_use]
pub struct ReadGuard {
    key: BorrowKey,
}

/// Token for the exclusive borrow. It is given back with
/// `release_write`; dropping it does not give the borrow back, and leaves
/// the cell borrowed.
#[derive(Debug)]
#[must_use]
pub struct WriteGuard {
    key: BorrowKey,
}

impl View for ReadGuard {
    type V = BorrowKey;

    closed spec fn view(&self) -> BorrowKey {
        self.key
    }
}

impl View for WriteGuard {
    type V = BorrowKey;

    closed spec fn view(&self) -> BorrowKey {
        self.key
    }
}

/// Mathematical model of the arena.
pub struct StorageView<T> {
    pub slots: Seq<Slot<T>>,
    pub free: Seq<usize>,
}

impl<T> StorageView<T> {
    pub open spec fn empty() -> Self {
        StorageView { slots: Seq::empty(), free: Seq::empty() }
    }

    /// The slot holds a value.
    pub open spec fn occupied(self, slot: int) -> bool {
        0 <= slot < self.slots.len() && self.slots[slot].payload is Some
    }

    /// The handle names the value that its slot holds now.
    pub open spec fn live(self, id: GenerationalBoxId) -> bool {
        self.occupied(id.slot as int) && self.slots[id.slot as int].generation == id.generation
    }

    /// The borrow was taken on the value that the slot holds now, and has
    /// not been displaced since.
    pub open spec fn holds(self, key: BorrowKey) -> bool {
        &&& self.live(GenerationalBoxId { slot: key.slot, generation: key.generation })
        &&& self.slots[key.slot as int].epoch == key.epoch
    }

    pub open spec fn key_of(self, id: GenerationalBoxId) -> BorrowKey {
        BorrowKey {
            slot: id.slot,
            generation: id.generation,
            epoch: self.slots[id.slot as int].epoch,
        }
    }

    /// The top of the free list can take a new value.
    pub open spec fn reusable(self) -> bool {
        &&& self.free.len() > 0
        &&& self.free.last() < self.slots.len()
        &&& self.slots[self.free.last() as int].payload is None
    }

    /// The handle that the next `insert` returns.
    pub open spec fn next_id(self) -> GenerationalBoxId {
        if self.reusable() {
            GenerationalBoxId {
                slot: self.free.last(),
                generation: self.slots[self.free.last() as int].generation,
            }
        } else {
            GenerationalBoxId { slot: self.slots.len() as usize, generation: 0 }
        }
    }

    pub open spec fn insert(self, value: T) -> Self {
        if self.reusable() {
            let i = self.free.last() as int;
            StorageView {
                slots: self.slots.update(
                    i,
                    Slot {
                        generation: self.slots[i].generation,
                        epoch: 0,
                        borrow: BorrowState::Idle,
                        payload: Some(value),
                    },
                ),
                free: self.free.drop_last(),
            }
        } else {
            StorageView {
                slots: self.slots.push(
                    Slot { generation: 0, epoch: 0, borrow: BorrowState::Idle, payload: Some(value) },
                ),
                free: if self.free.len() > 0 {
                    self.free.drop_last()
                } else {
                    self.free
                },
            }
        }
    }

    /// Why a shared borrow through `id` is refused, if it is: a stale
    /// handle is, and any handle while the exclusive borrow is held.
    pub open spec fn read_error(self, id: GenerationalBoxId) -> Option<BorrowError> {
        if !self.live(id) {
            Some(BorrowError::StaleHandle)
        } else {
            match self.slots[id.slot as int].borrow {
                BorrowState::Exclusive => Some(BorrowError::BorrowConflict),
                _ => None,
            }
        }
    }

    /// Why an exclusive borrow through `id` is refused, if it is.
    pub open spec fn write_error(self, id: GenerationalBoxId) -> Option<BorrowError> {
        if !self.live(id) {
            Some(BorrowError::StaleHandle)
        } else if self.slots[id.slot as int].borrow != BorrowState::Idle {
            Some(BorrowError::BorrowConflict)
        } else {
            None
        }
    }

    pub open spec fn with_borrow(self, slot: int, borrow: BorrowState) -> Self {
        let s = self.slots[slot];
        StorageView {
            slots: self.slots.update(
                slot,
                Slot { generation: s.generation, epoch: s.epoch, borrow, payload: s.payload },
            ),
            free: self.free,
        }
    }

    /// The arena after `try_read(id)`. The count of shared borrows stops
    /// at the greatest number it can hold.
    pub open spec fn read(self, id: GenerationalBoxId) -> Self {
        if self.read_error(id) is Some {
            self
        } else {
            match self.slots[id.slot as int].borrow {
                BorrowState::Shared(n) => if n < usize::MAX {
                    self.with_borrow(id.slot as int, BorrowState::Shared((n + 1) as usize))
                } else {
                    self
                },
                _ => self.with_borrow(id.slot as int, BorrowState::Shared(1)),
            }
        }
    }

    /// The arena after `try_write(id)`.
    pub open spec fn write(self, id: GenerationalBoxId) -> Self {
        if self.write_error(id) is Some {
            self
        } else {
            self.with_borrow(id.slot as int, BorrowState::Exclusive)
        }
    }

    /// The arena after a shared borrow is given back. A count that has
    /// stopped at the greatest number stays there, since it no longer
    /// tells how many borrows are held: the cell then counts as read until
    /// its value is replaced or dropped.
    pub open spec fn release_read(self, key: BorrowKey) -> Self {
        if !self.holds(key) {
            self
        } else {
            match self.slots[key.slot as int].borrow {
                BorrowState::Shared(n) => if n == usize::MAX {
                    self
                } else if n > 1 {
                    self.with_borrow(key.slot as int, BorrowState::Shared((n - 1) as usize))
                } else {
                    self.with_borrow(key.slot as int, BorrowState::Idle)
                },
                _ => self,
            }
        }
    }

    /// The arena after the exclusive borrow is given back.
    pub open spec fn release_write(self, key: BorrowKey) -> Self {
        if self.holds(key) && self.slots[key.slot as int].borrow == BorrowState::Exclusive {
            self.with_borrow(key.slot as int, BorrowState::Idle)
        } else {
            self
        }
    }

    /// The value seen through a shared borrow, while it holds.
    pub open spec fn shared_value(self, key: BorrowKey) -> Option<T> {
        if self.holds(key) && self.slots[key.slot as int].borrow is Shared {
            self.slots[key.slot as int].payload
        } else {
            None
        }
    }

    /// The value seen through the exclusive borrow, while it holds.
    pub open spec fn exclusive_value(self, key: BorrowKey) -> Option<T> {
        if self.can_update(key) {
            self.slots[key.slot as int].payload
        } else {
            None
        }
    }

    /// The write through `key` lands: the borrow holds and is the exclusive one.
    pub open spec fn can_update(self, key: BorrowKey) -> bool {
        self.holds(key) && self.slots[key.slot as int].borrow == BorrowState::Exclusive
    }

    pub open spec fn with_payload(self, slot: int, value: T) -> Self {
        let s = self.slots[slot];
        StorageView {
            slots: self.slots.update(
                slot,
                Slot {
                    generation: s.generation,
                    epoch: s.epoch,
                    borrow: s.borrow,
                    payload: Some(value),
                },
            ),
            free: self.free,
        }
    }

    /// The arena after `update(key, value)`.
    pub open spec fn update(self, key: BorrowKey, value: T) -> Self {
        if self.can_update(key) {
            self.with_payload(key.slot as int, value)
        } else {
            self
        }
    }

    /// Why `set(id, _)` is refused, if it is: only a stale handle is.
    pub open spec fn set_error(self, id: GenerationalBoxId) -> Option<BorrowError> {
        if !self.live(id) {
            Some(BorrowError::StaleHandle)
        } else {
            None
        }
    }

    /// The borrows in flight on the cell are displaced by `set`: there
    /// are some, and the slot has an epoch left to tell them from later
    /// ones.
    pub open spec fn displaces(self, id: GenerationalBoxId) -> bool {
        &&& self.live(id)
        &&& self.slots[id.slot as int].borrow != BorrowState::Idle
        &&& self.slots[id.slot as int].epoch < u64::MAX
    }

    /// The arena after `set(id, value)`: the value is replaced, and borrows
    /// in flight on the old value are displaced. (On a slot whose epochs
    /// are used up they stay in flight, on the new value.)
    pub open spec fn set(self, id: GenerationalBoxId, value: T) -> Self {
        if self.set_error(id) is Some {
            self
        } else if self.displaces(id) {
            let s = self.slots[id.slot as int];
            StorageView {
                slots: self.slots.update(
                    id.slot as int,
                    Slot {
                        generation: s.generation,
                        epoch: (s.epoch + 1) as u64,
                        borrow: BorrowState::Idle,
                        payload: Some(value),
                    },
                ),
                free: self.free,
            }
        } else {
            self.with_payload(id.slot as int, value)
        }
    }

    /// The arena after `invalidate(id)`: the value is dropped and the slot's
    /// generation moves on. A slot whose generations are used up is retired.
    pub open spec fn invalidate(self, id: GenerationalBoxId) -> Self {
        if !self.live(id) {
            self
        } else {
            let s = self.slots[id.slot as int];
            if s.generation < u64::MAX {
                StorageView {
                    slots: self.slots.update(
                        id.slot as int,
                        Slot {
                            generation: (s.generation + 1) as u64,
                            epoch: 0,
                            borrow: BorrowState::Idle,
                            payload: None,
                        },
                    ),
                    free: self.free.push(id.slot),
                }
            } else {
                StorageView {
                    slots: self.slots.update(
                        id.slot as int,
                        Slot {
                            generation: s.generation,
                            epoch: 0,
                            borrow: BorrowState::Idle,
                            payload: None,
                        },
                    ),
                    free: self.free,
                }
            }
        }
    }
}

/// One operation on the arena.
pub enum CellOp<T> {
    Insert(T),
    Read(GenerationalBoxId),
    Write(GenerationalBoxId),
    ReleaseRead(BorrowKey),
    ReleaseWrite(BorrowKey),
    Update(BorrowKey, T),
    SetValue(GenerationalBoxId, T),
    Invalidate(GenerationalBoxId),
}

impl<T> StorageView<T> {
    /// The free list is in order: it names slots of the arena, each once,
    /// and each of them vacant.
    pub open spec fn wf(self) -> bool {
        &&& self.free.no_duplicates()
        &&& forall|k: int|
            0 <= k < self.free.len() ==> (#[trigger] self.free[k]) < self.slots.len()
                && self.slots[self.free[k] as int].payload is None
    }

    /// The handle is stale for good: its slot has moved on to a later
    /// generation, or is vacant and will take no value again.
    pub open spec fn gone(self, id: GenerationalBoxId) -> bool {
        &&& id.slot < self.slots.len()
        &&& {
            ||| self.slots[id.slot as int].generation > id.generation
            ||| self.slots[id.slot as int].payload is None && !self.free.contains(id.slot)
        }
    }

    /// The arena after one operation.
    pub open spec fn apply(self, op: CellOp<T>) -> Self {
        match op {
            CellOp::Insert(value) => self.insert(value),
            CellOp::Read(id) => self.read(id),
            CellOp::Write(id) => self.write(id),
            CellOp::ReleaseRead(key) => self.release_read(key),
            CellOp::ReleaseWrite(key) => self.release_write(key),
            CellOp::Update(key, value) => self.update(key, value),
            CellOp::SetValue(id, value) => self.set(id, value),
            CellOp::Invalidate(id) => self.invalidate(id),
        }
    }

    /// The arena after the operations `ops`, in order.
    pub open spec fn run(self, ops: Seq<CellOp<T>>) -> Self
        decreases ops.len(),
    {
        if ops.len() == 0 {
            self
        } else {
            self.run(ops.drop_last()).apply(ops.last())
        }
    }
}

/// The arena: a vector of slots and a stack of slots to reuse.
pub struct Storage<T> {
    slots: Vec<Slot<T>>,
    free: Vec<usize>,
}

impl<T> View for Storage<T> {
    type V = StorageView<T>;

    closed spec fn view(&self) -> StorageView<T> {
        StorageView { slots: self.slots@, free: self.free@ }
    }
}

impl<T> Storage<T> {
    pub fn new() -> (s: Self)
        ensures
            s@ == StorageView::<T>::empty(),
            s@.wf(),
    {
        proof {
            crate::cell_laws::lemma_empty_is_wf::<T>();
        }
        Storage { slots: Vec::new(), free: Vec::new() }
    }

    /// Slot indices fit the machine word: no slot has index `usize::MAX`.
    pub proof fn lemma_slots_fit(&self)
        ensures
            self@.slots.len() <= usize::MAX,
    {
        assert(self.slots.len() == self.slots@.len());
    }

    /// Stores `value` in a free slot and returns its handle.
    pub fn insert(&mut self, value: T) -> (id: GenerationalBoxId)
        ensures
            id == old(self)@.next_id(),
            final(self)@ == old(self)@.insert(value),
            old(self)@.wf() ==> final(self)@.wf(),
            final(self)@.live(id),            final(self)@.slots[id.slot as int].borrow == BorrowState::Idle,
    {
        proof {
            self.lemma_slots_fit();
            crate::cell_laws::lemma_inserted_is_idle(self@, value);
        }
        proof {
            if self@.wf() {
                crate::cell_laws::lemma_apply_keeps_wf(self@, CellOp::Insert(value));
            }
        }
        let n = self.slots.len();
        match self.free.pop() {
            Some(i) => {
                if i < n && self.slots[i].payload.is_none() {
                    let generation = self.slots[i].generation;
                    self.slots[i].epoch = 0;
                    self.slots[i].borrow = BorrowState::Idle;
                    self.slots[i].payload = Some(value);
                    assert(self@.slots =~= old(self)@.insert(value).slots);
                    assert(self@.free =~= old(self)@.insert(value).free);
                    return GenerationalBoxId { slot: i, generation };
                }
            },
            None => {},
        }
        self.slots.push(
            Slot { generation: 0, epoch: 0, borrow: BorrowState::Idle, payload: Some(value) },
        );
        GenerationalBoxId { slot: n, generation: 0 }
    }

    /// Whether `id` names the value that its slot holds now.
    pub fn is_live(&self, id: GenerationalBoxId) -> (b: bool)
        ensures
            b == self@.live(id),
    {
        id.slot < self.slots.len() && self.slots[id.slot].payload.is_some()
            && self.slots[id.slot].generation == id.generation
    }
    /// Takes a shared borrow of the value that `id` names. Any number of
    /// shared borrows may be held at once, none beside the exclusive one.
    /// The borrow is held until the guard is given back with
    /// `release_read`: a guard that is dropped or forgotten leaves the
    /// cell borrowed.
    pub fn try_read(&mut self, id: GenerationalBoxId) -> (r: Result<ReadGuard, BorrowError>)
        ensures
            final(self)@ == old(self)@.read(id),
            old(self)@.wf() ==> final(self)@.wf(),
            match r {
                Ok(g) => old(self)@.read_error(id) is None && g@ == old(self)@.key_of(id),
                Err(e) => old(self)@.read_error(id) == Some(e),
            },
    {
        proof {
            if self@.wf() {
                crate::cell_laws::lemma_apply_keeps_wf(self@, CellOp::Read(id));
            }
        }
        if !self.is_live(id) {
            return Err(BorrowError::StaleHandle);
        }
        let held: usize = match self.slots[id.slot].borrow {
            BorrowState::Idle => 0,
            BorrowState::Shared(n) => n,
            BorrowState::Exclusive => {
                return Err(BorrowError::BorrowConflict);
            },
        };
        let epoch = self.slots[id.slot].epoch;
        if held < usize::MAX {
            self.slots[id.slot].borrow = BorrowState::Shared(held + 1);
        }
        assert(self@.slots =~= old(self)@.read(id).slots);
        Ok(ReadGuard { key: BorrowKey { slot: id.slot, generation: id.generation, epoch } })
    }

    /// Takes the exclusive borrow of the value that `id` names. It is
    /// refused while any other borrow of that value is held. The borrow is
    /// held until the guard is given back with `release_write`: a guard
    /// that is dropped or forgotten leaves the cell borrowed.
    pub fn try_write(&mut self, id: GenerationalBoxId) -> (r: Result<WriteGuard, BorrowError>)
        ensures
            final(self)@ == old(self)@.write(id),
            old(self)@.wf() ==> final(self)@.wf(),
            match r {
                Ok(g) => old(self)@.write_error(id) is None && g@ == old(self)@.key_of(id),
                Err(e) => old(self)@.write_error(id) == Some(e),
            },
    {
        proof {
            if self@.wf() {
                crate::cell_laws::lemma_apply_keeps_wf(self@, CellOp::Write(id));
            }
        }
        if !self.is_live(id) {
            return Err(BorrowError::StaleHandle);
        }
        match self.slots[id.slot].borrow {
            BorrowState::Idle => {},
            _ => {
                return Err(BorrowError::BorrowConflict);
            },
        }
        let epoch = self.slots[id.slot].epoch;
        self.slots[id.slot].borrow = BorrowState::Exclusive;
        assert(self@.slots =~= old(self)@.write(id).slots);
        Ok(WriteGuard { key: BorrowKey { slot: id.slot, generation: id.generation, epoch } })
    }

    /// Gives a shared borrow back. A borrow that no longer holds (its value
    /// was dropped or replaced under it) is forgotten without effect.
    pub fn release_read(&mut self, guard: ReadGuard)
        ensures
            old(self)@.wf() ==> final(self)@.wf(),
            final(self)@ == old(self)@.release_read(guard@),
    {
        proof {
            if self@.wf() {
                crate::cell_laws::lemma_apply_keeps_wf(self@, CellOp::ReleaseRead(guard@));
            }
        }
        let key = guard.key;
        if !self.holds(key) {
            return ;
        }
        match self.slots[key.slot].borrow {
            BorrowState::Shared(n) => {
                if n == usize::MAX {
                } else if n > 1 {
                    self.slots[key.slot].borrow = BorrowState::Shared(n - 1);
                } else {
                    self.slots[key.slot].borrow = BorrowState::Idle;
                }
                assert(self@.slots =~= old(self)@.release_read(key).slots);
            },
            _ => {},
        }
    }

    /// Gives the exclusive borrow back. A borrow that no longer holds is
    /// forgotten without effect.
    pub fn release_write(&mut self, guard: WriteGuard)
        ensures
            old(self)@.wf() ==> final(self)@.wf(),
            final(self)@ == old(self)@.release_write(guard@),
    {
        proof {
            if self@.wf() {
                crate::cell_laws::lemma_apply_keeps_wf(self@, CellOp::ReleaseWrite(guard@));
            }
        }
        let key = guard.key;
        if !self.holds(key) {
            return ;
        }
        match self.slots[key.slot].borrow {
            BorrowState::Exclusive => {
                self.slots[key.slot].borrow = BorrowState::Idle;
                assert(self@.slots =~= old(self)@.release_write(key).slots);
            },
            _ => {},
        }
    }

    fn holds(&self, key: BorrowKey) -> (b: bool)
        ensures
            b == self@.holds(key),
    {
        self.is_live(GenerationalBoxId { slot: key.slot, generation: key.generation })
            && self.slots[key.slot].epoch == key.epoch
    }

    /// The value behind a shared borrow, or `None` once the borrow no
    /// longer holds.
    pub fn get(&self, guard: &ReadGuard) -> (r: Option<&T>)
        ensures
            match r {
                Some(v) => self@.shared_value(guard@) == Some(*v),
                None => self@.shared_value(guard@) is None,
            },
    {
        let key = guard.key;
        if !self.holds(key) {
            return None;
        }
        match self.slots[key.slot].borrow {
            BorrowState::Shared(_) => self.slots[key.slot].payload.as_ref(),
            _ => None,
        }
    }

    /// The value behind the exclusive borrow, or `None` once the borrow no
    /// longer holds.
    pub fn get_exclusive(&self, guard: &WriteGuard) -> (r: Option<&T>)
        ensures
            match r {
                Some(v) => self@.exclusive_value(guard@) == Some(*v),
                None => self@.exclusive_value(guard@) is None,
            },
    {
        let key = guard.key;
        if !self.holds(key) {
            return None;
        }
        match self.slots[key.slot].borrow {
            BorrowState::Exclusive => self.slots[key.slot].payload.as_ref(),
            _ => None,
        }
    }

    /// Writes `value` through the exclusive borrow. Returns whether the
    /// borrow still held, that is, whether the value was written.
    pub fn update(&mut self, guard: &WriteGuard, value: T) -> (written: bool)
        ensures
            old(self)@.wf() ==> final(self)@.wf(),
            written == old(self)@.can_update(guard@),
            final(self)@ == old(self)@.update(guard@, value),
    {
        proof {
            if self@.wf() {
                crate::cell_laws::lemma_apply_keeps_wf(self@, CellOp::Update(guard@, value));
            }
        }
        let key = guard.key;
        if !self.holds(key) {
            return false;
        }
        match self.slots[key.slot].borrow {
            BorrowState::Exclusive => {
                self.slots[key.slot].payload = Some(value);
                assert(self@.slots =~= old(self)@.update(key, value).slots);
                true
            },
            _ => false,
        }
    }

    /// Replaces the value that `id` names. Borrows in flight on the old
    /// value are displaced: they no longer hold, and the slot is idle.
    pub fn set(&mut self, id: GenerationalBoxId, value: T) -> (r: Result<(), BorrowError>)
        ensures
            final(self)@ == old(self)@.set(id, value),
            old(self)@.wf() ==> final(self)@.wf(),
            match r {
                Ok(_) => old(self)@.set_error(id) is None,
                Err(e) => old(self)@.set_error(id) == Some(e),
            },
    {
        proof {
            if self@.wf() {
                crate::cell_laws::lemma_apply_keeps_wf(self@, CellOp::SetValue(id, value));
            }
        }
        if !self.is_live(id) {
            return Err(BorrowError::StaleHandle);
        }
        match self.slots[id.slot].borrow {
            BorrowState::Idle => {},
            _ => {
                let epoch = self.slots[id.slot].epoch;
                if epoch < u64::MAX {
                    self.slots[id.slot].epoch = epoch + 1;
                    self.slots[id.slot].borrow = BorrowState::Idle;
                }
            },
        }
        self.slots[id.slot].payload = Some(value);
        assert(self@.slots =~= old(self)@.set(id, value).slots);
        Ok(())
    }

    /// Drops the value that `id` names and moves the slot's generation on,
    /// so that every handle to the value is stale. Returns whether `id` was
    /// live.
    pub fn invalidate(&mut self, id: GenerationalBoxId) -> (was_live: bool)
        ensures
            was_live == old(self)@.live(id),
            final(self)@ == old(self)@.invalidate(id),
            old(self)@.wf() ==> final(self)@.wf(),
            !final(self)@.live(id),
    {
        proof {
            if self@.wf() {
                crate::cell_laws::lemma_apply_keeps_wf(self@, CellOp::Invalidate(id));
            }
        }
        if !self.is_live(id) {
            return false;
        }
        self.slots[id.slot].payload = None;
        self.slots[id.slot].borrow = BorrowState::Idle;
        self.slots[id.slot].epoch = 0;
        if id.generation < u64::MAX {
            self.slots[id.slot].generation = id.generation + 1;
            self.free.push(id.slot);
        }
        assert(self@.slots =~= old(self)@.invalidate(id).slots);
        assert(self@.free =~= old(self)@.invalidate(id).free);
        true
    }

    /// The value that `id` names, seen in place. The shared borrow is the
    /// borrow of the arena itself, which ends with the reference; it is
    /// refused exactly when `try_read` is.
    pub fn inspect(&self, id: GenerationalBoxId) -> (r: Result<&T, BorrowError>)
        ensures
            match r {
                Ok(v) => self@.read_error(id) is None && self@.slots[id.slot as int].payload
                    == Some(*v),
                Err(e) => self@.read_error(id) == Some(e),
            },
    {
        if !self.is_live(id) {
            return Err(BorrowError::StaleHandle);
        }
        match self.slots[id.slot].borrow {
            BorrowState::Exclusive => {
                return Err(BorrowError::BorrowConflict);
            },
            _ => {},
        }
        match &self.slots[id.slot].payload {
            Some(v) => Ok(v),
            None => Err(BorrowError::StaleHandle),
        }
    }

    /// A copy of the value that `id` names, refused exactly when
    /// `try_read` is.
    pub fn copied(&self, id: GenerationalBoxId) -> (r: Result<T, BorrowError>) where T: Copy
        ensures
            match r {
                Ok(v) => self@.read_error(id) is None && self@.slots[id.slot as int].payload
                    == Some(v),
                Err(e) => self@.read_error(id) == Some(e),
            },
    {
        match self.inspect(id) {
            Ok(v) => Ok(*v),
            Err(e) => Err(e),
        }
    }

    /// The borrows held on the value that `id` names, if it is live.
    pub fn borrow_state(&self, id: GenerationalBoxId) -> (r: Option<BorrowState>)
        ensures
            r == (if self@.live(id) {
                Some(self@.slots[id.slot as int].borrow)
            } else {
                None
            }),
    {
        if self.is_live(id) {
            Some(self.slots[id.slot].borrow)
        } else {
            None
        }
    }
}

} // verus!
