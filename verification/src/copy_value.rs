//! `CopyValue`: a small copyable handle to a reactive cell, and the owner
//! lookup that decides which scope a new cell belongs to.

use crate::runtime::{Runtime, ScopeId};
use core::marker::PhantomData;
use crate::storage::{BorrowError, GenerationalBoxId, ReadGuard, WriteGuard};
use vstd::pervasive::unreached;
use vstd::prelude::*;
use vstd::std_specs::cmp::PartialEqSpecImpl;

verus! {

/// The owner record of a scope: cells made through it are dropped with the
/// scope.
#[derive(Clone, Copy, Debug, PartialEq, Eq, Structural)]
pub struct Owner {
    pub scope: ScopeId,
}

impl Owner {
    /// Stores `value` in a new cell of this owner.
    pub fn insert<T>(&self, rt: &mut Runtime<T>, value: T) -> (id: GenerationalBoxId)
        requires
            old(rt)@.has_owner(self.scope),
        ensures
            old(rt)@.wf() ==> final(rt)@.wf(),
            id == old(rt)@.storage.next_id(),
            final(rt)@ == old(rt)@.insert_owned(self.scope, value),
            final(rt)@.storage.live(id),
    {
        match rt.insert_owned(self.scope, value) {
            Some(id) => id,
            None => unreached(),
        }
    }

    /// A handle that names no cell: every access through it is stale.
    pub fn invalid<T>(&self, rt: &Runtime<T>) -> (id: GenerationalBoxId)
        ensures
            !rt@.storage.live(id),
            id == (GenerationalBoxId { slot: usize::MAX, generation: 0 }),
    {
        let id = GenerationalBoxId { slot: usize::MAX, generation: 0 };
        let live = rt.is_live(id);
        assert(!live) by {
            rt.lemma_slots_fit();
        }
        id
    }
}

/// The owner of `scope`, made on first use.
pub fn owner_in_scope<T>(rt: &mut Runtime<T>, scope: ScopeId) -> (owner: Owner)
    requires
        old(rt)@.has_scope(scope),
    ensures
        old(rt)@.wf() ==> final(rt)@.wf(),
        owner.scope == scope,
        final(rt)@ == old(rt)@.ensure_owner(scope),
        final(rt)@.has_owner(scope),
{
    rt.ensure_owner(scope);
    Owner { scope }
}

/// The owner that takes a cell made now. Inside a running effect it is the
/// owner of the scope that started the effect; otherwise it is the owner of
/// the current scope. Either is made on first use.
pub fn current_owner<T>(rt: &mut Runtime<T>) -> (owner: Owner)
    requires
        old(rt)@.owner_scope() matches Some(scope) && old(rt)@.has_scope(scope),
    ensures
        old(rt)@.wf() ==> final(rt)@.wf(),
        old(rt)@.owner_scope() == Some(owner.scope),
        final(rt)@ == old(rt)@.ensure_owner(owner.scope),
        final(rt)@.has_owner(owner.scope),
{
    match rt.current_effect() {
        Some(effect) => owner_in_scope(rt, effect.source),
        None => {
            match rt.current_scope_id() {
                Some(scope) => owner_in_scope(rt, scope),
                None => unreached(),
            }
        },
    }
}

/// A copyable handle to a reactive cell that holds a `T`. Two handles are
/// equal when they name the same cell, whatever the cell holds. The
/// handle carries the scope it was made in, and the scope that owns the
/// cell: the scope whose owner record lists it. Inside an effect the two
/// differ. The owning scope is marked dirty when the cell is written.
#[derive(Debug)]
pub struct CopyValue<T> {
    value: GenerationalBoxId,
    origin_scope: ScopeId,
    owner_scope: ScopeId,
    holds: PhantomData<T>,
}

impl<T> Clone for CopyValue<T> {
    fn clone(&self) -> (copy: Self)
        ensures
            copy == *self,
    {
        *self
    }
}

impl<T> Copy for CopyValue<T> {

}

impl<T> PartialEq for CopyValue<T> {
    fn eq(&self, other: &Self) -> (r: bool) {
        self.value.slot == other.value.slot && self.value.generation == other.value.generation
    }
}

impl<T> PartialEqSpecImpl for CopyValue<T> {
    open spec fn obeys_eq_spec() -> bool {
        true
    }

    open spec fn eq_spec(&self, other: &Self) -> bool {
        self.id() == other.id()
    }
}

impl<T> CopyValue<T> {
    pub closed spec fn spec_id(&self) -> GenerationalBoxId {
        self.value
    }

    pub closed spec fn spec_origin_scope(&self) -> ScopeId {
        self.origin_scope
    }

    pub closed spec fn spec_owner_scope(&self) -> ScopeId {
        self.owner_scope
    }

    /// Creates a cell in the current component. It is dropped with the
    /// scope that owns it.
    pub fn new(rt: &mut Runtime<T>, value: Box<T>) -> (cell: Self)
        requires
            old(rt)@.current_scope() is Some,
            old(rt)@.owner_scope() matches Some(scope) && old(rt)@.has_scope(scope),
        ensures
            old(rt)@.wf() ==> final(rt)@.wf(),
            cell.id() == old(rt)@.storage.next_id(),
            Some(cell.origin_scope()) == old(rt)@.current_scope(),
            Some(cell.owner_scope()) == old(rt)@.owner_scope(),
            final(rt)@.owned(cell.owner_scope()) == old(rt)@.owned(cell.owner_scope()).push(
                cell.id(),
            ),
            final(rt)@.owns(cell.owner_scope(), cell.id()),
            final(rt)@ == old(rt)@.ensure_owner(old(rt)@.owner_scope()->0).insert_owned(
                old(rt)@.owner_scope()->0,
                *value,
            ),
            final(rt)@.storage.live(cell.id()),
    {
        Self::new_maybe_sync(rt, value)
    }

    /// Creates a cell owned by `scope`. It is dropped with that scope.
    pub fn new_in_scope(rt: &mut Runtime<T>, value: Box<T>, scope: ScopeId) -> (cell: Self)
        requires
            old(rt)@.has_scope(scope),
        ensures
            old(rt)@.wf() ==> final(rt)@.wf(),
            cell.id() == old(rt)@.storage.next_id(),
            cell.origin_scope() == scope,
            cell.owner_scope() == scope,
            final(rt)@.owned(scope) == old(rt)@.owned(scope).push(cell.id()),
            final(rt)@.owns(scope, cell.id()),
            final(rt)@ == old(rt)@.ensure_owner(scope).insert_owned(scope, *value),
            final(rt)@.storage.live(cell.id()),
    {
        Self::new_maybe_sync_in_scope(rt, value, scope)
    }

    /// Creates a cell in the current component. It is dropped with the
    /// scope that owns it.
    pub fn new_maybe_sync(rt: &mut Runtime<T>, value: Box<T>) -> (cell: Self)
        requires
            old(rt)@.current_scope() is Some,
            old(rt)@.owner_scope() matches Some(scope) && old(rt)@.has_scope(scope),
        ensures
            old(rt)@.wf() ==> final(rt)@.wf(),
            cell.id() == old(rt)@.storage.next_id(),
            Some(cell.origin_scope()) == old(rt)@.current_scope(),
            Some(cell.owner_scope()) == old(rt)@.owner_scope(),
            final(rt)@.owned(cell.owner_scope()) == old(rt)@.owned(cell.owner_scope()).push(
                cell.id(),
            ),
            final(rt)@.owns(cell.owner_scope(), cell.id()),
            final(rt)@ == old(rt)@.ensure_owner(old(rt)@.owner_scope()->0).insert_owned(
                old(rt)@.owner_scope()->0,
                *value,
            ),
            final(rt)@.storage.live(cell.id()),
    {
        let owner = current_owner(rt);
        let origin_scope = match rt.current_scope_id() {
            Some(scope) => scope,
            None => unreached(),
        };
        let id = owner.insert(rt, *value);
        proof {
            let k = rt@.owned(owner.scope).len() - 1;
            assert(rt@.lists(owner.scope.0 as int, k) && rt@.listed(owner.scope.0 as int, k)
                == id);
        }
        CopyValue { value: id, origin_scope, owner_scope: owner.scope, holds: PhantomData }
    }

    /// Creates a cell owned by `scope`. It is dropped with that scope.
    pub fn new_maybe_sync_in_scope(rt: &mut Runtime<T>, value: Box<T>, scope: ScopeId) -> (cell:
        Self)
        requires
            old(rt)@.has_scope(scope),
        ensures
            old(rt)@.wf() ==> final(rt)@.wf(),
            cell.id() == old(rt)@.storage.next_id(),
            cell.origin_scope() == scope,
            cell.owner_scope() == scope,
            final(rt)@.owned(scope) == old(rt)@.owned(scope).push(cell.id()),
            final(rt)@.owns(scope, cell.id()),
            final(rt)@ == old(rt)@.ensure_owner(scope).insert_owned(scope, *value),
            final(rt)@.storage.live(cell.id()),
    {
        let owner = owner_in_scope(rt, scope);
        let id = owner.insert(rt, *value);
        proof {
            let k = rt@.owned(scope).len() - 1;
            assert(rt@.lists(scope.0 as int, k) && rt@.listed(scope.0 as int, k) == id);
        }
        CopyValue { value: id, origin_scope: scope, owner_scope: owner.scope, holds: PhantomData }
    }

    /// A handle of the current component that names no cell.
    pub fn invalid(rt: &mut Runtime<T>) -> (cell: Self)
        requires
            old(rt)@.current_scope() is Some,
            old(rt)@.owner_scope() matches Some(scope) && old(rt)@.has_scope(scope),
        ensures
            old(rt)@.wf() ==> final(rt)@.wf(),
            Some(cell.origin_scope()) == old(rt)@.current_scope(),
            Some(cell.owner_scope()) == old(rt)@.owner_scope(),
            final(rt)@ == old(rt)@.ensure_owner(old(rt)@.owner_scope()->0),
            !final(rt)@.storage.live(cell.id()),
    {
        let owner = current_owner(rt);
        let origin_scope = match rt.current_scope_id() {
            Some(scope) => scope,
            None => unreached(),
        };
        CopyValue {
            value: owner.invalid(rt),
            origin_scope,
            owner_scope: owner.scope,
            holds: PhantomData,
        }
    }

    /// The scope this value was created in.
    #[verifier::when_used_as_spec(spec_origin_scope)]
    pub fn origin_scope(&self) -> (scope: ScopeId)
        ensures
            scope == self.origin_scope(),
    {
        self.origin_scope
    }

    /// The scope that owns the value: the scope whose owner record lists
    /// the cell, and with which the cell is dropped. It is the scope that
    /// a write marks dirty.
    #[verifier::when_used_as_spec(spec_owner_scope)]
    pub fn owner_scope(&self) -> (scope: ScopeId)
        ensures
            scope == self.owner_scope(),
    {
        self.owner_scope
    }

    /// The generational id of the value.
    #[verifier::when_used_as_spec(spec_id)]
    pub fn id(&self) -> (id: GenerationalBoxId)
        ensures
            id == self.id(),
    {
        self.value
    }

    /// Takes a shared borrow of the cell. The borrow is held until the
    /// guard is given back with `release_read`: a guard that is dropped or
    /// forgotten leaves the cell borrowed.
    pub fn try_read(&self, rt: &mut Runtime<T>) -> (r: Result<ReadGuard, BorrowError>)
        ensures
            old(rt)@.wf() ==> final(rt)@.wf(),
            final(rt)@ == old(rt)@.with_storage(old(rt)@.storage.read(self.id())),
            match r {
                Ok(g) => old(rt)@.storage.read_error(self.id()) is None && g@ == old(
                    rt,
                )@.storage.key_of(self.id()),
                Err(e) => old(rt)@.storage.read_error(self.id()) == Some(e),
            },
    {
        rt.try_read(self.value)
    }

    /// Takes a shared borrow of a cell that is live and not being written.
    /// The borrow is held until the guard is given back with
    /// `release_read`: a guard that is dropped or forgotten leaves the
    /// cell borrowed.
    pub fn read(&self, rt: &mut Runtime<T>) -> (guard: ReadGuard)
        requires
            old(rt)@.storage.read_error(self.id()) is None,
        ensures
            old(rt)@.wf() ==> final(rt)@.wf(),
            final(rt)@ == old(rt)@.with_storage(old(rt)@.storage.read(self.id())),
            guard@ == old(rt)@.storage.key_of(self.id()),
    {
        let id = self.value;
        match rt.try_read(id) {
            Ok(guard) => guard,
            Err(_) => unreached(),
        }
    }

    /// Takes a shared borrow of a cell that is live and not being written.
    pub fn peek(&self, rt: &mut Runtime<T>) -> (guard: ReadGuard)
        requires
            old(rt)@.storage.read_error(self.id()) is None,
        ensures
            old(rt)@.wf() ==> final(rt)@.wf(),
            final(rt)@ == old(rt)@.with_storage(old(rt)@.storage.read(self.id())),
            guard@ == old(rt)@.storage.key_of(self.id()),
    {
        self.read(rt)
    }

    /// The cell's current value, seen in place: refused exactly when
    /// `try_read` is.
    pub fn inspect<'a>(&self, rt: &'a Runtime<T>) -> (r: Result<&'a T, BorrowError>)
        ensures
            match r {
                Ok(v) => rt@.storage.read_error(self.id()) is None && rt@.storage.slots[self.id().slot as int].payload
                    == Some(*v),
                Err(e) => rt@.storage.read_error(self.id()) == Some(e),
            },
    {
        rt.inspect(self.value)
    }

    /// A copy of the cell's current value, refused exactly when `try_read`
    /// is.
    pub fn get(&self, rt: &Runtime<T>) -> (r: Result<T, BorrowError>) where T: Copy
        ensures
            match r {
                Ok(v) => rt@.storage.read_error(self.id()) is None && rt@.storage.slots[self.id().slot as int].payload
                    == Some(v),
                Err(e) => rt@.storage.read_error(self.id()) == Some(e),
            },
    {
        rt.copied(self.value)
    }

    /// Takes the exclusive borrow of the cell and marks the scope that owns
    /// the cell dirty. The borrow is held until the guard is given back
    /// with `release_write`: a guard that is dropped or forgotten leaves
    /// the cell borrowed.
    pub fn try_write(&self, rt: &mut Runtime<T>) -> (r: Result<WriteGuard, BorrowError>)
        ensures
            old(rt)@.wf() ==> final(rt)@.wf(),
            final(rt)@ == old(rt)@.write(self.id(), self.owner_scope()),
            match r {
                Ok(g) => old(rt)@.storage.write_error(self.id()) is None && g@ == old(
                    rt,
                )@.storage.key_of(self.id()),
                Err(e) => old(rt)@.storage.write_error(self.id()) == Some(e),
            },
    {
        rt.try_write(self.value, self.owner_scope)
    }

    /// Takes the exclusive borrow of a cell that is live and not borrowed,
    /// and marks the scope that owns the cell dirty. The borrow is held
    /// until the guard is given back with `release_write`: a guard that is
    /// dropped or forgotten leaves the cell borrowed.
    pub fn write(&self, rt: &mut Runtime<T>) -> (guard: WriteGuard)
        requires
            old(rt)@.storage.write_error(self.id()) is None,
        ensures
            old(rt)@.wf() ==> final(rt)@.wf(),
            final(rt)@ == old(rt)@.write(self.id(), self.owner_scope()),
            guard@ == old(rt)@.storage.key_of(self.id()),
    {
        match rt.try_write(self.value, self.owner_scope) {
            Ok(guard) => guard,
            Err(_) => unreached(),
        }
    }

    /// Replaces the cell's value and marks the scope that owns the cell
    /// dirty. Borrows in flight on the old value are displaced.
    pub fn set(&mut self, rt: &mut Runtime<T>, value: T) -> (r: Result<(), BorrowError>)
        ensures
            old(rt)@.wf() ==> final(rt)@.wf(),
            *final(self) == *old(self),
            final(rt)@ == old(rt)@.set(old(self).id(), old(self).owner_scope(), value),
            match r {
                Ok(_) => old(rt)@.storage.set_error(old(self).id()) is None,
                Err(e) => old(rt)@.storage.set_error(old(self).id()) == Some(e),
            },
    {
        rt.set(self.value, self.owner_scope, value)
    }
}

} // verus!
