//! The reactive runtime: the cell arena, the scope contexts with the cells
//! each scope owns, the scope and effect stacks, and the set of dirty scopes.

use crate::storage::{
    BorrowError, BorrowState, CellOp, GenerationalBoxId, ReadGuard, Storage, StorageView,
    WriteGuard,
};
use std::collections::BTreeSet;
use vstd::prelude::*;

verus! {

/// Identity of one running component instance.
#[derive(Clone, Copy, Debug, PartialEq, Eq, Hash, Structural)]
pub struct ScopeId(pub usize);

/// A side effect that is running, with the scope that started it.
#[derive(Clone, Copy, Debug, PartialEq, Eq, Structural)]
pub struct Effect {
    pub source: ScopeId,
}

/// A scope awaiting a diff pass, keyed by nesting depth and scope.
#[derive(Clone, Copy, Debug, PartialEq, Eq, Structural)]
pub struct DirtyScope {
    pub height: usize,
    pub id: ScopeId,
}

/// What the runtime keeps for one scope: its nesting depth and its context
/// map. The map has one entry, made when the first cell is made for the
/// scope: the owner record, which lists the scope's cells.
pub struct ScopeContext {
    pub height: usize,
    pub owner: Option<Vec<GenerationalBoxId>>,
}

/// Model of a scope context.
pub struct ContextView {
    pub height: usize,
    pub owner: Option<Seq<GenerationalBoxId>>,
}

impl View for ScopeContext {
    type V = ContextView;

    open spec fn view(&self) -> ContextView {
        ContextView {
            height: self.height,
            owner: match self.owner {
                Some(cells) => Some(cells@),
                None => None,
            },
        }
    }
}

pub open spec fn context_view(c: Option<ScopeContext>) -> Option<ContextView> {
    match c {
        Some(c) => Some(c@),
        None => None,
    }
}

/// The arena after the cells `ids[i..]` were invalidated in order.
pub open spec fn invalidate_from<T>(
    storage: StorageView<T>,
    ids: Seq<GenerationalBoxId>,
    i: int,
) -> StorageView<T>
    decreases ids.len() - i,
{
    if 0 <= i < ids.len() {
        invalidate_from(storage.invalidate(ids[i]), ids, i + 1)
    } else {
        storage
    }
}

/// Mathematical model of the runtime.
pub struct RuntimeView<T> {
    pub storage: StorageView<T>,
    pub contexts: Seq<Option<ContextView>>,
    pub scope_stack: Seq<ScopeId>,
    pub effect_stack: Seq<Effect>,
    pub dirty: Set<(usize, usize)>,
}

impl<T> RuntimeView<T> {
    pub open spec fn empty() -> Self {
        RuntimeView {
            storage: StorageView::empty(),
            contexts: Seq::empty(),
            scope_stack: Seq::empty(),
            effect_stack: Seq::empty(),
            dirty: Set::empty(),
        }
    }

    pub open spec fn has_scope(self, scope: ScopeId) -> bool {
        scope.0 < self.contexts.len() && self.contexts[scope.0 as int] is Some
    }

    pub open spec fn height_of(self, scope: ScopeId) -> Option<usize> {
        if self.has_scope(scope) {
            Some(self.contexts[scope.0 as int]->0.height)
        } else {
            None
        }
    }

    /// The scope has an owner record.
    pub open spec fn has_owner(self, scope: ScopeId) -> bool {
        self.has_scope(scope) && self.contexts[scope.0 as int]->0.owner is Some
    }

    /// The cells that the scope's owner record lists.
    pub open spec fn owned(self, scope: ScopeId) -> Seq<GenerationalBoxId> {
        if self.has_owner(scope) {
            self.contexts[scope.0 as int]->0.owner->0
        } else {
            Seq::empty()
        }
    }

    /// The owner record of scope number `scope` lists a cell at position
    /// `k`.
    pub open spec fn lists(self, scope: int, k: int) -> bool {
        &&& 0 <= scope < self.contexts.len()
        &&& self.contexts[scope] is Some
        &&& self.contexts[scope]->0.owner is Some
        &&& 0 <= k < self.contexts[scope]->0.owner->0.len()
    }

    /// The cell that the owner record of scope number `scope` lists at
    /// position `k`.
    pub open spec fn listed(self, scope: int, k: int) -> GenerationalBoxId {
        self.contexts[scope]->0.owner->0[k]
    }

    /// The owner record of `scope` lists the cell `id`: `scope` owns it.
    pub open spec fn owns(self, scope: ScopeId, id: GenerationalBoxId) -> bool {
        exists|k: int| #[trigger]
            self.lists(scope.0 as int, k) && self.listed(scope.0 as int, k) == id
    }

    /// Every live cell belongs to exactly one owner: the arena is in
    /// order, every cell that an owner lists is live, none is listed
    /// twice, and every live cell is listed.
    pub open spec fn wf(self) -> bool {
        &&& self.storage.wf()
        &&& forall|scope: int, k: int| #[trigger]
            self.lists(scope, k) ==> self.storage.live(self.listed(scope, k))
        &&& forall|s1: int, k1: int, s2: int, k2: int|
            #[trigger] self.lists(s1, k1) && #[trigger] self.lists(s2, k2) && self.listed(s1, k1)
                == self.listed(s2, k2) ==> s1 == s2 && k1 == k2
        &&& forall|id: GenerationalBoxId| #[trigger]
            self.storage.live(id) ==> exists|scope: int, k: int| #[trigger]
                self.lists(scope, k) && self.listed(scope, k) == id
    }

    pub open spec fn with_storage(self, storage: StorageView<T>) -> Self {
        RuntimeView { storage, ..self }
    }

    pub open spec fn with_context(self, scope: ScopeId, context: Option<ContextView>) -> Self {
        RuntimeView { contexts: self.contexts.update(scope.0 as int, context), ..self }
    }

    /// The runtime after a scope was registered under the id `scope` at
    /// the given nesting depth. A scope that had the id before is removed
    /// first.
    pub open spec fn create_scope_at(self, scope: ScopeId, height: usize) -> Self {
        let base = self.remove_scope(scope);
        let context = Some(ContextView { height, owner: None });
        RuntimeView {
            contexts: if scope.0 < base.contexts.len() {
                base.contexts.update(scope.0 as int, context)
            } else {
                Seq::new(
                    (scope.0 + 1) as nat,
                    |j: int|
                        if j < base.contexts.len() {
                            base.contexts[j]
                        } else if j == scope.0 {
                            context
                        } else {
                            None
                        },
                )
            },
            ..base
        }
    }

    pub open spec fn current_scope(self) -> Option<ScopeId> {
        if self.scope_stack.len() > 0 {
            Some(self.scope_stack.last())
        } else {
            None
        }
    }

    pub open spec fn push_scope(self, scope: ScopeId) -> Self {
        RuntimeView { scope_stack: self.scope_stack.push(scope), ..self }
    }

    pub open spec fn pop_scope(self) -> Self {
        if self.scope_stack.len() > 0 {
            RuntimeView { scope_stack: self.scope_stack.drop_last(), ..self }
        } else {
            self
        }
    }

    pub open spec fn current_effect(self) -> Option<Effect> {
        if self.effect_stack.len() > 0 {
            Some(self.effect_stack.last())
        } else {
            None
        }
    }

    pub open spec fn push_effect(self, effect: Effect) -> Self {
        RuntimeView { effect_stack: self.effect_stack.push(effect), ..self }
    }

    pub open spec fn pop_effect(self) -> Self {
        if self.effect_stack.len() > 0 {
            RuntimeView { effect_stack: self.effect_stack.drop_last(), ..self }
        } else {
            self
        }
    }

    /// The scope whose owner takes a cell made now: the source of the
    /// running effect if there is one, else the current scope.
    pub open spec fn owner_scope(self) -> Option<ScopeId> {
        match self.current_effect() {
            Some(effect) => Some(effect.source),
            None => self.current_scope(),
        }
    }

    /// The runtime after the scope was given an owner record, if it had none.
    pub open spec fn ensure_owner(self, scope: ScopeId) -> Self {
        if self.has_scope(scope) && !self.has_owner(scope) {
            self.with_context(
                scope,
                Some(
                    ContextView {
                        height: self.contexts[scope.0 as int]->0.height,
                        owner: Some(Seq::empty()),
                    },
                ),
            )
        } else {
            self
        }
    }

    /// The runtime after `value` was stored in a cell that `scope` owns.
    pub open spec fn insert_owned(self, scope: ScopeId, value: T) -> Self {
        if self.has_owner(scope) {
            RuntimeView { storage: self.storage.insert(value), ..self }.with_context(
                scope,
                Some(
                    ContextView {
                        height: self.contexts[scope.0 as int]->0.height,
                        owner: Some(self.owned(scope).push(self.storage.next_id())),
                    },
                ),
            )
        } else {
            self
        }
    }

    /// The runtime after the scope's owner was dropped: every cell it
    /// listed is invalidated, and the scope has no owner record.
    pub open spec fn drop_owner(self, scope: ScopeId) -> Self {
        if self.has_owner(scope) {
            RuntimeView {
                storage: invalidate_from(self.storage, self.owned(scope), 0),
                ..self
            }.with_context(
                scope,
                Some(
                    ContextView { height: self.contexts[scope.0 as int]->0.height, owner: None },
                ),
            )
        } else {
            self
        }
    }

    /// The runtime after the scope was removed: its owner is dropped, its
    /// context is gone, and it is no longer dirty.
    pub open spec fn remove_scope(self, scope: ScopeId) -> Self {
        if self.has_scope(scope) {
            let dropped = self.drop_owner(scope);
            RuntimeView {
                contexts: dropped.contexts.update(scope.0 as int, None),
                dirty: self.dirty.remove((self.contexts[scope.0 as int]->0.height, scope.0)),
                ..dropped
            }
        } else {
            self
        }
    }

    pub open spec fn is_dirty(self, scope: ScopeId) -> bool {
        self.has_scope(scope) && self.dirty.contains(
            (self.contexts[scope.0 as int]->0.height, scope.0),
        )
    }

    pub open spec fn mark_dirty(self, scope: ScopeId) -> Self {
        if self.has_scope(scope) {
            RuntimeView {
                dirty: self.dirty.insert((self.contexts[scope.0 as int]->0.height, scope.0)),
                ..self
            }
        } else {
            self
        }
    }

    pub open spec fn unmark_dirty(self, entry: DirtyScope) -> Self {
        RuntimeView { dirty: self.dirty.remove((entry.height, entry.id.0)), ..self }
    }

    /// The runtime after `set(id, value)` on a cell that `origin` owns: the
    /// value is replaced and `origin` is marked dirty, or nothing changes.
    pub open spec fn set(self, id: GenerationalBoxId, origin: ScopeId, value: T) -> Self {
        if self.storage.set_error(id) is Some {
            self
        } else {
            self.with_storage(self.storage.set(id, value)).mark_dirty(origin)
        }
    }

    /// The runtime after `try_write(id)` on a cell that `origin` owns: the
    /// exclusive borrow is taken and `origin` is marked dirty, or nothing
    /// changes.
    pub open spec fn write(self, id: GenerationalBoxId, origin: ScopeId) -> Self {
        if self.storage.write_error(id) is Some {
            self
        } else {
            self.with_storage(self.storage.write(id)).mark_dirty(origin)
        }
    }
}

/// The reactive runtime. `T` is what a cell holds. A runtime whose cells
/// hold values of many types takes a type that can hold any of them, such
/// as a boxed `Any`.
pub struct Runtime<T> {
    storage: Storage<T>,
    contexts: Vec<Option<ScopeContext>>,
    scope_stack: Vec<ScopeId>,
    effect_stack: Vec<Effect>,
    dirty_scopes: BTreeSet<(usize, usize)>,
}

impl<T> View for Runtime<T> {
    type V = RuntimeView<T>;

    closed spec fn view(&self) -> RuntimeView<T> {
        RuntimeView {
            storage: self.storage@,
            contexts: Seq::new(self.contexts@.len(), |i: int| context_view(self.contexts@[i])),
            scope_stack: self.scope_stack@,
            effect_stack: self.effect_stack@,
            dirty: self.dirty_scopes@,
        }
    }
}

impl<T> Runtime<T> {
    pub fn new() -> (rt: Self)
        ensures
            rt@ == RuntimeView::<T>::empty(),
            rt@.wf(),
    {
        proof {
            crate::cell_laws::lemma_empty_runtime_is_wf::<T>();
        }
        let rt = Runtime {
            storage: Storage::new(),
            contexts: Vec::new(),
            scope_stack: Vec::new(),
            effect_stack: Vec::new(),
            dirty_scopes: BTreeSet::new(),
        };
        assert(rt@.contexts =~= Seq::empty());
        rt
    }

    /// Slot indices fit the machine word: no slot has index `usize::MAX`.
    pub proof fn lemma_slots_fit(&self)
        ensures
            self@.storage.slots.len() <= usize::MAX,
    {
        self.storage.lemma_slots_fit();
    }

    pub fn has_scope(&self, scope: ScopeId) -> (b: bool)
        ensures
            b == self@.has_scope(scope),
    {
        scope.0 < self.contexts.len() && self.contexts[scope.0].is_some()
    }

    /// The nesting depth of the scope, if it exists.
    pub fn height_of(&self, scope: ScopeId) -> (h: Option<usize>)
        ensures
            h == self@.height_of(scope),
    {
        if scope.0 < self.contexts.len() {
            match &self.contexts[scope.0] {
                Some(context) => Some(context.height),
                None => None,
            }
        } else {
            None
        }
    }

    pub fn has_owner(&self, scope: ScopeId) -> (b: bool)
        ensures
            b == self@.has_owner(scope),
    {
        if scope.0 < self.contexts.len() {
            match &self.contexts[scope.0] {
                Some(context) => context.owner.is_some(),
                None => false,
            }
        } else {
            false
        }
    }

    /// Registers a scope under the id `scope` at the given nesting depth.
    /// A scope that had the id before is removed first.
    pub fn create_scope_at(&mut self, scope: ScopeId, height: usize)
        ensures
            final(self)@ == old(self)@.create_scope_at(scope, height),
            old(self)@.wf() ==> final(self)@.wf(),
            final(self)@.has_scope(scope),
            final(self)@.height_of(scope) == Some(height),
    {
        proof {
            if self@.wf() {
                crate::cell_laws::lemma_create_scope_at_keeps_wf(self@, scope, height);
            }
        }
        self.remove_scope(scope);
        let ghost base = self@;
        let ghost raw = self.contexts@;
        let n = self.contexts.len();
        if scope.0 < n {
            self.contexts[scope.0] = Some(ScopeContext { height, owner: None });
        } else {
            while self.contexts.len() < scope.0
                invariant
                    n == raw.len(),
                    n <= self.contexts.len() <= scope.0,
                    self@.storage == base.storage,
                    self@.scope_stack == base.scope_stack,
                    self@.effect_stack == base.effect_stack,
                    self@.dirty == base.dirty,
                    forall|j: int| 0 <= j < n ==> self.contexts@[j] == raw[j],
                    forall|j: int| n <= j < self.contexts.len() ==> self.contexts@[j] is None,
                decreases scope.0 - self.contexts.len(),
            {
                self.contexts.push(None);
            }
            self.contexts.push(Some(ScopeContext { height, owner: None }));
        }
        assert(self@.contexts =~~= old(self)@.create_scope_at(scope, height).contexts);
    }

    pub fn current_scope_id(&self) -> (scope: Option<ScopeId>)
        ensures
            scope == self@.current_scope(),
    {
        let n = self.scope_stack.len();
        if n > 0 {
            Some(self.scope_stack[n - 1])
        } else {
            None
        }
    }

    pub fn push_scope(&mut self, scope: ScopeId)
        ensures
            old(self)@.wf() ==> final(self)@.wf(),
            final(self)@ == old(self)@.push_scope(scope),
    {
        proof {
            if self@.wf() {
                crate::cell_laws::lemma_same_cells_keep_wf(self@, self@.push_scope(scope));
            }
        }
        self.scope_stack.push(scope);
    }

    pub fn pop_scope(&mut self)
        ensures
            old(self)@.wf() ==> final(self)@.wf(),
            final(self)@ == old(self)@.pop_scope(),
    {
        proof {
            if self@.wf() {
                crate::cell_laws::lemma_same_cells_keep_wf(self@, self@.pop_scope());
            }
        }
        self.scope_stack.pop();
    }

    pub fn current_effect(&self) -> (effect: Option<Effect>)
        ensures
            effect == self@.current_effect(),
    {
        let n = self.effect_stack.len();
        if n > 0 {
            Some(self.effect_stack[n - 1])
        } else {
            None
        }
    }

    pub fn push_effect(&mut self, effect: Effect)
        ensures
            old(self)@.wf() ==> final(self)@.wf(),
            final(self)@ == old(self)@.push_effect(effect),
    {
        proof {
            if self@.wf() {
                crate::cell_laws::lemma_same_cells_keep_wf(self@, self@.push_effect(effect));
            }
        }
        self.effect_stack.push(effect);
    }

    pub fn pop_effect(&mut self)
        ensures
            old(self)@.wf() ==> final(self)@.wf(),
            final(self)@ == old(self)@.pop_effect(),
    {
        proof {
            if self@.wf() {
                crate::cell_laws::lemma_same_cells_keep_wf(self@, self@.pop_effect());
            }
        }
        self.effect_stack.pop();
    }

    /// Gives the scope an owner record if it has none.
    pub fn ensure_owner(&mut self, scope: ScopeId)
        ensures
            old(self)@.wf() ==> final(self)@.wf(),
            final(self)@ == old(self)@.ensure_owner(scope),
    {
        proof {
            if self@.wf() {
                crate::cell_laws::lemma_ensure_owner_keeps_wf(self@, scope);
            }
        }
        if scope.0 < self.contexts.len() {
            match &mut self.contexts[scope.0] {
                Some(context) => {
                    if context.owner.is_none() {
                        context.owner = Some(Vec::new());
                    }
                },
                None => {},
            }
            assert(self@.contexts =~~= old(self)@.ensure_owner(scope).contexts);
        }
    }

    /// Stores `value` in a cell owned by `scope`. Without an owner record
    /// nothing is stored.
    pub fn insert_owned(&mut self, scope: ScopeId, value: T) -> (id: Option<GenerationalBoxId>)
        ensures
            final(self)@ == old(self)@.insert_owned(scope, value),
            id == (if old(self)@.has_owner(scope) {
                Some(old(self)@.storage.next_id())
            } else {
                None
            }),
            old(self)@.wf() ==> final(self)@.wf(),
            id matches Some(i) ==> final(self)@.storage.live(i),
    {
        if !self.has_owner(scope) {
            return None;
        }
        let id = self.storage.insert(value);
        proof {
            self.storage.lemma_slots_fit();
            if old(self)@.wf() {
                crate::cell_laws::lemma_insert_owned_keeps_wf(old(self)@, scope, value);
            }
        }
        match &mut self.contexts[scope.0] {
            Some(context) => {
                match &mut context.owner {
                    Some(cells) => {
                        cells.push(id);
                    },
                    None => {},
                }
            },
            None => {},
        }
        assert(self@.contexts =~~= old(self)@.insert_owned(scope, value).contexts);
        Some(id)
    }

    /// Drops the scope's owner: every cell it holds is invalidated.
    pub fn drop_owner(&mut self, scope: ScopeId)
        ensures
            old(self)@.wf() ==> final(self)@.wf(),
            final(self)@ == old(self)@.drop_owner(scope),
    {
        proof {
            if self@.wf() {
                crate::cell_laws::lemma_drop_owner_keeps_wf(self@, scope);
            }
        }
        if !self.has_owner(scope) {
            return ;
        }
        let cells = match &mut self.contexts[scope.0] {
            Some(context) => context.owner.take(),
            None => None,
        };
        assert(self@.contexts =~~= old(self)@.drop_owner(scope).contexts);
        match cells {
            Some(cells) => {
                let mut i: usize = 0;
                while i < cells.len()
                    invariant
                        i <= cells.len(),
                        cells@ == old(self)@.owned(scope),
                        self@.contexts == old(self)@.drop_owner(scope).contexts,
                        self@.scope_stack == old(self)@.scope_stack,
                        self@.effect_stack == old(self)@.effect_stack,
                        self@.dirty == old(self)@.dirty,
                        invalidate_from(self@.storage, cells@, i as int) == invalidate_from(
                            old(self)@.storage,
                            cells@,
                            0,
                        ),
                    decreases cells.len() - i,
                {
                    self.storage.invalidate(cells[i]);
                    i += 1;
                }
            },
            None => {},
        }
    }

    /// Removes the scope: its owner is dropped, its context is gone, and
    /// it leaves the dirty set.
    pub fn remove_scope(&mut self, scope: ScopeId)
        ensures
            old(self)@.wf() ==> final(self)@.wf(),
            final(self)@ == old(self)@.remove_scope(scope),
    {
        proof {
            if self@.wf() {
                crate::cell_laws::lemma_remove_scope_keeps_wf(self@, scope);
            }
        }
        match self.height_of(scope) {
            Some(height) => {
                self.drop_owner(scope);
                assert(self.contexts@.len() == self@.contexts.len());
                self.contexts[scope.0] = None;
                self.dirty_scopes.remove(&(height, scope.0));
                assert(self@.contexts =~~= old(self)@.remove_scope(scope).contexts);
            },
            None => {},
        }
    }

    pub fn is_dirty(&self, scope: ScopeId) -> (b: bool)
        ensures
            b == self@.is_dirty(scope),
    {
        match self.height_of(scope) {
            Some(height) => self.dirty_scopes.contains(&(height, scope.0)),
            None => false,
        }
    }

    /// Marks the scope as needing a diff pass.
    pub fn mark_dirty(&mut self, scope: ScopeId)
        ensures
            old(self)@.wf() ==> final(self)@.wf(),
            final(self)@ == old(self)@.mark_dirty(scope),
    {
        proof {
            if self@.wf() {
                crate::cell_laws::lemma_same_cells_keep_wf(self@, self@.mark_dirty(scope));
            }
        }
        match self.height_of(scope) {
            Some(height) => {
                self.dirty_scopes.insert((height, scope.0));
            },
            None => {},
        }
    }

    /// Takes one entry out of the dirty set.
    pub fn unmark_dirty(&mut self, entry: DirtyScope)
        ensures
            old(self)@.wf() ==> final(self)@.wf(),
            final(self)@ == old(self)@.unmark_dirty(entry),
    {
        proof {
            if self@.wf() {
                crate::cell_laws::lemma_same_cells_keep_wf(self@, self@.unmark_dirty(entry));
            }
        }
        self.dirty_scopes.remove(&(entry.height, entry.id.0));
    }

    pub fn is_live(&self, id: GenerationalBoxId) -> (b: bool)
        ensures
            b == self@.storage.live(id),
    {
        self.storage.is_live(id)
    }

    /// Takes a shared borrow of the cell. A guard that is dropped or
    /// forgotten leaves the cell borrowed.
    pub fn try_read(&mut self, id: GenerationalBoxId) -> (r: Result<ReadGuard, BorrowError>)
        ensures
            final(self)@ == old(self)@.with_storage(old(self)@.storage.read(id)),
            old(self)@.wf() ==> final(self)@.wf(),
            match r {
                Ok(g) => old(self)@.storage.read_error(id) is None && g@ == old(
                    self,
                )@.storage.key_of(id),
                Err(e) => old(self)@.storage.read_error(id) == Some(e),
            },
    {
        proof {
            if self@.wf() {
                crate::cell_laws::lemma_access_keeps_wf(
                    self@,
                    CellOp::Read(id),
                    self@.with_storage(self@.storage.read(id)),
                );
            }
        }
        self.storage.try_read(id)
    }

    /// Takes the exclusive borrow of the cell and marks `origin`, the scope
    /// that owns the cell, dirty. A guard that is dropped or forgotten
    /// leaves the cell borrowed.
    pub fn try_write(&mut self, id: GenerationalBoxId, origin: ScopeId) -> (r: Result<
        WriteGuard,
        BorrowError,
    >)
        ensures
            final(self)@ == old(self)@.write(id, origin),
            old(self)@.wf() ==> final(self)@.wf(),
            match r {
                Ok(g) => old(self)@.storage.write_error(id) is None && g@ == old(
                    self,
                )@.storage.key_of(id),
                Err(e) => old(self)@.storage.write_error(id) == Some(e),
            },
    {
        proof {
            if self@.wf() {
                crate::cell_laws::lemma_access_keeps_wf(self@, CellOp::Write(id), self@.write(id, origin));
            }
        }
        let r = self.storage.try_write(id);
        if r.is_ok() {
            self.mark_dirty(origin);
        }
        r
    }

    pub fn release_read(&mut self, guard: ReadGuard)
        ensures
            old(self)@.wf() ==> final(self)@.wf(),
            final(self)@ == old(self)@.with_storage(old(self)@.storage.release_read(guard@)),
    {
        proof {
            if self@.wf() {
                crate::cell_laws::lemma_access_keeps_wf(
                    self@,
                    CellOp::ReleaseRead(guard@),
                    self@.with_storage(self@.storage.release_read(guard@)),
                );
            }
        }
        self.storage.release_read(guard);
    }

    pub fn release_write(&mut self, guard: WriteGuard)
        ensures
            old(self)@.wf() ==> final(self)@.wf(),
            final(self)@ == old(self)@.with_storage(old(self)@.storage.release_write(guard@)),
    {
        proof {
            if self@.wf() {
                crate::cell_laws::lemma_access_keeps_wf(
                    self@,
                    CellOp::ReleaseWrite(guard@),
                    self@.with_storage(self@.storage.release_write(guard@)),
                );
            }
        }
        self.storage.release_write(guard);
    }

    /// The value behind a shared borrow, while it holds.
    pub fn get(&self, guard: &ReadGuard) -> (r: Option<&T>)
        ensures
            match r {
                Some(v) => self@.storage.shared_value(guard@) == Some(*v),
                None => self@.storage.shared_value(guard@) is None,
            },
    {
        self.storage.get(guard)
    }

    /// The value behind the exclusive borrow, while it holds.
    pub fn get_exclusive(&self, guard: &WriteGuard) -> (r: Option<&T>)
        ensures
            match r {
                Some(v) => self@.storage.exclusive_value(guard@) == Some(*v),
                None => self@.storage.exclusive_value(guard@) is None,
            },
    {
        self.storage.get_exclusive(guard)
    }

    /// Writes through the exclusive borrow; tells whether it still held.
    pub fn update(&mut self, guard: &WriteGuard, value: T) -> (written: bool)
        ensures
            old(self)@.wf() ==> final(self)@.wf(),
            written == old(self)@.storage.can_update(guard@),
            final(self)@ == old(self)@.with_storage(old(self)@.storage.update(guard@, value)),
    {
        proof {
            if self@.wf() {
                crate::cell_laws::lemma_access_keeps_wf(
                    self@,
                    CellOp::Update(guard@, value),
                    self@.with_storage(self@.storage.update(guard@, value)),
                );
            }
        }
        self.storage.update(guard, value)
    }

    /// Replaces the cell's value and marks `origin`, the scope that owns
    /// the cell, dirty.
    pub fn set(&mut self, id: GenerationalBoxId, origin: ScopeId, value: T) -> (r: Result<
        (),
        BorrowError,
    >)
        ensures
            final(self)@ == old(self)@.set(id, origin, value),
            old(self)@.wf() ==> final(self)@.wf(),
            match r {
                Ok(_) => old(self)@.storage.set_error(id) is None,
                Err(e) => old(self)@.storage.set_error(id) == Some(e),
            },
    {
        proof {
            if self@.wf() {
                crate::cell_laws::lemma_access_keeps_wf(
                    self@,
                    CellOp::SetValue(id, value),
                    self@.set(id, origin, value),
                );
            }
        }
        let r = self.storage.set(id, value);
        if r.is_ok() {
            self.mark_dirty(origin);
        }
        r
    }

    /// The cell's value, seen in place: refused exactly when `try_read`
    /// is.
    pub fn inspect(&self, id: GenerationalBoxId) -> (r: Result<&T, BorrowError>)
        ensures
            match r {
                Ok(v) => self@.storage.read_error(id) is None && self@.storage.slots[id.slot as int].payload
                    == Some(*v),
                Err(e) => self@.storage.read_error(id) == Some(e),
            },
    {
        self.storage.inspect(id)
    }

    /// A copy of the cell's value, refused exactly when `try_read` is.
    pub fn copied(&self, id: GenerationalBoxId) -> (r: Result<T, BorrowError>) where T: Copy
        ensures
            match r {
                Ok(v) => self@.storage.read_error(id) is None && self@.storage.slots[id.slot as int].payload
                    == Some(v),
                Err(e) => self@.storage.read_error(id) == Some(e),
            },
    {
        self.storage.copied(id)
    }

    /// The borrows held on the cell, if it is live.
    pub fn borrow_state(&self, id: GenerationalBoxId) -> (r: Option<BorrowState>)
        ensures
            r == (if self@.storage.live(id) {
                Some(self@.storage.slots[id.slot as int].borrow)
            } else {
                None
            }),
    {
        self.storage.borrow_state(id)
    }
}

} // verus!
