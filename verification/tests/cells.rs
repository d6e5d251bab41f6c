use std::any::Any;
use vdom_core::copy_value::{current_owner, owner_in_scope, CopyValue};
use vdom_core::runtime::{DirtyScope, Effect, Runtime, ScopeId};
use vdom_core::storage::{BorrowError, BorrowState, GenerationalBoxId, Storage};

fn runtime_in_scope() -> (Runtime<i32>, ScopeId) {
    let mut rt = Runtime::new();
    let scope = ScopeId(0);
    rt.create_scope_at(scope, 0);
    rt.push_scope(scope);
    (rt, scope)
}

fn makes() -> CopyValue<Box<dyn Fn()>> {
    let mut rt: Runtime<Box<dyn Fn()>> = Runtime::new();
    rt.create_scope_at(ScopeId(0), 0);
    rt.push_scope(ScopeId(0));
    CopyValue::new(&mut rt, Box::new(Box::new(|| ())))
}

#[test]
fn it_copies() {
    let g = makes();

    g.clone();
}

#[test]
fn copies_name_the_same_cell() {
    let (mut rt, _) = runtime_in_scope();
    let a = CopyValue::new(&mut rt, Box::new(1));
    let b = a;
    let c = CopyValue::new(&mut rt, Box::new(1));
    assert!(a == b);
    assert!(a != c);
    assert_eq!(a.id(), b.id());
    assert_eq!(a.get(&rt), Ok(1));
    assert_eq!(c.get(&rt), Ok(1));
}

#[test]
fn storage_insert_hands_out_fresh_slots() {
    let mut storage: Storage<&str> = Storage::new();
    let a = storage.insert("a");
    let b = storage.insert("b");
    assert_eq!(a, GenerationalBoxId { slot: 0, generation: 0 });
    assert_eq!(b, GenerationalBoxId { slot: 1, generation: 0 });
    assert!(storage.is_live(a));
    assert!(storage.is_live(b));
    assert_eq!(storage.copied(a), Ok("a"));
    assert_eq!(storage.copied(b), Ok("b"));
}

#[test]
fn inspect_sees_the_value_in_place() {
    let mut storage: Storage<String> = Storage::new();
    let id = storage.insert("kept".to_string());
    assert_eq!(storage.inspect(id).map(|s| s.as_str()), Ok("kept"));
    let reader = storage.try_read(id).unwrap();
    assert_eq!(storage.inspect(id).map(|s| s.len()), Ok(4));
    storage.release_read(reader);
    let writer = storage.try_write(id).unwrap();
    assert_eq!(storage.inspect(id).err(), Some(BorrowError::BorrowConflict));
    storage.release_write(writer);
    storage.invalidate(id);
    assert_eq!(storage.inspect(id).err(), Some(BorrowError::StaleHandle));
}

#[test]
fn many_readers_are_allowed() {
    let mut storage: Storage<i32> = Storage::new();
    let id = storage.insert(5);
    let r1 = storage.try_read(id).unwrap();
    let r2 = storage.try_read(id).unwrap();
    let r3 = storage.try_read(id).unwrap();
    assert_eq!(storage.borrow_state(id), Some(BorrowState::Shared(3)));
    assert_eq!(storage.get(&r1), Some(&5));
    assert_eq!(storage.get(&r2), Some(&5));
    storage.release_read(r1);
    storage.release_read(r2);
    assert_eq!(storage.borrow_state(id), Some(BorrowState::Shared(1)));
    storage.release_read(r3);
    assert_eq!(storage.borrow_state(id), Some(BorrowState::Idle));
}

#[test]
fn writer_excludes_readers_and_writers() {
    let mut storage: Storage<i32> = Storage::new();
    let id = storage.insert(5);
    let w = storage.try_write(id).unwrap();
    assert_eq!(storage.borrow_state(id), Some(BorrowState::Exclusive));
    assert_eq!(storage.try_read(id).err(), Some(BorrowError::BorrowConflict));
    assert_eq!(storage.try_write(id).err(), Some(BorrowError::BorrowConflict));
    assert_eq!(storage.copied(id), Err(BorrowError::BorrowConflict));
    assert!(storage.update(&w, 6));
    assert_eq!(storage.get_exclusive(&w), Some(&6));
    storage.release_write(w);
    assert_eq!(storage.copied(id), Ok(6));
    assert!(storage.try_write(id).is_ok());
}

#[test]
fn reader_excludes_writer() {
    let mut storage: Storage<i32> = Storage::new();
    let id = storage.insert(5);
    let r = storage.try_read(id).unwrap();
    assert_eq!(storage.try_write(id).err(), Some(BorrowError::BorrowConflict));
    storage.release_read(r);
    let w = storage.try_write(id).unwrap();
    storage.release_write(w);
    assert_eq!(storage.borrow_state(id), Some(BorrowState::Idle));
}

#[test]
fn set_displaces_borrows_in_flight() {
    let mut storage: Storage<i32> = Storage::new();
    let id = storage.insert(5);
    let stale_reader = storage.try_read(id).unwrap();
    assert_eq!(storage.set(id, 9), Ok(()));
    assert_eq!(storage.borrow_state(id), Some(BorrowState::Idle));
    assert_eq!(storage.get(&stale_reader), None);
    let fresh_reader = storage.try_read(id).unwrap();
    // giving the displaced borrow back does not end the new one
    storage.release_read(stale_reader);
    assert_eq!(storage.borrow_state(id), Some(BorrowState::Shared(1)));
    assert_eq!(storage.try_write(id).err(), Some(BorrowError::BorrowConflict));
    assert_eq!(storage.get(&fresh_reader), Some(&9));
    storage.release_read(fresh_reader);

    let stale_writer = storage.try_write(id).unwrap();
    assert_eq!(storage.set(id, 11), Ok(()));
    assert!(!storage.update(&stale_writer, 12));
    assert_eq!(storage.get_exclusive(&stale_writer), None);
    storage.release_write(stale_writer);
    assert_eq!(storage.copied(id), Ok(11));
}

#[test]
fn set_on_idle_cell_keeps_it_idle() {
    let mut storage: Storage<i32> = Storage::new();
    let id = storage.insert(5);
    assert_eq!(storage.set(id, 6), Ok(()));
    assert_eq!(storage.copied(id), Ok(6));
    assert_eq!(storage.borrow_state(id), Some(BorrowState::Idle));
}

#[test]
fn invalidate_makes_every_handle_stale() {
    let mut storage: Storage<i32> = Storage::new();
    let id = storage.insert(5);
    let reader = storage.try_read(id).unwrap();
    assert!(storage.invalidate(id));
    assert!(!storage.is_live(id));
    assert_eq!(storage.try_read(id).err(), Some(BorrowError::StaleHandle));
    assert_eq!(storage.try_write(id).err(), Some(BorrowError::StaleHandle));
    assert_eq!(storage.set(id, 1), Err(BorrowError::StaleHandle));
    assert_eq!(storage.copied(id), Err(BorrowError::StaleHandle));
    assert_eq!(storage.get(&reader), None);
    assert_eq!(storage.borrow_state(id), None);
    assert!(!storage.invalidate(id));
}

#[test]
fn reused_slot_has_a_new_generation() {
    let mut storage: Storage<i32> = Storage::new();
    let old = storage.insert(5);
    storage.invalidate(old);
    let new = storage.insert(6);
    assert_eq!(new.slot, old.slot);
    assert_eq!(new.generation, old.generation + 1);
    assert_eq!(storage.copied(new), Ok(6));
    assert_eq!(storage.copied(old), Err(BorrowError::StaleHandle));
    assert_eq!(storage.try_write(old).err(), Some(BorrowError::StaleHandle));
    // a writer on the new value does not turn the stale handle into a conflict
    let w = storage.try_write(new).unwrap();
    assert_eq!(storage.try_read(old).err(), Some(BorrowError::StaleHandle));
    storage.release_write(w);
}

#[test]
fn unknown_handle_is_stale() {
    let mut storage: Storage<i32> = Storage::new();
    let nowhere = GenerationalBoxId { slot: 3, generation: 0 };
    assert_eq!(storage.try_read(nowhere).err(), Some(BorrowError::StaleHandle));
    assert!(!storage.invalidate(nowhere));
}

#[test]
fn cell_is_made_in_the_current_scope() {
    let (mut rt, scope) = runtime_in_scope();
    assert!(!rt.has_owner(scope));
    let cell = CopyValue::new(&mut rt, Box::new(10));
    assert!(rt.has_owner(scope));
    assert_eq!(cell.origin_scope(), scope);
    assert_eq!(cell.get(&rt), Ok(10));
    let other = CopyValue::new_maybe_sync(&mut rt, Box::new(11));
    assert_eq!(other.origin_scope(), scope);
    assert!(cell != other);
}

#[test]
fn current_owner_is_idempotent() {
    let (mut rt, scope) = runtime_in_scope();
    let first = current_owner(&mut rt);
    let second = current_owner(&mut rt);
    assert_eq!(first, second);
    assert_eq!(first.scope, scope);
    let third = owner_in_scope(&mut rt, scope);
    assert_eq!(first, third);
}

#[test]
fn effect_source_owns_cells_made_in_an_effect() {
    let mut rt: Runtime<i32> = Runtime::new();
    let source = ScopeId(0);
    let rendering = ScopeId(1);
    rt.create_scope_at(source, 0);
    rt.create_scope_at(rendering, 1);
    rt.push_scope(rendering);
    rt.push_effect(Effect { source });
    let owner = current_owner(&mut rt);
    assert_eq!(owner.scope, source);
    let cell = CopyValue::new(&mut rt, Box::new(3));
    assert_eq!(cell.origin_scope(), rendering);
    assert_eq!(cell.owner_scope(), source);
    rt.pop_effect();
    assert_eq!(current_owner(&mut rt).scope, rendering);

    // a write asks for a diff pass of the scope that owns the cell
    let mut cell = cell;
    assert_eq!(cell.set(&mut rt, 4), Ok(()));
    assert!(rt.is_dirty(source));
    assert!(!rt.is_dirty(rendering));
    rt.unmark_dirty(DirtyScope { height: 0, id: source });
    let guard = cell.write(&mut rt);
    assert!(rt.is_dirty(source));
    assert!(!rt.is_dirty(rendering));
    assert!(rt.update(&guard, 3));
    rt.release_write(guard);

    // the scope that was rendering goes away: the cell stays, and a write still marks its owner
    rt.pop_scope();
    rt.remove_scope(rendering);
    assert_eq!(cell.get(&rt), Ok(3));
    rt.unmark_dirty(DirtyScope { height: 0, id: source });
    assert_eq!(cell.set(&mut rt, 3), Ok(()));
    assert!(rt.is_dirty(source));
    // the source of the effect goes away: so does the cell
    rt.remove_scope(source);
    assert_eq!(cell.get(&rt), Err(BorrowError::StaleHandle));
}

#[test]
fn cell_in_scope_is_dropped_with_that_scope() {
    let mut rt: Runtime<i32> = Runtime::new();
    let a = ScopeId(0);
    let b = ScopeId(1);
    rt.create_scope_at(a, 0);
    rt.create_scope_at(b, 1);
    let in_a = CopyValue::new_in_scope(&mut rt, Box::new(1), a);
    let in_b = CopyValue::new_maybe_sync_in_scope(&mut rt, Box::new(2), b);
    assert_eq!(in_a.origin_scope(), a);
    assert_eq!(in_b.origin_scope(), b);
    rt.drop_owner(a);
    assert_eq!(in_a.get(&rt), Err(BorrowError::StaleHandle));
    assert_eq!(in_b.get(&rt), Ok(2));
    assert!(rt.has_scope(a));
    assert!(!rt.has_owner(a));
}

#[test]
fn drop_owner_then_access_is_stale_even_after_reuse() {
    let mut rt: Runtime<i32> = Runtime::new();
    let a = ScopeId(0);
    let b = ScopeId(1);
    rt.create_scope_at(a, 0);
    rt.create_scope_at(b, 0);
    let mut old = CopyValue::new_in_scope(&mut rt, Box::new(1), a);
    rt.drop_owner(a);
    let new = CopyValue::new_in_scope(&mut rt, Box::new(2), b);
    assert_eq!(new.id().slot, old.id().slot);
    assert!(new != old);
    assert_eq!(old.try_read(&mut rt).err(), Some(BorrowError::StaleHandle));
    assert_eq!(old.try_write(&mut rt).err(), Some(BorrowError::StaleHandle));
    assert_eq!(old.set(&mut rt, 5), Err(BorrowError::StaleHandle));
    assert_eq!(old.get(&rt), Err(BorrowError::StaleHandle));
    assert_eq!(new.get(&rt), Ok(2));
}

#[test]
fn invalid_handle_names_no_cell() {
    let (mut rt, scope) = runtime_in_scope();
    let mut cell: CopyValue<i32> = CopyValue::invalid(&mut rt);
    assert_eq!(cell.origin_scope(), scope);
    assert_eq!(cell.get(&rt), Err(BorrowError::StaleHandle));
    assert_eq!(cell.set(&mut rt, 1), Err(BorrowError::StaleHandle));
    assert!(!rt.is_dirty(scope));
}

#[test]
fn set_marks_the_origin_scope_dirty() {
    let (mut rt, scope) = runtime_in_scope();
    let mut cell = CopyValue::new(&mut rt, Box::new(10));
    assert!(!rt.is_dirty(scope));
    assert_eq!(cell.set(&mut rt, 0), Ok(()));
    assert!(rt.is_dirty(scope));
    rt.unmark_dirty(DirtyScope { height: 0, id: scope });
    assert!(!rt.is_dirty(scope));
    assert_eq!(cell.set(&mut rt, 1), Ok(()));
    assert!(rt.is_dirty(scope));
    assert_eq!(cell.get(&rt), Ok(1));
}

#[test]
fn write_guard_marks_dirty_and_writes() {
    let (mut rt, scope) = runtime_in_scope();
    let cell = CopyValue::new(&mut rt, Box::new(10));
    let guard = cell.write(&mut rt);
    assert!(rt.is_dirty(scope));
    assert_eq!(cell.try_read(&mut rt).err(), Some(BorrowError::BorrowConflict));
    assert_eq!(rt.get_exclusive(&guard), Some(&10));
    assert!(rt.update(&guard, 12));
    rt.release_write(guard);
    let reader = cell.read(&mut rt);
    assert_eq!(rt.get(&reader), Some(&12));
    let peeker = cell.peek(&mut rt);
    assert_eq!(cell.try_write(&mut rt).err(), Some(BorrowError::BorrowConflict));
    rt.release_read(reader);
    rt.release_read(peeker);
    assert!(cell.try_write(&mut rt).is_ok());
}

#[test]
fn removed_scope_leaves_the_dirty_set() {
    let mut rt: Runtime<i32> = Runtime::new();
    let a = ScopeId(3);
    rt.create_scope_at(a, 2);
    assert_eq!(rt.height_of(a), Some(2));
    assert!(!rt.has_scope(ScopeId(2)));
    assert!(!rt.has_scope(ScopeId(4)));
    rt.mark_dirty(a);
    assert!(rt.is_dirty(a));
    rt.remove_scope(a);
    assert!(!rt.has_scope(a));
    assert_eq!(rt.height_of(a), None);
    rt.create_scope_at(a, 2);
    assert!(!rt.is_dirty(a));
}

#[test]
fn registering_a_scope_again_drops_what_it_owned() {
    let mut rt: Runtime<i32> = Runtime::new();
    let a = ScopeId(0);
    rt.create_scope_at(a, 0);
    let cell = CopyValue::new_in_scope(&mut rt, Box::new(1), a);
    rt.mark_dirty(a);
    rt.create_scope_at(a, 5);
    assert_eq!(rt.height_of(a), Some(5));
    assert!(!rt.has_owner(a));
    assert!(!rt.is_dirty(a));
    assert_eq!(cell.get(&rt), Err(BorrowError::StaleHandle));
}

#[test]
fn cells_hold_values_of_many_types() {
    let mut rt: Runtime<Box<dyn Any>> = Runtime::new();
    rt.create_scope_at(ScopeId(0), 0);
    rt.push_scope(ScopeId(0));
    let number = CopyValue::new(&mut rt, Box::new(Box::new(10i32)));
    let mut word = CopyValue::new(&mut rt, Box::new(Box::new("ten")));
    assert_eq!(number.inspect(&rt).unwrap().downcast_ref::<i32>(), Some(&10));
    assert_eq!(word.inspect(&rt).unwrap().downcast_ref::<&str>(), Some(&"ten"));
    assert_eq!(word.inspect(&rt).unwrap().downcast_ref::<i32>(), None);
    assert!(word.set(&mut rt, Box::new(11u8)).is_ok());
    assert_eq!(word.inspect(&rt).unwrap().downcast_ref::<u8>(), Some(&11));
}

#[test]
fn set_goes_through_on_a_borrowed_cell() {
    let (mut rt, scope) = runtime_in_scope();
    let mut cell = CopyValue::new(&mut rt, Box::new(1));
    let reader = cell.read(&mut rt);
    let other = cell.read(&mut rt);
    assert_eq!(cell.set(&mut rt, 2), Ok(()));
    assert!(rt.is_dirty(scope));
    assert_eq!(rt.get(&reader), None);
    rt.release_read(reader);
    rt.release_read(other);
    let writer = cell.write(&mut rt);
    assert_eq!(cell.set(&mut rt, 3), Ok(()));
    assert!(!rt.update(&writer, 4));
    rt.release_write(writer);
    assert_eq!(cell.get(&rt), Ok(3));
}

#[test]
fn scope_and_effect_stacks_nest() {
    let mut rt: Runtime<i32> = Runtime::new();
    assert_eq!(rt.current_scope_id(), None);
    assert_eq!(rt.current_effect(), None);
    rt.push_scope(ScopeId(4));
    rt.push_scope(ScopeId(5));
    assert_eq!(rt.current_scope_id(), Some(ScopeId(5)));
    rt.pop_scope();
    assert_eq!(rt.current_scope_id(), Some(ScopeId(4)));
    rt.pop_scope();
    rt.pop_scope();
    assert_eq!(rt.current_scope_id(), None);
    rt.push_effect(Effect { source: ScopeId(1) });
    assert_eq!(rt.current_effect(), Some(Effect { source: ScopeId(1) }));
    rt.pop_effect();
    assert_eq!(rt.current_effect(), None);
}
