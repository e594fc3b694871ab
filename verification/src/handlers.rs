//! What the service answers: the four operations on the store with the
//! status each one ends in, and the one body that every failure is
//! reported with.

use crate::failure::{Failure, BAD_REQUEST, CREATED, NOT_FOUND, NO_CONTENT, OK};
use crate::models::{ErrorMessage, ListOptions, Todo, DB};
use crate::store::{after_create, after_delete, after_update, holds_id, window};
use vstd::prelude::*;

verus! {

/// Turns the failure that routing ended in into the body of the response.
/// The response's status is the `code` of that body; a code of 500 marks a
/// failure that nothing classifies, which the caller should also log.
pub fn rejection(err: Failure) -> (reply: ErrorMessage)
    ensures
        reply.code == err.code(),
        reply.message@ == Failure::label(err.code()),
{
    ErrorMessage { code: err.status(), message: err.message().to_owned() }
}

/// The todos that the options ask for: a copy of the store's entries
/// without the first `offset`, cut after `limit` of them.
pub fn list_todos(opts: ListOptions, db: &DB) -> (todos: Vec<Todo>)
    ensures
        todos@ == window(db@, opts.skipped(), opts.bound()),
        opts.offset is None && opts.limit is None ==> todos@ == db@,
{
    let offset = match opts.offset {
        Some(n) => n,
        None => 0,
    };
    let limit = match opts.limit {
        Some(n) => n,
        None => usize::MAX,
    };
    proof {
        db.lemma_countable();
        assert(window(db@, 0, usize::MAX as nat) =~= db@);
    }
    db.list(offset, limit)
}

/// Creates a todo: 201 where it was appended, 400 where its id was taken.
pub fn create_todo(create: Todo, db: &mut DB) -> (status: u16)
    ensures
        final(db)@ == after_create(old(db)@, create),
        status == if holds_id(old(db)@, create.id) {
            BAD_REQUEST
        } else {
            CREATED
        },
{
    match db.create(create) {
        Ok(_) => CREATED,
        Err(conflict) => conflict.status(),
    }
}

/// Replaces the todo with the given id: 200 where it was there, else 404.
pub fn update_todo(id: u64, update: Todo, db: &mut DB) -> (status: u16)
    ensures
        final(db)@ == after_update(old(db)@, id, update),
        status == if holds_id(old(db)@, id) {
            OK
        } else {
            NOT_FOUND
        },
{
    match db.update(id, update) {
        Ok(_) => OK,
        Err(missing) => missing.status(),
    }
}

/// Deletes the todo with the given id: 204 where it was there, else 404.
pub fn delete_todo(id: u64, db: &mut DB) -> (status: u16)
    ensures
        final(db)@ == after_delete(old(db)@, id),
        status == if holds_id(old(db)@, id) {
            NO_CONTENT
        } else {
            NOT_FOUND
        },
{
    match db.delete(id) {
        Ok(_) => NO_CONTENT,
        Err(missing) => missing.status(),
    }
}

} // verus!
