use todo_api::failure::Failure;
use todo_api::handlers::{create_todo, delete_todo, list_todos, update_todo};
use todo_api::models::{blank_db, ListOptions, Todo};
use todo_api::store::Store;

fn todo(id: u64, text: &str) -> Todo {
    Todo { id, text: text.into(), completed: false }
}

fn filled(ids: &[u64]) -> Store {
    let mut db = Store::new();
    for id in ids {
        db.create(todo(*id, &format!("todo {}", id))).unwrap();
    }
    db
}

fn ids(todos: &[Todo]) -> Vec<u64> {
    todos.iter().map(|todo| todo.id).collect()
}

#[test]
fn blank_db_is_empty() {
    let db = blank_db();
    assert_eq!(db.len(), 0);
    assert_eq!(db.list(0, usize::MAX), vec![]);
    assert_eq!(list_todos(ListOptions { offset: None, limit: None }, &db), vec![]);
}

#[test]
fn creates_with_distinct_ids_are_listed_in_insertion_order() {
    let todos = vec![todo(5, "five"), todo(1, "one"), todo(9, "nine"), todo(0, "zero")];
    let mut db = Store::new();
    for t in &todos {
        assert_eq!(db.create(t.clone()), Ok(()));
    }
    assert_eq!(db.list(0, usize::MAX), todos);
    assert_eq!(list_todos(ListOptions { offset: None, limit: None }, &db), todos);
}

#[test]
fn create_with_a_present_id_changes_nothing() {
    let mut db = filled(&[1, 2, 3]);
    let before = db.list(0, usize::MAX);
    assert_eq!(db.create(todo(2, "another two")), Err(Failure::Conflict));
    assert_eq!(db.list(0, usize::MAX), before);
    assert_eq!(create_todo(todo(3, "another three"), &mut db), 400);
    assert_eq!(db.list(0, usize::MAX), before);
    assert_eq!(create_todo(todo(4, "four"), &mut db), 201);
    assert_eq!(ids(&db.list(0, usize::MAX)), vec![1, 2, 3, 4]);
}

#[test]
fn update_of_an_absent_id_changes_nothing() {
    let mut db = filled(&[1, 2, 3]);
    let before = db.list(0, usize::MAX);
    assert_eq!(db.update(7, todo(7, "seven")), Err(Failure::NotFound));
    assert_eq!(db.list(0, usize::MAX), before);
    assert_eq!(update_todo(7, todo(7, "seven"), &mut db), 404);
    assert_eq!(db.list(0, usize::MAX), before);
}

#[test]
fn update_puts_the_new_value_in_place() {
    let mut db = filled(&[1, 2, 3]);
    let new = Todo { id: 2, text: "changed".into(), completed: true };
    assert_eq!(db.update(2, new.clone()), Ok(()));
    let after = db.list(0, usize::MAX);
    assert_eq!(after[1], new);
    assert_eq!(ids(&after), vec![1, 2, 3]);
    assert_eq!(after[0], todo(1, "todo 1"));
    assert_eq!(after[2], todo(3, "todo 3"));
    assert_eq!(update_todo(3, todo(3, "again"), &mut db), 200);
    assert_eq!(db.list(2, 1), vec![todo(3, "again")]);
}

#[test]
fn update_may_change_the_id_and_only_the_first_entry() {
    let mut db = filled(&[1, 2, 3]);
    assert_eq!(db.update(3, todo(1, "one again")), Ok(()));
    assert_eq!(ids(&db.list(0, usize::MAX)), vec![1, 2, 1]);
    assert_eq!(db.update(1, todo(1, "first")), Ok(()));
    assert_eq!(
        db.list(0, usize::MAX),
        vec![todo(1, "first"), todo(2, "todo 2"), todo(1, "one again")]
    );
    assert_eq!(db.len(), 3);
    assert_eq!(db.delete(1), Ok(()));
    assert_eq!(db.list(0, usize::MAX), vec![todo(2, "todo 2")]);
}

#[test]
fn delete_of_an_absent_id_changes_nothing() {
    let mut db = filled(&[1, 2, 3]);
    let before = db.list(0, usize::MAX);
    assert_eq!(db.delete(4), Err(Failure::NotFound));
    assert_eq!(db.len(), 3);
    assert_eq!(db.list(0, usize::MAX), before);
    assert_eq!(delete_todo(0, &mut db), 404);
    assert_eq!(db.list(0, usize::MAX), before);
    let mut empty = Store::new();
    assert_eq!(empty.delete(1), Err(Failure::NotFound));
}

#[test]
fn delete_removes_exactly_the_entry() {
    let mut db = filled(&[1, 2, 3, 4]);
    assert_eq!(db.delete(2), Ok(()));
    assert_eq!(db.len(), 3);
    assert_eq!(
        db.list(0, usize::MAX),
        vec![todo(1, "todo 1"), todo(3, "todo 3"), todo(4, "todo 4")]
    );
    assert_eq!(delete_todo(4, &mut db), 204);
    assert_eq!(ids(&db.list(0, usize::MAX)), vec![1, 3]);
    assert_eq!(delete_todo(4, &mut db), 404);
    assert_eq!(db.delete(1), Ok(()));
    assert_eq!(db.delete(3), Ok(()));
    assert_eq!(db.len(), 0);
}

#[test]
fn list_is_a_window_on_the_store() {
    let db = filled(&[10, 11, 12, 13, 14, 15]);
    assert_eq!(ids(&db.list(0, 0)), Vec::<u64>::new());
    assert_eq!(ids(&db.list(0, 2)), vec![10, 11]);
    assert_eq!(ids(&db.list(2, 3)), vec![12, 13, 14]);
    assert_eq!(ids(&db.list(4, 5)), vec![14, 15]);
    assert_eq!(ids(&db.list(5, usize::MAX)), vec![15]);
    assert_eq!(ids(&db.list(6, 1)), Vec::<u64>::new());
    assert_eq!(ids(&db.list(7, usize::MAX)), Vec::<u64>::new());
    assert_eq!(ids(&db.list(usize::MAX, usize::MAX)), Vec::<u64>::new());
    assert_eq!(ids(&db.list(1, usize::MAX)), vec![11, 12, 13, 14, 15]);
    for offset in 0..8 {
        for limit in 0..8 {
            let listed = db.list(offset, limit);
            assert!(listed.len() <= limit);
            let expected: Vec<u64> =
                (10u64..16).skip(offset).take(limit).collect();
            assert_eq!(ids(&listed), expected);
        }
    }
}

#[test]
fn list_todos_applies_the_options() {
    let db = filled(&[1, 2, 3, 4, 5]);
    let listed = list_todos(ListOptions { offset: Some(3), limit: None }, &db);
    assert_eq!(ids(&listed), vec![4, 5]);
    let listed = list_todos(ListOptions { offset: None, limit: Some(2) }, &db);
    assert_eq!(ids(&listed), vec![1, 2]);
    let listed = list_todos(ListOptions { offset: Some(1), limit: Some(3) }, &db);
    assert_eq!(ids(&listed), vec![2, 3, 4]);
    let listed = list_todos(ListOptions { offset: Some(9), limit: Some(3) }, &db);
    assert_eq!(listed, vec![]);
}

#[test]
fn list_hands_out_copies() {
    let db = filled(&[1]);
    let mut listed = db.list(0, 1);
    listed[0].text.push_str(" changed");
    listed[0].completed = true;
    assert_eq!(db.list(0, 1), vec![todo(1, "todo 1")]);
    let copy = listed[0].clone();
    assert_eq!(copy, listed[0]);
}

#[test]
fn changes_in_any_order_keep_ids_distinct() {
    let changes: [fn(&mut Store) -> bool; 5] = [
        |db| db.create(todo(1, "one")).is_ok(),
        |db| db.create(todo(1, "one again")).is_ok(),
        |db| db.update(1, Todo { id: 1, text: "done".into(), completed: true }).is_ok(),
        |db| db.delete(1).is_ok(),
        |db| db.create(todo(2, "two")).is_ok(),
    ];
    let mut orders = vec![vec![]];
    for _ in 0..changes.len() {
        let mut longer = vec![];
        for order in &orders {
            for next in 0..changes.len() {
                if !order.contains(&next) {
                    let mut one: Vec<usize> = order.clone();
                    one.push(next);
                    longer.push(one);
                }
            }
        }
        orders = longer;
    }
    assert_eq!(orders.len(), 120);
    for order in orders {
        let mut db = filled(&[7]);
        for place in &order {
            let before = db.list(0, usize::MAX);
            let done = changes[*place](&mut db);
            let after = ids(&db.list(0, usize::MAX));
            if !done {
                assert_eq!(db.list(0, usize::MAX), before);
            }
            let mut seen = after.clone();
            seen.sort();
            seen.dedup();
            assert_eq!(seen.len(), after.len(), "{:?}", order);
        }
        let left = ids(&db.list(0, usize::MAX));
        assert!(left.contains(&7) && left.contains(&2), "{:?}", order);
        assert_eq!(left[0], 7);
    }
}
