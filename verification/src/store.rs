//! The list of todos and the four operations on it.
//!
//! Every operation that changes the store takes it by exclusive reference:
//! whoever shares a store between tasks puts it behind one lock, and each
//! operation then runs from start to end with nothing else in between.

use crate::failure::Failure;
use crate::models::Todo;
use vstd::prelude::*;

verus! {

/// Whether some entry of `s` has the given id.
pub open spec fn holds_id(s: Seq<Todo>, id: u64) -> bool {
    exists|i: int| 0 <= i < s.len() && (#[trigger] s[i]).id == id
}

/// Whether no two entries of `s` share an id.
pub open spec fn distinct_ids(s: Seq<Todo>) -> bool {
    forall|i: int, j: int| 0 <= i < j < s.len() ==> (#[trigger] s[i]).id != (#[trigger] s[j]).id
}

/// Whether `i` is the place of the first entry of `s` with the given id.
pub open spec fn is_first_with_id(s: Seq<Todo>, id: u64, i: int) -> bool {
    &&& 0 <= i < s.len()
    &&& s[i].id == id
    &&& forall|j: int| 0 <= j < i ==> (#[trigger] s[j]).id != id
}

/// The place of the first entry of `s` with the given id, where there is one.
pub open spec fn first_with_id(s: Seq<Todo>, id: u64) -> int {
    choose|i: int| is_first_with_id(s, id, i)
}

/// The entries of `s` from place `offset` on, `limit` of them at most.
pub open spec fn window(s: Seq<Todo>, offset: nat, limit: nat) -> Seq<Todo> {
    let from = if offset <= s.len() {
        offset
    } else {
        s.len()
    };
    let to = if limit <= s.len() - from {
        from + limit
    } else {
        s.len()
    };
    s.subrange(from as int, to as int)
}

/// The store after an attempt to create `todo` in `s`.
pub open spec fn after_create(s: Seq<Todo>, todo: Todo) -> Seq<Todo> {
    if holds_id(s, todo.id) {
        s
    } else {
        s.push(todo)
    }
}

/// The store after an attempt to replace the entry of `s` with the given id.
pub open spec fn after_update(s: Seq<Todo>, id: u64, todo: Todo) -> Seq<Todo> {
    if holds_id(s, id) {
        s.update(first_with_id(s, id), todo)
    } else {
        s
    }
}

/// The test that an entry passes when its id is not the given one.
pub open spec fn has_other_id(id: u64) -> spec_fn(Todo) -> bool {
    |t: Todo| t.id != id
}

/// The store after the entries of `s` with the given id have been removed.
pub open spec fn after_delete(s: Seq<Todo>, id: u64) -> Seq<Todo> {
    s.filter(has_other_id(id))
}

/// What an operation that needs the given id to be absent (`true`) or
/// present (`false`) reports on the store `s`.
pub open spec fn verdict(s: Seq<Todo>, id: u64, absent: bool) -> Result<(), Failure> {
    if holds_id(s, id) == absent {
        Err(
            if absent {
                Failure::Conflict
            } else {
                Failure::NotFound
            },
        )
    } else {
        Ok(())
    }
}

/// Whether at most one entry of `s` has the given id.
pub open spec fn at_most_once(s: Seq<Todo>, id: u64) -> bool {
    forall|i: int, j: int|
        0 <= i < j < s.len() && (#[trigger] s[i]).id == id ==> (#[trigger] s[j]).id != id
}

/// The store after an attempt to create each of `todos` in `s`, first to last.
pub open spec fn after_creates(s: Seq<Todo>, todos: Seq<Todo>) -> Seq<Todo>
    decreases todos.len(),
{
    if todos.len() == 0 {
        s
    } else {
        after_create(after_creates(s, todos.drop_last()), todos.last())
    }
}

/// A change that a request can make to the store.
pub enum Change {
    Create(Todo),
    Update(u64, Todo),
    Delete(u64),
}

impl Change {
    /// Whether this change leaves the id of the entry it touches as it is.
    /// Only an update can do otherwise.
    pub open spec fn keeps_id(self) -> bool {
        self matches Change::Update(id, todo) ==> todo.id == id
    }
}

/// The store after one change.
pub open spec fn after(s: Seq<Todo>, change: Change) -> Seq<Todo> {
    match change {
        Change::Create(todo) => after_create(s, todo),
        Change::Update(id, todo) => after_update(s, id, todo),
        Change::Delete(id) => after_delete(s, id),
    }
}

/// The store after a run of changes, made one after the other.
pub open spec fn after_all(s: Seq<Todo>, changes: Seq<Change>) -> Seq<Todo>
    decreases changes.len(),
{
    if changes.len() == 0 {
        s
    } else {
        after(after_all(s, changes.drop_last()), changes.last())
    }
}

/// The todos of the service, in the order in which they were created.
#[derive(Debug)]
pub struct Store {
    todos: Vec<Todo>,
}

impl View for Store {
    type V = Seq<Todo>;

    closed spec fn view(&self) -> Seq<Todo> {
        self.todos@
    }
}

impl Store {
    /// A store with no entry in it.
    pub fn new() -> (store: Store)
        ensures
            store@ == Seq::<Todo>::empty(),
    {
        Store { todos: Vec::new() }
    }

    /// A store holds no more entries than the machine can count.
    pub proof fn lemma_countable(&self)
        ensures
            self@.len() <= usize::MAX,
    {
        assert(self.todos.len() == self.todos@.len());
    }

    /// The number of entries.
    pub fn len(&self) -> (n: usize)
        ensures
            n == self@.len(),
    {
        self.todos.len()
    }

    /// The place of the first entry with the given id.
    fn find(&self, id: u64) -> (place: Option<usize>)
        ensures
            place is Some <==> holds_id(self@, id),
            place matches Some(i) ==> is_first_with_id(self@, id, i as int) && i as int
                == first_with_id(self@, id),
    {
        let mut i: usize = 0;
        while i < self.todos.len()
            invariant
                i <= self.todos.len(),
                forall|j: int| 0 <= j < i ==> (#[trigger] self.todos@[j]).id != id,
            decreases self.todos.len() - i,
        {
            if self.todos[i].id == id {
                assert(is_first_with_id(self@, id, i as int));
                return Some(i);
            }
            i += 1;
        }
        None
    }

    /// A copy of the entries from place `offset` on, `limit` of them at
    /// most, in the order of the store.
    pub fn list(&self, offset: usize, limit: usize) -> (out: Vec<Todo>)
        ensures
            out@ == window(self@, offset as nat, limit as nat),
    {
        let n = self.todos.len();
        let from = if offset <= n {
            offset
        } else {
            n
        };
        let to = if limit <= n - from {
            from + limit
        } else {
            n
        };
        let mut out: Vec<Todo> = Vec::new();
        let mut i: usize = from;
        while i < to
            invariant
                from <= i <= to <= n,
                n == self.todos.len(),
                out@ == self.todos@.subrange(from as int, i as int),
            decreases to - i,
        {
            out.push(self.todos[i].clone());
            assert(out@ =~= self.todos@.subrange(from as int, i + 1));
            i += 1;
        }
        out
    }

    /// Appends `todo` unless an entry with its id is there already.
    pub fn create(&mut self, todo: Todo) -> (r: Result<(), Failure>)
        ensures
            final(self)@ == after_create(old(self)@, todo),
            r == verdict(old(self)@, todo.id, true),
    {
        match self.find(todo.id) {
            Some(_) => Err(Failure::Conflict),
            None => {
                self.todos.push(todo);
                Ok(())
            },
        }
    }

    /// Puts `todo` in the place of the first entry with the given id. The id
    /// of `todo` itself is not looked at.
    pub fn update(&mut self, id: u64, todo: Todo) -> (r: Result<(), Failure>)
        ensures
            final(self)@ == after_update(old(self)@, id, todo),
            r == verdict(old(self)@, id, false),
    {
        match self.find(id) {
            Some(i) => {
                self.todos.set(i, todo);
                Ok(())
            },
            None => Err(Failure::NotFound),
        }
    }

    /// Removes every entry with the given id, keeping the others in order.
    pub fn delete(&mut self, id: u64) -> (r: Result<(), Failure>)
        ensures
            final(self)@ == after_delete(old(self)@, id),
            r == verdict(old(self)@, id, false),
    {
        let ghost before = self.todos@;
        let mut items: Vec<Todo> = Vec::new();
        std::mem::swap(&mut self.todos, &mut items);
        let mut found = false;
        for todo in it: items.into_iter()
            invariant
                it.seq() == before,
                self.todos@ == before.take(it.index()).filter(has_other_id(id)),
                found <==> holds_id(before.take(it.index()), id),
        {
            proof {
                let k = it.index();
                let seen = before.take(k);
                let next = before.take(k + 1);
                reveal(Seq::filter);
                assert(next.drop_last() =~= seen);
                assert(next.last() == todo);
                assert(next.filter(has_other_id(id)) == if todo.id != id {
                    seen.filter(has_other_id(id)).push(todo)
                } else {
                    seen.filter(has_other_id(id))
                });
                if holds_id(next, id) && todo.id != id {
                    let w = choose|w: int| 0 <= w < next.len() && (#[trigger] next[w]).id == id;
                    assert(seen[w].id == id);
                }
                if holds_id(seen, id) {
                    let w = choose|w: int| 0 <= w < seen.len() && (#[trigger] seen[w]).id == id;
                    assert(next[w].id == id);
                }
                if todo.id == id {
                    assert(next[k].id == id);
                }
            }
            if todo.id == id {
                found = true;
            } else {
                self.todos.push(todo);
            }
        }
        assert(before.take(before.len() as int) =~= before);
        if found {
            Ok(())
        } else {
            Err(Failure::NotFound)
        }
    }
}

/// Where some entry has the given id, one of them is the first.
pub proof fn lemma_first_exists(s: Seq<Todo>, id: u64, w: int)
    requires
        0 <= w < s.len(),
        s[w].id == id,
    ensures
        is_first_with_id(s, id, first_with_id(s, id)),
    decreases w,
{
    if exists|j: int| 0 <= j < w && (#[trigger] s[j]).id == id {
        let j = choose|j: int| 0 <= j < w && (#[trigger] s[j]).id == id;
        lemma_first_exists(s, id, j);
    } else {
        assert(is_first_with_id(s, id, w));
    }
}

/// Removing an id that no entry has removes nothing.
pub proof fn lemma_delete_absent(s: Seq<Todo>, id: u64)
    requires
        !holds_id(s, id),
    ensures
        after_delete(s, id) == s,
    decreases s.len(),
{
    reveal(Seq::filter);
    if s.len() > 0 {
        let init = s.drop_last();
        assert(s[s.len() - 1].id != id);
        assert(!holds_id(init, id)) by {
            if holds_id(init, id) {
                let w = choose|w: int| 0 <= w < init.len() && (#[trigger] init[w]).id == id;
                assert(s[w].id == id);
            }
        }
        lemma_delete_absent(init, id);
        assert(init.push(s.last()) =~= s);
    }
}

/// Removing an id that exactly one entry has shortens the store by one.
pub proof fn lemma_delete_once(s: Seq<Todo>, id: u64)
    requires
        holds_id(s, id),
        at_most_once(s, id),
    ensures
        after_delete(s, id).len() == s.len() - 1,
    decreases s.len(),
{
    reveal(Seq::filter);
    let init = s.drop_last();
    let w = choose|w: int| 0 <= w < s.len() && (#[trigger] s[w]).id == id;
    if s.last().id == id {
        assert(!holds_id(init, id)) by {
            if holds_id(init, id) {
                let v = choose|v: int| 0 <= v < init.len() && (#[trigger] init[v]).id == id;
                assert(s[v].id == id);
                assert(s[s.len() - 1].id == id);
            }
        }
        lemma_delete_absent(init, id);
    } else {
        assert(init[w].id == id);
        assert(at_most_once(init, id)) by {
            assert forall|i: int, j: int|
                0 <= i < j < init.len() && (#[trigger] init[i]).id == id implies (
            #[trigger] init[j]).id != id by {
                assert(s[i].id == id);
                assert(s[j] == init[j]);
            }
        }
        lemma_delete_once(init, id);
    }
}

/// Removing an id does not bring two entries with one id together.
pub proof fn lemma_delete_keeps_distinct(s: Seq<Todo>, id: u64)
    requires
        distinct_ids(s),
    ensures
        distinct_ids(after_delete(s, id)),
    decreases s.len(),
{
    reveal(Seq::filter);
    if s.len() > 0 {
        let init = s.drop_last();
        let last = s.last();
        assert(distinct_ids(init)) by {
            assert forall|i: int, j: int| 0 <= i < j < init.len() implies (#[trigger] init[i]).id
                != (#[trigger] init[j]).id by {
                assert(s[i] == init[i] && s[j] == init[j]);
            }
        }
        lemma_delete_keeps_distinct(init, id);
        let kept = after_delete(init, id);
        if last.id != id {
            assert forall|i: int, j: int| 0 <= i < j < kept.push(last).len() implies (
            #[trigger] kept.push(last)[i]).id != (#[trigger] kept.push(last)[j]).id by {
                if j == kept.len() {
                    assert(kept.contains(kept[i]));
                    init.lemma_filter_contains_rev(has_other_id(id), kept[i]);
                    let k = choose|k: int| 0 <= k < init.len() && init[k] == kept[i];
                    assert(s[k] == init[k]);
                    assert(s[s.len() - 1] == last);
                }
            }
        }
    }
}

/// Todos with distinct ids, created one after the other in an empty store,
/// are what the store then lists from the start without a bound that
/// cuts them short, in the order of their creation.
pub proof fn law_creates_are_listed_in_order(todos: Seq<Todo>, limit: nat)
    requires
        distinct_ids(todos),
        limit >= todos.len(),
    ensures
        after_creates(Seq::empty(), todos) == todos,
        window(after_creates(Seq::empty(), todos), 0, limit) == todos,
    decreases todos.len(),
{
    if todos.len() > 0 {
        let init = todos.drop_last();
        assert(distinct_ids(init)) by {
            assert forall|i: int, j: int| 0 <= i < j < init.len() implies (#[trigger] init[i]).id
                != (#[trigger] init[j]).id by {
                assert(todos[i] == init[i] && todos[j] == init[j]);
            }
        }
        law_creates_are_listed_in_order(init, limit);
        assert(!holds_id(init, todos.last().id)) by {
            if holds_id(init, todos.last().id) {
                let w = choose|w: int|
                    0 <= w < init.len() && (#[trigger] init[w]).id == todos.last().id;
                assert(todos[w] == init[w]);
                assert(todos[todos.len() - 1] == todos.last());
            }
        }
        assert(init.push(todos.last()) =~= todos);
    } else {
        assert(after_creates(Seq::empty(), todos) =~= todos);
    }
    assert(window(todos, 0, limit) =~= todos);
}

/// Creating a todo whose id the store already holds changes nothing and
/// reports a conflict; creating any other appends it, and ids that were
/// distinct stay so.
pub proof fn law_create(s: Seq<Todo>, todo: Todo)
    ensures
        holds_id(s, todo.id) ==> after_create(s, todo) == s && verdict(s, todo.id, true) == Err::<
            (),
            Failure,
        >(Failure::Conflict),
        !holds_id(s, todo.id) ==> after_create(s, todo) == s.push(todo) && verdict(
            s,
            todo.id,
            true,
        ) == Ok::<(), Failure>(()),
        distinct_ids(s) ==> distinct_ids(after_create(s, todo)),
{
    if distinct_ids(s) && !holds_id(s, todo.id) {
        let t = s.push(todo);
        assert forall|i: int, j: int| 0 <= i < j < t.len() implies (#[trigger] t[i]).id != (
        #[trigger] t[j]).id by {
            if j == s.len() {
                assert(s[i].id != todo.id);
            } else {
                assert(t[i] == s[i] && t[j] == s[j]);
            }
        }
    }
}

/// Updating an id that the store does not hold changes nothing and reports
/// that it was not found. Updating one that it holds puts the new value,
/// whole, in the place of the first entry with that id and leaves every
/// other place as it was; ids that were distinct stay so if the new value
/// keeps the id.
pub proof fn law_update(s: Seq<Todo>, id: u64, todo: Todo)
    ensures
        !holds_id(s, id) ==> after_update(s, id, todo) == s && verdict(s, id, false) == Err::<
            (),
            Failure,
        >(Failure::NotFound),
        holds_id(s, id) ==> {
            let place = first_with_id(s, id);
            let t = after_update(s, id, todo);
            &&& verdict(s, id, false) == Ok::<(), Failure>(())
            &&& is_first_with_id(s, id, place)
            &&& t.len() == s.len()
            &&& t[place] == todo
            &&& forall|j: int| 0 <= j < s.len() && j != place ==> #[trigger] t[j] == s[j]
        },
        distinct_ids(s) && todo.id == id ==> distinct_ids(after_update(s, id, todo)),
{
    if holds_id(s, id) {
        let w = choose|w: int| 0 <= w < s.len() && (#[trigger] s[w]).id == id;
        lemma_first_exists(s, id, w);
        if distinct_ids(s) && todo.id == id {
            let place = first_with_id(s, id);
            let t = after_update(s, id, todo);
            assert forall|i: int, j: int| 0 <= i < j < t.len() implies (#[trigger] t[i]).id != (
            #[trigger] t[j]).id by {
                assert(t[i].id == s[i].id && t[j].id == s[j].id);
            }
        }
    }
}

/// Deleting an id that the store does not hold changes nothing and reports
/// that it was not found. Deleting one that it holds leaves no entry with
/// that id and a shorter store: shorter by exactly one where the id was
/// held once. Ids that were distinct stay so.
pub proof fn law_delete(s: Seq<Todo>, id: u64)
    ensures
        !holds_id(s, id) ==> after_delete(s, id) == s && verdict(s, id, false) == Err::<
            (),
            Failure,
        >(Failure::NotFound),
        holds_id(s, id) ==> verdict(s, id, false) == Ok::<(), Failure>(()) && after_delete(
            s,
            id,
        ).len() < s.len(),
        holds_id(s, id) && at_most_once(s, id) ==> after_delete(s, id).len() == s.len() - 1,
        !holds_id(after_delete(s, id), id),
        distinct_ids(s) ==> at_most_once(s, id) && distinct_ids(after_delete(s, id)),
{
    let t = after_delete(s, id);
    if holds_id(s, id) {
        let w = choose|w: int| 0 <= w < s.len() && (#[trigger] s[w]).id == id;
        s.lemma_filter_len(has_other_id(id));
        if t.len() == s.len() {
            lemma_filter_full(s, id, w);
        }
        if at_most_once(s, id) {
            lemma_delete_once(s, id);
        }
    } else {
        lemma_delete_absent(s, id);
    }
    assert(!holds_id(t, id)) by {
        if holds_id(t, id) {
            let v = choose|v: int| 0 <= v < t.len() && (#[trigger] t[v]).id == id;
            s.lemma_filter_pred(has_other_id(id), v);
        }
    }
    if distinct_ids(s) {
        lemma_delete_keeps_distinct(s, id);
    }
}

/// A removal that leaves the length as it was has removed no entry.
proof fn lemma_filter_full(s: Seq<Todo>, id: u64, w: int)
    requires
        0 <= w < s.len(),
        after_delete(s, id).len() == s.len(),
    ensures
        s[w].id != id,
    decreases s.len(),
{
    reveal(Seq::filter);
    let init = s.drop_last();
    init.lemma_filter_len(has_other_id(id));
    if w < s.len() - 1 {
        lemma_filter_full(init, id, w);
    }
}

/// What the store lists is never longer than the bound asked for, and is
/// the run of its entries that starts at the offset and ends where the
/// bound or the store ends.
pub proof fn law_window(s: Seq<Todo>, offset: nat, limit: nat)
    ensures
        window(s, offset, limit).len() <= limit,
        offset >= s.len() ==> window(s, offset, limit).len() == 0,
        offset < s.len() ==> window(s, offset, limit).len() == if limit <= s.len() - offset {
            limit
        } else {
            (s.len() - offset) as nat
        },
        forall|k: int|
            0 <= k < window(s, offset, limit).len() ==> #[trigger] window(s, offset, limit)[k]
                == s[offset + k],
{
}

/// In whatever order changes are made one after the other, ids that were
/// distinct stay distinct, as long as no update gives an entry another id.
pub proof fn law_changes_keep_ids_distinct(s: Seq<Todo>, changes: Seq<Change>)
    requires
        distinct_ids(s),
        forall|i: int| 0 <= i < changes.len() ==> (#[trigger] changes[i]).keeps_id(),
    ensures
        distinct_ids(after_all(s, changes)),
    decreases changes.len(),
{
    if changes.len() > 0 {
        let init = changes.drop_last();
        assert forall|i: int| 0 <= i < init.len() implies (#[trigger] init[i]).keeps_id() by {
            assert(init[i] == changes[i]);
        }
        law_changes_keep_ids_distinct(s, init);
        let before = after_all(s, init);
        assert(changes[changes.len() - 1].keeps_id());
        match changes.last() {
            Change::Create(todo) => law_create(before, todo),
            Change::Update(id, todo) => law_update(before, id, todo),
            Change::Delete(id) => law_delete(before, id),
        }
    }
}

} // verus!
