//! A named, ordered list of todos.
use crate::error::todo_error;
use crate::error::ErrorKind;
use crate::error::TdoResult;
use crate::todo::Todo;
use crate::todo::TodoModel;
use vstd::prelude::*;

verus! {

/// `i` is the position of the first element of `s` that satisfies `p`.
pub open spec fn is_first<T>(s: Seq<T>, p: spec_fn(T) -> bool, i: int) -> bool {
    &&& 0 <= i < s.len()
    &&& p(s[i])
    &&& forall|j: int| 0 <= j < i ==> !p(#[trigger] s[j])
}

/// The position of the first element of `s` that satisfies `p`, if there is one.
pub open spec fn first_index<T>(s: Seq<T>, p: spec_fn(T) -> bool) -> Option<int> {
    if exists|i: int| is_first(s, p, i) {
        Some(choose|i: int| is_first(s, p, i))
    } else {
        None
    }
}

/// A position that is the first match is the one `first_index` names.
pub proof fn lemma_first_index_found<T>(s: Seq<T>, p: spec_fn(T) -> bool, i: int)
    requires
        is_first(s, p, i),
    ensures
        first_index(s, p) == Some(i),
{
    let k = choose|k: int| is_first(s, p, k);
    assert(is_first(s, p, k));
    if k < i {
        assert(!p(s[k]));
    }
    if i < k {
        assert(!p(s[i]));
    }
}

/// Without a match there is no first match.
pub proof fn lemma_first_index_none<T>(s: Seq<T>, p: spec_fn(T) -> bool)
    requires
        forall|j: int| 0 <= j < s.len() ==> !p(#[trigger] s[j]),
    ensures
        first_index(s, p) is None,
{
    if exists|i: int| is_first(s, p, i) {
        let k = choose|k: int| is_first(s, p, k);
        assert(!p(s[k]));
    }
}

/// What `first_index` returns: the first match, or nothing where nothing matches.
pub proof fn lemma_first_index<T>(s: Seq<T>, p: spec_fn(T) -> bool)
    ensures
        match first_index(s, p) {
            Some(i) => is_first(s, p, i),
            None => forall|j: int| 0 <= j < s.len() ==> !p(#[trigger] s[j]),
        },
{
    if first_index(s, p) is None {
        assert forall|j: int| 0 <= j < s.len() implies !p(#[trigger] s[j]) by {
            if p(s[j]) {
                lemma_some_match_has_first(s, p, j);
            }
        }
    }
}

/// Where some element up to `j` matches, a first match exists.
proof fn lemma_some_match_has_first<T>(s: Seq<T>, p: spec_fn(T) -> bool, j: int)
    requires
        0 <= j < s.len(),
        p(s[j]),
    ensures
        exists|i: int| is_first(s, p, i),
    decreases j,
{
    if exists|k: int| 0 <= k < j && p(s[k]) {
        let k = choose|k: int| 0 <= k < j && p(s[k]);
        lemma_some_match_has_first(s, p, k);
    } else {
        assert(is_first(s, p, j));
    }
}

/// Filtering one more element of `s`: it joins what was kept of those before it, or does not.
proof fn lemma_filter_next<T>(s: Seq<T>, p: spec_fn(T) -> bool, i: int)
    requires
        0 <= i < s.len(),
    ensures
        s.take(i + 1).filter(p) == if p(s[i]) {
            s.take(i).filter(p).push(s[i])
        } else {
            s.take(i).filter(p)
        },
        s.take(i).filter(p).len() <= i,
{
    assert(s.take(i + 1) =~= s.take(i).push(s[i]));
    s.take(i).lemma_filter_push(s[i], p);
    s.take(i).lemma_filter_len(p);
}

/// Nothing is kept of an empty sequence.
proof fn lemma_filter_nothing<T>(s: Seq<T>, p: spec_fn(T) -> bool)
    requires
        s.len() == 0,
    ensures
        s.filter(p) == Seq::<T>::empty(),
{
    s.lemma_filter_len(p);
    assert(s.filter(p) =~= Seq::<T>::empty());
}

/// The todos with the given id.
pub open spec fn with_id(id: u32) -> spec_fn(TodoModel) -> bool {
    |t: TodoModel| t.id == id
}

/// The todos with an id below the given one.
pub open spec fn below_id(id: u32) -> spec_fn(TodoModel) -> bool {
    |t: TodoModel| t.id < id
}

/// The todos that are done.
pub open spec fn is_done() -> spec_fn(TodoModel) -> bool {
    |t: TodoModel| t.done
}

/// The todos that are not done.
pub open spec fn is_undone() -> spec_fn(TodoModel) -> bool {
    |t: TodoModel| !t.done
}

/// The views of a sequence of todos, in order.
pub open spec fn todo_views(v: Seq<Todo>) -> Seq<TodoModel> {
    Seq::new(v.len(), |i: int| v[i]@)
}

/// `items` after the first todo with `id` has left it; `items` itself where no todo has that id.
pub open spec fn remove_first(items: Seq<TodoModel>, id: u32) -> Seq<TodoModel> {
    match first_index(items, with_id(id)) {
        Some(i) => items.remove(i),
        None => items,
    }
}

/// `items` after removing, for each id of `ids` in turn, the first todo that has it.
pub open spec fn remove_each(items: Seq<TodoModel>, ids: Seq<u32>) -> Seq<TodoModel>
    decreases ids.len(),
{
    if ids.len() == 0 {
        items
    } else {
        remove_each(remove_first(items, ids[0]), ids.drop_first())
    }
}

/// The ids of the done todos of `items`, in order.
pub open spec fn done_ids(items: Seq<TodoModel>) -> Seq<u32> {
    items.filter(is_done()).map_values(|t: TodoModel| t.id)
}

/// What a [`TodoList`] holds, as mathematical values.
pub struct ListModel {
    pub name: Seq<char>,
    pub list: Seq<TodoModel>,
}

impl ListModel {
    /// No two todos of the list share an id.
    pub open spec fn ids_distinct(self) -> bool {
        forall|i: int, j: int|
            0 <= i < j < self.list.len() ==> (#[trigger] self.list[i]).id != (
            #[trigger] self.list[j]).id
    }

    /// Position of the first todo with `id`.
    pub open spec fn position(self, id: u32) -> Option<int> {
        first_index(self.list, with_id(id))
    }

    /// The list with `item` at its end.
    pub open spec fn added(self, item: TodoModel) -> ListModel {
        ListModel { list: self.list.push(item), ..self }
    }

    /// The list with its first todo of that id marked done.
    pub open spec fn marked_done(self, id: u32) -> ListModel {
        match self.position(id) {
            Some(i) => ListModel {
                list: self.list.update(i, TodoModel { done: true, ..self.list[i] }),
                ..self
            },
            None => self,
        }
    }

    /// The list without its first todo of that id.
    pub open spec fn without(self, id: u32) -> ListModel {
        ListModel { list: remove_first(self.list, id), ..self }
    }

    /// Where `insert_todo` places a todo with `id`: behind as many todos as
    /// have a smaller id, wherever in the list those stand.
    pub open spec fn insert_point(self, id: u32) -> int {
        self.list.filter(below_id(id)).len() as int
    }

    /// The list with `item` placed at its insert point.
    pub open spec fn inserted(self, item: TodoModel) -> ListModel {
        ListModel { list: self.list.insert(self.insert_point(item.id), item), ..self }
    }

    /// The undone todos, in order.
    pub open spec fn undone(self) -> Seq<TodoModel> {
        self.list.filter(is_undone())
    }

    /// The list after `clean`: for each done todo in turn, the first todo
    /// with its id has left.
    pub open spec fn cleaned(self) -> ListModel {
        ListModel { list: remove_each(self.list, done_ids(self.list)), ..self }
    }
}

/// A named list of todos, in the order in which they are shown.
#[derive(Debug)]
pub struct TodoList {
    /// Name of the todo list.
    pub name: String,
    /// The todos of the list.
    pub list: Vec<Todo>,
}

impl View for TodoList {
    type V = ListModel;

    open spec fn view(&self) -> ListModel {
        ListModel { name: self.name@, list: todo_views(self.list@) }
    }
}

impl TodoList {
    /// Creates an empty list with the given name.
    pub fn new(name: &str) -> (r: TodoList)
        ensures
            r@ == (ListModel { name: name@, list: Seq::empty() }),
    {
        let r = TodoList { name: name.to_owned(), list: Vec::new() };
        assert(r@.list =~= Seq::empty());
        r
    }

    /// Appends a todo; its id is not compared with those already there.
    pub fn add(&mut self, new_todo: Todo)
        ensures
            final(self)@ == old(self)@.added(new_todo@),
            old(self)@.ids_distinct() && old(self)@.position(new_todo.id) is None
                ==> final(self)@.ids_distinct(),
    {
        proof {
            lemma_first_index(self@.list, with_id(new_todo.id));
        }
        self.list.push(new_todo);
        assert(self@.list =~= old(self)@.list.push(new_todo@));
    }

    /// Position of the first todo with the given id.
    pub fn contains_id(&self, id: u32) -> (r: TdoResult<usize>)
        ensures
            match r {
                Ok(i) => self@.position(id) == Some(i as int) && is_first(
                    self@.list,
                    with_id(id),
                    i as int,
                ),
                Err(e) => e == ErrorKind::TodoError(todo_error::ErrorKind::NotInList)
                    && self@.position(id) is None && forall|j: int|
                    0 <= j < self@.list.len() ==> (#[trigger] self@.list[j]).id != id,
            },
    {
        let mut i: usize = 0;
        while i < self.list.len()
            invariant
                i <= self.list.len(),
                forall|j: int| 0 <= j < i ==> !with_id(id)(#[trigger] self@.list[j]),
            decreases self.list.len() - i,
        {
            if self.list[i].id == id {
                proof {
                    assert(is_first(self@.list, with_id(id), i as int));
                    lemma_first_index_found(self@.list, with_id(id), i as int);
                }
                return Ok(i);
            }
            i += 1;
        }
        proof {
            lemma_first_index_none(self@.list, with_id(id));
        }
        Err(ErrorKind::TodoError(todo_error::ErrorKind::NotInList))
    }

    /// Marks the first todo with the given id as done.
    pub fn done_id(&mut self, id: u32) -> (r: TdoResult<()>)
        ensures
            r is Ok <==> old(self)@.position(id) is Some,
            r is Err ==> r == Err::<(), ErrorKind>(
                ErrorKind::TodoError(todo_error::ErrorKind::NotInList),
            ),
            final(self)@ == old(self)@.marked_done(id),
            old(self)@.ids_distinct() ==> final(self)@.ids_distinct(),
    {
        match self.contains_id(id) {
            Ok(index) => {
                proof {
                    lemma_first_index(self@.list, with_id(id));
                }
                self.list[index].set_done();
                assert(self@.list =~= old(self)@.marked_done(id).list);
                Ok(())
            },
            Err(_) => Err(ErrorKind::TodoError(todo_error::ErrorKind::NotInList)),
        }
    }

    /// Takes the first todo with the given id out of the list and returns it; the others keep
    /// their order.
    pub fn remove_id(&mut self, id: u32) -> (r: TdoResult<Todo>)
        ensures
            final(self)@ == old(self)@.without(id),
            old(self)@.ids_distinct() ==> final(self)@.ids_distinct(),
            match r {
                Ok(t) => match old(self)@.position(id) {
                    Some(i) => t@ == old(self)@.list[i],
                    None => false,
                },
                Err(e) => e == ErrorKind::TodoError(todo_error::ErrorKind::NotInList) && old(
                    self,
                )@.position(id) is None,
            },
    {
        match self.contains_id(id) {
            Ok(index) => {
                proof {
                    lemma_first_index(self@.list, with_id(id));
                }
                let t = self.list.remove(index);
                assert(self@.list =~= old(self)@.list.remove(index as int));
                proof {
                    lemma_remove_keeps_distinct(old(self)@, index as int);
                }
                Ok(t)
            },
            Err(_) => Err(ErrorKind::TodoError(todo_error::ErrorKind::NotInList)),
        }
    }

    /// Takes the first todo with the given id out of the list, as `remove_id` does.
    pub fn pop_id(&mut self, todo_id: u32) -> (r: TdoResult<Todo>)
        ensures
            final(self)@ == old(self)@.without(todo_id),
            old(self)@.ids_distinct() ==> final(self)@.ids_distinct(),
            match r {
                Ok(t) => match old(self)@.position(todo_id) {
                    Some(i) => t@ == old(self)@.list[i],
                    None => false,
                },
                Err(e) => e == ErrorKind::TodoError(todo_error::ErrorKind::NotInList) && old(
                    self,
                )@.position(todo_id) is None,
            },
    {
        self.remove_id(todo_id)
    }

    /// The undone todos, in the order of the list, as values of their own.
    pub fn list_undone(&self) -> (r: Vec<Todo>)
        ensures
            todo_views(r@) == self@.undone(),
    {
        let mut undone: Vec<Todo> = Vec::new();
        let mut i: usize = 0;
        proof {
            lemma_filter_nothing(self@.list.take(0), is_undone());
            assert(todo_views(undone@) =~= Seq::<TodoModel>::empty());
        }
        while i < self.list.len()
            invariant
                i <= self.list.len(),
                todo_views(undone@) == self@.list.take(i as int).filter(is_undone()),
            decreases self.list.len() - i,
        {
            proof {
                lemma_filter_next(self@.list, is_undone(), i as int);
            }
            if !self.list[i].done {
                let ghost before = todo_views(undone@);
                let entry = self.list[i].clone();
                undone.push(entry);
                assert(todo_views(undone@) =~= before.push(self@.list[i as int]));
            }
            i += 1;
        }
        assert(self@.list.take(i as int) =~= self@.list);
        undone
    }

    /// The ids of the done todos, in the order of the list.
    fn ids_of_done(&self) -> (r: Vec<u32>)
        ensures
            r@ == done_ids(self@.list),
    {
        let mut ids: Vec<u32> = Vec::new();
        let mut i: usize = 0;
        proof {
            lemma_filter_nothing(self@.list.take(0), is_done());
            assert(ids@ =~= done_ids(self@.list.take(0)));
        }
        while i < self.list.len()
            invariant
                i <= self.list.len(),
                ids@ == done_ids(self@.list.take(i as int)),
            decreases self.list.len() - i,
        {
            proof {
                lemma_filter_next(self@.list, is_done(), i as int);
            }
            if self.list[i].done {
                ids.push(self.list[i].id);
                assert(ids@ =~= done_ids(self@.list.take(i + 1)));
            }
            i += 1;
        }
        assert(self@.list.take(i as int) =~= self@.list);
        ids
    }

    /// Removes the done todos: for each of them in turn, the first todo with its id leaves
    /// the list. Where no two todos share an id, exactly the undone todos stay.
    pub fn clean(&mut self)
        ensures
            final(self)@ == old(self)@.cleaned(),
            old(self)@.ids_distinct() ==> final(self)@.list == old(self)@.undone()
                && final(self)@.ids_distinct(),
    {
        let ids = self.ids_of_done();
        let mut k: usize = 0;
        assert(ids@.skip(0) =~= ids@);
        while k < ids.len()
            invariant
                k <= ids.len(),
                self@.name == old(self)@.name,
                old(self)@.ids_distinct() ==> self@.ids_distinct(),
                remove_each(self@.list, ids@.skip(k as int)) == remove_each(
                    old(self)@.list,
                    ids@,
                ),
            decreases ids.len() - k,
        {
            assert(ids@.skip(k as int).drop_first() =~= ids@.skip(k + 1));
            let _ = self.remove_id(ids[k]);
            k += 1;
        }
        proof {
            lemma_cleaned_distinct(old(self)@);
        }
    }

    /// Puts a todo behind as many todos as have a smaller id than it; the todos that were
    /// there keep their order.
    pub fn insert_todo(&mut self, todo: Todo)
        ensures
            final(self)@ == old(self)@.inserted(todo@),
            old(self)@.ids_distinct() && old(self)@.position(todo.id) is None
                ==> final(self)@.ids_distinct(),
    {
        let mut at: usize = 0;
        let mut i: usize = 0;
        proof {
            lemma_filter_nothing(self@.list.take(0), below_id(todo.id));
        }
        while i < self.list.len()
            invariant
                i <= self.list.len(),
                at <= i,
                at == self@.list.take(i as int).filter(below_id(todo.id)).len(),
            decreases self.list.len() - i,
        {
            proof {
                lemma_filter_next(self@.list, below_id(todo.id), i as int);
            }
            if todo.id > self.list[i].id {
                at += 1;
            }
            i += 1;
        }
        assert(self@.list.take(i as int) =~= self@.list);
        self.list.insert(at, todo);
        assert(self@.list =~= old(self)@.list.insert(at as int, todo@));
        proof {
            lemma_insert_keeps_distinct(old(self)@, at as int, todo@);
        }
    }
}

impl Clone for TodoList {
    fn clone(&self) -> (r: TodoList)
        ensures
            r@ == self@,
    {
        let mut list: Vec<Todo> = Vec::new();
        let mut i: usize = 0;
        while i < self.list.len()
            invariant
                i <= self.list.len(),
                list@.len() == i,
                forall|j: int| 0 <= j < i ==> (#[trigger] list@[j])@ == self.list@[j]@,
            decreases self.list.len() - i,
        {
            let entry = self.list[i].clone();
            list.push(entry);
            i += 1;
        }
        let r = TodoList { name: self.name.clone(), list };
        assert(r@.list =~= self@.list);
        r
    }
}

impl Default for TodoList {
    /// The empty list named "default", with which every container starts.
    fn default() -> (r: TodoList)
        ensures
            r@ == (ListModel { name: "default"@, list: Seq::empty() }),
    {
        TodoList::new("default")
    }
}

/// A list whose ids are distinct keeps that when a todo leaves it.
proof fn lemma_remove_keeps_distinct(l: ListModel, i: int)
    requires
        0 <= i < l.list.len(),
    ensures
        l.ids_distinct() ==> (ListModel { list: l.list.remove(i), ..l }).ids_distinct(),
{
    if l.ids_distinct() {
        let after = l.list.remove(i);
        assert forall|a: int, b: int| 0 <= a < b < after.len() implies (#[trigger] after[a]).id
            != (#[trigger] after[b]).id by {
            let oa = if a < i {
                a
            } else {
                a + 1
            };
            let ob = if b < i {
                b
            } else {
                b + 1
            };
            assert(after[a] == l.list[oa]);
            assert(after[b] == l.list[ob]);
        }
    }
}

/// A list whose ids are distinct keeps that when a todo with an id that is new to it is
/// put in at any place.
proof fn lemma_insert_keeps_distinct(l: ListModel, at: int, item: TodoModel)
    requires
        0 <= at <= l.list.len(),
    ensures
        l.ids_distinct() && l.position(item.id) is None ==> (ListModel {
            list: l.list.insert(at, item),
            ..l
        }).ids_distinct(),
{
    if l.ids_distinct() && l.position(item.id) is None {
        lemma_first_index(l.list, with_id(item.id));
        let after = l.list.insert(at, item);
        assert forall|a: int, b: int| 0 <= a < b < after.len() implies (#[trigger] after[a]).id
            != (#[trigger] after[b]).id by {
            let oa = if a < at {
                a
            } else {
                a - 1
            };
            let ob = if b < at {
                b
            } else {
                b - 1
            };
            if a != at {
                assert(after[a] == l.list[oa]);
                assert(!with_id(item.id)(l.list[oa]));
            }
            if b != at {
                assert(after[b] == l.list[ob]);
                assert(!with_id(item.id)(l.list[ob]));
            }
        }
    }
}

/// Where no two todos share an id, cleaning keeps exactly the undone todos.
pub proof fn lemma_cleaned_distinct(l: ListModel)
    ensures
        l.ids_distinct() ==> l.cleaned().list == l.undone(),
{
    if l.ids_distinct() {
        lemma_clean_from(l.list, 0);
        lemma_filter_nothing(l.list.take(0), is_undone());
        assert(l.list.take(0).filter(is_undone()) + l.list.skip(0) =~= l.list);
    }
}

/// With the undone todos among the first `k` kept and the rest still to visit, removing
/// the done ones of the rest by id leaves the undone todos of the whole.
proof fn lemma_clean_from(s: Seq<TodoModel>, k: int)
    requires
        0 <= k <= s.len(),
        (ListModel { name: Seq::empty(), list: s }).ids_distinct(),
    ensures
        remove_each(s.take(k).filter(is_undone()) + s.skip(k), done_ids(s.skip(k))) == s.filter(
            is_undone(),
        ),
    decreases s.len() - k,
{
    let kept = s.take(k).filter(is_undone());
    let cur = kept + s.skip(k);
    if k == s.len() {
        lemma_filter_nothing(s.skip(k), is_done());
        assert(done_ids(s.skip(k)) =~= Seq::<u32>::empty());
        assert(s.take(k) =~= s);
        assert(cur =~= s.filter(is_undone()));
    } else {
        let x = s[k];
        let rest = s.skip(k + 1);
        assert(s.skip(k) =~= seq![x] + rest);
        rest.lemma_filter_prepend(x, is_done());
        lemma_filter_next(s, is_undone(), k);
        lemma_clean_from(s, k + 1);
        let next = s.take(k + 1).filter(is_undone()) + rest;
        if x.done {
            assert(done_ids(s.skip(k))[0] == x.id);
            assert(done_ids(s.skip(k)).drop_first() =~= done_ids(rest));
            assert forall|j: int| 0 <= j < kept.len() implies !with_id(x.id)(
                #[trigger] cur[j],
            ) by {
                s.take(k).lemma_filter_contains_rev(is_undone(), kept[j]);
                assert(kept.contains(kept[j]));
                let m = choose|m: int| 0 <= m < s.take(k).len() && s.take(k)[m] == kept[j];
                assert(s[m].id != s[k].id);
            }
            assert(is_first(cur, with_id(x.id), kept.len() as int));
            lemma_first_index_found(cur, with_id(x.id), kept.len() as int);
            assert(cur.remove(kept.len() as int) =~= next);
        } else {
            assert(done_ids(s.skip(k)) =~= done_ids(rest));
            assert(cur =~= next);
        }
    }
}

/// Marking a todo done does not move it: a lookup of its id gives the same answer as before.
pub proof fn lemma_done_keeps_position(l: ListModel, id: u32)
    ensures
        l.marked_done(id).position(id) == l.position(id),
        l.marked_done(id).list.len() == l.list.len(),
{
    lemma_first_index(l.list, with_id(id));
    match l.position(id) {
        Some(i) => {
            let after = l.marked_done(id).list;
            assert forall|j: int| 0 <= j < i implies !with_id(id)(#[trigger] after[j]) by {
                assert(!with_id(id)(l.list[j]));
            }
            assert(is_first(after, with_id(id), i));
            lemma_first_index_found(after, with_id(id), i);
        },
        None => {},
    }
}

/// In a list whose ids are distinct, a todo that was removed is no longer found by its id.
pub proof fn lemma_removed_is_gone(l: ListModel, id: u32)
    requires
        l.ids_distinct(),
    ensures
        l.without(id).position(id) is None,
{
    lemma_first_index(l.list, with_id(id));
    match l.position(id) {
        Some(i) => {
            let after = l.without(id).list;
            assert forall|j: int| 0 <= j < after.len() implies !with_id(id)(
                #[trigger] after[j],
            ) by {
                if j < i {
                    assert(after[j] == l.list[j]);
                } else {
                    assert(after[j] == l.list[j + 1]);
                }
            }
            lemma_first_index_none(after, with_id(id));
        },
        None => {},
    }
}

/// In a list whose ids are distinct, cleaning a second time changes nothing.
pub proof fn lemma_clean_idempotent(l: ListModel)
    requires
        l.ids_distinct(),
    ensures
        l.cleaned().cleaned() == l.cleaned(),
{
    lemma_cleaned_distinct(l);
    let once = l.cleaned().list;
    assert forall|j: int| 0 <= j < once.len() implies !is_done()(#[trigger] once[j]) by {
        l.list.lemma_filter_pred(is_undone(), j);
    }
    once.lemma_all_neg_filter_empty(is_done());
    assert(done_ids(once) =~= Seq::<u32>::empty());
}

} // verus!
