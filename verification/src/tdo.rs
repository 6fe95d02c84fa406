//! The container that owns every todo list.
use crate::error::github_error;
use crate::error::todo_error;
use crate::error::ErrorKind;
use crate::error::TdoResult;
use crate::list::first_index;
use crate::list::is_first;
use crate::list::lemma_first_index;
use crate::list::lemma_first_index_found;
use crate::list::lemma_first_index_none;
use crate::list::ListModel;
use crate::list::TodoList;
use crate::text::names_match;
use crate::text::same_name;
use crate::text::text_eq;
use crate::todo::Todo;
use crate::todo::TodoModel;
use vstd::prelude::*;

verus! {

/// The lists whose name is `name` but for case.
pub open spec fn named(name: Seq<char>) -> spec_fn(ListModel) -> bool {
    |l: ListModel| same_name(l.name, name)
}

/// The lists that hold a todo with the given id.
pub open spec fn holds_id(id: u32) -> spec_fn(ListModel) -> bool {
    |l: ListModel| l.position(id) is Some
}

/// The views of a sequence of lists, in order.
pub open spec fn list_views(v: Seq<TodoList>) -> Seq<ListModel> {
    Seq::new(v.len(), |i: int| v[i]@)
}

/// The name of the list that every container starts with.
pub open spec fn default_name() -> Seq<char> {
    "default"@
}

/// The version tag that this crate writes into a container.
pub open spec fn current_version() -> Seq<char> {
    "0.2.0"@
}

/// The version tag that this crate writes into a container, as a `String`.
pub fn version_tag() -> (r: String)
    ensures
        r@ == current_version(),
{
    "0.2.0".to_owned()
}

/// The name that an optional list name stands for: itself, or the default list's.
pub open spec fn name_or_default(name: Option<&str>) -> Seq<char> {
    match name {
        Some(n) => n@,
        None => default_name(),
    }
}

/// The view of an optional token.
pub open spec fn token_view(t: Option<String>) -> Option<Seq<char>> {
    match t {
        Some(x) => Some(x@),
        None => None,
    }
}

/// What a [`Tdo`] holds, as mathematical values.
pub struct TdoModel {
    pub lists: Seq<ListModel>,
    pub access_token: Option<Seq<char>>,
    pub version: Seq<char>,
}

impl TdoModel {
    /// Position of the first list with that name, compared without case.
    pub open spec fn list_index(self, name: Seq<char>) -> Option<int> {
        first_index(self.lists, named(name))
    }

    /// Position of the first list that holds a todo with that id.
    pub open spec fn find(self, id: u32) -> Option<int> {
        first_index(self.lists, holds_id(id))
    }

    /// The container with the list at position `i` replaced.
    pub open spec fn with_list(self, i: int, l: ListModel) -> TdoModel {
        TdoModel { lists: self.lists.update(i, l), ..self }
    }

    /// Exactly one list is named "default", case left aside.
    pub open spec fn has_one_default(self) -> bool {
        exists|i: int|
            0 <= i < self.lists.len() && same_name(
                (#[trigger] self.lists[i]).name,
                default_name(),
            ) && forall|j: int|
                0 <= j < self.lists.len() && same_name(
                    (#[trigger] self.lists[j]).name,
                    default_name(),
                ) ==> j == i
    }

    /// No two lists have the same name, case left aside.
    pub open spec fn names_distinct(self) -> bool {
        forall|i: int, j: int|
            0 <= i < j < self.lists.len() ==> !same_name(
                (#[trigger] self.lists[i]).name,
                (#[trigger] self.lists[j]).name,
            )
    }

    /// The structural rule of a container: one default list, and no name twice.
    pub open spec fn well_formed(self) -> bool {
        self.has_one_default() && self.names_distinct()
    }

    /// Some todo of some list has the id `id`.
    pub open spec fn has_id(self, id: u32) -> bool {
        exists|l: int, i: int|
            0 <= l < self.lists.len() && 0 <= i < self.lists[l].list.len()
                && #[trigger] self.lists[l].list[i].id == id
    }

    /// No todo of any list has an id above `bound`.
    pub open spec fn ids_up_to(self, bound: u32) -> bool {
        forall|l: int, i: int|
            0 <= l < self.lists.len() && 0 <= i < self.lists[l].list.len()
                ==> #[trigger] self.lists[l].list[i].id <= bound
    }

    /// The first todo with `id` in the first list that holds one.
    pub open spec fn item(self, id: u32) -> TodoModel
        recommends
            self.find(id) is Some,
    {
        let l = self.lists[self.find(id).unwrap()];
        l.list[l.position(id).unwrap()]
    }

    /// The container after the todo with `id` has left the list that held it and has been
    /// inserted into the list named `target`.
    pub open spec fn moved(self, id: u32, target: Seq<char>) -> TdoModel
        recommends
            self.find(id) is Some,
            self.list_index(target) is Some,
    {
        let s = self.find(id).unwrap();
        let t = self.list_index(target).unwrap();
        let taken = self.with_list(s, self.lists[s].without(id));
        taken.with_list(t, taken.lists[t].inserted(self.item(id)))
    }

    /// The container with every list cleaned.
    pub open spec fn cleaned(self) -> TdoModel {
        TdoModel {
            lists: Seq::new(self.lists.len(), |i: int| self.lists[i].cleaned()),
            ..self
        }
    }
}

/// Container of all todo lists, with the github token and the version tag that are stored
/// along with them.
#[derive(Debug)]
pub struct Tdo {
    /// The todo lists, in the order in which they were added.
    pub lists: Vec<TodoList>,
    /// The github API token, if one was set.
    pub access_token: Option<String>,
    /// The version of the crate that wrote the container.
    pub version: String,
}

impl View for Tdo {
    type V = TdoModel;

    open spec fn view(&self) -> TdoModel {
        TdoModel {
            lists: list_views(self.lists@),
            access_token: token_view(self.access_token),
            version: self.version@,
        }
    }
}

impl Tdo {
    /// Creates a container that holds one empty list, named "default".
    pub fn new() -> (r: Tdo)
        ensures
            r@ == (TdoModel {
                lists: seq![ListModel { name: default_name(), list: Seq::empty() }],
                access_token: None,
                version: current_version(),
            }),
            r@.well_formed(),
    {
        let mut lists: Vec<TodoList> = Vec::new();
        lists.push(TodoList::default());
        let r = Tdo { lists, access_token: None, version: version_tag() };
        proof {
            assert(r@.lists =~= seq![ListModel { name: default_name(), list: Seq::empty() }]);
            assert(same_name(r@.lists[0].name, default_name()));
        }
        r
    }

    /// Position of the first list with that name, compared without case.
    pub fn get_list_index(&self, name: &str) -> (r: TdoResult<usize>)
        ensures
            match r {
                Ok(i) => self@.list_index(name@) == Some(i as int) && is_first(
                    self@.lists,
                    named(name@),
                    i as int,
                ),
                Err(e) => e == ErrorKind::TodoError(todo_error::ErrorKind::NoSuchList)
                    && self@.list_index(name@) is None && forall|j: int|
                    0 <= j < self@.lists.len() ==> !same_name(
                        (#[trigger] self@.lists[j]).name,
                        name@,
                    ),
            },
    {
        let mut i: usize = 0;
        while i < self.lists.len()
            invariant
                i <= self.lists.len(),
                forall|j: int| 0 <= j < i ==> !named(name@)(#[trigger] self@.lists[j]),
            decreases self.lists.len() - i,
        {
            if names_match(self.lists[i].name.as_str(), name) {
                proof {
                    assert(is_first(self@.lists, named(name@), i as int));
                    lemma_first_index_found(self@.lists, named(name@), i as int);
                }
                return Ok(i);
            }
            i += 1;
        }
        proof {
            lemma_first_index_none(self@.lists, named(name@));
        }
        Err(ErrorKind::TodoError(todo_error::ErrorKind::NoSuchList))
    }

    /// Adds a list at the end, unless a list of that name, case left aside, is there already.
    pub fn add_list(&mut self, list: TodoList) -> (r: TdoResult<()>)
        ensures
            r is Ok <==> old(self)@.list_index(list@.name) is None,
            r is Ok ==> final(self)@ == (TdoModel {
                lists: old(self)@.lists.push(list@),
                ..old(self)@
            }),
            r is Err ==> r == Err::<(), ErrorKind>(
                ErrorKind::TodoError(todo_error::ErrorKind::NameAlreadyExists),
            ) && final(self)@ == old(self)@,
            final(self)@.list_index(list@.name) is Some,
            old(self)@.well_formed() ==> final(self)@.well_formed(),
    {
        match self.get_list_index(list.name.as_str()) {
            Ok(_) => Err(ErrorKind::TodoError(todo_error::ErrorKind::NameAlreadyExists)),
            Err(_) => {
                proof {
                    lemma_add_list_well_formed(self@, list@);
                    lemma_added_list_is_found(self@, list@);
                }
                self.lists.push(list);
                assert(self@.lists =~= old(self)@.lists.push(list@));
                Ok(())
            },
        }
    }

    /// Removes the first list with that name, compared without case. The literal name
    /// "default" is refused before any list is looked up.
    pub fn remove_list(&mut self, list_name: &str) -> (r: TdoResult<()>)
        ensures
            list_name@ == default_name() ==> r == Err::<(), ErrorKind>(
                ErrorKind::TodoError(todo_error::ErrorKind::CanNotRemoveDefault),
            ),
            list_name@ != default_name() && old(self)@.list_index(list_name@) is None ==> r
                == Err::<(), ErrorKind>(ErrorKind::TodoError(todo_error::ErrorKind::NoSuchList)),
            list_name@ != default_name() && old(self)@.list_index(list_name@) is Some ==> r
                is Ok,
            r is Ok ==> final(self)@ == (TdoModel {
                lists: old(self)@.lists.remove(old(self)@.list_index(list_name@).unwrap()),
                ..old(self)@
            }),
            r is Err ==> final(self)@ == old(self)@,
            old(self)@.well_formed() && (list_name@ == default_name() || !same_name(
                list_name@,
                default_name(),
            )) ==> final(self)@.well_formed(),
    {
        if text_eq(list_name, "default") {
            Err(ErrorKind::TodoError(todo_error::ErrorKind::CanNotRemoveDefault))
        } else {
            match self.get_list_index(list_name) {
                Ok(index) => {
                    proof {
                        lemma_remove_list_well_formed(self@, list_name@);
                    }
                    self.lists.remove(index);
                    assert(self@.lists =~= old(self)@.lists.remove(index as int));
                    Ok(())
                },
                Err(_) => Err(ErrorKind::TodoError(todo_error::ErrorKind::NoSuchList)),
            }
        }
    }

    /// Appends a todo to the list of that name, or to the default list where no name is
    /// given.
    pub fn add_todo(&mut self, list_name: Option<&str>, todo: Todo) -> (r: TdoResult<()>)
        ensures
            match old(self)@.list_index(name_or_default(list_name)) {
                Some(i) => r is Ok && final(self)@ == old(self)@.with_list(
                    i,
                    old(self)@.lists[i].added(todo@),
                ),
                None => r == Err::<(), ErrorKind>(
                    ErrorKind::TodoError(todo_error::ErrorKind::NoSuchList),
                ) && final(self)@ == old(self)@,
            },
            old(self)@.well_formed() ==> final(self)@.well_formed(),
    {
        let name = match list_name {
            Some(n) => n,
            None => "default",
        };
        match self.get_list_index(name) {
            Ok(index) => {
                proof {
                    lemma_first_index(self@.lists, named(name@));
                }
                self.lists[index].add(todo);
                assert(self@.lists =~= old(self)@.lists.update(
                    index as int,
                    old(self)@.lists[index as int].added(todo@),
                ));
                proof {
                    lemma_well_formed_by_names(old(self)@, self@);
                }
                Ok(())
            },
            Err(x) => Err(x),
        }
    }

    /// Position of the first list that holds a todo with the given id.
    pub fn find_id(&self, id: u32) -> (r: TdoResult<usize>)
        ensures
            match r {
                Ok(i) => self@.find(id) == Some(i as int) && is_first(
                    self@.lists,
                    holds_id(id),
                    i as int,
                ),
                Err(e) => e == ErrorKind::TodoError(todo_error::ErrorKind::NotInList)
                    && self@.find(id) is None && forall|j: int|
                    0 <= j < self@.lists.len() ==> (#[trigger] self@.lists[j]).position(id)
                        is None,
            },
    {
        let mut list: usize = 0;
        while list < self.lists.len()
            invariant
                list <= self.lists.len(),
                forall|j: int| 0 <= j < list ==> !holds_id(id)(#[trigger] self@.lists[j]),
            decreases self.lists.len() - list,
        {
            if self.lists[list].contains_id(id).is_ok() {
                proof {
                    assert(is_first(self@.lists, holds_id(id), list as int));
                    lemma_first_index_found(self@.lists, holds_id(id), list as int);
                }
                return Ok(list);
            }
            list += 1;
        }
        proof {
            lemma_first_index_none(self@.lists, holds_id(id));
        }
        Err(ErrorKind::TodoError(todo_error::ErrorKind::NotInList))
    }

    /// Marks as done the first todo with the given id in the first list that holds one.
    pub fn done_id(&mut self, id: u32) -> (r: TdoResult<()>)
        ensures
            match old(self)@.find(id) {
                Some(l) => r is Ok && final(self)@ == old(self)@.with_list(
                    l,
                    old(self)@.lists[l].marked_done(id),
                ),
                None => r == Err::<(), ErrorKind>(
                    ErrorKind::TodoError(todo_error::ErrorKind::NotInList),
                ) && final(self)@ == old(self)@,
            },
            old(self)@.well_formed() ==> final(self)@.well_formed(),
    {
        let list = match self.find_id(id) {
            Ok(list_id) => list_id,
            Err(e) => return Err(e),
        };
        proof {
            lemma_first_index(self@.lists, holds_id(id));
        }
        let r = self.lists[list].done_id(id);
        assert(self@.lists =~= old(self)@.lists.update(
            list as int,
            old(self)@.lists[list as int].marked_done(id),
        ));
        proof {
            lemma_well_formed_by_names(old(self)@, self@);
        }
        r
    }

    /// Removes the first todo with the given id from the first list that holds one.
    pub fn remove_id(&mut self, id: u32) -> (r: TdoResult<()>)
        ensures
            match old(self)@.find(id) {
                Some(l) => r is Ok && final(self)@ == old(self)@.with_list(
                    l,
                    old(self)@.lists[l].without(id),
                ),
                None => r == Err::<(), ErrorKind>(
                    ErrorKind::TodoError(todo_error::ErrorKind::NotInList),
                ) && final(self)@ == old(self)@,
            },
            old(self)@.well_formed() ==> final(self)@.well_formed(),
    {
        let list = match self.find_id(id) {
            Ok(list_id) => list_id,
            Err(e) => return Err(e),
        };
        proof {
            lemma_first_index(self@.lists, holds_id(id));
        }
        let r = self.lists[list].remove_id(id);
        assert(self@.lists =~= old(self)@.lists.update(
            list as int,
            old(self)@.lists[list as int].without(id),
        ));
        proof {
            lemma_well_formed_by_names(old(self)@, self@);
        }
        match r {
            Err(e) => Err(e),
            _ => Ok(()),
        }
    }

    /// Removes the done todos from every list.
    pub fn clean_lists(&mut self)
        ensures
            final(self)@ == old(self)@.cleaned(),
            old(self)@.well_formed() ==> final(self)@.well_formed(),
    {
        let mut list: usize = 0;
        while list < self.lists.len()
            invariant
                list <= self.lists.len(),
                self@.lists.len() == old(self)@.lists.len(),
                self@.access_token == old(self)@.access_token,
                self@.version == old(self)@.version,
                forall|j: int| 0 <= j < list ==> self@.lists[j] == old(self)@.lists[j].cleaned(),
                forall|j: int|
                    list <= j < self@.lists.len() ==> self@.lists[j] == old(self)@.lists[j],
            decreases self.lists.len() - list,
        {
            let ghost before = self@.lists;
            self.lists[list].clean();
            assert(self@.lists =~= before.update(list as int, before[list as int].cleaned()));
            list += 1;
        }
        assert(self@.lists =~= old(self)@.cleaned().lists);
        proof {
            lemma_well_formed_by_names(old(self)@, self@);
        }
    }

    /// Removes the done todos from the list of that name.
    pub fn clean_list(&mut self, list: &str) -> (r: TdoResult<()>)
        ensures
            match old(self)@.list_index(list@) {
                Some(i) => r is Ok && final(self)@ == old(self)@.with_list(
                    i,
                    old(self)@.lists[i].cleaned(),
                ),
                None => r == Err::<(), ErrorKind>(
                    ErrorKind::TodoError(todo_error::ErrorKind::NoSuchList),
                ) && final(self)@ == old(self)@,
            },
            old(self)@.well_formed() ==> final(self)@.well_formed(),
    {
        let index = match self.get_list_index(list) {
            Ok(index) => index,
            Err(e) => return Err(e),
        };
        proof {
            lemma_first_index(self@.lists, named(list@));
        }
        self.lists[index].clean();
        assert(self@.lists =~= old(self)@.lists.update(
            index as int,
            old(self)@.lists[index as int].cleaned(),
        ));
        proof {
            lemma_well_formed_by_names(old(self)@, self@);
        }
        Ok(())
    }

    /// The highest id of any todo of any list; 0 where there is no todo.
    pub fn get_highest_id(&self) -> (r: u32)
        ensures
            self@.ids_up_to(r),
            r == 0 || self@.has_id(r),
    {
        let mut highest: u32 = 0;
        let mut l: usize = 0;
        while l < self.lists.len()
            invariant
                l <= self.lists.len(),
                highest == 0 || self@.has_id(highest),
                forall|a: int, b: int|
                    0 <= a < l && 0 <= b < self@.lists[a].list.len()
                        ==> #[trigger] self@.lists[a].list[b].id <= highest,
            decreases self.lists.len() - l,
        {
            let mut i: usize = 0;
            while i < self.lists[l].list.len()
                invariant
                    l < self.lists.len(),
                    i <= self.lists[l as int].list.len(),
                    highest == 0 || self@.has_id(highest),
                    forall|a: int, b: int|
                        0 <= a < l && 0 <= b < self@.lists[a].list.len()
                            ==> #[trigger] self@.lists[a].list[b].id <= highest,
                    forall|b: int|
                        0 <= b < i ==> #[trigger] self@.lists[l as int].list[b].id <= highest,
                decreases self.lists[l as int].list.len() - i,
            {
                if highest < self.lists[l].list[i].id {
                    highest = self.lists[l].list[i].id;
                    assert(self@.lists[l as int].list[i as int].id == highest);
                }
                i += 1;
            }
            l += 1;
        }
        highest
    }

    /// Moves the todo with the given id into the list named `target_list`, where it is
    /// inserted by id. A todo that mirrors a github issue stays where it is.
    pub fn move_todo(&mut self, id: u32, target_list: &str) -> (r: TdoResult<()>)
        ensures
            old(self)@.find(id) is None ==> r == Err::<(), ErrorKind>(
                ErrorKind::TodoError(todo_error::ErrorKind::NotInList),
            ),
            old(self)@.find(id) is Some && old(self)@.list_index(target_list@) is None ==> r
                == Err::<(), ErrorKind>(ErrorKind::TodoError(todo_error::ErrorKind::NoSuchList)),
            old(self)@.find(id) is Some && old(self)@.list_index(target_list@) is Some && old(
                self,
            )@.item(id).github is Some ==> r == Err::<(), ErrorKind>(
                ErrorKind::GithubError(github_error::ErrorKind::NotAllowedToMove),
            ),
            old(self)@.find(id) is Some && old(self)@.list_index(target_list@) is Some && old(
                self,
            )@.item(id).github is None ==> r is Ok && final(self)@ == old(self)@.moved(
                id,
                target_list@,
            ),
            old(self)@.find(id) is Some && old(self)@.item(id).github is Some ==> r is Err,
            r is Err ==> final(self)@ == old(self)@,
            old(self)@.well_formed() ==> final(self)@.well_formed(),
    {
        let src_index = self.find_id(id)?;
        let target = self.get_list_index(target_list)?;
        proof {
            lemma_first_index(self@.lists, holds_id(id));
            lemma_first_index(self@.lists, named(target_list@));
            lemma_first_index(self@.lists[src_index as int].list, crate::list::with_id(id));
        }
        let list_index = self.lists[src_index].contains_id(id)?;
        if self.lists[src_index].list[list_index].github.is_some() {
            return Err(ErrorKind::GithubError(github_error::ErrorKind::NotAllowedToMove));
        }
        let todo = self.lists[src_index].pop_id(id)?;
        let ghost taken = self@;
        assert(taken.lists =~= old(self)@.lists.update(
            src_index as int,
            old(self)@.lists[src_index as int].without(id),
        ));
        self.lists[target].insert_todo(todo);
        assert(self@.lists =~= taken.lists.update(
            target as int,
            taken.lists[target as int].inserted(todo@),
        ));
        proof {
            lemma_well_formed_by_names(old(self)@, self@);
        }
        Ok(())
    }

    /// Stores the github access token.
    pub fn set_gh_token(&mut self, token: &str)
        ensures
            final(self)@ == (TdoModel { access_token: Some(token@), ..old(self)@ }),
            old(self)@.well_formed() ==> final(self)@.well_formed(),
    {
        self.access_token = Some(token.to_owned());
        proof {
            lemma_well_formed_by_names(old(self)@, self@);
        }
    }

    /// The stored github access token, if there is one.
    pub fn get_gh_token(&self) -> (r: Option<String>)
        ensures
            token_view(r) == self@.access_token,
    {
        match &self.access_token {
            Some(t) => Some(t.clone()),
            None => None,
        }
    }
}

impl Clone for Tdo {
    fn clone(&self) -> (r: Tdo)
        ensures
            r@ == self@,
    {
        let mut lists: Vec<TodoList> = Vec::new();
        let mut i: usize = 0;
        while i < self.lists.len()
            invariant
                i <= self.lists.len(),
                lists@.len() == i,
                forall|j: int| 0 <= j < i ==> (#[trigger] lists@[j])@ == self.lists@[j]@,
            decreases self.lists.len() - i,
        {
            let list = self.lists[i].clone();
            lists.push(list);
            i += 1;
        }
        let r = Tdo { lists, access_token: self.get_gh_token(), version: self.version.clone() };
        assert(r@.lists =~= self@.lists);
        r
    }
}

/// Whether a container is well-formed depends on the names of its lists alone.
pub proof fn lemma_well_formed_by_names(a: TdoModel, b: TdoModel)
    requires
        a.lists.len() == b.lists.len(),
        forall|i: int| 0 <= i < a.lists.len() ==> (#[trigger] a.lists[i]).name == b.lists[i].name,
    ensures
        a.well_formed() ==> b.well_formed(),
{
    if a.well_formed() {
        let d = choose|i: int|
            0 <= i < a.lists.len() && same_name((#[trigger] a.lists[i]).name, default_name())
                && forall|j: int|
                0 <= j < a.lists.len() && same_name(
                    (#[trigger] a.lists[j]).name,
                    default_name(),
                ) ==> j == i;
        assert(same_name(b.lists[d].name, default_name()));
        assert forall|j: int|
            0 <= j < b.lists.len() && same_name(
                (#[trigger] b.lists[j]).name,
                default_name(),
            ) implies j == d by {
            assert(a.lists[j].name == b.lists[j].name);
        }
        assert forall|i: int, j: int| 0 <= i < j < b.lists.len() implies !same_name(
            (#[trigger] b.lists[i]).name,
            (#[trigger] b.lists[j]).name,
        ) by {
            assert(a.lists[i].name == b.lists[i].name);
            assert(a.lists[j].name == b.lists[j].name);
        }
    }
}

/// Removing a list that is not the default list keeps a well-formed container well-formed.
pub proof fn lemma_remove_list_well_formed(t: TdoModel, name: Seq<char>)
    requires
        t.list_index(name) is Some,
    ensures
        t.well_formed() && !same_name(name, default_name()) ==> (TdoModel {
            lists: t.lists.remove(t.list_index(name).unwrap()),
            ..t
        }).well_formed(),
{
    if t.well_formed() && !same_name(name, default_name()) {
        let k = t.list_index(name).unwrap();
        let after = TdoModel { lists: t.lists.remove(k), ..t };
        lemma_first_index(t.lists, named(name));
        let d = choose|i: int|
            0 <= i < t.lists.len() && same_name((#[trigger] t.lists[i]).name, default_name())
                && forall|j: int|
                0 <= j < t.lists.len() && same_name(
                    (#[trigger] t.lists[j]).name,
                    default_name(),
                ) ==> j == i;
        assert(named(name)(t.lists[k]));
        assert(d != k);
        let e = if d < k {
            d
        } else {
            d - 1
        };
        assert(after.lists[e] == t.lists[d]);
        assert forall|j: int|
            0 <= j < after.lists.len() && same_name(
                (#[trigger] after.lists[j]).name,
                default_name(),
            ) implies j == e by {
            if j < k {
                assert(after.lists[j] == t.lists[j]);
            } else {
                assert(after.lists[j] == t.lists[j + 1]);
            }
        }
        assert forall|i: int, j: int| 0 <= i < j < after.lists.len() implies !same_name(
            (#[trigger] after.lists[i]).name,
            (#[trigger] after.lists[j]).name,
        ) by {
            let oi = if i < k {
                i
            } else {
                i + 1
            };
            let oj = if j < k {
                j
            } else {
                j + 1
            };
            assert(after.lists[i] == t.lists[oi]);
            assert(after.lists[j] == t.lists[oj]);
        }
    }
}

/// A list whose name no list of a well-formed container has can join it: the container
/// stays well-formed.
pub proof fn lemma_add_list_well_formed(t: TdoModel, l: ListModel)
    requires
        t.list_index(l.name) is None,
    ensures
        t.well_formed() ==> (TdoModel { lists: t.lists.push(l), ..t }).well_formed(),
{
    if t.well_formed() {
        let after = TdoModel { lists: t.lists.push(l), ..t };
        lemma_first_index(t.lists, named(l.name));
        let d = choose|i: int|
            0 <= i < t.lists.len() && same_name((#[trigger] t.lists[i]).name, default_name())
                && forall|j: int|
                0 <= j < t.lists.len() && same_name(
                    (#[trigger] t.lists[j]).name,
                    default_name(),
                ) ==> j == i;
        assert(!named(l.name)(t.lists[d]));
        assert(after.lists[d] == t.lists[d]);
        assert forall|j: int|
            0 <= j < after.lists.len() && same_name(
                (#[trigger] after.lists[j]).name,
                default_name(),
            ) implies j == d by {
            if j < t.lists.len() {
                assert(after.lists[j] == t.lists[j]);
            }
        }
        assert forall|i: int, j: int| 0 <= i < j < after.lists.len() implies !same_name(
            (#[trigger] after.lists[i]).name,
            (#[trigger] after.lists[j]).name,
        ) by {
            assert(after.lists[i] == t.lists[i]);
            if j < t.lists.len() {
                assert(after.lists[j] == t.lists[j]);
            } else {
                assert(!named(l.name)(t.lists[i]));
            }
        }
    }
}

/// A lookup by name does not tell two names apart that differ only by case.
pub proof fn lemma_list_index_ignores_case(t: TdoModel, a: Seq<char>, b: Seq<char>)
    requires
        same_name(a, b),
    ensures
        t.list_index(a) == t.list_index(b),
{
    lemma_first_index(t.lists, named(a));
    match t.list_index(a) {
        Some(i) => {
            assert forall|j: int| 0 <= j < i implies !named(b)(#[trigger] t.lists[j]) by {
                assert(!named(a)(t.lists[j]));
            }
            assert(is_first(t.lists, named(b), i));
            lemma_first_index_found(t.lists, named(b), i);
        },
        None => {
            assert forall|j: int| 0 <= j < t.lists.len() implies !named(b)(
                #[trigger] t.lists[j],
            ) by {
                assert(!named(a)(t.lists[j]));
            }
            lemma_first_index_none(t.lists, named(b));
        },
    }
}

/// A list that has joined a container is found by its name.
pub proof fn lemma_added_list_is_found(t: TdoModel, l: ListModel)
    ensures
        (TdoModel { lists: t.lists.push(l), ..t }).list_index(l.name) is Some,
{
    let after = TdoModel { lists: t.lists.push(l), ..t };
    lemma_first_index(after.lists, named(l.name));
    assert(named(l.name)(after.lists[t.lists.len() as int]));
}

/// Of two lists whose names differ only by case the second cannot join a container that the
/// first has joined: a lookup of the second's name finds a list, which is what makes
/// `add_list` refuse it with `NameAlreadyExists` and leave the container as it is.
pub proof fn lemma_second_add_refused(t: TdoModel, first: ListModel, second: ListModel)
    requires
        same_name(first.name, second.name),
    ensures
        (TdoModel { lists: t.lists.push(first), ..t }).list_index(second.name) is Some,
{
    let after = TdoModel { lists: t.lists.push(first), ..t };
    lemma_added_list_is_found(t, first);
    lemma_list_index_ignores_case(after, first.name, second.name);
}

} // verus!
